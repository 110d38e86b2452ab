use chatik::counter::ConnectionCounter;
use chatik::gateway::{
    decrement_connections, increment_connections, Action, ConnectionHub, Event, Frame, Gateway,
    GatewayState,
};
use chatik::registry::Registry;

#[test]
fn counter_returns_to_zero_after_matched_steps() {
    let mut c = ConnectionCounter::new();
    for _ in 0..5 {
        c.increment();
    }
    assert_eq!(c.read(), 5);
    for _ in 0..5 {
        c.decrement();
    }
    assert_eq!(c.read(), 0);
}

#[test]
fn decrement_at_zero_stays_zero() {
    let mut c = ConnectionCounter::new();
    c.decrement();
    c.decrement();
    assert_eq!(c.read(), 0);
    c.increment();
    assert_eq!(c.read(), 1);
}

#[test]
fn register_then_lookup_finds_channel() {
    let mut r: Registry<u32> = Registry::new();
    r.register("a".to_string(), 7);
    assert_eq!(r.lookup(&"a".to_string()), Some(&7));
    assert!(r.contains(&"a".to_string()));
    assert_eq!(r.len(), 1);
}

#[test]
fn register_then_unregister_leaves_nothing() {
    let mut r: Registry<u32> = Registry::new();
    r.register("a".to_string(), 7);
    r.unregister(&"a".to_string());
    assert_eq!(r.lookup(&"a".to_string()), None);
    assert_eq!(r.len(), 0);
}

#[test]
fn later_registration_replaces_earlier() {
    let mut r: Registry<u32> = Registry::new();
    r.register("a".to_string(), 1);
    r.register("b".to_string(), 2);
    r.register("a".to_string(), 3);
    assert_eq!(r.lookup(&"a".to_string()), Some(&3));
    assert_eq!(r.lookup(&"b".to_string()), Some(&2));
    assert_eq!(r.len(), 2);
}

#[test]
fn unregister_of_absent_id_is_noop() {
    let mut r: Registry<u32> = Registry::new();
    r.register("a".to_string(), 1);
    r.unregister(&"zz".to_string());
    assert_eq!(r.len(), 1);
    assert_eq!(r.lookup(&"a".to_string()), Some(&1));
}

#[test]
fn single_client_open_echo_close() {
    let mut hub: ConnectionHub<u32> = ConnectionHub::new();
    let a = "A".to_string();
    let mut g = Gateway::new(a.clone());
    assert_eq!(g.state(), GatewayState::Upgrading);
    g.open(&mut hub, 1);
    assert_eq!(g.state(), GatewayState::Open);
    assert_eq!(hub.counter.read(), 1);
    assert_eq!(hub.registry.len(), 1);
    let act = g.on_event(Event::Received(Frame::Text("hello".to_string())));
    assert_eq!(act, Action::Send(Frame::Text("hello".to_string())));
    assert_eq!(g.state(), GatewayState::Open);
    let act = g.on_event(Event::Received(Frame::Close));
    assert_eq!(act, Action::CloseHandshake);
    assert_eq!(g.state(), GatewayState::Closing);
    g.close(&mut hub);
    assert_eq!(g.state(), GatewayState::Closed);
    assert_eq!(hub.counter.read(), 0);
    assert!(!hub.registry.contains(&a));
}

#[test]
fn binary_is_echoed_and_ping_waits() {
    let mut g = Gateway::new("A".to_string());
    let mut hub: ConnectionHub<u32> = ConnectionHub::new();
    g.open(&mut hub, 1);
    let act = g.on_event(Event::Received(Frame::Binary(vec![1, 2, 3])));
    assert_eq!(act, Action::Send(Frame::Binary(vec![1, 2, 3])));
    assert_eq!(g.on_event(Event::Received(Frame::Ping(vec![9]))), Action::Wait);
    assert_eq!(g.on_event(Event::Received(Frame::Pong(vec![]))), Action::Wait);
    assert_eq!(g.state(), GatewayState::Open);
}

#[test]
fn errors_lead_to_closing() {
    for ev in [Event::ReadError, Event::WriteError, Event::Ended] {
        let mut g = Gateway::new("A".to_string());
        let mut hub: ConnectionHub<u32> = ConnectionHub::new();
        g.open(&mut hub, 1);
        assert_eq!(g.on_event(ev), Action::CloseHandshake);
        assert_eq!(g.state(), GatewayState::Closing);
        g.close(&mut hub);
        assert_eq!(hub.counter.read(), 0);
        assert_eq!(hub.registry.len(), 0);
    }
}

#[test]
fn two_clients_in_either_order() {
    for a_first in [true, false] {
        let mut hub: ConnectionHub<u32> = ConnectionHub::new();
        let mut a = Gateway::new("A".to_string());
        let mut b = Gateway::new("B".to_string());
        if a_first {
            a.open(&mut hub, 1);
            b.open(&mut hub, 2);
        } else {
            b.open(&mut hub, 2);
            a.open(&mut hub, 1);
        }
        assert_eq!(hub.counter.read(), 2);
        assert_eq!(hub.registry.lookup(&"A".to_string()), Some(&1));
        assert_eq!(hub.registry.lookup(&"B".to_string()), Some(&2));
        let ea = a.on_event(Event::Received(Frame::Text("from a".to_string())));
        let eb = b.on_event(Event::Received(Frame::Text("from b".to_string())));
        assert_eq!(ea, Action::Send(Frame::Text("from a".to_string())));
        assert_eq!(eb, Action::Send(Frame::Text("from b".to_string())));
        a.close(&mut hub);
        assert_eq!(hub.counter.read(), 1);
        assert_eq!(hub.registry.lookup(&"A".to_string()), None);
        assert_eq!(hub.registry.lookup(&"B".to_string()), Some(&2));
        b.close(&mut hub);
        assert_eq!(hub.counter.read(), 0);
    }
}

#[test]
fn shared_counter_steps_leave_registry_alone() {
    let mut hub: ConnectionHub<u32> = ConnectionHub::new();
    hub.registry.register("x".to_string(), 4);
    increment_connections(&mut hub);
    increment_connections(&mut hub);
    assert_eq!(hub.counter.read(), 2);
    decrement_connections(&mut hub);
    decrement_connections(&mut hub);
    decrement_connections(&mut hub);
    assert_eq!(hub.counter.read(), 0);
    assert_eq!(hub.registry.lookup(&"x".to_string()), Some(&4));
}

#[test]
fn ids_lists_each_registered_peer_once() {
    let mut r: Registry<u32> = Registry::new();
    r.register("a".to_string(), 1);
    r.register("b".to_string(), 2);
    r.register("a".to_string(), 3);
    let mut ids = r.ids();
    ids.sort();
    assert_eq!(ids, vec!["a".to_string(), "b".to_string()]);
}
