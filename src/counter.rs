//! The count of live connections, which never goes below zero.
use vstd::prelude::*;

verus! {

/// One step that a connection applies to the counter.
#[derive(Debug, Clone, Copy, PartialEq, Eq, Structural)]
pub enum CounterOp {
    Increment,
    Decrement,
}

/// The count after one step: a decrement at zero leaves zero.
pub open spec fn counter_step(n: nat, op: CounterOp) -> nat {
    match op {
        CounterOp::Increment => n + 1,
        CounterOp::Decrement => if n == 0 {
            0
        } else {
            (n - 1) as nat
        },
    }
}

/// The count after the steps, in order, from `n`.
pub open spec fn run_steps(n: nat, ops: Seq<CounterOp>) -> nat
    decreases ops.len(),
{
    if ops.len() == 0 {
        n
    } else {
        counter_step(run_steps(n, ops.drop_last()), ops.last())
    }
}

/// How many of the steps are `op`.
pub open spec fn count_of(ops: Seq<CounterOp>, op: CounterOp) -> nat
    decreases ops.len(),
{
    if ops.len() == 0 {
        0
    } else {
        count_of(ops.drop_last(), op) + if ops.last() == op {
            1nat
        } else {
            0nat
        }
    }
}

/// Every prefix holds at least as many increments as decrements: each
/// connection that closes opened before.
pub open spec fn is_matched(ops: Seq<CounterOp>) -> bool {
    forall|i: int|
        0 <= i <= ops.len() ==> count_of(#[trigger] ops.subrange(0, i), CounterOp::Decrement)
            <= count_of(ops.subrange(0, i), CounterOp::Increment)
}

/// The number of live connections.
pub struct ConnectionCounter {
    count: u64,
}

impl View for ConnectionCounter {
    type V = nat;

    closed spec fn view(&self) -> nat {
        self.count as nat
    }
}

impl ConnectionCounter {
    /// A counter at zero.
    pub fn new() -> (r: ConnectionCounter)
        ensures
            r@ == 0,
    {
        ConnectionCounter { count: 0 }
    }

    /// Counts one more connection.
    pub fn increment(&mut self)
        requires
            old(self)@ < u64::MAX,
        ensures
            final(self)@ == old(self)@ + 1,
            final(self)@ == counter_step(old(self)@, CounterOp::Increment),
    {
        self.count = self.count + 1;
    }

    /// Counts one connection fewer; at zero the counter stays at zero.
    pub fn decrement(&mut self)
        ensures
            old(self)@ == 0 ==> final(self)@ == 0,
            old(self)@ > 0 ==> final(self)@ == old(self)@ - 1,
            final(self)@ == counter_step(old(self)@, CounterOp::Decrement),
    {
        if self.count > 0 {
            self.count = self.count - 1;
        }
    }

    /// The current count.
    pub fn read(&self) -> (r: u64)
        ensures
            r == self@,
    {
        self.count
    }
}

/// From zero, steps in which every decrement follows an increment that it
/// matches leave the count at the number of increments less the number of
/// decrements; so equal numbers of each bring the counter back to zero.
pub proof fn lemma_matched_steps_balance(ops: Seq<CounterOp>)
    requires
        is_matched(ops),
    ensures
        run_steps(0, ops) == count_of(ops, CounterOp::Increment) - count_of(
            ops,
            CounterOp::Decrement,
        ),
        count_of(ops, CounterOp::Increment) == count_of(ops, CounterOp::Decrement) ==> run_steps(
            0,
            ops,
        ) == 0,
    decreases ops.len(),
{
    if ops.len() > 0 {
        let init = ops.drop_last();
        assert forall|i: int| 0 <= i <= init.len() implies count_of(
            #[trigger] init.subrange(0, i),
            CounterOp::Decrement,
        ) <= count_of(init.subrange(0, i), CounterOp::Increment) by {
            assert(init.subrange(0, i) =~= ops.subrange(0, i));
        }
        lemma_matched_steps_balance(init);
        assert(ops.subrange(0, ops.len() as int) =~= ops);
    }
}

/// From any count, increments alone, in whatever order they land, add exactly
/// their number: none is lost.
pub proof fn lemma_increments_add(n: nat, ops: Seq<CounterOp>)
    requires
        forall|i: int| 0 <= i < ops.len() ==> ops[i] == CounterOp::Increment,
    ensures
        run_steps(n, ops) == n + ops.len(),
    decreases ops.len(),
{
    if ops.len() > 0 {
        lemma_increments_add(n, ops.drop_last());
    }
}

} // verus!
