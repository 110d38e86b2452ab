//! The registry of live peers: each peer identifier maps to the channel on
//! which frames reach that peer.
use vstd::prelude::*;

verus! {

/// Peer identifiers and their outbound channels. A later registration under
/// an identifier replaces the earlier one.
pub struct Registry<C> {
    entries: Vec<(String, C)>,
    peers: Ghost<Map<Seq<char>, C>>,
}

impl<C> View for Registry<C> {
    type V = Map<Seq<char>, C>;

    closed spec fn view(&self) -> Map<Seq<char>, C> {
        self.peers@
    }
}

impl<C> Registry<C> {
    /// Each identifier appears once in the entries, and the entries are the map.
    pub closed spec fn wf(&self) -> bool {
        &&& forall|i: int, j: int|
            0 <= i < j < self.entries@.len() ==> #[trigger] self.entries@[i].0@
                != #[trigger] self.entries@[j].0@
        &&& forall|i: int|
            0 <= i < self.entries@.len() ==> self.peers@.contains_key(
                (#[trigger] self.entries@[i]).0@,
            ) && self.peers@[self.entries@[i].0@] == self.entries@[i].1
        &&& forall|k: Seq<char>|
            #[trigger] self.peers@.contains_key(k) ==> exists|i: int|
                0 <= i < self.entries@.len() && (#[trigger] self.entries@[i]).0@ == k
        &&& self.peers@.dom().finite()
        &&& self.peers@.dom().len() == self.entries@.len()
    }

    /// An empty registry.
    pub fn new() -> (r: Registry<C>)
        ensures
            r.wf(),
            r@ == Map::<Seq<char>, C>::empty(),
    {
        Registry { entries: Vec::new(), peers: Ghost(Map::empty()) }
    }

    /// Where `id` stands in the entries.
    fn index_of(&self, id: &String) -> (r: Option<usize>)
        requires
            self.wf(),
        ensures
            r matches Some(i) ==> i < self.entries@.len() && self.entries@[i as int].0@ == id@,
            r is None ==> !self@.contains_key(id@),
    {
        let mut i: usize = 0;
        while i < self.entries.len()
            invariant
                i <= self.entries@.len(),
                self.wf(),
                forall|j: int| 0 <= j < i ==> (#[trigger] self.entries@[j]).0@ != id@,
            decreases self.entries@.len() - i,
        {
            if self.entries[i].0 == *id {
                return Some(i);
            }
            i = i + 1;
        }
        None
    }

    /// Drops the entry at `i`, and its identifier from the map.
    fn remove_at(&mut self, i: usize)
        requires
            old(self).wf(),
            i < old(self).entries@.len(),
        ensures
            final(self).wf(),
            final(self)@ == old(self)@.remove(old(self).entries@[i as int].0@),
    {
        let ghost pre = self.entries@;
        let ghost key = pre[i as int].0@;
        let ghost m = self.peers@;
        self.entries.remove(i);
        self.peers = Ghost(m.remove(key));
        proof {
            let post = self.entries@;
            assert forall|a: int| 0 <= a < post.len() implies (#[trigger] post[a]).0@ != key
                && self.peers@.contains_key(post[a].0@) && self.peers@[post[a].0@] == post[a].1 by {
                if a < i {
                    assert(post[a] == pre[a]);
                } else {
                    assert(post[a] == pre[a + 1]);
                }
            }
            assert forall|k: Seq<char>| #[trigger] self.peers@.contains_key(k) implies exists|
                a: int,
            | 0 <= a < post.len() && (#[trigger] post[a]).0@ == k by {
                let b = choose|b: int| 0 <= b < pre.len() && (#[trigger] pre[b]).0@ == k;
                if b < i {
                    assert(post[b] == pre[b]);
                } else {
                    assert(post[b - 1] == pre[b]);
                }
            }
            assert forall|a: int, c: int|
                0 <= a < c < post.len() implies #[trigger] post[a].0@ != #[trigger] post[c].0@ by {
                let a0 = if a < i { a } else { a + 1 };
                let c0 = if c < i { c } else { c + 1 };
                assert(post[a] == pre[a0]);
                assert(post[c] == pre[c0]);
            }
            assert(m.contains_key(key));
        }
    }

    /// Maps `id` to `channel`, replacing any channel registered under it.
    pub fn register(&mut self, id: String, channel: C)
        requires
            old(self).wf(),
        ensures
            final(self).wf(),
            final(self)@ == old(self)@.insert(id@, channel),
    {
        match self.index_of(&id) {
            Some(i) => {
                self.remove_at(i);
            },
            None => {},
        }
        let ghost pre = self.entries@;
        let ghost m = self.peers@;
        let ghost key = id@;
        self.peers = Ghost(m.insert(key, channel));
        self.entries.push((id, channel));
        proof {
            let post = self.entries@;
            assert(!m.contains_key(key));
            assert forall|a: int| 0 <= a < post.len() implies self.peers@.contains_key(
                (#[trigger] post[a]).0@,
            ) && self.peers@[post[a].0@] == post[a].1 by {
                if a < pre.len() {
                    assert(post[a] == pre[a]);
                    assert(pre[a].0@ != key);
                }
            }
            assert forall|k: Seq<char>| #[trigger] self.peers@.contains_key(k) implies exists|
                a: int,
            | 0 <= a < post.len() && (#[trigger] post[a]).0@ == k by {
                if k == key {
                    assert(post[pre.len() as int].0@ == k);
                } else {
                    let b = choose|b: int| 0 <= b < pre.len() && (#[trigger] pre[b]).0@ == k;
                    assert(post[b] == pre[b]);
                }
            }
            assert forall|a: int, c: int|
                0 <= a < c < post.len() implies #[trigger] post[a].0@ != #[trigger] post[c].0@ by {
                assert(post[a] == pre[a]);
                if c < pre.len() {
                    assert(post[c] == pre[c]);
                } else {
                    assert(m.contains_key(pre[a].0@));
                }
            }
        }
    }

    /// Removes the entry of `id`, if there is one.
    pub fn unregister(&mut self, id: &String)
        requires
            old(self).wf(),
        ensures
            final(self).wf(),
            final(self)@ == old(self)@.remove(id@),
    {
        match self.index_of(id) {
            Some(i) => {
                self.remove_at(i);
            },
            None => {
                proof {
                    assert(self.peers@.remove(id@) =~= self.peers@);
                }
            },
        }
    }

    /// The channel registered under `id`, if any.
    pub fn lookup(&self, id: &String) -> (r: Option<&C>)
        requires
            self.wf(),
        ensures
            r is None <==> !self@.contains_key(id@),
            r matches Some(c) ==> *c == self@[id@],
    {
        match self.index_of(id) {
            Some(i) => Some(&self.entries[i].1),
            None => None,
        }
    }

    /// Whether a channel is registered under `id`.
    pub fn contains(&self, id: &String) -> (r: bool)
        requires
            self.wf(),
        ensures
            r == self@.contains_key(id@),
    {
        self.index_of(id).is_some()
    }

    /// The registered identifiers, each once, in no particular order.
    pub fn ids(&self) -> (r: Vec<String>)
        requires
            self.wf(),
        ensures
            r@.len() == self@.len(),
            forall|i: int| 0 <= i < r@.len() ==> self@.contains_key(#[trigger] r@[i]@),
            forall|k: Seq<char>|
                #[trigger] self@.contains_key(k) ==> exists|i: int| 0 <= i < r@.len() && r@[i]@ == k,
    {
        let mut out: Vec<String> = Vec::new();
        let mut i: usize = 0;
        while i < self.entries.len()
            invariant
                i <= self.entries@.len(),
                out@.len() == i,
                self.wf(),
                forall|j: int| 0 <= j < i ==> (#[trigger] out@[j])@ == self.entries@[j].0@,
            decreases self.entries@.len() - i,
        {
            out.push(self.entries[i].0.clone());
            i = i + 1;
        }
        proof {
            assert forall|k: Seq<char>| #[trigger] self@.contains_key(k) implies exists|j: int|
                0 <= j < out@.len() && out@[j]@ == k by {
                let b = choose|b: int|
                    0 <= b < self.entries@.len() && (#[trigger] self.entries@[b]).0@ == k;
                assert(out@[b]@ == k);
            }
            assert forall|j: int| 0 <= j < out@.len() implies self@.contains_key(
                #[trigger] out@[j]@,
            ) by {
                assert(out@[j]@ == self.entries@[j].0@);
            }
        }
        out
    }

    /// How many peers are registered.
    pub fn len(&self) -> (r: usize)
        requires
            self.wf(),
        ensures
            r == self@.len(),
    {
        self.entries.len()
    }
}

/// A registration followed by the removal of the same identifier leaves no
/// channel under it; a registration followed at once by a lookup finds the
/// very channel registered.
pub proof fn lemma_register_unregister_lookup<C>(peers: Map<Seq<char>, C>, id: Seq<char>, channel: C)
    ensures
        !peers.insert(id, channel).remove(id).contains_key(id),
        peers.insert(id, channel).contains_key(id),
        peers.insert(id, channel)[id] == channel,
{
}

} // verus!
