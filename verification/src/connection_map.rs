//! The map from peers to their connections. A peer has at most one connection: a new
//! connection to a peer that already has one is refused.

use vstd::prelude::*;
use crate::peer_id::PeerId;

verus! {

/// The map that the entries describe: each entry maps the key bytes of its peer to its
/// connection, later entries over earlier ones.
pub open spec fn entries_map<C>(s: Seq<(PeerId, C)>) -> Map<Seq<u8>, C>
    decreases s.len(),
{
    if s.len() == 0 {
        Map::empty()
    } else {
        entries_map(s.drop_last()).insert(s.last().0.bytes(), s.last().1)
    }
}

/// No two entries are for the same peer.
pub open spec fn distinct_peers<C>(s: Seq<(PeerId, C)>) -> bool {
    forall|i: int, j: int|
        0 <= i < s.len() && 0 <= j < s.len() && i != j ==> #[trigger] s[i].0.bytes() != #[trigger] s[j].0.bytes()
}

proof fn lemma_entries_map_dom<C>(s: Seq<(PeerId, C)>)
    ensures
        forall|k: Seq<u8>|
            #[trigger] entries_map(s).contains_key(k) <==> exists|i: int|
                0 <= i < s.len() && #[trigger] s[i].0.bytes() == k,
    decreases s.len(),
{
    if s.len() > 0 {
        let t = s.drop_last();
        lemma_entries_map_dom(t);
        assert forall|k: Seq<u8>| #[trigger] entries_map(s).contains_key(k) implies exists|i: int|
            0 <= i < s.len() && #[trigger] s[i].0.bytes() == k by {
            if k == s.last().0.bytes() {
                assert(s[s.len() - 1].0.bytes() == k);
            } else {
                assert(entries_map(t).contains_key(k));
                let i = choose|i: int| 0 <= i < t.len() && #[trigger] t[i].0.bytes() == k;
                assert(t[i] == s[i]);
                assert(s[i].0.bytes() == k);
            }
        }
        assert forall|k: Seq<u8>| (exists|i: int| 0 <= i < s.len() && #[trigger] s[i].0.bytes() == k)
            implies #[trigger] entries_map(s).contains_key(k) by {
            let i = choose|i: int| 0 <= i < s.len() && #[trigger] s[i].0.bytes() == k;
            if i < s.len() - 1 {
                assert(t[i] == s[i]);
                assert(t[i].0.bytes() == k);
                assert(entries_map(t).contains_key(k));
            }
        }
    }
}

/// With distinct peers, removing the entry at `i` removes its peer from the map.
proof fn lemma_entries_map_remove<C>(s: Seq<(PeerId, C)>, i: int)
    requires
        distinct_peers(s),
        0 <= i < s.len(),
    ensures
        entries_map(s.remove(i)) == entries_map(s).remove(s[i].0.bytes()),
        entries_map(s)[s[i].0.bytes()] == s[i].1,
        distinct_peers(s.remove(i)),
    decreases s.len(),
{
    let k = s[i].0.bytes();
    if i == s.len() - 1 {
        assert(s.remove(i) =~= s.drop_last());
        lemma_entries_map_dom(s.drop_last());
        assert(!entries_map(s.drop_last()).contains_key(k)) by {
            if entries_map(s.drop_last()).contains_key(k) {
                let j = choose|j: int| 0 <= j < s.drop_last().len() && s.drop_last()[j].0.bytes() == k;
                assert(s[j].0.bytes() == k);
            }
        }
        assert(entries_map(s.drop_last()) =~= entries_map(s).remove(k));
    } else {
        let t = s.drop_last();
        assert(distinct_peers(t)) by {
            assert forall|a: int, b: int| 0 <= a < t.len() && 0 <= b < t.len() && a != b implies #[trigger] t[a].0.bytes() != #[trigger] t[b].0.bytes() by {
                assert(t[a] == s[a] && t[b] == s[b]);
            }
        }
        lemma_entries_map_remove(t, i);
        assert(s.remove(i).drop_last() =~= t.remove(i));
        assert(s.remove(i).last() == s.last());
        assert(s.last().0.bytes() != k);
        assert(entries_map(s.remove(i)) =~= entries_map(s).remove(k));
    }
    assert(distinct_peers(s.remove(i))) by {
        let r = s.remove(i);
        assert forall|a: int, b: int| 0 <= a < r.len() && 0 <= b < r.len() && a != b implies #[trigger] r[a].0.bytes() != #[trigger] r[b].0.bytes() by {
            let a2 = if a < i { a } else { a + 1 };
            let b2 = if b < i { b } else { b + 1 };
            assert(r[a] == s[a2] && r[b] == s[b2]);
        }
    }
}

/// The connections of a node, one per peer.
pub struct ConnectionMap<C> {
    entries: Vec<(PeerId, C)>,
}

impl<C> View for ConnectionMap<C> {
    type V = Map<Seq<u8>, C>;

    /// The connection of each peer, by the peer's key bytes.
    closed spec fn view(&self) -> Map<Seq<u8>, C> {
        entries_map(self.entries@)
    }
}

impl<C> ConnectionMap<C> {
    /// No peer has two entries.
    #[verifier::type_invariant]
    spec fn wf(&self) -> bool {
        distinct_peers(self.entries@)
    }

    /// A map without connections.
    pub fn new() -> (m: ConnectionMap<C>)
        ensures
            m@ == Map::<Seq<u8>, C>::empty(),
    {
        ConnectionMap { entries: Vec::new() }
    }

    /// Where the entry of `id` stands, if it has one.
    fn find(&self, id: &PeerId) -> (r: Option<usize>)
        ensures
            r matches Some(i) ==> i < self.entries@.len() && self.entries@[i as int].0.bytes()
                == id.bytes(),
            r is None ==> forall|i: int|
                0 <= i < self.entries@.len() ==> #[trigger] self.entries@[i].0.bytes() != id.bytes(),
    {
        let mut i: usize = 0;
        while i < self.entries.len()
            invariant
                i <= self.entries@.len(),
                forall|j: int| 0 <= j < i ==> #[trigger] self.entries@[j].0.bytes() != id.bytes(),
            decreases self.entries@.len() - i,
        {
            if self.entries[i].0.same_as(id) {
                return Some(i);
            }
            i = i + 1;
        }
        None
    }

    /// Whether `id` has a connection.
    pub fn contains(&self, id: &PeerId) -> (r: bool)
        ensures
            r == self@.contains_key(id.bytes()),
    {
        proof {
            lemma_entries_map_dom(self.entries@);
        }
        self.find(id).is_some()
    }

    /// Number of peers with a connection.
    pub fn len(&self) -> (n: usize)
        ensures
            n == self@.len(),
    {
        proof {
            use_type_invariant(self);
            lemma_entries_map_len(self.entries@);
        }
        self.entries.len()
    }

    /// Keeps `conn` as the connection of `id` if `id` has none yet; `true` when kept. A
    /// connection to a peer that already has one is dropped, and the map stays
    /// as it was.
    pub fn register(&mut self, id: PeerId, conn: C) -> (added: bool)
        ensures
            added == !old(self)@.contains_key(id.bytes()),
            added ==> final(self)@ == old(self)@.insert(id.bytes(), conn),
            !added ==> final(self)@ == old(self)@,
    {
        proof {
            use_type_invariant(&*self);
            lemma_entries_map_dom(self.entries@);
        }
        match self.find(&id) {
            Some(_) => false,
            None => {
                let ghost before = self.entries@;
                let mut entries: Vec<(PeerId, C)> = Vec::new();
                std::mem::swap(&mut entries, &mut self.entries);
                entries.push((id, conn));
                proof {
                    assert(entries@.drop_last() =~= before);
                    assert(distinct_peers(entries@)) by {
                        let s = entries@;
                        assert forall|a: int, b: int| 0 <= a < s.len() && 0 <= b < s.len() && a != b implies #[trigger] s[a].0.bytes() != #[trigger] s[b].0.bytes() by {
                            if a < before.len() && b < before.len() {
                                assert(s[a] == before[a] && s[b] == before[b]);
                            } else if a < before.len() {
                                assert(s[a] == before[a]);
                            } else {
                                assert(s[b] == before[b]);
                            }
                        }
                    }
                }
                self.entries = entries;
                true
            },
        }
    }

    /// Takes the connection of `id` out of the map, if it has one.
    pub fn remove(&mut self, id: &PeerId) -> (r: Option<C>)
        ensures
            final(self)@ == old(self)@.remove(id.bytes()),
            r matches Some(c) ==> old(self)@.contains_key(id.bytes()) && c == old(self)@[id.bytes()],
            r is None ==> !old(self)@.contains_key(id.bytes()),
    {
        proof {
            use_type_invariant(&*self);
            lemma_entries_map_dom(self.entries@);
        }
        match self.find(id) {
            Some(i) => {
                proof {
                    lemma_entries_map_remove(self.entries@, i as int);
                }
                let mut entries: Vec<(PeerId, C)> = Vec::new();
                std::mem::swap(&mut entries, &mut self.entries);
                let (_, c) = entries.remove(i);
                self.entries = entries;
                Some(c)
            },
            None => {
                proof {
                    assert(self@.remove(id.bytes()) =~= self@);
                }
                None
            },
        }
    }
}

proof fn lemma_entries_map_len<C>(s: Seq<(PeerId, C)>)
    requires
        distinct_peers(s),
    ensures
        entries_map(s).dom().finite(),
        entries_map(s).len() == s.len(),
    decreases s.len(),
{
    if s.len() > 0 {
        let t = s.drop_last();
        assert(distinct_peers(t)) by {
            assert forall|a: int, b: int| 0 <= a < t.len() && 0 <= b < t.len() && a != b implies #[trigger] t[a].0.bytes() != #[trigger] t[b].0.bytes() by {
                assert(t[a] == s[a] && t[b] == s[b]);
            }
        }
        lemma_entries_map_len(t);
        lemma_entries_map_dom(t);
        assert(!entries_map(t).contains_key(s.last().0.bytes())) by {
            if entries_map(t).contains_key(s.last().0.bytes()) {
                let j = choose|j: int| 0 <= j < t.len() && t[j].0.bytes() == s.last().0.bytes();
                assert(s[j].0.bytes() == s[s.len() - 1].0.bytes());
            }
        }
    }
}

} // verus!
