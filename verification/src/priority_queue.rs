//! A byte-bounded message queue with 256 priority levels.
//!
//! Priority 0 is the most important level. Within a level messages leave in the order in
//! which they arrived. When a new message does not fit into the byte budget, queued messages
//! are dropped one at a time, the oldest message of a level first, by its `priority * age`
//! score: the levels are scored once in a map from score to level (a level scored later takes
//! the place of one with the same score), the level with the largest score loses its oldest
//! message and is scored again by its next one. A new message is queued even when it is
//! larger than the whole budget.

use vstd::prelude::*;
use std::collections::BTreeMap;
use std::collections::VecDeque;

verus! {

/// Number of priority levels (a priority is a `u8`).
pub const NUM_PRIORITIES: usize = 256;

/// Byte budget of a queue made by `PriorityQueue::new`.
pub const DEFAULT_CAPACITY: usize = 1048576;

/// A queued message as the contracts see it: the time at which it was queued and its bytes.
pub type QueuedMsg = (u64, Seq<u8>);

/// Number of bytes held by one priority level.
pub open spec fn level_bytes(q: Seq<QueuedMsg>) -> nat
    decreases q.len(),
{
    if q.len() == 0 {
        0
    } else {
        level_bytes(q.drop_last()) + q.last().1.len()
    }
}

/// Number of bytes held by all levels.
pub open spec fn total_bytes(qs: Seq<Seq<QueuedMsg>>) -> nat
    decreases qs.len(),
{
    if qs.len() == 0 {
        0
    } else {
        total_bytes(qs.drop_last()) + level_bytes(qs.last())
    }
}

/// Number of messages held by all levels.
pub open spec fn total_count(qs: Seq<Seq<QueuedMsg>>) -> nat
    decreases qs.len(),
{
    if qs.len() == 0 {
        0
    } else {
        total_count(qs.drop_last()) + qs.last().len()
    }
}

/// How long ago `queued_at` was, seen from `now`; a time in the future counts as no age.
pub open spec fn age(now: u64, queued_at: u64) -> int {
    if now >= queued_at {
        now - queued_at
    } else {
        0
    }
}

/// The drop score of the oldest message of level `p`: the larger, the sooner it is dropped.
pub open spec fn drop_score(p: int, queued_at: u64, now: u64) -> int {
    p * age(now, queued_at)
}

/// The drop score of the oldest message of level `p`.
pub open spec fn front_score(qs: Seq<Seq<QueuedMsg>>, p: int, now: u64) -> int {
    drop_score(p, qs[p][0].0, now)
}

/// The levels that eviction still considers ("live") after level `p` is scored: `p` is,
/// and any other live level whose oldest message has the same score is not any more. Scores
/// are kept in a map from score to level, so a level scored later takes the place of an
/// earlier level with the same score.
pub open spec fn insert_live(qs: Seq<Seq<QueuedMsg>>, live: Seq<bool>, now: u64, p: int) -> Seq<
    bool,
> {
    Seq::new(
        live.len(),
        |u: int|
            if u == p {
                true
            } else {
                live[u] && !(qs[u].len() > 0 && front_score(qs, u, now) == front_score(qs, p, now))
            },
    )
}

/// The live levels once the non-empty levels below `n` were scored, in increasing order.
pub open spec fn initial_live(qs: Seq<Seq<QueuedMsg>>, now: u64, n: int) -> Seq<bool>
    decreases n,
{
    if n <= 0 {
        Seq::new(qs.len(), |u: int| false)
    } else {
        let l = initial_live(qs, now, n - 1);
        if qs[n - 1].len() > 0 {
            insert_live(qs, l, now, n - 1)
        } else {
            l
        }
    }
}

/// Among the live non-empty levels below `n`, the one whose oldest message has the largest
/// drop score (ties go to the larger level). `None` when there is none.
pub open spec fn victim_below(qs: Seq<Seq<QueuedMsg>>, live: Seq<bool>, now: u64, n: int) -> Option<
    int,
>
    decreases n,
{
    if n <= 0 {
        None
    } else {
        let best = victim_below(qs, live, now, n - 1);
        if live[n - 1] && qs[n - 1].len() > 0 && (best is None || front_score(qs, n - 1, now)
            >= front_score(qs, best->0, now)) {
            Some(n - 1)
        } else {
            best
        }
    }
}

/// The level whose oldest message is dropped next.
pub open spec fn victim(qs: Seq<Seq<QueuedMsg>>, live: Seq<bool>, now: u64) -> Option<int> {
    victim_below(qs, live, now, qs.len() as int)
}

/// The levels after the oldest message of level `p` is removed.
pub open spec fn drop_front(qs: Seq<Seq<QueuedMsg>>, p: int) -> Seq<Seq<QueuedMsg>> {
    qs.update(p, qs[p].drop_first())
}

/// The live levels after the oldest message of the victim `v` is dropped: `v` is scored again
/// by its new oldest message, or leaves when it has none.
pub open spec fn live_after_drop(qs: Seq<Seq<QueuedMsg>>, live: Seq<bool>, now: u64, v: int) -> Seq<
    bool,
> {
    let d = drop_front(qs, v);
    if d[v].len() > 0 {
        insert_live(d, live, now, v)
    } else {
        live.update(v, false)
    }
}

/// The levels after dropping victims until `incoming` more bytes fit into `capacity` or no byte
/// is left; `None` when bytes are left to drop but no live level is (the map of scores ran
/// empty).
pub open spec fn evict(
    qs: Seq<Seq<QueuedMsg>>,
    live: Seq<bool>,
    now: u64,
    incoming: nat,
    capacity: nat,
) -> Option<Seq<Seq<QueuedMsg>>>
    decreases total_count(qs),
{
    if total_bytes(qs) > 0 && incoming + total_bytes(qs) > capacity {
        match victim(qs, live, now) {
            Some(v) => if 0 <= v < qs.len() && qs[v].len() > 0 {
                proof {
                    lemma_count_drop_front(qs, v);
                }
                evict(drop_front(qs, v), live_after_drop(qs, live, now, v), now, incoming, capacity)
            } else {
                None
            },
            None => None,
        }
    } else {
        Some(qs)
    }
}

/// The eviction before `incoming` bytes are queued: all non-empty levels are scored, then
/// victims are dropped.
pub open spec fn evict_for(qs: Seq<Seq<QueuedMsg>>, now: u64, incoming: nat, capacity: nat) -> Option<
    Seq<Seq<QueuedMsg>>,
> {
    evict(qs, initial_live(qs, now, qs.len() as int), now, incoming, capacity)
}

/// Whether queuing `incoming` bytes would run out of live levels with bytes still to drop.
pub open spec fn push_stalls(qs: Seq<Seq<QueuedMsg>>, now: u64, incoming: nat, capacity: nat) -> bool {
    evict_for(qs, now, incoming, capacity) is None
}

/// The levels after `data` is queued at `priority` at time `now` under the budget `capacity`:
/// first victims are dropped, then the message joins the back of its level.
pub open spec fn pushed(
    qs: Seq<Seq<QueuedMsg>>,
    now: u64,
    data: Seq<u8>,
    priority: int,
    capacity: nat,
) -> Seq<Seq<QueuedMsg>> {
    let e = evict_for(qs, now, data.len(), capacity)->0;
    e.update(priority, e[priority].push((now, data)))
}

/// The levels with the first `off[p]` messages of each level `p` skipped.
pub open spec fn skip_all(qs: Seq<Seq<QueuedMsg>>, off: Seq<usize>) -> Seq<Seq<QueuedMsg>> {
    Seq::new(qs.len(), |p: int| qs[p].skip(off[p] as int))
}

/// The first non-empty level at or after `i`.
pub open spec fn first_nonempty_from(qs: Seq<Seq<QueuedMsg>>, i: int) -> Option<int>
    decreases qs.len() - i,
{
    if i < 0 || i >= qs.len() {
        None
    } else if qs[i].len() > 0 {
        Some(i)
    } else {
        first_nonempty_from(qs, i + 1)
    }
}

/// The most important non-empty level, which the next message comes from.
pub open spec fn first_nonempty(qs: Seq<Seq<QueuedMsg>>) -> Option<int> {
    first_nonempty_from(qs, 0)
}

/// How a queued message looks to the contracts.
pub open spec fn msg_view(m: (u64, Vec<u8>)) -> QueuedMsg {
    (m.0, m.1@)
}

/// How one level looks to the contracts.
pub open spec fn level_view(q: VecDeque<(u64, Vec<u8>)>) -> Seq<QueuedMsg> {
    q@.map_values(|m: (u64, Vec<u8>)| msg_view(m))
}

// ---------------------------------------------------------------------------------------
// Lemmas on the sums
// ---------------------------------------------------------------------------------------

proof fn lemma_level_bytes_push(q: Seq<QueuedMsg>, m: QueuedMsg)
    ensures
        level_bytes(q.push(m)) == level_bytes(q) + m.1.len(),
{
    assert(q.push(m).drop_last() =~= q);
}

proof fn lemma_level_bytes_drop_first(q: Seq<QueuedMsg>)
    requires
        q.len() > 0,
    ensures
        level_bytes(q) == q[0].1.len() + level_bytes(q.drop_first()),
    decreases q.len(),
{
    if q.len() == 1 {
        assert(q.drop_last() =~= Seq::<QueuedMsg>::empty());
        assert(q.drop_first() =~= Seq::<QueuedMsg>::empty());
    } else {
        lemma_level_bytes_drop_first(q.drop_last());
        assert(q.drop_last().drop_first() =~= q.drop_first().drop_last());
    }
}

proof fn lemma_total_bytes_update(qs: Seq<Seq<QueuedMsg>>, p: int, q: Seq<QueuedMsg>)
    requires
        0 <= p < qs.len(),
    ensures
        total_bytes(qs.update(p, q)) + level_bytes(qs[p]) == total_bytes(qs) + level_bytes(q),
    decreases qs.len(),
{
    if p == qs.len() - 1 {
        assert(qs.update(p, q).drop_last() =~= qs.drop_last());
    } else {
        lemma_total_bytes_update(qs.drop_last(), p, q);
        assert(qs.update(p, q).drop_last() =~= qs.drop_last().update(p, q));
    }
}

proof fn lemma_total_count_update(qs: Seq<Seq<QueuedMsg>>, p: int, q: Seq<QueuedMsg>)
    requires
        0 <= p < qs.len(),
    ensures
        total_count(qs.update(p, q)) + qs[p].len() == total_count(qs) + q.len(),
    decreases qs.len(),
{
    if p == qs.len() - 1 {
        assert(qs.update(p, q).drop_last() =~= qs.drop_last());
    } else {
        lemma_total_count_update(qs.drop_last(), p, q);
        assert(qs.update(p, q).drop_last() =~= qs.drop_last().update(p, q));
    }
}

/// Dropping the oldest message of a non-empty level lowers the message count.
pub proof fn lemma_count_drop_front(qs: Seq<Seq<QueuedMsg>>, p: int)
    requires
        0 <= p < qs.len(),
        qs[p].len() > 0,
    ensures
        total_count(drop_front(qs, p)) < total_count(qs),
{
    lemma_total_count_update(qs, p, qs[p].drop_first());
}

/// What `victim_below` picks is a live non-empty level below `n` with the highest score
/// among those, and it picks one whenever there is one.
proof fn lemma_victim_below(qs: Seq<Seq<QueuedMsg>>, live: Seq<bool>, now: u64, n: int)
    requires
        0 <= n <= qs.len(),
        n <= live.len(),
    ensures
        victim_below(qs, live, now, n) matches Some(v) ==> 0 <= v < n && live[v] && qs[v].len() > 0
            && forall|j: int|
            0 <= j < n && live[j] && #[trigger] qs[j].len() > 0 ==> front_score(qs, j, now)
                <= front_score(qs, v, now),
        victim_below(qs, live, now, n) is None ==> forall|j: int|
            0 <= j < n && live[j] ==> #[trigger] qs[j].len() == 0,
    decreases n,
{
    if n > 0 {
        lemma_victim_below(qs, live, now, n - 1);
    }
}

proof fn lemma_first_nonempty_from(qs: Seq<Seq<QueuedMsg>>, i: int)
    requires
        0 <= i <= qs.len(),
    ensures
        first_nonempty_from(qs, i) matches Some(p) ==> i <= p < qs.len() && qs[p].len() > 0 && (
        forall|j: int| i <= j < p ==> #[trigger] qs[j].len() == 0),
        first_nonempty_from(qs, i) is None ==> forall|j: int|
            i <= j < qs.len() ==> #[trigger] qs[j].len() == 0,
    decreases qs.len() - i,
{
    if i < qs.len() {
        lemma_first_nonempty_from(qs, i + 1);
    }
}

/// Dropping victims never touches the newest message of a level: every level that comes out
/// of `evict` is a suffix of the level that went in.
pub proof fn lemma_evict_keeps_suffixes(
    qs: Seq<Seq<QueuedMsg>>,
    live: Seq<bool>,
    now: u64,
    incoming: nat,
    capacity: nat,
)
    requires
        evict(qs, live, now, incoming, capacity) is Some,
    ensures
        evict(qs, live, now, incoming, capacity)->0.len() == qs.len(),
        forall|p: int|
            0 <= p < qs.len() ==> {
                let e = #[trigger] evict(qs, live, now, incoming, capacity)->0[p];
                &&& e.len() <= qs[p].len()
                &&& e =~= qs[p].subrange(qs[p].len() - e.len(), qs[p].len() as int)
            },
    decreases total_count(qs),
{
    if total_bytes(qs) > 0 && incoming + total_bytes(qs) > capacity {
        let v = victim(qs, live, now)->0;
        lemma_count_drop_front(qs, v);
        let d = drop_front(qs, v);
        let l2 = live_after_drop(qs, live, now, v);
        lemma_evict_keeps_suffixes(d, l2, now, incoming, capacity);
        assert forall|p: int| 0 <= p < qs.len() implies {
            let e = #[trigger] evict(qs, live, now, incoming, capacity)->0[p];
            &&& e.len() <= qs[p].len()
            &&& e =~= qs[p].subrange(qs[p].len() - e.len(), qs[p].len() as int)
        } by {
            let e = evict(d, l2, now, incoming, capacity)->0[p];
            assert(e =~= d[p].subrange(d[p].len() - e.len(), d[p].len() as int));
            if p == v {
                assert(d[p] =~= qs[p].subrange(1, qs[p].len() as int));
                assert(e =~= qs[p].subrange(qs[p].len() - e.len(), qs[p].len() as int));
            }
        }
    }
}

/// After a successful eviction the incoming bytes fit into the budget, or nothing is left to
/// drop.
pub proof fn lemma_evict_makes_room(
    qs: Seq<Seq<QueuedMsg>>,
    live: Seq<bool>,
    now: u64,
    incoming: nat,
    capacity: nat,
)
    requires
        evict(qs, live, now, incoming, capacity) is Some,
    ensures
        ({
            let e = evict(qs, live, now, incoming, capacity)->0;
            incoming + total_bytes(e) <= capacity || total_bytes(e) == 0
        }),
        total_bytes(evict(qs, live, now, incoming, capacity)->0) <= total_bytes(qs),
    decreases total_count(qs),
{
    if total_bytes(qs) > 0 && incoming + total_bytes(qs) > capacity {
        let v = victim(qs, live, now)->0;
        lemma_count_drop_front(qs, v);
        lemma_total_bytes_update(qs, v, qs[v].drop_first());
        lemma_level_bytes_drop_first(qs[v]);
        lemma_evict_makes_room(drop_front(qs, v), live_after_drop(qs, live, now, v), now, incoming, capacity);
    }
}

/// Skipping one more message of a non-empty level is dropping its oldest message.
proof fn lemma_skip_one_more(qs: Seq<Seq<QueuedMsg>>, off: Seq<usize>, v: int)
    requires
        off.len() == qs.len(),
        0 <= v < qs.len(),
        off[v] < qs[v].len(),
        off[v] + 1 <= usize::MAX,
    ensures
        skip_all(qs, off.update(v, (off[v] + 1) as usize)) =~= drop_front(skip_all(qs, off), v),
{
    let a = skip_all(qs, off.update(v, (off[v] + 1) as usize));
    let b = drop_front(skip_all(qs, off), v);
    assert(a.len() == b.len());
    assert forall|p: int| 0 <= p < qs.len() implies #[trigger] a[p] =~= b[p] by {
        if p == v {
            assert(off.update(v, (off[v] + 1) as usize)[v] == off[v] + 1);
            assert(qs[v].skip(off[v] + 1) =~= qs[v].skip(off[v] as int).drop_first());
        } else {
            assert(off.update(v, (off[v] + 1) as usize)[p] == off[p]);
            assert(a[p] == qs[p].skip(off[p] as int));
            assert(b[p] == skip_all(qs, off)[p]);
        }
    }
    assert(a =~= b);
}

// ---------------------------------------------------------------------------------------
// The queue
// ---------------------------------------------------------------------------------------

/// The shared state behind a priority channel: the FIFO of each priority level that holds
/// messages, keyed by priority, and the number of bytes held, which is kept under `capacity`
/// by dropping old, unimportant messages.
pub struct PriorityQueue {
    queue: BTreeMap<u8, VecDeque<(u64, Vec<u8>)>>,
    buffered: usize,
    capacity: usize,
}

/// Level `p` of the stored map: the messages of priority `p`, none when it has no entry.
spec fn stored_level(m: Map<u8, VecDeque<(u64, Vec<u8>)>>, p: int) -> Seq<QueuedMsg> {
    if m.contains_key(p as u8) {
        level_view(m[p as u8])
    } else {
        Seq::empty()
    }
}

/// All levels of the stored map, by priority.
spec fn view_of(m: Map<u8, VecDeque<(u64, Vec<u8>)>>) -> Seq<Seq<QueuedMsg>> {
    Seq::new(NUM_PRIORITIES as nat, |p: int| stored_level(m, p))
}

/// The byte count `buffered` is that of the messages in `m`, and no level is stored without a
/// message.
spec fn inv_of(m: Map<u8, VecDeque<(u64, Vec<u8>)>>, buffered: usize) -> bool {
    &&& buffered == total_bytes(view_of(m))
    &&& forall|k: u8| #[trigger] m.contains_key(k) ==> m[k]@.len() > 0
}

impl View for PriorityQueue {
    type V = Seq<Seq<QueuedMsg>>;

    /// Level `p` of the view holds the messages of priority `p`, oldest first.
    closed spec fn view(&self) -> Seq<Seq<QueuedMsg>> {
        view_of(self.queue@)
    }
}

impl PriorityQueue {
    /// The byte count is that of the messages, and no level is stored without a message.
    #[verifier::type_invariant]
    spec fn wf(&self) -> bool {
        inv_of(self.queue@, self.buffered)
    }

    /// The byte budget.
    pub closed spec fn spec_capacity(&self) -> nat {
        self.capacity as nat
    }

    /// An empty queue with a budget of `DEFAULT_CAPACITY` bytes.
    pub fn new() -> (q: PriorityQueue)
        ensures
            q@.len() == NUM_PRIORITIES,
            forall|p: int| 0 <= p < NUM_PRIORITIES ==> #[trigger] q@[p].len() == 0,
            q.spec_capacity() == DEFAULT_CAPACITY,
    {
        Self::empty_with(DEFAULT_CAPACITY)
    }

    /// An empty queue with a budget of `capacity` bytes.
    fn empty_with(capacity: usize) -> (q: PriorityQueue)
        ensures
            q@.len() == NUM_PRIORITIES,
            forall|p: int| 0 <= p < NUM_PRIORITIES ==> #[trigger] q@[p].len() == 0,
            q.capacity == capacity,
    {
        let queue: BTreeMap<u8, VecDeque<(u64, Vec<u8>)>> = BTreeMap::new();
        proof {
            let v = view_of(queue@);
            assert forall|p: int| 0 <= p < NUM_PRIORITIES implies #[trigger] v[p].len() == 0 by {
                assert(v[p] == stored_level(queue@, p));
            }
            lemma_total_zero(v);
        }
        PriorityQueue { queue, buffered: 0, capacity }
    }

    /// A queue has one level per priority.
    pub proof fn lemma_wf_has_all_levels(&self)
        ensures
            self@.len() == NUM_PRIORITIES,
    {
    }

    /// Number of bytes held.
    pub fn buffered(&self) -> (n: usize)
        ensures
            n == total_bytes(self@),
    {
        proof {
            use_type_invariant(self);
        }
        self.buffered
    }

    /// The byte budget.
    pub fn capacity(&self) -> (n: usize)
        ensures
            n == self.spec_capacity(),
    {
        self.capacity
    }

    /// Number of messages of priority `p`.
    fn level_len(&self, p: usize) -> (n: usize)
        requires
            p < NUM_PRIORITIES,
        ensures
            n == self@[p as int].len(),
    {
        let key = p as u8;
        proof {
            assert(self@[p as int] == stored_level(self.queue@, p as int));
        }
        match self.queue.get(&key) {
            Some(level) => level.len(),
            None => 0,
        }
    }

    /// The time stamp and the length of the `k`-th oldest message of priority `p`.
    fn message_at(&self, p: usize, k: usize) -> (r: (u64, usize))
        requires
            p < NUM_PRIORITIES,
            k < self@[p as int].len(),
        ensures
            r.0 == self@[p as int][k as int].0,
            r.1 == self@[p as int][k as int].1.len(),
    {
        let key = p as u8;
        proof {
            assert(self@[p as int] == stored_level(self.queue@, p as int));
        }
        match self.queue.get(&key) {
            Some(level) => {
                let m = &level[k];
                (m.0, m.1.len())
            },
            None => (0, 0),
        }
    }

    /// Removes the oldest message of priority `p` and hands back its bytes, which the byte
    /// count releases; the level leaves the map when it runs empty.
    fn take_oldest(&mut self, p: usize) -> (data: Vec<u8>)
        requires
            p < NUM_PRIORITIES,
            old(self)@[p as int].len() > 0,
        ensures
            final(self).wf(),
            final(self).capacity == old(self).capacity,
            final(self)@ == drop_front(old(self)@, p as int),
            data@ == old(self)@[p as int][0].1,
    {
        proof {
            use_type_invariant(&*self);
        }
        let mut whole = Self::empty_with(self.capacity);
        std::mem::swap(&mut whole, self);
        proof {
            use_type_invariant(&whole);
        }
        let PriorityQueue { mut queue, buffered, capacity } = whole;
        let ghost qs = view_of(queue@);
        let ghost m0 = queue@;
        let key = p as u8;
        proof {
            assert(qs[p as int] == stored_level(m0, p as int));
            lemma_level_bytes_drop_first(qs[p as int]);
            lemma_total_bytes_update(qs, p as int, qs[p as int].drop_first());
        }
        let mut level = match queue.remove(&key) {
            Some(level) => level,
            None => VecDeque::new(),
        };
        let front = level.pop_front();
        if level.len() > 0 {
            queue.insert(key, level);
        }
        proof {
            assert(view_of(queue@) =~= drop_front(qs, p as int)) by {
                assert forall|q: int| 0 <= q < NUM_PRIORITIES implies #[trigger] view_of(queue@)[q]
                    == drop_front(qs, p as int)[q] by {
                    assert(view_of(queue@)[q] == stored_level(queue@, q));
                    assert(qs[q] == stored_level(m0, q));
                    if q != p as int {
                        assert(q as u8 != key);
                    } else {
                        assert(level_view(level) =~= qs[p as int].drop_first());
                    }
                }
            }
            assert forall|k: u8| #[trigger] queue@.contains_key(k) implies queue@[k]@.len() > 0 by {
                if k != key {
                    assert(m0.contains_key(k));
                }
            }
        }
        let (data, released) = match front {
            Some(m) => {
                let n = m.1.len();
                (m.1, n)
            },
            None => (Vec::new(), 0),
        };
        *self = PriorityQueue { queue, buffered: buffered - released, capacity };
        data
    }

    /// Puts `m` at the back of priority `p`, adding its bytes to the byte count.
    fn append(&mut self, p: usize, m: (u64, Vec<u8>))
        requires
            p < NUM_PRIORITIES,
            total_bytes(old(self)@) + m.1@.len() <= usize::MAX,
        ensures
            final(self).wf(),
            final(self).capacity == old(self).capacity,
            final(self)@ == old(self)@.update(p as int, old(self)@[p as int].push(msg_view(m))),
    {
        proof {
            use_type_invariant(&*self);
        }
        let mut whole = Self::empty_with(self.capacity);
        std::mem::swap(&mut whole, self);
        proof {
            use_type_invariant(&whole);
        }
        let PriorityQueue { mut queue, buffered, capacity } = whole;
        let ghost qs = view_of(queue@);
        let ghost m0 = queue@;
        let ghost mv = msg_view(m);
        let key = p as u8;
        proof {
            assert(qs[p as int] == stored_level(m0, p as int));
            lemma_level_bytes_push(qs[p as int], mv);
            lemma_total_bytes_update(qs, p as int, qs[p as int].push(mv));
        }
        let mut level = match queue.remove(&key) {
            Some(level) => level,
            None => VecDeque::new(),
        };
        let len = m.1.len();
        level.push_back(m);
        proof {
            assert(level_view(level) =~= qs[p as int].push(mv));
        }
        queue.insert(key, level);
        proof {
            assert(view_of(queue@) =~= qs.update(p as int, qs[p as int].push(mv))) by {
                assert forall|q: int| 0 <= q < NUM_PRIORITIES implies #[trigger] view_of(queue@)[q]
                    == qs.update(p as int, qs[p as int].push(mv))[q] by {
                    assert(view_of(queue@)[q] == stored_level(queue@, q));
                    assert(qs[q] == stored_level(m0, q));
                    if q != p as int {
                        assert(q as u8 != key);
                    }
                }
            }
            assert forall|k: u8| #[trigger] queue@.contains_key(k) implies queue@[k]@.len() > 0 by {
                if k != key {
                    assert(m0.contains_key(k));
                }
            }
        }
        *self = PriorityQueue { queue, buffered: buffered + len, capacity };
    }

    /// The drop score of the oldest message of level `p` once `off[p]` messages are skipped.
    fn score_at(&self, off: &Vec<usize>, p: usize, now: u64) -> (score: u128)
        requires
            self.wf(),
            off@.len() == NUM_PRIORITIES,
            p < NUM_PRIORITIES,
            off@[p as int] < self@[p as int].len(),
        ensures
            score == front_score(skip_all(self@, off@), p as int, now),
    {
        let (queued_at, _) = self.message_at(p, off[p]);
        let a: u64 = if now >= queued_at {
            now - queued_at
        } else {
            0
        };
        let pi = p as u128;
        let ai = a as u128;
        assert(pi * ai <= 255 * 0xffff_ffff_ffff_ffffu128) by (nonlinear_arith)
            requires
                pi <= 255,
                ai <= 0xffff_ffff_ffff_ffffu128,
        ;
        proof {
            let qs = skip_all(self@, off@);
            assert(qs[p as int][0] == self@[p as int][off@[p as int] as int]);
            assert(qs[p as int][0].0 == queued_at);
        }
        pi * ai
    }

    /// Scores level `p`: it becomes live, and another live level with the same score leaves.
    fn mark_live(&self, off: &Vec<usize>, live: &mut Vec<bool>, p: usize, now: u64)
        requires
            self.wf(),
            off@.len() == NUM_PRIORITIES,
            old(live)@.len() == NUM_PRIORITIES,
            p < NUM_PRIORITIES,
            off@[p as int] < self@[p as int].len(),
            forall|q: int| 0 <= q < NUM_PRIORITIES ==> #[trigger] off@[q] <= self@[q].len(),
        ensures
            final(live)@ == insert_live(skip_all(self@, off@), old(live)@, now, p as int),
    {
        let ghost qs = skip_all(self@, off@);
        let ghost target = insert_live(qs, old(live)@, now, p as int);
        let sp = self.score_at(off, p, now);
        let mut u: usize = 0;
        while u < NUM_PRIORITIES
            invariant
                self.wf(),
                qs == skip_all(self@, off@),
                target == insert_live(qs, old(live)@, now, p as int),
                off@.len() == NUM_PRIORITIES,
                live@.len() == NUM_PRIORITIES,
                old(live)@.len() == NUM_PRIORITIES,
                p < NUM_PRIORITIES,
                off@[p as int] < self@[p as int].len(),
                sp == front_score(qs, p as int, now),
                forall|q: int| 0 <= q < NUM_PRIORITIES ==> #[trigger] off@[q] <= self@[q].len(),
                u <= NUM_PRIORITIES,
                forall|k: int| 0 <= k < u && k != p ==> #[trigger] live@[k] == target[k],
                forall|k: int| u <= k < NUM_PRIORITIES || k == p ==> #[trigger] live@[k] == old(live)@[k],
            decreases NUM_PRIORITIES - u,
        {
            let len_u = self.level_len(u);
            proof {
                assert(qs[u as int].len() == self@[u as int].len() - off@[u as int]);
            }
            let ghost before = live@;
            proof {
                assert(before[u as int] == old(live)@[u as int]);
                assert(target[u as int] == (if u as int == p as int {
                    true
                } else {
                    before[u as int] && !(qs[u as int].len() > 0 && front_score(qs, u as int, now)
                        == front_score(qs, p as int, now))
                }));
                assert((qs[u as int].len() > 0) == (off@[u as int] < len_u));
            }
            if u != p && live[u] && off[u] < len_u {
                let su = self.score_at(off, u, now);
                if su == sp {
                    live.set(u, false);
                }
            }
            proof {
                if u != p {
                    assert(live@[u as int] == target[u as int]);
                }
                assert forall|k: int| 0 <= k < u + 1 && k != p implies #[trigger] live@[k]
                    == target[k] by {
                    if k < u {
                        assert(live@[k] == before[k]);
                    }
                }
            }
            u = u + 1;
        }
        live.set(p, true);
        proof {
            assert(live@ =~= target);
        }
    }

    /// The level of the next victim among the live levels, once `off[q]` messages of each level
    /// `q` are skipped.
    fn find_victim(&self, off: &Vec<usize>, live: &Vec<bool>, now: u64) -> (r: Option<usize>)
        requires
            self.wf(),
            off@.len() == NUM_PRIORITIES,
            live@.len() == NUM_PRIORITIES,
            forall|q: int| 0 <= q < NUM_PRIORITIES ==> #[trigger] off@[q] <= self@[q].len(),
        ensures
            r matches Some(v) ==> victim(skip_all(self@, off@), live@, now) == Some(v as int),
            r is None ==> victim(skip_all(self@, off@), live@, now) is None,
    {
        let ghost qs = skip_all(self@, off@);
        let mut best: Option<usize> = None;
        let mut best_score: u128 = 0;
        let mut i: usize = 0;
        while i < NUM_PRIORITIES
            invariant
                self.wf(),
                qs == skip_all(self@, off@),
                off@.len() == NUM_PRIORITIES,
                live@.len() == NUM_PRIORITIES,
                forall|q: int| 0 <= q < NUM_PRIORITIES ==> #[trigger] off@[q] <= self@[q].len(),
                i <= NUM_PRIORITIES,
                victim_below(qs, live@, now, i as int) == (match best {
                    Some(b) => Some(b as int),
                    None => None::<int>,
                }),
                best matches Some(b) ==> b < i && qs[b as int].len() > 0 && best_score
                    == front_score(qs, b as int, now),
            decreases NUM_PRIORITIES - i,
        {
            let len_i = self.level_len(i);
            proof {
                assert(qs[i as int].len() == self@[i as int].len() - off@[i as int]);
            }
            if live[i] && off[i] < len_i {
                let score = self.score_at(off, i, now);
                if best.is_none() || score >= best_score {
                    best = Some(i);
                    best_score = score;
                }
            }
            i = i + 1;
        }
        proof {
            assert(qs.len() == NUM_PRIORITIES);
        }
        best
    }

    /// How many oldest messages of each level the eviction for `incoming` more bytes at time
    /// `now` drops; `None` when it would run out of live levels with bytes still to drop.
    fn eviction_plan(&self, incoming: usize, now: u64) -> (r: Option<Vec<usize>>)
        requires
            self.wf(),
            total_bytes(self@) + incoming <= usize::MAX,
        ensures
            r is None <==> push_stalls(self@, now, incoming as nat, self.spec_capacity()),
            r matches Some(off) ==> {
                &&& off@.len() == NUM_PRIORITIES
                &&& forall|q: int| 0 <= q < NUM_PRIORITIES ==> #[trigger] off@[q] <= self@[q].len()
                &&& skip_all(self@, off@) == evict_for(
                    self@,
                    now,
                    incoming as nat,
                    self.spec_capacity(),
                )->0
            },
    {
        let ghost qs = self@;
        let mut off: Vec<usize> = Vec::new();
        let mut live: Vec<bool> = Vec::new();
        let mut i: usize = 0;
        while i < NUM_PRIORITIES
            invariant
                i <= NUM_PRIORITIES,
                off@.len() == i,
                live@.len() == i,
                forall|q: int| 0 <= q < i ==> #[trigger] off@[q] == 0,
                forall|q: int| 0 <= q < i ==> #[trigger] live@[q] == false,
            decreases NUM_PRIORITIES - i,
        {
            off.push(0);
            live.push(false);
            i = i + 1;
        }
        proof {
            assert(skip_all(qs, off@) =~= qs) by {
                assert forall|q: int| 0 <= q < qs.len() implies #[trigger] skip_all(qs, off@)[q]
                    =~= qs[q] by {
                    assert(qs[q].skip(0) =~= qs[q]);
                }
            }
            assert(live@ =~= initial_live(qs, now, 0));
        }
        let mut p: usize = 0;
        while p < NUM_PRIORITIES
            invariant
                self.wf(),
                qs == self@,
                p <= NUM_PRIORITIES,
                off@.len() == NUM_PRIORITIES,
                live@.len() == NUM_PRIORITIES,
                forall|q: int| 0 <= q < NUM_PRIORITIES ==> #[trigger] off@[q] == 0,
                skip_all(qs, off@) == qs,
                live@ == initial_live(qs, now, p as int),
            decreases NUM_PRIORITIES - p,
        {
            if self.level_len(p) > 0 {
                self.mark_live(&off, &mut live, p, now);
            }
            p = p + 1;
        }
        let mut bytes = self.buffered;
        while bytes > 0 && incoming + bytes > self.capacity
            invariant
                self.wf(),
                qs == self@,
                off@.len() == NUM_PRIORITIES,
                live@.len() == NUM_PRIORITIES,
                forall|q: int| 0 <= q < NUM_PRIORITIES ==> #[trigger] off@[q] <= qs[q].len(),
                bytes == total_bytes(skip_all(qs, off@)),
                bytes <= self.buffered,
                self.buffered + incoming <= usize::MAX,
                evict(skip_all(qs, off@), live@, now, incoming as nat, self.capacity as nat)
                    == evict_for(qs, now, incoming as nat, self.capacity as nat),
            decreases total_count(skip_all(qs, off@)),
        {
            let ghost cur = skip_all(qs, off@);
            proof {
                lemma_victim_below(cur, live@, now, cur.len() as int);
            }
            let v = match self.find_victim(&off, &live, now) {
                Some(v) => v,
                None => {
                    return None;
                },
            };
            proof {
                assert(cur[v as int].len() == qs[v as int].len() - off@[v as int]);
                assert(cur[v as int][0] == qs[v as int][off@[v as int] as int]);
            }
            let (_, dropped_len) = self.message_at(v, off[v]);
            let len_v = self.level_len(v);
            proof {
                lemma_level_bytes_drop_first(cur[v as int]);
                lemma_total_bytes_update(cur, v as int, cur[v as int].drop_first());
                lemma_count_drop_front(cur, v as int);
                lemma_skip_one_more(qs, off@, v as int);
            }
            bytes = bytes - dropped_len;
            let ghost old_off = off@;
            let next = off[v] + 1;
            off.set(v, next);
            proof {
                assert(off@ == old_off.update(v as int, next));
            }
            if next < len_v {
                self.mark_live(&off, &mut live, v, now);
            } else {
                live.set(v, false);
            }
        }
        Some(off)
    }

    /// Whether queuing `incoming` more bytes at time `now` would run out of levels to drop
    /// from while the bytes are still over the budget (see `push_stalls`).
    pub fn push_would_stall(&self, incoming: usize, now: u64) -> (r: bool)
        requires
            total_bytes(self@) + incoming <= usize::MAX,
        ensures
            r == push_stalls(self@, now, incoming as nat, self.spec_capacity()),
    {
        proof {
            use_type_invariant(self);
        }
        self.eviction_plan(incoming, now).is_none()
    }

    /// Queues `data` at `priority`, stamped with the time `now`. If the bytes would go over
    /// the budget, messages are first dropped by the rule of `evict_for`. Returns how many
    /// queued messages were dropped.
    pub fn push(&mut self, data: Vec<u8>, priority: u8, now: u64) -> (dropped: u128)
        requires
            total_bytes(old(self)@) + data@.len() <= usize::MAX,
            !push_stalls(old(self)@, now, data@.len(), old(self).spec_capacity()),
        ensures
            final(self).spec_capacity() == old(self).spec_capacity(),
            final(self)@.len() == NUM_PRIORITIES,
            final(self)@ == pushed(
                old(self)@,
                now,
                data@,
                priority as int,
                old(self).spec_capacity(),
            ),
            final(self)@[priority as int].last() == (now, data@),
            total_bytes(final(self)@) <= old(self).spec_capacity() || total_bytes(final(self)@)
                == data@.len(),
            total_bytes(final(self)@) <= total_bytes(old(self)@) + data@.len(),
            total_count(final(self)@) + dropped == total_count(old(self)@) + 1,
    {
        proof {
            use_type_invariant(&*self);
        }
        let ghost start = self@;
        let len = data.len();
        let mut dropped: u128 = 0;
        if len + self.buffered > self.capacity {
            let off = match self.eviction_plan(len, now) {
                Some(off) => off,
                None => {
                    proof {
                        assert(false);
                    }
                    return 0;
                },
            };
            let mut p: usize = 0;
            while p < NUM_PRIORITIES
                invariant
                    self.wf(),
                    self.capacity == old(self).capacity,
                    start == old(self)@,
                    off@.len() == NUM_PRIORITIES,
                    forall|q: int| 0 <= q < NUM_PRIORITIES ==> #[trigger] off@[q] <= start[q].len(),
                    p <= NUM_PRIORITIES,
                    forall|q: int| 0 <= q < p ==> #[trigger] self@[q] == start[q].skip(off@[q] as int),
                    forall|q: int| p <= q < NUM_PRIORITIES ==> #[trigger] self@[q] == start[q],
                    total_count(self@) + dropped == total_count(start),
                    dropped <= p * 0x1_0000_0000_0000_0000,
                decreases NUM_PRIORITIES - p,
            {
                let mut j: usize = 0;
                while j < off[p]
                    invariant
                        self.wf(),
                        self.capacity == old(self).capacity,
                        start == old(self)@,
                        off@.len() == NUM_PRIORITIES,
                        forall|q: int| 0 <= q < NUM_PRIORITIES ==> #[trigger] off@[q] <= start[q].len(),
                        p < NUM_PRIORITIES,
                        j <= off@[p as int],
                        forall|q: int| 0 <= q < p ==> #[trigger] self@[q] == start[q].skip(off@[q] as int),
                        forall|q: int| p < q < NUM_PRIORITIES ==> #[trigger] self@[q] == start[q],
                        self@[p as int] == start[p as int].skip(j as int),
                        total_count(self@) + dropped == total_count(start),
                        dropped <= p * 0x1_0000_0000_0000_0000 + j,
                    decreases off@[p as int] - j,
                {
                    let ghost before = self@;
                    let _ = self.take_oldest(p);
                    dropped = dropped + 1;
                    proof {
                        lemma_total_count_update(before, p as int, before[p as int].drop_first());
                        assert(start[p as int].skip(j as int).drop_first() =~= start[p as int].skip(
                            j + 1,
                        ));
                        assert forall|q: int| 0 <= q < NUM_PRIORITIES && q != p implies #[trigger] self@[q]
                            == before[q] by {}
                    }
                    j = j + 1;
                }
                p = p + 1;
            }
            proof {
                assert(self@ =~= skip_all(start, off@));
            }
        }
        proof {
            let live = initial_live(start, now, start.len() as int);
            lemma_evict_makes_room(start, live, now, len as nat, self.capacity as nat);
            lemma_evict_keeps_suffixes(start, live, now, len as nat, self.capacity as nat);
            assert(self@ == evict_for(start, now, len as nat, self.capacity as nat)->0);
        }
        let ghost before = self@;
        self.append(priority as usize, (now, data));
        proof {
            let m = (now, data@);
            lemma_level_bytes_push(before[priority as int], m);
            lemma_total_bytes_update(before, priority as int, before[priority as int].push(m));
            lemma_total_count_update(before, priority as int, before[priority as int].push(m));
        }
        dropped
    }

    /// Takes the oldest message of the most important non-empty level; `None` when the queue
    /// is empty.
    pub fn pop(&mut self) -> (r: Option<Vec<u8>>)
        ensures
            final(self).spec_capacity() == old(self).spec_capacity(),
            final(self)@.len() == NUM_PRIORITIES,
            r matches Some(d) ==> total_bytes(final(self)@) + d@.len() == total_bytes(old(self)@),
            match first_nonempty(old(self)@) {
                Some(p) => {
                    &&& r matches Some(d) && d@ == old(self)@[p][0].1
                    &&& final(self)@ == drop_front(old(self)@, p)
                },
                None => r is None && final(self)@ == old(self)@,
            },
    {
        let ghost qs = self@;
        let mut i: usize = 0;
        while i < NUM_PRIORITIES
            invariant
                qs == self@,
                qs == old(self)@,
                self.capacity == old(self).capacity,
                i <= NUM_PRIORITIES,
                first_nonempty_from(qs, 0) == first_nonempty_from(qs, i as int),
            decreases NUM_PRIORITIES - i,
        {
            if self.level_len(i) > 0 {
                proof {
                    assert(first_nonempty_from(qs, i as int) == Some(i as int));
                    lemma_level_bytes_drop_first(qs[i as int]);
                    lemma_total_bytes_update(qs, i as int, qs[i as int].drop_first());
                }
                let data = self.take_oldest(i);
                return Some(data);
            }
            i = i + 1;
        }
        None
    }
}

proof fn lemma_total_zero(qs: Seq<Seq<QueuedMsg>>)
    requires
        forall|p: int| 0 <= p < qs.len() ==> #[trigger] qs[p].len() == 0,
    ensures
        total_bytes(qs) == 0,
        total_count(qs) == 0,
    decreases qs.len(),
{
    if qs.len() > 0 {
        assert(qs.last().len() == 0);
        assert(qs.last() =~= Seq::<QueuedMsg>::empty());
        assert(level_bytes(qs.last()) == 0);
        lemma_total_zero(qs.drop_last());
    }
}

} // verus!

verus! {

// ---------------------------------------------------------------------------------------
// Laws
// ---------------------------------------------------------------------------------------

/// Queuing keeps the byte budget: afterwards the queue holds at most `capacity` bytes, or
/// everything but the new message was dropped to make room for it (a message larger than the
/// whole budget is still queued).
pub proof fn law_push_respects_budget(
    qs: Seq<Seq<QueuedMsg>>,
    now: u64,
    data: Seq<u8>,
    priority: int,
    capacity: nat,
)
    requires
        qs.len() == NUM_PRIORITIES,
        0 <= priority < NUM_PRIORITIES,
        !push_stalls(qs, now, data.len(), capacity),
    ensures
        total_bytes(pushed(qs, now, data, priority, capacity)) <= capacity || total_bytes(
            pushed(qs, now, data, priority, capacity),
        ) == data.len(),
        total_bytes(pushed(qs, now, data, priority, capacity)) <= total_bytes(qs) + data.len(),
{
    let live = initial_live(qs, now, qs.len() as int);
    let e = evict(qs, live, now, data.len(), capacity)->0;
    lemma_evict_makes_room(qs, live, now, data.len(), capacity);
    lemma_evict_keeps_suffixes(qs, live, now, data.len(), capacity);
    let m = (now, data);
    lemma_level_bytes_push(e[priority], m);
    lemma_total_bytes_update(e, priority, e[priority].push(m));
}

/// The message just queued is always kept, at the back of its level.
pub proof fn law_push_keeps_new_message(
    qs: Seq<Seq<QueuedMsg>>,
    now: u64,
    data: Seq<u8>,
    priority: int,
    capacity: nat,
)
    requires
        qs.len() == NUM_PRIORITIES,
        0 <= priority < NUM_PRIORITIES,
        !push_stalls(qs, now, data.len(), capacity),
    ensures
        pushed(qs, now, data, priority, capacity)[priority].last() == (now, data),
        pushed(qs, now, data, priority, capacity).len() == NUM_PRIORITIES,
{
    lemma_evict_keeps_suffixes(qs, initial_live(qs, now, qs.len() as int), now, data.len(), capacity);
}

/// Dropping only ever takes the oldest messages of a level: apart from the new message, every
/// level after a push is a suffix of the level before it, so the order within a level is kept.
pub proof fn law_push_only_drops_oldest(
    qs: Seq<Seq<QueuedMsg>>,
    now: u64,
    data: Seq<u8>,
    priority: int,
    capacity: nat,
)
    requires
        qs.len() == NUM_PRIORITIES,
        0 <= priority < NUM_PRIORITIES,
        !push_stalls(qs, now, data.len(), capacity),
    ensures
        forall|p: int|
            0 <= p < NUM_PRIORITIES ==> {
                let kept = if p == priority {
                    (#[trigger] pushed(qs, now, data, priority, capacity)[p]).drop_last()
                } else {
                    pushed(qs, now, data, priority, capacity)[p]
                };
                &&& kept.len() <= qs[p].len()
                &&& kept =~= qs[p].subrange(qs[p].len() - kept.len(), qs[p].len() as int)
            },
{
    let live = initial_live(qs, now, qs.len() as int);
    lemma_evict_keeps_suffixes(qs, live, now, data.len(), capacity);
    let e = evict(qs, live, now, data.len(), capacity)->0;
    assert forall|p: int| 0 <= p < NUM_PRIORITIES implies {
        let kept = if p == priority {
            (#[trigger] pushed(qs, now, data, priority, capacity)[p]).drop_last()
        } else {
            pushed(qs, now, data, priority, capacity)[p]
        };
        &&& kept.len() <= qs[p].len()
        &&& kept =~= qs[p].subrange(qs[p].len() - kept.len(), qs[p].len() as int)
    } by {
        if p == priority {
            assert(e[p].push((now, data)).drop_last() =~= e[p]);
        }
    }
}

/// When the new message fits, nothing is dropped: the push cannot stall, the message is
/// appended to its level and all else stays as it was.
pub proof fn law_push_with_room_drops_nothing(
    qs: Seq<Seq<QueuedMsg>>,
    now: u64,
    data: Seq<u8>,
    priority: int,
    capacity: nat,
)
    requires
        total_bytes(qs) + data.len() <= capacity,
    ensures
        !push_stalls(qs, now, data.len(), capacity),
        pushed(qs, now, data, priority, capacity) == qs.update(priority, qs[priority].push((now, data))),
{
}

/// Within a level messages leave in arrival order: queuing a message with room to spare does
/// not change which message of its level leaves first.
pub proof fn law_fifo_within_level(
    qs: Seq<Seq<QueuedMsg>>,
    now: u64,
    data: Seq<u8>,
    priority: int,
    capacity: nat,
)
    requires
        0 <= priority < qs.len(),
        qs[priority].len() > 0,
        total_bytes(qs) + data.len() <= capacity,
    ensures
        pushed(qs, now, data, priority, capacity)[priority][0] == qs[priority][0],
{
}

/// A more important level is always served first: the level that the next message comes from
/// is non-empty and every level before it is empty.
pub proof fn law_pop_serves_most_important(qs: Seq<Seq<QueuedMsg>>)
    ensures
        first_nonempty(qs) matches Some(p) ==> 0 <= p < qs.len() && qs[p].len() > 0 && (forall|
            j: int,
        |
            0 <= j < p ==> #[trigger] qs[j].len() == 0),
        first_nonempty(qs) is None ==> forall|j: int| 0 <= j < qs.len() ==> #[trigger] qs[j].len() == 0,
{
    lemma_first_nonempty_from(qs, 0);
}

/// Taking a message out releases exactly its bytes.
pub proof fn law_pop_releases_bytes(qs: Seq<Seq<QueuedMsg>>)
    ensures
        first_nonempty(qs) matches Some(p) ==> total_bytes(drop_front(qs, p)) + qs[p][0].1.len()
            == total_bytes(qs),
{
    lemma_first_nonempty_from(qs, 0);
    if let Some(p) = first_nonempty(qs) {
        lemma_level_bytes_drop_first(qs[p]);
        lemma_total_bytes_update(qs, p, qs[p].drop_first());
    }
}

/// A message queued into an empty queue is the next one out, with its bytes unchanged.
pub proof fn law_push_then_pop(
    qs: Seq<Seq<QueuedMsg>>,
    now: u64,
    data: Seq<u8>,
    priority: int,
    capacity: nat,
)
    requires
        qs.len() == NUM_PRIORITIES,
        0 <= priority < NUM_PRIORITIES,
        forall|p: int| 0 <= p < NUM_PRIORITIES ==> #[trigger] qs[p].len() == 0,
    ensures
        !push_stalls(qs, now, data.len(), capacity),
        first_nonempty(pushed(qs, now, data, priority, capacity)) == Some(priority),
        pushed(qs, now, data, priority, capacity)[priority][0].1 == data,
        drop_front(pushed(qs, now, data, priority, capacity), priority) == qs,
{
    lemma_total_zero(qs);
    let r = pushed(qs, now, data, priority, capacity);
    assert(evict_for(qs, now, data.len(), capacity) == Some(qs));
    lemma_first_nonempty_from(r, 0);
    let f = first_nonempty(r);
    assert forall|j: int| 0 <= j < NUM_PRIORITIES && j != priority implies #[trigger] r[j].len()
        == 0 by {
        assert(r[j] == qs[j]);
    }
    assert(r[priority].len() == 1);
    assert(f == Some(priority));
    assert(qs[priority] =~= Seq::<QueuedMsg>::empty());
    assert(r[priority].drop_first() =~= qs[priority]);
    assert(drop_front(r, priority) =~= qs);
}

/// Each victim is the oldest message with the largest drop score among the levels still
/// considered, and a victim is found whenever one of those holds a message.
pub proof fn law_victim_has_highest_score(qs: Seq<Seq<QueuedMsg>>, live: Seq<bool>, now: u64)
    requires
        live.len() == qs.len(),
    ensures
        victim(qs, live, now) matches Some(v) ==> 0 <= v < qs.len() && live[v] && qs[v].len() > 0
            && forall|j: int|
            0 <= j < qs.len() && live[j] && #[trigger] qs[j].len() > 0 ==> front_score(qs, j, now)
                <= front_score(qs, v, now),
        victim(qs, live, now) is None ==> forall|j: int|
            0 <= j < qs.len() && live[j] ==> #[trigger] qs[j].len() == 0,
{
    lemma_victim_below(qs, live, now, qs.len() as int);
}

proof fn lemma_initial_live_covers(qs: Seq<Seq<QueuedMsg>>, now: u64, n: int)
    requires
        0 <= n <= qs.len(),
    ensures
        initial_live(qs, now, n).len() == qs.len(),
        forall|u: int|
            0 <= u < qs.len() && #[trigger] initial_live(qs, now, n)[u] ==> u < n && qs[u].len() > 0,
        forall|j: int|
            0 <= j < n && #[trigger] qs[j].len() > 0 ==> exists|u: int|
                0 <= u < n && initial_live(qs, now, n)[u] && qs[u].len() > 0 && front_score(qs, u, now)
                    == front_score(qs, j, now),
    decreases n,
{
    if n > 0 {
        lemma_initial_live_covers(qs, now, n - 1);
        let l = initial_live(qs, now, n - 1);
        let r = initial_live(qs, now, n);
        if qs[n - 1].len() > 0 {
            assert forall|j: int| 0 <= j < n && #[trigger] qs[j].len() > 0 implies exists|u: int|
                0 <= u < n && r[u] && qs[u].len() > 0 && front_score(qs, u, now) == front_score(
                    qs,
                    j,
                    now,
                ) by {
                if j == n - 1 || front_score(qs, j, now) == front_score(qs, n - 1, now) {
                    assert(r[n - 1]);
                } else {
                    let u = choose|u: int|
                        0 <= u < n - 1 && l[u] && qs[u].len() > 0 && front_score(qs, u, now)
                            == front_score(qs, j, now);
                    assert(r[u]);
                }
            }
        } else {
            assert forall|j: int| 0 <= j < n && #[trigger] qs[j].len() > 0 implies exists|u: int|
                0 <= u < n && r[u] && qs[u].len() > 0 && front_score(qs, u, now) == front_score(
                    qs,
                    j,
                    now,
                ) by {
                let u = choose|u: int|
                    0 <= u < n - 1 && l[u] && qs[u].len() > 0 && front_score(qs, u, now)
                        == front_score(qs, j, now);
                assert(r[u]);
            }
        }
    }
}

/// The first victim of a push is an oldest message with the largest drop score of all: every
/// non-empty level's score is considered before anything is dropped.
pub proof fn law_first_victim_has_highest_score(qs: Seq<Seq<QueuedMsg>>, now: u64)
    ensures
        victim(qs, initial_live(qs, now, qs.len() as int), now) matches Some(v) ==> 0 <= v < qs.len()
            && qs[v].len() > 0 && forall|j: int|
            0 <= j < qs.len() && #[trigger] qs[j].len() > 0 ==> front_score(qs, j, now)
                <= front_score(qs, v, now),
        victim(qs, initial_live(qs, now, qs.len() as int), now) is None ==> forall|j: int|
            0 <= j < qs.len() ==> #[trigger] qs[j].len() == 0,
{
    let live = initial_live(qs, now, qs.len() as int);
    lemma_initial_live_covers(qs, now, qs.len() as int);
    lemma_victim_below(qs, live, now, qs.len() as int);
    assert forall|j: int| 0 <= j < qs.len() && #[trigger] qs[j].len() > 0 implies victim(qs, live, now)
        is Some && front_score(qs, j, now) <= front_score(qs, victim(qs, live, now)->0, now) by {
        let u = choose|u: int|
            0 <= u < qs.len() && live[u] && qs[u].len() > 0 && front_score(qs, u, now) == front_score(
                qs,
                j,
                now,
            );
        assert(qs[u].len() > 0);
    }
}

} // verus!

verus! {

/// The drop score of a level is its priority times the age of its oldest message (the front
/// of the level, which arrived first); a timestamp in the future counts as no age.
pub proof fn law_score_is_priority_times_oldest_age(qs: Seq<Seq<QueuedMsg>>, p: int, now: u64)
    requires
        0 <= p < qs.len(),
        qs[p].len() > 0,
    ensures
        front_score(qs, p, now) == p * (if now >= qs[p][0].0 {
            now - qs[p][0].0
        } else {
            0
        }),
{
}

/// The first message that a push drops is the oldest message of a level, and among the oldest
/// messages of all non-empty levels it has the largest priority times age.
pub proof fn law_first_victim_has_largest_priority_times_age(qs: Seq<Seq<QueuedMsg>>, now: u64)
    ensures
        victim(qs, initial_live(qs, now, qs.len() as int), now) matches Some(v) ==> 0 <= v
            < qs.len() && qs[v].len() > 0 && forall|j: int|
            0 <= j < qs.len() && #[trigger] qs[j].len() > 0 ==> j * (if now >= qs[j][0].0 {
                now - qs[j][0].0
            } else {
                0
            }) <= v * (if now >= qs[v][0].0 {
                now - qs[v][0].0
            } else {
                0
            }),
{
    law_first_victim_has_highest_score(qs, now);
}

} // verus!

verus! {

/// When the new message does not fit but dropping any one queued message would make room, a
/// push drops exactly one message: the oldest message of a level whose oldest message has the
/// largest priority times age, and nothing else changes but the new message at the back of its
/// level.
pub proof fn law_push_drops_oldest_message_of_largest_score(
    qs: Seq<Seq<QueuedMsg>>,
    now: u64,
    data: Seq<u8>,
    priority: int,
    capacity: nat,
)
    requires
        qs.len() == NUM_PRIORITIES,
        0 <= priority < NUM_PRIORITIES,
        total_bytes(qs) + data.len() > capacity,
        total_bytes(qs) > 0,
        forall|j: int|
            0 <= j < qs.len() && #[trigger] qs[j].len() > 0 ==> total_bytes(qs) - qs[j][0].1.len()
                + data.len() <= capacity,
    ensures
        !push_stalls(qs, now, data.len(), capacity),
        exists|v: int|
            {
                &&& 0 <= v < qs.len()
                &&& qs[v].len() > 0
                &&& forall|j: int|
                    0 <= j < qs.len() && #[trigger] qs[j].len() > 0 ==> j * (if now >= qs[j][0].0 {
                        now - qs[j][0].0
                    } else {
                        0
                    }) <= v * (if now >= qs[v][0].0 {
                        now - qs[v][0].0
                    } else {
                        0
                    })
                &&& pushed(qs, now, data, priority, capacity) == drop_front(qs, v).update(
                    priority,
                    drop_front(qs, v)[priority].push((now, data)),
                )
            },
{
    let live = initial_live(qs, now, qs.len() as int);
    lemma_bytes_nonempty_level(qs);
    law_first_victim_has_largest_priority_times_age(qs, now);
    let j0 = choose|j: int| 0 <= j < qs.len() && #[trigger] qs[j].len() > 0;
    assert(qs[j0].len() > 0);
    law_first_victim_has_highest_score(qs, now);
    assert(victim(qs, live, now) is Some);
    let v = victim(qs, live, now)->0;
    lemma_count_drop_front(qs, v);
    lemma_level_bytes_drop_first(qs[v]);
    lemma_total_bytes_update(qs, v, qs[v].drop_first());
    let d = drop_front(qs, v);
    let l2 = live_after_drop(qs, live, now, v);
    assert(evict(d, l2, now, data.len(), capacity) == Some(d));
    assert(evict(qs, live, now, data.len(), capacity) == Some(d));
}

/// Bytes on some level mean a non-empty level.
proof fn lemma_bytes_nonempty_level(qs: Seq<Seq<QueuedMsg>>)
    requires
        total_bytes(qs) > 0,
    ensures
        exists|j: int| 0 <= j < qs.len() && #[trigger] qs[j].len() > 0,
    decreases qs.len(),
{
    if level_bytes(qs.last()) > 0 {
        assert(qs[qs.len() - 1].len() > 0);
    } else {
        lemma_bytes_nonempty_level(qs.drop_last());
        let j = choose|j: int| 0 <= j < qs.drop_last().len() && #[trigger] qs.drop_last()[j].len() > 0;
        assert(qs[j].len() > 0);
    }
}

} // verus!
