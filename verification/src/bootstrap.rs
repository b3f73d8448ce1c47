//! Bootstrapping: which contacts to try, in which order, with which deadlines, and what a
//! contact's answer means.

use vstd::prelude::*;
use crate::config::Config;
use crate::crust_msg::CrustMsg;
use crate::endpoint::Endpoint;
use crate::peer_id::{new_id, PeerId, PublicKey};
use crate::socket_addr::SocketAddr;
use crate::static_contact_info::StaticContactInfo;
use rand::Rng;

verus! {

/// How long each bootstrap contact is given, in milliseconds.
pub const BOOTSTRAP_CONTACT_TIMEOUT_MS: u64 = 3000;

/// How a contact looks to the contracts.
pub type ContactView = (Seq<Endpoint>, Seq<SocketAddr>, Seq<SocketAddr>);

/// The views of a sequence of contacts.
pub open spec fn contact_views(v: Seq<StaticContactInfo>) -> Seq<ContactView> {
    v.map_values(|c: StaticContactInfo| c@)
}

/// The items of `s` without repeats: each item at the place where it first occurs.
pub open spec fn first_occurrences<A>(s: Seq<A>) -> Seq<A>
    decreases s.len(),
{
    if s.len() == 0 {
        s
    } else {
        let u = first_occurrences(s.drop_last());
        if u.contains(s.last()) {
            u
        } else {
            u.push(s.last())
        }
    }
}

/// Appends `c` to `list` unless an equal contact is already there.
fn push_unique(list: &mut Vec<StaticContactInfo>, c: &StaticContactInfo)
    ensures
        contact_views(final(list)@) == (if contact_views(old(list)@).contains(c@) {
            contact_views(old(list)@)
        } else {
            contact_views(old(list)@).push(c@)
        }),
{
    let ghost views = contact_views(list@);
    let mut i: usize = 0;
    while i < list.len()
        invariant
            views == contact_views(list@),
            i <= list@.len(),
            forall|j: int| 0 <= j < i ==> views[j] != c@,
        decreases list@.len() - i,
    {
        if list[i].same_as(c) {
            proof {
                assert(views[i as int] == c@);
            }
            return;
        }
        i = i + 1;
    }
    list.push(c.duplicate());
    proof {
        assert(contact_views(list@) =~= views.push(c@));
    }
}

/// Appends to `list` each contact of `source` that `list` does not hold yet, in order.
fn extend_unique(list: &mut Vec<StaticContactInfo>, source: &Vec<StaticContactInfo>)
    requires
        contact_views(old(list)@) == first_occurrences(contact_views(old(list)@)),
    ensures
        contact_views(final(list)@) == first_occurrences(
            contact_views(old(list)@) + contact_views(source@),
        ),
{
    let ghost start = contact_views(list@);
    let mut i: usize = 0;
    proof {
        assert(start + contact_views(source@).subrange(0, 0) =~= start);
    }
    while i < source.len()
        invariant
            i <= source@.len(),
            start == contact_views(old(list)@),
            start == first_occurrences(start),
            contact_views(list@) == first_occurrences(
                start + contact_views(source@).subrange(0, i as int),
            ),
        decreases source@.len() - i,
    {
        push_unique(list, &source[i]);
        proof {
            let s = start + contact_views(source@).subrange(0, i as int);
            let s1 = start + contact_views(source@).subrange(0, i + 1);
            assert(s1.drop_last() =~= s);
            assert(s1.last() == source@[i as int]@);
        }
        i = i + 1;
    }
    proof {
        assert(contact_views(source@).subrange(0, source@.len() as int) =~= contact_views(
            source@,
        ));
    }
}

/// The contacts to bootstrap off: those from the bootstrap cache, then the hard-coded ones of
/// the configuration, then those found on the local network, each contact once, at the place
/// where it first occurs.
pub fn get_known_contacts(
    cached: Vec<StaticContactInfo>,
    config: &Config,
    discovered: Vec<StaticContactInfo>,
) -> (contacts: Vec<StaticContactInfo>)
    ensures
        contact_views(contacts@) == first_occurrences(
            contact_views(cached@) + contact_views(config.hard_coded_contacts@) + contact_views(
                discovered@,
            ),
        ),
{
    let mut contacts: Vec<StaticContactInfo> = Vec::new();
    proof {
        assert(contact_views(contacts@) =~= Seq::<ContactView>::empty());
        assert(first_occurrences(Seq::<ContactView>::empty()) =~= Seq::<ContactView>::empty());
    }
    extend_unique(&mut contacts, &cached);
    proof {
        assert(Seq::<ContactView>::empty() + contact_views(cached@) =~= contact_views(cached@));
        lemma_first_occurrences_idempotent(contact_views(cached@));
    }
    extend_unique(&mut contacts, &config.hard_coded_contacts);
    proof {
        lemma_first_occurrences_append(
            contact_views(cached@),
            contact_views(config.hard_coded_contacts@),
        );
        lemma_first_occurrences_idempotent(
            contact_views(cached@) + contact_views(config.hard_coded_contacts@),
        );
    }
    extend_unique(&mut contacts, &discovered);
    proof {
        lemma_first_occurrences_append(
            contact_views(cached@) + contact_views(config.hard_coded_contacts@),
            contact_views(discovered@),
        );
    }
    contacts
}

// ---------------------------------------------------------------------------------------
// Laws of `first_occurrences`
// ---------------------------------------------------------------------------------------

/// No item occurs twice in `first_occurrences(s)`.
pub proof fn law_first_occurrences_no_repeats<A>(s: Seq<A>)
    ensures
        forall|i: int, j: int|
            0 <= i < j < first_occurrences(s).len() ==> first_occurrences(s)[i] != first_occurrences(
                s,
            )[j],
    decreases s.len(),
{
    if s.len() > 0 {
        law_first_occurrences_no_repeats(s.drop_last());
        let u = first_occurrences(s.drop_last());
        if !u.contains(s.last()) {
            let r = u.push(s.last());
            assert forall|i: int, j: int| 0 <= i < j < r.len() implies r[i] != r[j] by {
                if j == r.len() - 1 {
                    if r[i] == r[j] {
                        assert(u[i] == s.last());
                        assert(u.contains(s.last()));
                    }
                }
            }
        }
    }
}

/// `first_occurrences(s)` holds exactly the items of `s`.
pub proof fn law_first_occurrences_same_items<A>(s: Seq<A>)
    ensures
        forall|x: A| #[trigger] first_occurrences(s).contains(x) <==> s.contains(x),
    decreases s.len(),
{
    if s.len() > 0 {
        law_first_occurrences_same_items(s.drop_last());
        let u = first_occurrences(s.drop_last());
        assert forall|x: A| #[trigger] first_occurrences(s).contains(x) <==> s.contains(x) by {
            if s.contains(x) {
                let k = choose|k: int| 0 <= k < s.len() && s[k] == x;
                if k < s.len() - 1 {
                    assert(s.drop_last()[k] == x);
                    assert(s.drop_last().contains(x));
                }
                if !u.contains(s.last()) {
                    if u.contains(x) {
                        let m = choose|m: int| 0 <= m < u.len() && u[m] == x;
                        assert(u.push(s.last())[m] == x);
                    } else {
                        assert(u.push(s.last())[u.len() as int] == x);
                    }
                }
            }
            if first_occurrences(s).contains(x) {
                if u.contains(x) {
                    assert(s.drop_last().contains(x));
                    let k = choose|k: int| 0 <= k < s.drop_last().len() && s.drop_last()[k] == x;
                    assert(s[k] == x);
                } else {
                    let r = u.push(s.last());
                    let m = choose|m: int| 0 <= m < r.len() && r[m] == x;
                    assert(m == u.len());
                    assert(s[s.len() - 1] == x);
                }
            }
        }
    }
}

/// Whether `x` occurs in `s` before position `m`.
pub open spec fn occurs_before<A>(s: Seq<A>, x: A, m: int) -> bool {
    exists|k: int| 0 <= k < m && k < s.len() && s[k] == x
}

/// Items come out in the order in which they first occur: an item placed before another
/// occurs in `s` before every occurrence of the other.
pub proof fn law_first_occurrences_in_order<A>(s: Seq<A>)
    ensures
        forall|i: int, j: int, m: int|
            #![trigger first_occurrences(s)[i], first_occurrences(s)[j], s[m]]
            0 <= i < j < first_occurrences(s).len() && 0 <= m < s.len() && s[m]
                == first_occurrences(s)[j] ==> occurs_before(s, first_occurrences(s)[i], m),
    decreases s.len(),
{
    if s.len() > 0 {
        let t = s.drop_last();
        let u = first_occurrences(t);
        let r = first_occurrences(s);
        law_first_occurrences_in_order(t);
        law_first_occurrences_same_items(t);
        assert forall|i: int, j: int, m: int|
            #![trigger r[i], r[j], s[m]]
            0 <= i < j < r.len() && 0 <= m < s.len() && s[m] == r[j] implies occurs_before(
            s,
            r[i],
            m,
        ) by {
            assert(r[i] == u[i]);
            assert(u.contains(u[i]));
            assert(t.contains(u[i]));
            let k0 = choose|k: int| 0 <= k < t.len() && t[k] == u[i];
            assert(s[k0] == u[i]);
            if j < u.len() {
                assert(r[j] == u[j]);
                if m < t.len() {
                    assert(t[m] == u[j]);
                    assert(occurs_before(t, u[i], m));
                    let k = choose|k: int| 0 <= k < m && k < t.len() && t[k] == u[i];
                    assert(s[k] == r[i]);
                } else {
                    assert(k0 < m);
                }
            } else {
                assert(!u.contains(s.last()));
                assert(r[j] == s.last());
                if m < t.len() {
                    assert(t[m] == s.last());
                    assert(t.contains(s.last()));
                    assert(u.contains(s.last()));
                } else {
                    assert(k0 < m);
                }
            }
        }
    }
}

/// The first item of a non-empty `s` stays first.
pub proof fn law_first_occurrences_keeps_first<A>(s: Seq<A>)
    requires
        s.len() > 0,
    ensures
        first_occurrences(s).len() > 0,
        first_occurrences(s)[0] == s[0],
    decreases s.len(),
{
    if s.len() == 1 {
        let u = first_occurrences(s.drop_last());
        assert(u.len() == 0);
        assert(!u.contains(s.last()));
        assert(u.push(s.last())[0] == s.last());
    } else {
        law_first_occurrences_keeps_first(s.drop_last());
        let u = first_occurrences(s.drop_last());
        assert(u.push(s.last())[0] == u[0]);
        assert(s.drop_last()[0] == s[0]);
    }
}

/// Removing repeats twice is removing them once.
pub proof fn lemma_first_occurrences_idempotent<A>(s: Seq<A>)
    ensures
        first_occurrences(first_occurrences(s)) == first_occurrences(s),
{
    law_first_occurrences_no_repeats(s);
    lemma_no_repeats_fixed(first_occurrences(s));
}

proof fn lemma_no_repeats_fixed<A>(s: Seq<A>)
    requires
        forall|i: int, j: int| 0 <= i < j < s.len() ==> s[i] != s[j],
    ensures
        first_occurrences(s) == s,
    decreases s.len(),
{
    if s.len() > 0 {
        lemma_no_repeats_fixed(s.drop_last());
        if s.drop_last().contains(s.last()) {
            let k = choose|k: int| 0 <= k < s.drop_last().len() && s.drop_last()[k] == s.last();
            assert(s[k] == s[s.len() - 1]);
        }
        assert(s.drop_last().push(s.last()) =~= s);
    }
}

/// Removing repeats from `a + b` can be done on `a` first.
proof fn lemma_first_occurrences_append<A>(a: Seq<A>, b: Seq<A>)
    ensures
        first_occurrences(first_occurrences(a) + b) == first_occurrences(a + b),
    decreases b.len(),
{
    if b.len() == 0 {
        assert(first_occurrences(a) + b =~= first_occurrences(a));
        assert(a + b =~= a);
        lemma_first_occurrences_idempotent(a);
    } else {
        lemma_first_occurrences_append(a, b.drop_last());
        assert((first_occurrences(a) + b).drop_last() =~= first_occurrences(a) + b.drop_last());
        assert((a + b).drop_last() =~= a + b.drop_last());
    }
}

// ---------------------------------------------------------------------------------------
// The bootstrap attempts
// ---------------------------------------------------------------------------------------

/// Puts `contacts` into a random order with `rand::Rng::shuffle` on the thread's generator.
///
/// Trusted: the result holds the same contacts as before, each as often as before; which
/// order comes out is not stated.
#[verifier::external_body]
fn shuffle_contacts(contacts: &mut Vec<StaticContactInfo>)
    ensures
        final(contacts)@.to_multiset() == old(contacts)@.to_multiset(),
{
    rand::thread_rng().shuffle(&mut contacts[..]);
}

/// An attempt to bootstrap off one contact: which one, and the time by which the connection
/// must be made, in milliseconds on the clock that the bootstrap was started with.
#[derive(Clone, Copy, Debug, PartialEq, Eq, Structural)]
pub struct BootstrapAttempt {
    pub contact: usize,
    pub deadline_ms: u64,
}

/// The deadline of attempt `i` of a bootstrap started at `start_ms`.
pub open spec fn attempt_deadline(start_ms: u64, i: int) -> int {
    start_ms + BOOTSTRAP_CONTACT_TIMEOUT_MS * (i + 1)
}

/// Where a bootstrap run stands. The index is that of the contact being tried.
#[derive(Clone, Copy, Debug, PartialEq, Eq, Structural)]
pub enum BootstrapPhase {
    /// Between contacts.
    Idle,
    /// Connecting to the contact.
    Connecting(usize),
    /// Writing the bootstrap request.
    Requesting(usize),
    /// Reading the contact's answer.
    Reading(usize),
    /// Registering the peer that answered.
    Registering(usize),
    /// The run is over.
    Finished,
}

/// What happened since the last step of a bootstrap run.
#[derive(Debug)]
pub enum BootstrapEvent {
    /// Ready for the next contact; whether stopping was requested meanwhile.
    Next { stop_requested: bool },
    /// The connection attempt ended: connected or not.
    Connected(bool),
    /// Writing the request ended: written or not.
    RequestWritten(bool),
    /// The answer was read: a message, or the text of the read error.
    Answer(Result<CrustMsg, String>),
    /// Registering the peer ended: whether it was new, i.e. there was no connection to it yet.
    Registered(bool),
}

/// What a bootstrap run asks for next.
#[derive(Debug)]
pub enum BootstrapAction {
    /// Connect to a contact by a deadline.
    Connect(BootstrapAttempt),
    /// Write this request on the connection.
    SendRequest(CrustMsg),
    /// Read the contact's answer.
    ReadAnswer,
    /// Keep the connection to this peer unless there is one already; when it is kept, report
    /// the bootstrap connection.
    Register(PeerId),
    /// Record this contact in the bootstrap cache, then go on with the next contact.
    CacheContact(usize),
    /// This contact failed or was not needed: go on with the next contact.
    Skip,
    /// The run is over: report that bootstrapping finished.
    Finish,
}

/// Whether `phase` expects `event`.
pub open spec fn expects(phase: BootstrapPhase, event: BootstrapEvent) -> bool {
    match (phase, event) {
        (BootstrapPhase::Idle, BootstrapEvent::Next { .. }) => true,
        (BootstrapPhase::Connecting(_), BootstrapEvent::Connected(_)) => true,
        (BootstrapPhase::Requesting(_), BootstrapEvent::RequestWritten(_)) => true,
        (BootstrapPhase::Reading(_), BootstrapEvent::Answer(_)) => true,
        (BootstrapPhase::Registering(_), BootstrapEvent::Registered(_)) => true,
        _ => false,
    }
}

/// A bootstrap run: the contacts in the order in which they are tried, how many were taken
/// up, and where the run stands.
pub struct BootstrapRun {
    contacts: Vec<StaticContactInfo>,
    next: usize,
    start_ms: u64,
    our_public_key: PublicKey,
    phase: BootstrapPhase,
}

impl BootstrapRun {
    /// The contacts in the order in which they are tried.
    pub closed spec fn spec_contacts(&self) -> Seq<StaticContactInfo> {
        self.contacts@
    }

    /// The number of contacts taken up so far.
    pub closed spec fn spec_next(&self) -> nat {
        self.next as nat
    }

    /// The time at which the run started.
    pub closed spec fn spec_start_ms(&self) -> u64 {
        self.start_ms
    }

    /// Our public key, sent in each bootstrap request.
    pub closed spec fn spec_public_key(&self) -> PublicKey {
        self.our_public_key
    }

    /// Where the run stands.
    pub closed spec fn spec_phase(&self) -> BootstrapPhase {
        self.phase
    }

    /// The state invariant: contacts taken up never pass the contacts, the contact being tried
    /// is the last one taken up, and every deadline fits a `u64`.
    pub open spec fn wf(&self) -> bool {
        &&& self.spec_next() <= self.spec_contacts().len()
        &&& attempt_deadline(self.spec_start_ms(), self.spec_contacts().len() as int) <= u64::MAX
        &&& match self.spec_phase() {
            BootstrapPhase::Connecting(i) => i + 1 == self.spec_next(),
            BootstrapPhase::Requesting(i) => i + 1 == self.spec_next(),
            BootstrapPhase::Reading(i) => i + 1 == self.spec_next(),
            BootstrapPhase::Registering(i) => i + 1 == self.spec_next(),
            _ => true,
        }
    }

    /// A bound on the steps left before the run finishes: five per contact not taken up yet,
    /// plus what the current contact still has to go through; 0 once finished.
    pub open spec fn steps_left(&self) -> int {
        let base = 5 * (self.spec_contacts().len() - self.spec_next());
        match self.spec_phase() {
            BootstrapPhase::Finished => 0,
            BootstrapPhase::Idle => base + 1,
            BootstrapPhase::Registering(_) => base + 2,
            BootstrapPhase::Reading(_) => base + 3,
            BootstrapPhase::Requesting(_) => base + 4,
            BootstrapPhase::Connecting(_) => base + 5,
        }
    }

    /// Starts a run at time `start_ms` over `contacts`, in a random order.
    pub fn new(contacts: Vec<StaticContactInfo>, our_public_key: PublicKey, start_ms: u64) -> (b:
        BootstrapRun)
        requires
            attempt_deadline(start_ms, contacts@.len() as int) <= u64::MAX,
        ensures
            b.wf(),
            b.spec_contacts().to_multiset() == contacts@.to_multiset(),
            b.spec_next() == 0,
            b.spec_start_ms() == start_ms,
            b.spec_public_key() == our_public_key,
            b.spec_phase() == BootstrapPhase::Idle,
    {
        let mut contacts = contacts;
        let ghost before = contacts@;
        shuffle_contacts(&mut contacts);
        proof {
            before.to_multiset_ensures();
            contacts@.to_multiset_ensures();
            assert(contacts@.len() == before.len());
        }
        BootstrapRun { contacts, next: 0, start_ms, our_public_key, phase: BootstrapPhase::Idle }
    }

    /// Takes the next step: from where the run stands and what happened, where it goes and
    /// what it asks for.
    ///
    /// Between contacts, a stop request or the end of the contacts finishes the run; else the
    /// next contact is connected to, by a deadline 3 s after the previous one. A connected
    /// contact gets our bootstrap request and its answer is read. Only a `BootstrapResponse`
    /// names a peer, which is then registered; a peer that was new has its contact cached.
    /// Every failure skips to the next contact.
    pub fn step(&mut self, event: BootstrapEvent) -> (action: BootstrapAction)
        requires
            old(self).wf(),
            expects(old(self).spec_phase(), event),
        ensures
            final(self).wf(),
            final(self).steps_left() < old(self).steps_left(),
            final(self).spec_contacts() == old(self).spec_contacts(),
            final(self).spec_start_ms() == old(self).spec_start_ms(),
            final(self).spec_public_key() == old(self).spec_public_key(),
            match event {
                BootstrapEvent::Next { stop_requested } => if stop_requested || old(
                    self,
                ).spec_next() >= old(self).spec_contacts().len() {
                    &&& action is Finish
                    &&& final(self).spec_phase() == BootstrapPhase::Finished
                    &&& final(self).spec_next() == old(self).spec_next()
                } else {
                    &&& action == BootstrapAction::Connect(
                        BootstrapAttempt {
                            contact: old(self).spec_next() as usize,
                            deadline_ms: attempt_deadline(
                                old(self).spec_start_ms(),
                                old(self).spec_next() as int,
                            ) as u64,
                        },
                    )
                    &&& final(self).spec_phase() == BootstrapPhase::Connecting(
                        old(self).spec_next() as usize,
                    )
                    &&& final(self).spec_next() == old(self).spec_next() + 1
                },
                BootstrapEvent::Connected(ok) => {
                    &&& final(self).spec_next() == old(self).spec_next()
                    &&& if ok {
                        &&& action == BootstrapAction::SendRequest(
                            CrustMsg::BootstrapRequest(old(self).spec_public_key()),
                        )
                        &&& final(self).spec_phase() == BootstrapPhase::Requesting(
                            old(self).spec_phase()->Connecting_0,
                        )
                    } else {
                        action is Skip && final(self).spec_phase() == BootstrapPhase::Idle
                    }
                },
                BootstrapEvent::RequestWritten(ok) => {
                    &&& final(self).spec_next() == old(self).spec_next()
                    &&& if ok {
                        &&& action is ReadAnswer
                        &&& final(self).spec_phase() == BootstrapPhase::Reading(
                            old(self).spec_phase()->Requesting_0,
                        )
                    } else {
                        action is Skip && final(self).spec_phase() == BootstrapPhase::Idle
                    }
                },
                BootstrapEvent::Answer(answer) => {
                    &&& final(self).spec_next() == old(self).spec_next()
                    &&& match answer {
                        Ok(CrustMsg::BootstrapResponse(key)) => {
                            &&& action == BootstrapAction::Register(PeerId(key))
                            &&& final(self).spec_phase() == BootstrapPhase::Registering(
                                old(self).spec_phase()->Reading_0,
                            )
                        },
                        _ => action is Skip && final(self).spec_phase() == BootstrapPhase::Idle,
                    }
                },
                BootstrapEvent::Registered(new_peer) => {
                    &&& final(self).spec_next() == old(self).spec_next()
                    &&& final(self).spec_phase() == BootstrapPhase::Idle
                    &&& if new_peer {
                        action == BootstrapAction::CacheContact(
                            old(self).spec_phase()->Registering_0,
                        )
                    } else {
                        action is Skip
                    }
                },
            },
    {
        match event {
            BootstrapEvent::Next { stop_requested } => {
                if stop_requested || self.next >= self.contacts.len() {
                    self.phase = BootstrapPhase::Finished;
                    return BootstrapAction::Finish;
                }
                let i = self.next;
                proof {
                    assert(BOOTSTRAP_CONTACT_TIMEOUT_MS * (i + 1) <= BOOTSTRAP_CONTACT_TIMEOUT_MS
                        * self.contacts@.len()) by (nonlinear_arith)
                        requires
                            i + 1 <= self.contacts@.len(),
                    ;
                }
                let deadline_ms = self.start_ms + BOOTSTRAP_CONTACT_TIMEOUT_MS * (i as u64 + 1);
                self.next = i + 1;
                self.phase = BootstrapPhase::Connecting(i);
                BootstrapAction::Connect(BootstrapAttempt { contact: i, deadline_ms })
            },
            BootstrapEvent::Connected(ok) => {
                let i = match self.phase {
                    BootstrapPhase::Connecting(i) => i,
                    _ => 0,
                };
                if ok {
                    self.phase = BootstrapPhase::Requesting(i);
                    BootstrapAction::SendRequest(CrustMsg::BootstrapRequest(self.our_public_key))
                } else {
                    self.phase = BootstrapPhase::Idle;
                    BootstrapAction::Skip
                }
            },
            BootstrapEvent::RequestWritten(ok) => {
                let i = match self.phase {
                    BootstrapPhase::Requesting(i) => i,
                    _ => 0,
                };
                if ok {
                    self.phase = BootstrapPhase::Reading(i);
                    BootstrapAction::ReadAnswer
                } else {
                    self.phase = BootstrapPhase::Idle;
                    BootstrapAction::Skip
                }
            },
            BootstrapEvent::Answer(answer) => {
                let i = match self.phase {
                    BootstrapPhase::Reading(i) => i,
                    _ => 0,
                };
                match answer {
                    Ok(msg) => match peer_of_response(&msg) {
                        Some(id) => {
                            self.phase = BootstrapPhase::Registering(i);
                            BootstrapAction::Register(id)
                        },
                        None => {
                            self.phase = BootstrapPhase::Idle;
                            BootstrapAction::Skip
                        },
                    },
                    Err(_) => {
                        self.phase = BootstrapPhase::Idle;
                        BootstrapAction::Skip
                    },
                }
            },
            BootstrapEvent::Registered(new_peer) => {
                let i = match self.phase {
                    BootstrapPhase::Registering(i) => i,
                    _ => 0,
                };
                self.phase = BootstrapPhase::Idle;
                if new_peer {
                    BootstrapAction::CacheContact(i)
                } else {
                    BootstrapAction::Skip
                }
            },
        }
    }

    /// The contact of attempt `i`.
    pub fn contact(&self, i: usize) -> (c: &StaticContactInfo)
        requires
            i < self.spec_contacts().len(),
        ensures
            *c == self.spec_contacts()[i as int],
    {
        &self.contacts[i]
    }

    /// Where the run stands.
    pub fn phase(&self) -> (p: BootstrapPhase)
        ensures
            p == self.spec_phase(),
    {
        self.phase
    }

    /// Whether the run is over.
    pub fn is_finished(&self) -> (r: bool)
        ensures
            r == (self.spec_phase() == BootstrapPhase::Finished),
    {
        match self.phase {
            BootstrapPhase::Finished => true,
            _ => false,
        }
    }
}

/// A finished run expects no event any more: bootstrapping is reported finished only once.
pub proof fn law_finished_run_takes_no_step(event: BootstrapEvent)
    ensures
        !expects(BootstrapPhase::Finished, event),
{
}

/// A run always finishes: `steps_left` never goes below 0, is 0 exactly when the run is
/// finished, and each step lowers it (`BootstrapRun::step`), so a run over `n` contacts
/// finishes within `5 * n + 1` steps; a new run starts at that bound.
pub proof fn law_run_finishes(run: BootstrapRun)
    requires
        run.wf(),
    ensures
        run.steps_left() >= 0,
        run.steps_left() == 0 <==> run.spec_phase() == BootstrapPhase::Finished,
        run.spec_phase() == BootstrapPhase::Idle && run.spec_next() == 0 ==> run.steps_left() == 5
            * run.spec_contacts().len() + 1,
{
}

/// Every contact that a run connects to is a contact the run holds.
pub proof fn law_attempts_stay_in_range(run: BootstrapRun)
    requires
        run.wf(),
    ensures
        match run.spec_phase() {
            BootstrapPhase::Connecting(i) => i < run.spec_contacts().len(),
            BootstrapPhase::Requesting(i) => i < run.spec_contacts().len(),
            BootstrapPhase::Reading(i) => i < run.spec_contacts().len(),
            BootstrapPhase::Registering(i) => i < run.spec_contacts().len(),
            _ => true,
        },
{
}

/// The deadlines of successive attempts are 3 s apart.
pub proof fn law_deadlines_three_seconds_apart(start_ms: u64, i: int)
    ensures
        attempt_deadline(start_ms, i + 1) == attempt_deadline(start_ms, i) + BOOTSTRAP_CONTACT_TIMEOUT_MS,
        attempt_deadline(start_ms, 0) == start_ms + BOOTSTRAP_CONTACT_TIMEOUT_MS,
{
}

/// The peer that a contact's answer to a bootstrap request names: the holder of the key in a
/// `BootstrapResponse`; any other message is unexpected and names nobody.
pub fn peer_of_response(msg: &CrustMsg) -> (id: Option<PeerId>)
    ensures
        match msg {
            CrustMsg::BootstrapResponse(key) => id == Some(PeerId(*key)),
            _ => id is None,
        },
{
    match msg {
        CrustMsg::BootstrapResponse(key) => Some(new_id(*key)),
        _ => None,
    }
}

} // verus!
