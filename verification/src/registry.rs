//! The queue registry: the set of live queues, each with an admission
//! policy, a roster of role-bearing subscribers, a pending-approval set for
//! private queues, a pre-authorization set, and a priority-ordered backlog
//! of deliveries awaiting pull.
//!
//! Every mutable operation on a queue goes through the registry. Each
//! operation's contract states the new registry state exactly, as a spec
//! function of the old state, so that any interleaving of operations behaves
//! as some serialization of them.

use vstd::prelude::*;

use crate::protocol::{MessagePriority, MessageV, MTPMessage, QueueAccess, QueueRoles};

verus! {

// ---------------------------------------------------------------------------
// Data
// ---------------------------------------------------------------------------

/// One entry of a queue's roster: a client and the role it holds there.
#[derive(Debug)]
pub struct Subscriber {
    pub client: String,
    pub role: QueueRoles,
}

/// View of [`Subscriber`].
#[verifier::ext_equal]
pub struct SubscriberV {
    pub client: Seq<char>,
    pub role: QueueRoles,
}

impl View for Subscriber {
    type V = SubscriberV;

    open spec fn view(&self) -> SubscriberV {
        SubscriberV { client: self.client@, role: self.role }
    }
}

impl Clone for Subscriber {
    fn clone(&self) -> (r: Self)
        ensures
            r@ == self@,
    {
        Subscriber { client: self.client.clone(), role: self.role }
    }
}

/// One backlogged delivery: the message, addressed to one recipient.
#[derive(Debug)]
pub struct Delivery {
    pub recipient: String,
    pub message: MTPMessage,
}

/// View of [`Delivery`].
#[verifier::ext_equal]
pub struct DeliveryV {
    pub recipient: Seq<char>,
    pub message: MessageV,
}

impl View for Delivery {
    type V = DeliveryV;

    open spec fn view(&self) -> DeliveryV {
        DeliveryV { recipient: self.recipient@, message: self.message@ }
    }
}

impl Clone for Delivery {
    fn clone(&self) -> (r: Self)
        ensures
            r@ == self@,
    {
        Delivery { recipient: self.recipient.clone(), message: self.message.clone() }
    }
}

/// A named, independently access-controlled message channel.
#[derive(Debug)]
pub struct Queue {
    pub name: String,
    pub access: QueueAccess,
    pub subscribers: Vec<Subscriber>,
    /// Clients of a private queue waiting for a moderator's approval.
    pub pending: Vec<String>,
    /// Clients a moderator approved before they asked to subscribe.
    pub approved: Vec<String>,
    /// Deliveries awaiting pull, highest priority first; equal priorities
    /// keep publish order.
    pub backlog: Vec<Delivery>,
}

/// View of [`Queue`].
#[verifier::ext_equal]
pub struct QueueV {
    pub name: Seq<char>,
    pub access: QueueAccess,
    pub subscribers: Seq<SubscriberV>,
    pub pending: Seq<Seq<char>>,
    pub approved: Seq<Seq<char>>,
    pub backlog: Seq<DeliveryV>,
}

impl View for Queue {
    type V = QueueV;

    open spec fn view(&self) -> QueueV {
        QueueV {
            name: self.name@,
            access: self.access,
            subscribers: self.subscribers@.map_values(|s: Subscriber| s@),
            pending: self.pending@.map_values(|s: String| s@),
            approved: self.approved@.map_values(|s: String| s@),
            backlog: self.backlog@.map_values(|d: Delivery| d@),
        }
    }
}

// ---------------------------------------------------------------------------
// Spec helpers over rosters, name lists and backlogs
// ---------------------------------------------------------------------------

/// Index of the first roster entry for `c`; the roster's length when absent.
pub open spec fn roster_idx(s: Seq<SubscriberV>, c: Seq<char>) -> int
    decreases s.len(),
{
    if s.len() == 0 {
        0
    } else if s[0].client == c {
        0
    } else {
        1 + roster_idx(s.drop_first(), c)
    }
}

/// Whether the roster holds an entry for `c`.
pub open spec fn roster_contains(s: Seq<SubscriberV>, c: Seq<char>) -> bool {
    roster_idx(s, c) < s.len()
}

/// The role `c` holds on the roster, if any.
pub open spec fn role_of(s: Seq<SubscriberV>, c: Seq<char>) -> Option<QueueRoles> {
    if roster_contains(s, c) {
        Some(s[roster_idx(s, c)].role)
    } else {
        None
    }
}

/// Index of the first occurrence of `c` in a list of names; the list's
/// length when absent.
pub open spec fn names_idx(s: Seq<Seq<char>>, c: Seq<char>) -> int
    decreases s.len(),
{
    if s.len() == 0 {
        0
    } else if s[0] == c {
        0
    } else {
        1 + names_idx(s.drop_first(), c)
    }
}

/// Whether a list of names holds `c`.
pub open spec fn names_contain(s: Seq<Seq<char>>, c: Seq<char>) -> bool {
    names_idx(s, c) < s.len()
}

/// The numeric rank of a delivery's priority.
pub open spec fn drank(d: DeliveryV) -> int {
    d.message.priority.rank_spec()
}

/// The backlog is ordered by priority, highest first; equal priorities keep
/// their insertion order, which this predicate leaves untouched.
pub open spec fn backlog_sorted(s: Seq<DeliveryV>) -> bool {
    forall|i: int, j: int| 0 <= i < j < s.len() ==> drank(#[trigger] s[i]) >= drank(#[trigger] s[j])
}

/// Where a delivery of rank `r` is inserted: after every entry of rank at
/// least `r`, before the first entry of lower rank, so that equal ranks keep
/// arrival order.
pub open spec fn insert_pos(s: Seq<DeliveryV>, r: int) -> int
    decreases s.len(),
{
    if s.len() == 0 {
        0
    } else if drank(s[0]) >= r {
        1 + insert_pos(s.drop_first(), r)
    } else {
        0
    }
}

/// Index of the first delivery addressed to `c`; the backlog's length when
/// none is.
pub open spec fn find_for(s: Seq<DeliveryV>, c: Seq<char>) -> int
    decreases s.len(),
{
    if s.len() == 0 {
        0
    } else if s[0].recipient == c {
        0
    } else {
        1 + find_for(s.drop_first(), c)
    }
}

// ---------------------------------------------------------------------------
// Basic facts about the spec helpers
// ---------------------------------------------------------------------------

/// The first roster index for `c` lies within the roster and names `c`, and
/// nothing before it does.
pub proof fn lemma_roster_idx(s: Seq<SubscriberV>, c: Seq<char>)
    ensures
        0 <= roster_idx(s, c) <= s.len(),
        roster_contains(s, c) ==> s[roster_idx(s, c)].client == c,
        forall|j: int| 0 <= j < roster_idx(s, c) ==> (#[trigger] s[j]).client != c,
    decreases s.len(),
{
    if s.len() > 0 && s[0].client != c {
        lemma_roster_idx(s.drop_first(), c);
        assert forall|j: int| 0 <= j < roster_idx(s, c) implies (#[trigger] s[j]).client != c by {
            if j > 0 {
                assert(s.drop_first()[j - 1] == s[j]);
            }
        }
    }
}

/// The first name index for `c` lies within the list and names `c`, and
/// nothing before it does.
pub proof fn lemma_names_idx(s: Seq<Seq<char>>, c: Seq<char>)
    ensures
        0 <= names_idx(s, c) <= s.len(),
        names_contain(s, c) ==> s[names_idx(s, c)] == c,
        forall|j: int| 0 <= j < names_idx(s, c) ==> #[trigger] s[j] != c,
    decreases s.len(),
{
    if s.len() > 0 && s[0] != c {
        lemma_names_idx(s.drop_first(), c);
        assert forall|j: int| 0 <= j < names_idx(s, c) implies #[trigger] s[j] != c by {
            if j > 0 {
                assert(s.drop_first()[j - 1] == s[j]);
            }
        }
    }
}

/// The insertion point of rank `r` lies within the backlog; every entry
/// before it ranks at least `r` and the entry at it, if any, ranks below.
pub proof fn lemma_insert_pos(s: Seq<DeliveryV>, r: int)
    ensures
        0 <= insert_pos(s, r) <= s.len(),
        forall|j: int| 0 <= j < insert_pos(s, r) ==> drank(#[trigger] s[j]) >= r,
        insert_pos(s, r) < s.len() ==> drank(s[insert_pos(s, r)]) < r,
    decreases s.len(),
{
    if s.len() > 0 && drank(s[0]) >= r {
        lemma_insert_pos(s.drop_first(), r);
        assert forall|j: int| 0 <= j < insert_pos(s, r) implies drank(#[trigger] s[j]) >= r by {
            if j > 0 {
                assert(s.drop_first()[j - 1] == s[j]);
            }
        }
        if insert_pos(s, r) < s.len() {
            assert(s.drop_first()[insert_pos(s, r) - 1] == s[insert_pos(s, r)]);
        }
    }
}

/// The first delivery index for `c` lies within the backlog and addresses
/// `c`, and nothing before it does.
pub proof fn lemma_find_for(s: Seq<DeliveryV>, c: Seq<char>)
    ensures
        0 <= find_for(s, c) <= s.len(),
        find_for(s, c) < s.len() ==> s[find_for(s, c)].recipient == c,
        forall|j: int| 0 <= j < find_for(s, c) ==> (#[trigger] s[j]).recipient != c,
    decreases s.len(),
{
    if s.len() > 0 && s[0].recipient != c {
        lemma_find_for(s.drop_first(), c);
        assert forall|j: int| 0 <= j < find_for(s, c) implies (#[trigger] s[j]).recipient != c by {
            if j > 0 {
                assert(s.drop_first()[j - 1] == s[j]);
            }
        }
    }
}

/// Inserting a delivery at its insertion point keeps the backlog ordered.
pub proof fn lemma_insert_sorted(s: Seq<DeliveryV>, d: DeliveryV)
    requires
        backlog_sorted(s),
    ensures
        backlog_sorted(s.insert(insert_pos(s, drank(d)), d)),
{
    let k = insert_pos(s, drank(d));
    lemma_insert_pos(s, drank(d));
    let t = s.insert(k, d);
    assert forall|i: int, j: int| 0 <= i < j < t.len() implies drank(#[trigger] t[i]) >= drank(
        #[trigger] t[j],
    ) by {
        assert(t.len() == s.len() + 1);
        if i < k {
            assert(t[i] == s[i]);
        } else if i == k {
            assert(t[i] == d);
        } else {
            assert(t[i] == s[i - 1]);
        }
        if j < k {
            assert(t[j] == s[j]);
        } else if j == k {
            assert(t[j] == d);
        } else {
            assert(t[j] == s[j - 1]);
        }
    }
}


// ---------------------------------------------------------------------------
// Queue well-formedness and spec-level steps
// ---------------------------------------------------------------------------

/// The outcome of asking to subscribe to a queue.
#[derive(Clone, Copy, Debug, PartialEq, Eq, Structural)]
pub enum SubscribeOutcome {
    /// The client now holds a role on the roster.
    Subscribed,
    /// The queue is private and the request waits for a moderator's
    /// approval; deliberately neither an error nor a silent success.
    PendingApproval,
    /// The client was already on the roster; nothing changed.
    AlreadySubscribed,
    /// The queue is protected and the client presented no credential.
    Unauthenticated,
}

impl QueueV {
    /// A queue's invariant: roster clients are unique; the pending and
    /// approved sets are unique, disjoint from each other and from the
    /// roster; the backlog is ordered by priority.
    pub open spec fn wf(self) -> bool {
        &&& forall|i: int, j: int|
            0 <= i < j < self.subscribers.len() ==> (#[trigger] self.subscribers[i]).client != (
            #[trigger] self.subscribers[j]).client
        &&& forall|i: int, j: int|
            0 <= i < j < self.pending.len() ==> #[trigger] self.pending[i]
                != #[trigger] self.pending[j]
        &&& forall|i: int, j: int|
            0 <= i < j < self.approved.len() ==> #[trigger] self.approved[i]
                != #[trigger] self.approved[j]
        &&& forall|i: int|
            0 <= i < self.pending.len() ==> !roster_contains(
                self.subscribers,
                #[trigger] self.pending[i],
            )
        &&& forall|i: int|
            0 <= i < self.approved.len() ==> !roster_contains(
                self.subscribers,
                #[trigger] self.approved[i],
            )
        &&& forall|i: int|
            0 <= i < self.pending.len() ==> !names_contain(
                self.approved,
                #[trigger] self.pending[i],
            )
        &&& backlog_sorted(self.backlog)
    }
}

/// Removes the first occurrence of `c` from a list of names, if any.
pub open spec fn names_remove(s: Seq<Seq<char>>, c: Seq<char>) -> Seq<Seq<char>> {
    if names_contain(s, c) {
        s.remove(names_idx(s, c))
    } else {
        s
    }
}

/// Removes the roster entry for `c`, if any.
pub open spec fn roster_remove(s: Seq<SubscriberV>, c: Seq<char>) -> Seq<SubscriberV> {
    if roster_contains(s, c) {
        s.remove(roster_idx(s, c))
    } else {
        s
    }
}

/// What subscribing does to one queue, and with which outcome. A client
/// already on the roster stays as it is. A public queue admits immediately;
/// a protected queue admits exactly the authenticated; a private queue
/// admits a previously approved client and otherwise parks the request in
/// the pending set.
pub open spec fn q_subscribe(q: QueueV, c: Seq<char>, role: QueueRoles, authed: bool) -> (
    QueueV,
    SubscribeOutcome,
) {
    if roster_contains(q.subscribers, c) {
        (q, SubscribeOutcome::AlreadySubscribed)
    } else {
        match q.access {
            QueueAccess::Public => (q_admit(q, c, role), SubscribeOutcome::Subscribed),
            QueueAccess::Protected => {
                if authed {
                    (q_admit(q, c, role), SubscribeOutcome::Subscribed)
                } else {
                    (q, SubscribeOutcome::Unauthenticated)
                }
            },
            QueueAccess::Private => {
                if names_contain(q.approved, c) {
                    (q_admit(q, c, role), SubscribeOutcome::Subscribed)
                } else if names_contain(q.pending, c) {
                    (q, SubscribeOutcome::PendingApproval)
                } else {
                    (
                        QueueV { pending: q.pending.push(c), ..q },
                        SubscribeOutcome::PendingApproval,
                    )
                }
            },
        }
    }
}

/// Admits a client: it joins the roster with the requested role, and any
/// pending or approved entry it had is cleared.
pub open spec fn q_admit(q: QueueV, c: Seq<char>, role: QueueRoles) -> QueueV {
    QueueV {
        subscribers: q.subscribers.push(SubscriberV { client: c, role }),
        pending: names_remove(q.pending, c),
        approved: names_remove(q.approved, c),
        ..q
    }
}

/// What unsubscribing does to one queue: the client leaves the roster and
/// any pending or approved entry of it is dropped. The flag says whether the
/// client was on the roster.
pub open spec fn q_unsubscribe(q: QueueV, c: Seq<char>) -> (QueueV, bool) {
    (
        QueueV {
            subscribers: roster_remove(q.subscribers, c),
            pending: names_remove(q.pending, c),
            approved: names_remove(q.approved, c),
            ..q
        },
        roster_contains(q.subscribers, c),
    )
}

/// What enqueueing a delivery does to one queue: the delivery enters the
/// backlog after every entry of at least its priority and before the first
/// entry of lower priority.
pub open spec fn q_enqueue(q: QueueV, d: DeliveryV) -> QueueV {
    QueueV { backlog: q.backlog.insert(insert_pos(q.backlog, drank(d)), d), ..q }
}

/// What dequeueing does to one queue: the front of the backlog leaves, the
/// highest-priority delivery that arrived earliest.
pub open spec fn q_dequeue(q: QueueV) -> (QueueV, Option<DeliveryV>) {
    if q.backlog.len() == 0 {
        (q, None)
    } else {
        (QueueV { backlog: q.backlog.drop_first(), ..q }, Some(q.backlog[0]))
    }
}

/// What dequeueing for one recipient does: the first delivery addressed to
/// it leaves the backlog, the highest-priority one among them.
pub open spec fn q_dequeue_for(q: QueueV, c: Seq<char>) -> (QueueV, Option<DeliveryV>) {
    let k = find_for(q.backlog, c);
    if k < q.backlog.len() {
        (QueueV { backlog: q.backlog.remove(k), ..q }, Some(q.backlog[k]))
    } else {
        (q, None)
    }
}

/// What a moderator's `Authorize` does to one queue: a waiting client moves
/// from the pending set to the roster as a consumer; a client that never
/// asked is pre-approved; a roster member is left as it is.
pub open spec fn q_authorize(q: QueueV, c: Seq<char>) -> QueueV {
    if roster_contains(q.subscribers, c) {
        q
    } else if names_contain(q.pending, c) {
        QueueV {
            pending: names_remove(q.pending, c),
            subscribers: q.subscribers.push(
                SubscriberV { client: c, role: QueueRoles::Consumer },
            ),
            ..q
        }
    } else if names_contain(q.approved, c) {
        q
    } else {
        QueueV { approved: q.approved.push(c), ..q }
    }
}

/// What a moderator's `Reject` does to one queue: every request waiting for
/// approval is turned down.
pub open spec fn q_reject(q: QueueV) -> QueueV {
    QueueV { pending: Seq::empty(), ..q }
}

/// What changing the admission policy does to one queue.
pub open spec fn q_accessor_modify(q: QueueV, a: QueueAccess) -> QueueV {
    QueueV { access: a, ..q }
}

// ---------------------------------------------------------------------------
// The spec-level steps preserve the queue invariant
// ---------------------------------------------------------------------------

/// A name list that does not hold `c` still does not after removing another
/// name, and removal keeps uniqueness and roster-disjointness.
proof fn lemma_names_remove_facts(s: Seq<Seq<char>>, c: Seq<char>)
    requires
        forall|i: int, j: int| 0 <= i < j < s.len() ==> #[trigger] s[i] != #[trigger] s[j],
    ensures
        forall|x: Seq<char>| !names_contain(s, x) ==> !names_contain(names_remove(s, c), x),
        !names_contain(names_remove(s, c), c),
        forall|i: int, j: int|
            0 <= i < j < names_remove(s, c).len() ==> #[trigger] names_remove(s, c)[i]
                != #[trigger] names_remove(s, c)[j],
        forall|i: int|
            0 <= i < names_remove(s, c).len() ==> exists|j: int|
                0 <= j < s.len() && #[trigger] names_remove(s, c)[i] == s[j],
{
    lemma_names_idx(s, c);
    let t = names_remove(s, c);
    if names_contain(s, c) {
        let k = names_idx(s, c);
        assert forall|i: int| 0 <= i < t.len() implies exists|j: int|
            0 <= j < s.len() && #[trigger] t[i] == s[j] by {
            if i < k {
                assert(t[i] == s[i]);
            } else {
                assert(t[i] == s[i + 1]);
            }
        }
        assert forall|x: Seq<char>| !names_contain(s, x) implies !names_contain(t, x) by {
            lemma_names_idx(s, x);
            lemma_names_idx(t, x);
            if names_contain(t, x) {
                let i = names_idx(t, x);
                if i < k {
                    assert(t[i] == s[i]);
                } else {
                    assert(t[i] == s[i + 1]);
                }
            }
        }
        lemma_names_idx(t, c);
        if names_contain(t, c) {
            let i = names_idx(t, c);
            if i < k {
                assert(t[i] == s[i]);
            } else {
                assert(t[i] == s[i + 1]);
            }
        }
    } else {
        assert(t =~= s);
        lemma_names_idx(s, c);
    }
}

/// Membership in a roster is membership at some index.
proof fn lemma_roster_contains_index(s: Seq<SubscriberV>, c: Seq<char>)
    ensures
        roster_contains(s, c) <==> exists|i: int| 0 <= i < s.len() && (#[trigger] s[i]).client == c,
{
    lemma_roster_idx(s, c);
    if exists|i: int| 0 <= i < s.len() && (#[trigger] s[i]).client == c {
        let i = choose|i: int| 0 <= i < s.len() && (#[trigger] s[i]).client == c;
        if !roster_contains(s, c) {
            assert(s[i].client != c);
        }
    }
}

/// Membership in a name list is membership at some index.
proof fn lemma_names_contain_index(s: Seq<Seq<char>>, c: Seq<char>)
    ensures
        names_contain(s, c) <==> exists|i: int| 0 <= i < s.len() && #[trigger] s[i] == c,
{
    lemma_names_idx(s, c);
    if exists|i: int| 0 <= i < s.len() && #[trigger] s[i] == c {
        let i = choose|i: int| 0 <= i < s.len() && #[trigger] s[i] == c;
        if !names_contain(s, c) {
            assert(s[i] != c);
        }
    }
}

/// Pushing a fresh client keeps roster membership of others and adds `c`.
proof fn lemma_roster_push_facts(s: Seq<SubscriberV>, c: Seq<char>, role: QueueRoles)
    ensures
        forall|x: Seq<char>|
            roster_contains(s.push(SubscriberV { client: c, role }), x) <==> (roster_contains(s, x)
                || x == c),
{
    let t = s.push(SubscriberV { client: c, role });
    assert forall|x: Seq<char>|
        roster_contains(t, x) <==> (roster_contains(s, x) || x == c) by {
        lemma_roster_contains_index(s, x);
        lemma_roster_contains_index(t, x);
        if roster_contains(s, x) {
            let i = choose|i: int| 0 <= i < s.len() && (#[trigger] s[i]).client == x;
            assert(t[i].client == x);
        }
        if x == c {
            assert(t[s.len() as int].client == c);
        }
        if roster_contains(t, x) && x != c {
            let i = choose|i: int| 0 <= i < t.len() && (#[trigger] t[i]).client == x;
            assert(i < s.len());
            assert(s[i].client == x);
        }
    }
}

/// Admitting a fresh client keeps the queue invariant.
proof fn lemma_q_admit_wf(q: QueueV, c: Seq<char>, role: QueueRoles)
    requires
        q.wf(),
        !roster_contains(q.subscribers, c),
    ensures
        q_admit(q, c, role).wf(),
{
    let nq = q_admit(q, c, role);
    let pushed = q.subscribers.push(SubscriberV { client: c, role });
    lemma_roster_idx(q.subscribers, c);
    assert forall|i: int, j: int| 0 <= i < j < pushed.len() implies (
    #[trigger] pushed[i]).client != (#[trigger] pushed[j]).client by {
        if j == s_len(q.subscribers) {
            assert(pushed[j].client == c);
            assert(pushed[i] == q.subscribers[i]);
        }
    }
    lemma_roster_push_facts(q.subscribers, c, role);
    lemma_names_remove_facts(q.pending, c);
    lemma_names_remove_facts(q.approved, c);
    assert forall|i: int| 0 <= i < nq.pending.len() implies !roster_contains(
        nq.subscribers,
        #[trigger] nq.pending[i],
    ) by {
        let x = nq.pending[i];
        assert(exists|j: int| 0 <= j < q.pending.len() && x == #[trigger] q.pending[j]);
        let j = choose|j: int| 0 <= j < q.pending.len() && x == #[trigger] q.pending[j];
        assert(!roster_contains(q.subscribers, q.pending[j]));
        assert(x != c) by {
            lemma_names_contain_index(nq.pending, c);
            if x == c {
                assert(names_contain(nq.pending, c));
            }
        }
    }
    assert forall|i: int| 0 <= i < nq.approved.len() implies !roster_contains(
        nq.subscribers,
        #[trigger] nq.approved[i],
    ) by {
        let x = nq.approved[i];
        assert(exists|j: int| 0 <= j < q.approved.len() && x == #[trigger] q.approved[j]);
        let j = choose|j: int| 0 <= j < q.approved.len() && x == #[trigger] q.approved[j];
        assert(!roster_contains(q.subscribers, q.approved[j]));
        assert(x != c) by {
            lemma_names_contain_index(nq.approved, c);
            if x == c {
                assert(names_contain(nq.approved, c));
            }
        }
    }
    assert forall|i: int| 0 <= i < nq.pending.len() implies !names_contain(
        nq.approved,
        #[trigger] nq.pending[i],
    ) by {
        let x = nq.pending[i];
        assert(exists|j: int| 0 <= j < q.pending.len() && x == #[trigger] q.pending[j]);
        let j = choose|j: int| 0 <= j < q.pending.len() && x == #[trigger] q.pending[j];
        assert(!names_contain(q.approved, q.pending[j]));
    }
}

/// Subscribing keeps the queue invariant.
pub proof fn lemma_q_subscribe_wf(q: QueueV, c: Seq<char>, role: QueueRoles, authed: bool)
    requires
        q.wf(),
    ensures
        q_subscribe(q, c, role, authed).0.wf(),
{
    let (nq, o) = q_subscribe(q, c, role, authed);
    if !roster_contains(q.subscribers, c) {
        match q.access {
            QueueAccess::Public => {
                lemma_q_admit_wf(q, c, role);
            },
            QueueAccess::Protected => {
                if authed {
                    lemma_q_admit_wf(q, c, role);
                }
            },
            QueueAccess::Private => {
                if names_contain(q.approved, c) {
                    lemma_q_admit_wf(q, c, role);
                } else if !names_contain(q.pending, c) {
                    let np = q.pending.push(c);
                    assert forall|i: int, j: int| 0 <= i < j < np.len() implies #[trigger] np[i]
                        != #[trigger] np[j] by {
                        lemma_names_contain_index(q.pending, c);
                        if j == s_len2(q.pending) {
                            assert(np[j] == c);
                            assert(np[i] == q.pending[i]);
                            if np[i] == c {
                                assert(names_contain(q.pending, c));
                            }
                        }
                    }
                    assert forall|i: int| 0 <= i < np.len() implies !roster_contains(
                        nq.subscribers,
                        #[trigger] np[i],
                    ) by {
                        if i < q.pending.len() {
                            assert(np[i] == q.pending[i]);
                        } else {
                            assert(np[i] == c);
                        }
                    }
                    assert forall|i: int| 0 <= i < np.len() implies !names_contain(
                        nq.approved,
                        #[trigger] np[i],
                    ) by {
                        if i < q.pending.len() {
                            assert(np[i] == q.pending[i]);
                        } else {
                            assert(np[i] == c);
                            lemma_names_contain_index(q.approved, c);
                        }
                    }
                }
            },
        }
    }
}

/// Length of a roster; a helper to name the pushed index in proofs.
spec fn s_len(s: Seq<SubscriberV>) -> int {
    s.len() as int
}

/// Length of a name list; a helper to name the pushed index in proofs.
spec fn s_len2(s: Seq<Seq<char>>) -> int {
    s.len() as int
}

/// Removing a roster entry keeps the queue invariant's roster clauses.
pub(crate) proof fn lemma_roster_remove_facts(s: Seq<SubscriberV>, c: Seq<char>)
    requires
        forall|i: int, j: int|
            0 <= i < j < s.len() ==> (#[trigger] s[i]).client != (#[trigger] s[j]).client,
    ensures
        forall|i: int, j: int|
            0 <= i < j < roster_remove(s, c).len() ==> (#[trigger] roster_remove(s, c)[i]).client
                != (#[trigger] roster_remove(s, c)[j]).client,
        forall|x: Seq<char>| !roster_contains(s, x) ==> !roster_contains(roster_remove(s, c), x),
        !roster_contains(roster_remove(s, c), c),
{
    lemma_roster_idx(s, c);
    let t = roster_remove(s, c);
    if roster_contains(s, c) {
        let k = roster_idx(s, c);
        assert forall|i: int, j: int| 0 <= i < j < t.len() implies (#[trigger] t[i]).client != (
        #[trigger] t[j]).client by {
            if i < k {
                assert(t[i] == s[i]);
            } else {
                assert(t[i] == s[i + 1]);
            }
            if j < k {
                assert(t[j] == s[j]);
            } else {
                assert(t[j] == s[j + 1]);
            }
        }
        assert forall|x: Seq<char>| !roster_contains(s, x) implies !roster_contains(t, x) by {
            lemma_roster_contains_index(s, x);
            lemma_roster_contains_index(t, x);
            if roster_contains(t, x) {
                let i = choose|i: int| 0 <= i < t.len() && (#[trigger] t[i]).client == x;
                if i < k {
                    assert(t[i] == s[i]);
                } else {
                    assert(t[i] == s[i + 1]);
                }
            }
        }
        lemma_roster_contains_index(t, c);
        if roster_contains(t, c) {
            let i = choose|i: int| 0 <= i < t.len() && (#[trigger] t[i]).client == c;
            if i < k {
                assert(t[i] == s[i]);
                assert(s[i].client != s[k].client);
            } else {
                assert(t[i] == s[i + 1]);
                assert(s[k].client != s[i + 1].client);
            }
        }
    } else {
        assert(t =~= s);
    }
}

/// Unsubscribing keeps the queue invariant.
pub proof fn lemma_q_unsubscribe_wf(q: QueueV, c: Seq<char>)
    requires
        q.wf(),
    ensures
        q_unsubscribe(q, c).0.wf(),
{
    let nq = q_unsubscribe(q, c).0;
    lemma_roster_remove_facts(q.subscribers, c);
    lemma_names_remove_facts(q.pending, c);
    lemma_names_remove_facts(q.approved, c);
    assert forall|i: int| 0 <= i < nq.pending.len() implies !roster_contains(
        nq.subscribers,
        #[trigger] nq.pending[i],
    ) by {
        assert(exists|j: int|
            0 <= j < q.pending.len() && #[trigger] nq.pending[i] == q.pending[j]);
        let j = choose|j: int|
            0 <= j < q.pending.len() && #[trigger] nq.pending[i] == q.pending[j];
        assert(!roster_contains(q.subscribers, q.pending[j]));
    }
    assert forall|i: int| 0 <= i < nq.approved.len() implies !roster_contains(
        nq.subscribers,
        #[trigger] nq.approved[i],
    ) by {
        assert(exists|j: int|
            0 <= j < q.approved.len() && #[trigger] nq.approved[i] == q.approved[j]);
        let j = choose|j: int|
            0 <= j < q.approved.len() && #[trigger] nq.approved[i] == q.approved[j];
        assert(!roster_contains(q.subscribers, q.approved[j]));
    }
    assert forall|i: int| 0 <= i < nq.pending.len() implies !names_contain(
        nq.approved,
        #[trigger] nq.pending[i],
    ) by {
        assert(exists|j: int|
            0 <= j < q.pending.len() && #[trigger] nq.pending[i] == q.pending[j]);
        let j = choose|j: int|
            0 <= j < q.pending.len() && #[trigger] nq.pending[i] == q.pending[j];
        assert(!names_contain(q.approved, q.pending[j]));
    }
}

/// Enqueueing keeps the queue invariant.
pub proof fn lemma_q_enqueue_wf(q: QueueV, d: DeliveryV)
    requires
        q.wf(),
    ensures
        q_enqueue(q, d).wf(),
{
    lemma_insert_sorted(q.backlog, d);
}

/// Dequeueing keeps the queue invariant.
pub proof fn lemma_q_dequeue_wf(q: QueueV)
    requires
        q.wf(),
    ensures
        q_dequeue(q).0.wf(),
{
    let nq = q_dequeue(q).0;
    if q.backlog.len() > 0 {
        assert forall|i: int, j: int| 0 <= i < j < nq.backlog.len() implies drank(
            #[trigger] nq.backlog[i],
        ) >= drank(#[trigger] nq.backlog[j]) by {
            assert(nq.backlog[i] == q.backlog[i + 1]);
            assert(nq.backlog[j] == q.backlog[j + 1]);
        }
    }
}

/// Dequeueing for one recipient keeps the queue invariant.
pub proof fn lemma_q_dequeue_for_wf(q: QueueV, c: Seq<char>)
    requires
        q.wf(),
    ensures
        q_dequeue_for(q, c).0.wf(),
{
    let k = find_for(q.backlog, c);
    lemma_find_for(q.backlog, c);
    let nq = q_dequeue_for(q, c).0;
    if k < q.backlog.len() {
        assert forall|i: int, j: int| 0 <= i < j < nq.backlog.len() implies drank(
            #[trigger] nq.backlog[i],
        ) >= drank(#[trigger] nq.backlog[j]) by {
            if i < k {
                assert(nq.backlog[i] == q.backlog[i]);
            } else {
                assert(nq.backlog[i] == q.backlog[i + 1]);
            }
            if j < k {
                assert(nq.backlog[j] == q.backlog[j]);
            } else {
                assert(nq.backlog[j] == q.backlog[j + 1]);
            }
        }
    }
}

/// Authorizing keeps the queue invariant.
pub proof fn lemma_q_authorize_wf(q: QueueV, c: Seq<char>)
    requires
        q.wf(),
    ensures
        q_authorize(q, c).wf(),
{
    let nq = q_authorize(q, c);
    if roster_contains(q.subscribers, c) {
    } else if names_contain(q.pending, c) {
        lemma_names_remove_facts(q.pending, c);
        lemma_roster_push_facts(q.subscribers, c, QueueRoles::Consumer);
        lemma_roster_idx(q.subscribers, c);
        let pushed = q.subscribers.push(SubscriberV { client: c, role: QueueRoles::Consumer });
        assert forall|i: int, j: int| 0 <= i < j < pushed.len() implies (
        #[trigger] pushed[i]).client != (#[trigger] pushed[j]).client by {
            if j == s_len(q.subscribers) {
                assert(pushed[j].client == c);
                assert(pushed[i] == q.subscribers[i]);
            }
        }
        assert forall|i: int| 0 <= i < nq.pending.len() implies !roster_contains(
            nq.subscribers,
            #[trigger] nq.pending[i],
        ) by {
            assert(exists|j: int|
                0 <= j < q.pending.len() && #[trigger] nq.pending[i] == q.pending[j]);
            let j = choose|j: int|
                0 <= j < q.pending.len() && #[trigger] nq.pending[i] == q.pending[j];
            assert(!roster_contains(q.subscribers, q.pending[j]));
            assert(!names_contain(names_remove(q.pending, c), c));
            if nq.pending[i] == c {
                assert(names_contain(nq.pending, c)) by {
                    lemma_names_contain_index(nq.pending, c);
                }
            }
        }
        assert forall|i: int| 0 <= i < nq.approved.len() implies !roster_contains(
            nq.subscribers,
            #[trigger] nq.approved[i],
        ) by {
            if nq.approved[i] == c {
                lemma_names_contain_index(q.approved, c);
                assert(names_contain(q.approved, c));
                lemma_names_idx(q.pending, c);
                assert(names_contain(q.pending, c));
                assert(!names_contain(q.approved, q.pending[names_idx(q.pending, c)]));
            }
        }
        assert forall|i: int| 0 <= i < nq.pending.len() implies !names_contain(
            nq.approved,
            #[trigger] nq.pending[i],
        ) by {
            assert(exists|j: int|
                0 <= j < q.pending.len() && #[trigger] nq.pending[i] == q.pending[j]);
            let j = choose|j: int|
                0 <= j < q.pending.len() && #[trigger] nq.pending[i] == q.pending[j];
            assert(!names_contain(q.approved, q.pending[j]));
        }
    } else if names_contain(q.approved, c) {
    } else {
        let na = q.approved.push(c);
        assert forall|i: int, j: int| 0 <= i < j < na.len() implies #[trigger] na[i]
            != #[trigger] na[j] by {
            lemma_names_contain_index(q.approved, c);
            if j == s_len2(q.approved) {
                assert(na[j] == c);
                assert(na[i] == q.approved[i]);
                if na[i] == c {
                    assert(names_contain(q.approved, c));
                }
            }
        }
        assert forall|i: int| 0 <= i < na.len() implies !roster_contains(
            nq.subscribers,
            #[trigger] na[i],
        ) by {
            if i < q.approved.len() {
                assert(na[i] == q.approved[i]);
            } else {
                assert(na[i] == c);
            }
        }
        assert forall|i: int| 0 <= i < nq.pending.len() implies !names_contain(
            na,
            #[trigger] nq.pending[i],
        ) by {
            lemma_names_contain_index(q.approved, nq.pending[i]);
            lemma_names_contain_index(na, nq.pending[i]);
            lemma_names_contain_index(q.pending, c);
            if names_contain(na, nq.pending[i]) {
                let j = choose|j: int| 0 <= j < na.len() && #[trigger] na[j] == nq.pending[i];
                if j < q.approved.len() {
                    assert(na[j] == q.approved[j]);
                    assert(names_contain(q.approved, nq.pending[i]));
                } else {
                    assert(na[j] == c);
                    assert(names_contain(q.pending, c));
                }
            }
        }
    }
}

/// Rejecting all pending requests keeps the queue invariant.
pub proof fn lemma_q_reject_wf(q: QueueV)
    requires
        q.wf(),
    ensures
        q_reject(q).wf(),
{
}

/// Changing the admission policy keeps the queue invariant.
pub proof fn lemma_q_accessor_modify_wf(q: QueueV, a: QueueAccess)
    requires
        q.wf(),
    ensures
        q_accessor_modify(q, a).wf(),
{
}


// ---------------------------------------------------------------------------
// Locating entries: the executable searches match the spec indices
// ---------------------------------------------------------------------------

/// A scan that saw no match in the first `i` entries and a match at `i`, if
/// within range, has found the first roster index.
proof fn lemma_roster_idx_at(s: Seq<SubscriberV>, c: Seq<char>, i: int)
    requires
        0 <= i <= s.len(),
        forall|j: int| 0 <= j < i ==> (#[trigger] s[j]).client != c,
        i < s.len() ==> s[i].client == c,
    ensures
        roster_idx(s, c) == i,
    decreases i,
{
    if i == 0 {
    } else {
        assert(s[0].client != c);
        lemma_roster_idx_at(s.drop_first(), c, i - 1);
        assert forall|j: int| 0 <= j < i - 1 implies (#[trigger] s.drop_first()[j]).client != c by {
            assert(s.drop_first()[j] == s[j + 1]);
        }
        assert(i - 1 < s.drop_first().len() ==> s.drop_first()[i - 1].client == c);
    }
}

/// The same for a list of names.
proof fn lemma_names_idx_at(s: Seq<Seq<char>>, c: Seq<char>, i: int)
    requires
        0 <= i <= s.len(),
        forall|j: int| 0 <= j < i ==> #[trigger] s[j] != c,
        i < s.len() ==> s[i] == c,
    ensures
        names_idx(s, c) == i,
    decreases i,
{
    if i == 0 {
    } else {
        assert(s[0] != c);
        lemma_names_idx_at(s.drop_first(), c, i - 1);
        assert forall|j: int| 0 <= j < i - 1 implies #[trigger] s.drop_first()[j] != c by {
            assert(s.drop_first()[j] == s[j + 1]);
        }
        assert(i - 1 < s.drop_first().len() ==> s.drop_first()[i - 1] == c);
    }
}

/// The same for the first delivery addressed to `c`.
proof fn lemma_find_for_at(s: Seq<DeliveryV>, c: Seq<char>, i: int)
    requires
        0 <= i <= s.len(),
        forall|j: int| 0 <= j < i ==> (#[trigger] s[j]).recipient != c,
        i < s.len() ==> s[i].recipient == c,
    ensures
        find_for(s, c) == i,
    decreases i,
{
    if i == 0 {
    } else {
        assert(s[0].recipient != c);
        lemma_find_for_at(s.drop_first(), c, i - 1);
        assert forall|j: int| 0 <= j < i - 1 implies (#[trigger] s.drop_first()[j]).recipient
            != c by {
            assert(s.drop_first()[j] == s[j + 1]);
        }
        assert(i - 1 < s.drop_first().len() ==> s.drop_first()[i - 1].recipient == c);
    }
}

/// A scan that saw only ranks at least `r` in the first `i` entries and a
/// lower rank at `i`, if within range, has found the insertion point.
proof fn lemma_insert_pos_at(s: Seq<DeliveryV>, r: int, i: int)
    requires
        0 <= i <= s.len(),
        forall|j: int| 0 <= j < i ==> drank(#[trigger] s[j]) >= r,
        i < s.len() ==> drank(s[i]) < r,
    ensures
        insert_pos(s, r) == i,
    decreases i,
{
    if i == 0 {
    } else {
        assert(drank(s[0]) >= r);
        lemma_insert_pos_at(s.drop_first(), r, i - 1);
        assert forall|j: int| 0 <= j < i - 1 implies drank(#[trigger] s.drop_first()[j]) >= r by {
            assert(s.drop_first()[j] == s[j + 1]);
        }
        assert(i - 1 < s.drop_first().len() ==> drank(s.drop_first()[i - 1]) < r);
    }
}

/// Finds the first roster entry for `client`, or the roster's length.
pub(crate) fn roster_position(subs: &Vec<Subscriber>, client: &String) -> (i: usize)
    ensures
        i as int == roster_idx(subs@.map_values(|s: Subscriber| s@), client@),
{
    let ghost vs = subs@.map_values(|s: Subscriber| s@);
    let mut i: usize = 0;
    while i < subs.len()
        invariant
            i <= subs@.len(),
            vs == subs@.map_values(|s: Subscriber| s@),
            vs.len() == subs@.len(),
            forall|j: int| 0 <= j < i ==> (#[trigger] vs[j]).client != client@,
        decreases subs@.len() - i,
    {
        if subs[i].client == *client {
            proof {
                assert(vs[i as int] == subs@[i as int]@);
                lemma_roster_idx_at(vs, client@, i as int);
            }
            return i;
        }
        proof {
            assert(vs[i as int] == subs@[i as int]@);
        }
        i = i + 1;
    }
    proof {
        lemma_roster_idx_at(vs, client@, i as int);
    }
    i
}

/// Finds the first occurrence of `client` in a list of names, or its length.
fn names_position(names: &Vec<String>, client: &String) -> (i: usize)
    ensures
        i as int == names_idx(names@.map_values(|s: String| s@), client@),
{
    let ghost vs = names@.map_values(|s: String| s@);
    let mut i: usize = 0;
    while i < names.len()
        invariant
            i <= names@.len(),
            vs == names@.map_values(|s: String| s@),
            vs.len() == names@.len(),
            forall|j: int| 0 <= j < i ==> #[trigger] vs[j] != client@,
        decreases names@.len() - i,
    {
        if names[i] == *client {
            proof {
                assert(vs[i as int] == names@[i as int]@);
                lemma_names_idx_at(vs, client@, i as int);
            }
            return i;
        }
        proof {
            assert(vs[i as int] == names@[i as int]@);
        }
        i = i + 1;
    }
    proof {
        lemma_names_idx_at(vs, client@, i as int);
    }
    i
}

/// Removes the first occurrence of `client` from a list of names, if any.
fn names_take_out(names: &mut Vec<String>, client: &String)
    ensures
        final(names)@.map_values(|s: String| s@) == names_remove(
            old(names)@.map_values(|s: String| s@),
            client@,
        ),
{
    let ghost vs = old(names)@.map_values(|s: String| s@);
    let k = names_position(names, client);
    proof {
        lemma_names_idx(vs, client@);
    }
    if k < names.len() {
        names.remove(k);
        proof {
            assert(names@.map_values(|s: String| s@) =~= vs.remove(k as int));
        }
    }
}

// ---------------------------------------------------------------------------
// Executable queue operations
// ---------------------------------------------------------------------------

impl Queue {
    /// A fresh queue with the given name and admission policy: empty roster,
    /// no pending or approved clients, empty backlog.
    pub fn new(name: String, access: QueueAccess) -> (q: Queue)
        ensures
            q@ == (QueueV {
                name: name@,
                access,
                subscribers: Seq::empty(),
                pending: Seq::empty(),
                approved: Seq::empty(),
                backlog: Seq::empty(),
            }),
            q@.wf(),
    {
        let q = Queue {
            name,
            access,
            subscribers: Vec::new(),
            pending: Vec::new(),
            approved: Vec::new(),
            backlog: Vec::new(),
        };
        proof {
            assert(q.subscribers@.map_values(|s: Subscriber| s@) =~= Seq::<SubscriberV>::empty());
            assert(q.pending@.map_values(|s: String| s@) =~= Seq::<Seq<char>>::empty());
            assert(q.approved@.map_values(|s: String| s@) =~= Seq::<Seq<char>>::empty());
            assert(q.backlog@.map_values(|d: Delivery| d@) =~= Seq::<DeliveryV>::empty());
        }
        q
    }

    /// The role `client` holds on this queue, if any.
    pub fn find_role(&self, client: &String) -> (r: Option<QueueRoles>)
        ensures
            r == role_of(self@.subscribers, client@),
    {
        let k = roster_position(&self.subscribers, client);
        proof {
            lemma_roster_idx(self@.subscribers, client@);
        }
        if k < self.subscribers.len() {
            Some(self.subscribers[k].role)
        } else {
            None
        }
    }

    /// Admits `client` with `role`: it joins the roster and its pending and
    /// approved entries, if any, are cleared.
    fn enroll(&mut self, client: &String, role: QueueRoles)
        ensures
            final(self)@ == q_admit(old(self)@, client@, role),
    {
        self.subscribers.push(Subscriber { client: client.clone(), role });
        proof {
            assert(self.subscribers@.map_values(|s: Subscriber| s@) =~= old(
                self,
            )@.subscribers.push(SubscriberV { client: client@, role }));
        }
        names_take_out(&mut self.pending, client);
        names_take_out(&mut self.approved, client);
        proof {
            assert(final(self)@ =~= q_admit(old(self)@, client@, role));
        }
    }

    /// Asks to subscribe `client` with `role`. A public queue admits
    /// immediately; a protected queue admits exactly when the client is
    /// authenticated; a private queue admits a previously approved client
    /// and otherwise parks the request as pending, never admitting without
    /// approval.
    pub fn subscribe(&mut self, client: &String, role: QueueRoles, authenticated: bool) -> (o:
        SubscribeOutcome)
        ensures
            final(self)@ == q_subscribe(old(self)@, client@, role, authenticated).0,
            o == q_subscribe(old(self)@, client@, role, authenticated).1,
            old(self)@.wf() ==> final(self)@.wf(),
    {
        proof {
            if old(self)@.wf() {
                lemma_q_subscribe_wf(old(self)@, client@, role, authenticated);
            }
        }
        let k = roster_position(&self.subscribers, client);
        if k < self.subscribers.len() {
            return SubscribeOutcome::AlreadySubscribed;
        }
        match self.access {
            QueueAccess::Public => {
                self.enroll(client, role);
                SubscribeOutcome::Subscribed
            },
            QueueAccess::Protected => {
                if authenticated {
                    self.enroll(client, role);
                    SubscribeOutcome::Subscribed
                } else {
                    SubscribeOutcome::Unauthenticated
                }
            },
            QueueAccess::Private => {
                let a = names_position(&self.approved, client);
                proof {
                    lemma_names_idx(self@.approved, client@);
                }
                if a < self.approved.len() {
                    self.enroll(client, role);
                    SubscribeOutcome::Subscribed
                } else {
                    let p = names_position(&self.pending, client);
                    proof {
                        lemma_names_idx(self@.pending, client@);
                    }
                    if p < self.pending.len() {
                        SubscribeOutcome::PendingApproval
                    } else {
                        self.pending.push(client.clone());
                        proof {
                            assert(self.pending@.map_values(|s: String| s@) =~= old(
                                self,
                            )@.pending.push(client@));
                        }
                        SubscribeOutcome::PendingApproval
                    }
                }
            },
        }
    }

    /// Removes `client` from the queue: its roster entry and any pending or
    /// approved entry leave. Reports whether it was on the roster.
    pub fn unsubscribe(&mut self, client: &String) -> (was: bool)
        ensures
            final(self)@ == q_unsubscribe(old(self)@, client@).0,
            was == q_unsubscribe(old(self)@, client@).1,
            old(self)@.wf() ==> final(self)@.wf(),
    {
        proof {
            if old(self)@.wf() {
                lemma_q_unsubscribe_wf(old(self)@, client@);
            }
        }
        let k = roster_position(&self.subscribers, client);
        proof {
            lemma_roster_idx(self@.subscribers, client@);
        }
        let was = k < self.subscribers.len();
        if was {
            self.subscribers.remove(k);
            proof {
                assert(self.subscribers@.map_values(|s: Subscriber| s@) =~= old(
                    self,
                )@.subscribers.remove(k as int));
            }
        }
        names_take_out(&mut self.pending, client);
        names_take_out(&mut self.approved, client);
        proof {
            assert(final(self)@ =~= q_unsubscribe(old(self)@, client@).0);
        }
        was
    }

    /// Appends a delivery to the backlog, after every delivery of at least
    /// its priority and before the first of lower priority, so that equal
    /// priorities keep publish order.
    pub fn enqueue(&mut self, d: Delivery)
        ensures
            final(self)@ == q_enqueue(old(self)@, d@),
            old(self)@.wf() ==> final(self)@.wf(),
    {
        proof {
            if old(self)@.wf() {
                lemma_q_enqueue_wf(old(self)@, d@);
            }
        }
        let ghost bl = old(self)@.backlog;
        let r = d.message.priority.rank();
        let mut k: usize = 0;
        while k < self.backlog.len() && self.backlog[k].message.priority.rank() >= r
            invariant
                k <= self.backlog@.len(),
                self == old(self),
                bl == self.backlog@.map_values(|x: Delivery| x@),
                bl.len() == self.backlog@.len(),
                r as int == drank(d@),
                forall|j: int| 0 <= j < k ==> drank(#[trigger] bl[j]) >= r,
            decreases self.backlog@.len() - k,
        {
            proof {
                assert(bl[k as int] == self.backlog@[k as int]@);
            }
            k = k + 1;
        }
        proof {
            assert(k < self.backlog@.len() ==> drank(bl[k as int]) < r) by {
                if k < self.backlog@.len() {
                    assert(bl[k as int] == self.backlog@[k as int]@);
                }
            }
            lemma_insert_pos_at(bl, r as int, k as int);
        }
        self.backlog.insert(k, d);
        proof {
            assert(self.backlog@.map_values(|x: Delivery| x@) =~= bl.insert(k as int, d@));
            assert(final(self)@ =~= q_enqueue(old(self)@, d@));
        }
    }

    /// Hands out the front of the backlog: the highest-priority delivery
    /// that arrived earliest. On a well-formed queue the result ranks at
    /// least as high as everything left behind; in particular no low
    /// priority delivery comes out while a critical one is present.
    pub fn dequeue(&mut self) -> (r: Option<Delivery>)
        ensures
            final(self)@ == q_dequeue(old(self)@).0,
            match r {
                Some(d) => q_dequeue(old(self)@).1 == Some(d@),
                None => q_dequeue(old(self)@).1 is None,
            },
            old(self)@.wf() ==> match r {
                Some(d) => forall|i: int|
                    0 <= i < old(self)@.backlog.len() ==> drank(d@) >= drank(
                        #[trigger] old(self)@.backlog[i],
                    ),
                None => old(self)@.backlog.len() == 0,
            },
            old(self)@.wf() ==> final(self)@.wf(),
    {
        proof {
            if old(self)@.wf() {
                lemma_q_dequeue_wf(old(self)@);
            }
        }
        if self.backlog.len() == 0 {
            return None;
        }
        let d = self.backlog.remove(0);
        proof {
            let bl = old(self)@.backlog;
            assert(bl[0] == old(self).backlog@[0]@);
            assert(self.backlog@.map_values(|x: Delivery| x@) =~= bl.drop_first());
            assert(final(self)@ =~= q_dequeue(old(self)@).0);
        }
        Some(d)
    }

    /// Hands out the first backlogged delivery addressed to `client`: the
    /// highest-priority one among them, earliest first on ties. On a
    /// well-formed queue no low-priority delivery for a client comes out
    /// while a critical one for the same client waits.
    pub fn dequeue_for(&mut self, client: &String) -> (r: Option<Delivery>)
        ensures
            final(self)@ == q_dequeue_for(old(self)@, client@).0,
            match r {
                Some(d) => q_dequeue_for(old(self)@, client@).1 == Some(d@),
                None => q_dequeue_for(old(self)@, client@).1 is None,
            },
            old(self)@.wf() ==> match r {
                Some(d) => d@.recipient == client@ && forall|i: int|
                    0 <= i < old(self)@.backlog.len() && (#[trigger] old(
                        self,
                    )@.backlog[i]).recipient == client@ ==> drank(d@) >= drank(
                        old(self)@.backlog[i],
                    ),
                None => forall|i: int|
                    0 <= i < old(self)@.backlog.len() ==> (#[trigger] old(
                        self,
                    )@.backlog[i]).recipient != client@,
            },
            old(self)@.wf() ==> final(self)@.wf(),
    {
        proof {
            if old(self)@.wf() {
                lemma_q_dequeue_for_wf(old(self)@, client@);
            }
        }
        let ghost bl = old(self)@.backlog;
        let mut k: usize = 0;
        while k < self.backlog.len() && !(self.backlog[k].recipient == *client)
            invariant
                k <= self.backlog@.len(),
                self == old(self),
                bl == self.backlog@.map_values(|x: Delivery| x@),
                bl.len() == self.backlog@.len(),
                forall|j: int| 0 <= j < k ==> (#[trigger] bl[j]).recipient != client@,
            decreases self.backlog@.len() - k,
        {
            proof {
                assert(bl[k as int] == self.backlog@[k as int]@);
            }
            k = k + 1;
        }
        proof {
            assert(k < self.backlog@.len() ==> bl[k as int].recipient == client@) by {
                if k < self.backlog@.len() {
                    assert(bl[k as int] == self.backlog@[k as int]@);
                }
            }
            lemma_find_for_at(bl, client@, k as int);
            lemma_find_for(bl, client@);
        }
        if k == self.backlog.len() {
            return None;
        }
        let d = self.backlog.remove(k);
        proof {
            assert(bl[k as int] == old(self).backlog@[k as int]@);
            assert(self.backlog@.map_values(|x: Delivery| x@) =~= bl.remove(k as int));
            assert(final(self)@ =~= q_dequeue_for(old(self)@, client@).0);
        }
        Some(d)
    }

    /// Applies a moderator's `Authorize` for `client`: a waiting request is
    /// granted and the client joins as a consumer; a client that never asked
    /// is pre-approved; a roster member is left as it is.
    pub fn authorize(&mut self, client: &String)
        ensures
            final(self)@ == q_authorize(old(self)@, client@),
            old(self)@.wf() ==> final(self)@.wf(),
    {
        proof {
            if old(self)@.wf() {
                lemma_q_authorize_wf(old(self)@, client@);
            }
        }
        let k = roster_position(&self.subscribers, client);
        proof {
            lemma_roster_idx(self@.subscribers, client@);
        }
        if k < self.subscribers.len() {
            return;
        }
        let p = names_position(&self.pending, client);
        proof {
            lemma_names_idx(self@.pending, client@);
        }
        if p < self.pending.len() {
            self.pending.remove(p);
            self.subscribers.push(Subscriber { client: client.clone(), role: QueueRoles::Consumer });
            proof {
                assert(self.pending@.map_values(|s: String| s@) =~= names_remove(
                    old(self)@.pending,
                    client@,
                ));
                assert(self.subscribers@.map_values(|s: Subscriber| s@) =~= old(
                    self,
                )@.subscribers.push(SubscriberV { client: client@, role: QueueRoles::Consumer }));
                assert(final(self)@ =~= q_authorize(old(self)@, client@));
            }
            return;
        }
        let a = names_position(&self.approved, client);
        proof {
            lemma_names_idx(self@.approved, client@);
        }
        if a < self.approved.len() {
            return;
        }
        self.approved.push(client.clone());
        proof {
            assert(self.approved@.map_values(|s: String| s@) =~= old(self)@.approved.push(
                client@,
            ));
            assert(final(self)@ =~= q_authorize(old(self)@, client@));
        }
    }

    /// Applies a moderator's `Reject`: every request waiting for approval is
    /// turned down.
    pub fn reject_pending(&mut self)
        ensures
            final(self)@ == q_reject(old(self)@),
            old(self)@.wf() ==> final(self)@.wf(),
    {
        proof {
            if old(self)@.wf() {
                lemma_q_reject_wf(old(self)@);
            }
        }
        self.pending.clear();
        proof {
            assert(self.pending@.map_values(|s: String| s@) =~= Seq::<Seq<char>>::empty());
            assert(final(self)@ =~= q_reject(old(self)@));
        }
    }

    /// Changes the queue's admission policy.
    pub fn set_access(&mut self, access: QueueAccess)
        ensures
            final(self)@ == q_accessor_modify(old(self)@, access),
            old(self)@.wf() ==> final(self)@.wf(),
    {
        proof {
            if old(self)@.wf() {
                lemma_q_accessor_modify_wf(old(self)@, access);
            }
        }
        self.access = access;
        proof {
            assert(final(self)@ =~= q_accessor_modify(old(self)@, access));
        }
    }
}


// ---------------------------------------------------------------------------
// The registry of live queues
// ---------------------------------------------------------------------------

/// The outcome of leaving a queue.
#[derive(Clone, Copy, Debug, PartialEq, Eq, Structural)]
pub enum UnsubscribeOutcome {
    /// The client left the roster.
    Removed,
    /// The client held no roster entry there.
    NotSubscribed,
    /// No queue of that name exists.
    NoQueue,
}

/// The outcome of an administrative action.
#[derive(Clone, Copy, Debug, PartialEq, Eq, Structural)]
pub enum ManageOutcome {
    /// The action was applied.
    Applied,
    /// No queue of that name exists.
    NoQueue,
    /// The requester holds no moderator or manager role there, or the
    /// action's target outranks the requester.
    Forbidden,
    /// A rename would collide with another queue's name.
    NameTaken,
}

/// Index of the first queue of that name; the list's length when absent.
pub open spec fn queues_idx(qs: Seq<QueueV>, name: Seq<char>) -> int
    decreases qs.len(),
{
    if qs.len() == 0 {
        0
    } else if qs[0].name == name {
        0
    } else {
        1 + queues_idx(qs.drop_first(), name)
    }
}

/// Whether a queue of that name exists.
pub open spec fn queues_contain(qs: Seq<QueueV>, name: Seq<char>) -> bool {
    queues_idx(qs, name) < qs.len()
}

/// The first queue index lies within the list and bears the name, and
/// nothing before it does.
pub proof fn lemma_queues_idx(qs: Seq<QueueV>, name: Seq<char>)
    ensures
        0 <= queues_idx(qs, name) <= qs.len(),
        queues_contain(qs, name) ==> qs[queues_idx(qs, name)].name == name,
        forall|j: int| 0 <= j < queues_idx(qs, name) ==> (#[trigger] qs[j]).name != name,
    decreases qs.len(),
{
    if qs.len() > 0 && qs[0].name != name {
        lemma_queues_idx(qs.drop_first(), name);
        assert forall|j: int| 0 <= j < queues_idx(qs, name) implies (#[trigger] qs[j]).name
            != name by {
            if j > 0 {
                assert(qs.drop_first()[j - 1] == qs[j]);
            }
        }
    }
}

/// A scan that saw no match in the first `i` queues and a match at `i`, if
/// within range, has found the first queue index.
proof fn lemma_queues_idx_at(qs: Seq<QueueV>, name: Seq<char>, i: int)
    requires
        0 <= i <= qs.len(),
        forall|j: int| 0 <= j < i ==> (#[trigger] qs[j]).name != name,
        i < qs.len() ==> qs[i].name == name,
    ensures
        queues_idx(qs, name) == i,
    decreases i,
{
    if i > 0 {
        assert(qs[0].name != name);
        lemma_queues_idx_at(qs.drop_first(), name, i - 1);
        assert forall|j: int| 0 <= j < i - 1 implies (#[trigger] qs.drop_first()[j]).name
            != name by {
            assert(qs.drop_first()[j] == qs[j + 1]);
        }
        assert(i - 1 < qs.drop_first().len() ==> qs.drop_first()[i - 1].name == name);
    }
}

/// The registry invariant: queue names are unique and every queue is
/// well-formed.
pub open spec fn registry_wf(qs: Seq<QueueV>) -> bool {
    &&& forall|i: int, j: int|
        0 <= i < j < qs.len() ==> (#[trigger] qs[i]).name != (#[trigger] qs[j]).name
    &&& forall|i: int| 0 <= i < qs.len() ==> (#[trigger] qs[i]).wf()
}

/// The queue a first subscribe brings to life: the creator moderates it, and
/// it starts public, the default admission policy.
pub open spec fn fresh_queue(name: Seq<char>, creator: Seq<char>) -> QueueV {
    QueueV {
        name,
        access: QueueAccess::Public,
        subscribers: seq![SubscriberV { client: creator, role: QueueRoles::Moderator }],
        pending: Seq::empty(),
        approved: Seq::empty(),
        backlog: Seq::empty(),
    }
}

/// What subscribing does to the registry: an unknown name brings a fresh
/// queue to life with the subscriber as its moderator; otherwise the named
/// queue takes the subscription.
pub open spec fn r_subscribe(
    qs: Seq<QueueV>,
    name: Seq<char>,
    c: Seq<char>,
    role: QueueRoles,
    authed: bool,
) -> (Seq<QueueV>, SubscribeOutcome) {
    let k = queues_idx(qs, name);
    if k == qs.len() {
        (qs.push(fresh_queue(name, c)), SubscribeOutcome::Subscribed)
    } else {
        let (nq, o) = q_subscribe(qs[k], c, role, authed);
        (qs.update(k, nq), o)
    }
}

/// What unsubscribing does to the registry. The queue is not destroyed even
/// when it empties: garbage collection is a separate, deliberate step, so a
/// client that reconnects quickly finds its queue again.
pub open spec fn r_unsubscribe(qs: Seq<QueueV>, name: Seq<char>, c: Seq<char>) -> (
    Seq<QueueV>,
    UnsubscribeOutcome,
) {
    let k = queues_idx(qs, name);
    if k == qs.len() {
        (qs, UnsubscribeOutcome::NoQueue)
    } else {
        let (nq, was) = q_unsubscribe(qs[k], c);
        (
            qs.update(k, nq),
            if was {
                UnsubscribeOutcome::Removed
            } else {
                UnsubscribeOutcome::NotSubscribed
            },
        )
    }
}

/// What enqueueing a delivery does to the registry; the flag reports whether
/// the queue exists.
pub open spec fn r_enqueue(qs: Seq<QueueV>, name: Seq<char>, d: DeliveryV) -> (Seq<QueueV>, bool) {
    let k = queues_idx(qs, name);
    if k == qs.len() {
        (qs, false)
    } else {
        (qs.update(k, q_enqueue(qs[k], d)), true)
    }
}

/// The administrative authority of a role: a moderator outranks a manager,
/// who outranks everyone else.
pub open spec fn authority(r: QueueRoles) -> int {
    match r {
        QueueRoles::Moderator => 2,
        QueueRoles::Manager => 1,
        _ => 0,
    }
}

/// Whether a role may issue administrative actions at all.
pub open spec fn can_manage(r: Option<QueueRoles>) -> bool {
    r == Some(QueueRoles::Moderator) || r == Some(QueueRoles::Manager)
}

/// What one administrative action does to the registry. The requester must
/// hold a moderator or manager role on the queue; disposing a client that
/// outranks the requester is refused; a rename must not collide with another
/// queue's name.
pub open spec fn r_manage(
    qs: Seq<QueueV>,
    name: Seq<char>,
    requester: Seq<char>,
    action: crate::protocol::ManagerActionV,
) -> (Seq<QueueV>, ManageOutcome) {
    let k = queues_idx(qs, name);
    if k == qs.len() {
        (qs, ManageOutcome::NoQueue)
    } else {
        let q = qs[k];
        let role = role_of(q.subscribers, requester);
        if !can_manage(role) {
            (qs, ManageOutcome::Forbidden)
        } else {
            match action {
                crate::protocol::ManagerActionV::Rename(nn) => {
                    if nn == q.name {
                        (qs, ManageOutcome::Applied)
                    } else if queues_contain(qs, nn) {
                        (qs, ManageOutcome::NameTaken)
                    } else {
                        (qs.update(k, QueueV { name: nn, ..q }), ManageOutcome::Applied)
                    }
                },
                crate::protocol::ManagerActionV::Authorize(c) => (
                    qs.update(k, q_authorize(q, c)),
                    ManageOutcome::Applied,
                ),
                crate::protocol::ManagerActionV::Reject => (
                    qs.update(k, q_reject(q)),
                    ManageOutcome::Applied,
                ),
                crate::protocol::ManagerActionV::Dispose(c) => {
                    match role_of(q.subscribers, c) {
                        Some(tr) => {
                            if authority(tr) > authority(role->Some_0) {
                                (qs, ManageOutcome::Forbidden)
                            } else {
                                (qs.update(k, q_unsubscribe(q, c).0), ManageOutcome::Applied)
                            }
                        },
                        None => (qs.update(k, q_unsubscribe(q, c).0), ManageOutcome::Applied),
                    }
                },
                crate::protocol::ManagerActionV::AccessorModify(a) => (
                    qs.update(k, q_accessor_modify(q, a)),
                    ManageOutcome::Applied,
                ),
            }
        }
    }
}

/// A queue stays alive while it has subscribers or undelivered messages.
pub open spec fn queue_live(q: QueueV) -> bool {
    q.subscribers.len() > 0 || q.backlog.len() > 0
}

/// What garbage collection does to the registry: queues with an empty roster
/// and an empty backlog are destroyed, the rest stay in order.
pub open spec fn r_collect(qs: Seq<QueueV>) -> Seq<QueueV> {
    qs.filter(|q: QueueV| queue_live(q))
}

/// The set of live queues. It owns every queue exclusively; all mutation
/// goes through its operations, whose contracts give the new state exactly.
#[derive(Debug)]
pub struct QueueRegistry {
    pub queues: Vec<Queue>,
}

impl View for QueueRegistry {
    type V = Seq<QueueV>;

    open spec fn view(&self) -> Seq<QueueV> {
        self.queues@.map_values(|q: Queue| q@)
    }
}

impl QueueRegistry {
    /// An empty registry.
    pub fn new() -> (r: QueueRegistry)
        ensures
            r@ =~= Seq::<QueueV>::empty(),
            registry_wf(r@),
    {
        let r = QueueRegistry { queues: Vec::new() };
        proof {
            assert(r@ =~= Seq::<QueueV>::empty());
        }
        r
    }

    /// Finds the position of the named queue, or the number of queues.
    pub(crate) fn position(&self, name: &String) -> (i: usize)
        ensures
            i as int == queues_idx(self@, name@),
    {
        let ghost vs = self@;
        let mut i: usize = 0;
        while i < self.queues.len()
            invariant
                i <= self.queues@.len(),
                vs == self@,
                vs.len() == self.queues@.len(),
                forall|j: int| 0 <= j < i ==> (#[trigger] vs[j]).name != name@,
            decreases self.queues@.len() - i,
        {
            if self.queues[i].name == *name {
                proof {
                    assert(vs[i as int] == self.queues@[i as int]@);
                    lemma_queues_idx_at(vs, name@, i as int);
                }
                return i;
            }
            proof {
                assert(vs[i as int] == self.queues@[i as int]@);
            }
            i = i + 1;
        }
        proof {
            lemma_queues_idx_at(vs, name@, i as int);
        }
        i
    }

    /// Whether a queue of that name exists.
    pub fn has_queue(&self, name: &String) -> (r: bool)
        ensures
            r == queues_contain(self@, name@),
    {
        let k = self.position(name);
        proof {
            lemma_queues_idx(self@, name@);
        }
        k < self.queues.len()
    }

    /// The role `client` holds on the named queue, if the queue exists and
    /// the client is on its roster.
    pub fn role_on(&self, name: &String, client: &String) -> (r: Option<QueueRoles>)
        ensures
            queues_contain(self@, name@) ==> r == role_of(
                self@[queues_idx(self@, name@)].subscribers,
                client@,
            ),
            !queues_contain(self@, name@) ==> r is None,
    {
        let k = self.position(name);
        proof {
            lemma_queues_idx(self@, name@);
        }
        if k < self.queues.len() {
            proof {
                assert(self@[k as int] == self.queues@[k as int]@);
            }
            self.queues[k].find_role(client)
        } else {
            None
        }
    }

    /// Subscribes `client` to the named queue, creating the queue with
    /// `client` as moderator when the name is unknown.
    pub fn subscribe(&mut self, name: &String, client: &String, role: QueueRoles, authenticated:
        bool) -> (o: SubscribeOutcome)
        ensures
            final(self)@ == r_subscribe(old(self)@, name@, client@, role, authenticated).0,
            o == r_subscribe(old(self)@, name@, client@, role, authenticated).1,
            registry_wf(old(self)@) ==> registry_wf(final(self)@),
    {
        let ghost vs = old(self)@;
        let k = self.position(name);
        proof {
            lemma_queues_idx(vs, name@);
        }
        if k == self.queues.len() {
            let mut q = Queue::new(name.clone(), QueueAccess::Public);
            q.subscribers.push(Subscriber { client: client.clone(), role: QueueRoles::Moderator });
            proof {
                assert(q.subscribers@.map_values(|s: Subscriber| s@) =~= seq![
                    SubscriberV { client: client@, role: QueueRoles::Moderator },
                ]);
                assert(q@ =~= fresh_queue(name@, client@));
            }
            self.queues.push(q);
            proof {
                assert(self@ =~= vs.push(fresh_queue(name@, client@)));
                if registry_wf(vs) {
                    assert forall|i: int, j: int| 0 <= i < j < self@.len() implies (
                    #[trigger] self@[i]).name != (#[trigger] self@[j]).name by {
                        if j == vs.len() as int {
                            assert(self@[j].name == name@);
                            assert(self@[i] == vs[i]);
                        }
                    }
                    assert forall|i: int| 0 <= i < self@.len() implies (
                    #[trigger] self@[i]).wf() by {
                        if i < vs.len() {
                            assert(self@[i] == vs[i]);
                        } else {
                            assert(self@[i] == fresh_queue(name@, client@));
                        }
                    }
                }
            }
            SubscribeOutcome::Subscribed
        } else {
            proof {
                assert(vs[k as int] == self.queues@[k as int]@);
            }
            let qref = &mut self.queues;
            let ghost oldq = vs[k as int];
            let o = vec_queue_subscribe(qref, k, client, role, authenticated);
            proof {
                assert(self@ =~= vs.update(k as int, q_subscribe(oldq, client@, role,
                    authenticated).0));
                if registry_wf(vs) {
                    lemma_q_subscribe_wf(oldq, client@, role, authenticated);
                    let ns = self@;
                    assert forall|i: int, j: int| 0 <= i < j < ns.len() implies (
                    #[trigger] ns[i]).name != (#[trigger] ns[j]).name by {
                        assert(vs[i].name == ns[i].name);
                        assert(vs[j].name == ns[j].name);
                    }
                    assert forall|i: int| 0 <= i < ns.len() implies (#[trigger] ns[i]).wf() by {
                        if i != k as int {
                            assert(ns[i] == vs[i]);
                        }
                    }
                }
            }
            o
        }
    }
}

/// Applies a subscribe to the queue at `k` of a queue vector.
fn vec_queue_subscribe(
    queues: &mut Vec<Queue>,
    k: usize,
    client: &String,
    role: QueueRoles,
    authenticated: bool,
) -> (o: SubscribeOutcome)
    requires
        k < old(queues)@.len(),
    ensures
        final(queues)@.len() == old(queues)@.len(),
        final(queues)@[k as int]@ == q_subscribe(
            old(queues)@[k as int]@,
            client@,
            role,
            authenticated,
        ).0,
        o == q_subscribe(old(queues)@[k as int]@, client@, role, authenticated).1,
        forall|i: int|
            0 <= i < old(queues)@.len() && i != k as int ==> final(queues)@[i] == old(queues)@[i],
{
    let q = &mut queues[k];
    q.subscribe(client, role, authenticated)
}


/// Applies an unsubscribe to the queue at `k` of a queue vector.
fn vec_queue_unsubscribe(queues: &mut Vec<Queue>, k: usize, client: &String) -> (was: bool)
    requires
        k < old(queues)@.len(),
    ensures
        final(queues)@.len() == old(queues)@.len(),
        final(queues)@[k as int]@ == q_unsubscribe(old(queues)@[k as int]@, client@).0,
        was == q_unsubscribe(old(queues)@[k as int]@, client@).1,
        forall|i: int|
            0 <= i < old(queues)@.len() && i != k as int ==> final(queues)@[i] == old(queues)@[i],
{
    let q = &mut queues[k];
    q.unsubscribe(client)
}

/// Applies an enqueue to the queue at `k` of a queue vector.
pub(crate) fn vec_queue_enqueue(queues: &mut Vec<Queue>, k: usize, d: Delivery)
    requires
        k < old(queues)@.len(),
    ensures
        final(queues)@.len() == old(queues)@.len(),
        final(queues)@[k as int]@ == q_enqueue(old(queues)@[k as int]@, d@),
        forall|i: int|
            0 <= i < old(queues)@.len() && i != k as int ==> final(queues)@[i] == old(queues)@[i],
{
    let q = &mut queues[k];
    q.enqueue(d);
}

/// Applies a dequeue-for to the queue at `k` of a queue vector.
fn vec_queue_dequeue_for(queues: &mut Vec<Queue>, k: usize, client: &String) -> (r: Option<
    Delivery,
>)
    requires
        k < old(queues)@.len(),
    ensures
        final(queues)@.len() == old(queues)@.len(),
        final(queues)@[k as int]@ == q_dequeue_for(old(queues)@[k as int]@, client@).0,
        match r {
            Some(d) => q_dequeue_for(old(queues)@[k as int]@, client@).1 == Some(d@),
            None => q_dequeue_for(old(queues)@[k as int]@, client@).1 is None,
        },
        forall|i: int|
            0 <= i < old(queues)@.len() && i != k as int ==> final(queues)@[i] == old(queues)@[i],
{
    let q = &mut queues[k];
    q.dequeue_for(client)
}

/// Applies an authorize to the queue at `k` of a queue vector.
fn vec_queue_authorize(queues: &mut Vec<Queue>, k: usize, client: &String)
    requires
        k < old(queues)@.len(),
    ensures
        final(queues)@.len() == old(queues)@.len(),
        final(queues)@[k as int]@ == q_authorize(old(queues)@[k as int]@, client@),
        forall|i: int|
            0 <= i < old(queues)@.len() && i != k as int ==> final(queues)@[i] == old(queues)@[i],
{
    let q = &mut queues[k];
    q.authorize(client);
}

/// Applies a reject to the queue at `k` of a queue vector.
fn vec_queue_reject(queues: &mut Vec<Queue>, k: usize)
    requires
        k < old(queues)@.len(),
    ensures
        final(queues)@.len() == old(queues)@.len(),
        final(queues)@[k as int]@ == q_reject(old(queues)@[k as int]@),
        forall|i: int|
            0 <= i < old(queues)@.len() && i != k as int ==> final(queues)@[i] == old(queues)@[i],
{
    let q = &mut queues[k];
    q.reject_pending();
}

/// Applies an access change to the queue at `k` of a queue vector.
fn vec_queue_set_access(queues: &mut Vec<Queue>, k: usize, access: QueueAccess)
    requires
        k < old(queues)@.len(),
    ensures
        final(queues)@.len() == old(queues)@.len(),
        final(queues)@[k as int]@ == q_accessor_modify(old(queues)@[k as int]@, access),
        forall|i: int|
            0 <= i < old(queues)@.len() && i != k as int ==> final(queues)@[i] == old(queues)@[i],
{
    let q = &mut queues[k];
    q.set_access(access);
}

/// Renames the queue at `k` of a queue vector.
fn vec_queue_rename(queues: &mut Vec<Queue>, k: usize, name: String)
    requires
        k < old(queues)@.len(),
    ensures
        final(queues)@.len() == old(queues)@.len(),
        final(queues)@[k as int]@ == (QueueV { name: name@, ..old(queues)@[k as int]@ }),
        forall|i: int|
            0 <= i < old(queues)@.len() && i != k as int ==> final(queues)@[i] == old(queues)@[i],
{
    let ghost oldq = queues@[k as int]@;
    let q = &mut queues[k];
    q.name = name;
    proof {
        assert(final(queues)@[k as int]@ =~= (QueueV { name: name@, ..oldq }));
    }
}

/// The authority of a role, as a number.
fn authority_of(r: QueueRoles) -> (a: u8)
    ensures
        a as int == authority(r),
{
    match r {
        QueueRoles::Moderator => 2,
        QueueRoles::Manager => 1,
        QueueRoles::Producer => 0,
        QueueRoles::Consumer => 0,
        QueueRoles::Couple => 0,
    }
}

/// Dropping the last queue keeps the registry invariant.
proof fn lemma_registry_wf_drop_last(qs: Seq<QueueV>)
    requires
        registry_wf(qs),
        qs.len() > 0,
    ensures
        registry_wf(qs.drop_last()),
{
    assert forall|i: int| 0 <= i < qs.drop_last().len() implies (
    #[trigger] qs.drop_last()[i]).wf() by {
        assert(qs.drop_last()[i] == qs[i]);
    }
    assert forall|i: int, j: int| 0 <= i < j < qs.drop_last().len() implies (
    #[trigger] qs.drop_last()[i]).name != (#[trigger] qs.drop_last()[j]).name by {
        assert(qs.drop_last()[i] == qs[i]);
        assert(qs.drop_last()[j] == qs[j]);
    }
}

/// Garbage collection keeps the registry invariant, and every queue it
/// keeps comes from the old registry.
pub proof fn lemma_r_collect_wf(qs: Seq<QueueV>)
    requires
        registry_wf(qs),
    ensures
        registry_wf(r_collect(qs)),
        forall|i: int|
            0 <= i < r_collect(qs).len() ==> exists|m: int|
                0 <= m < qs.len() && #[trigger] r_collect(qs)[i] == qs[m],
    decreases qs.len(),
{
    reveal(Seq::filter);
    let live = |q: QueueV| queue_live(q);
    if qs.len() > 0 {
        let pre = qs.drop_last();
        lemma_registry_wf_drop_last(qs);
        lemma_r_collect_wf(pre);
        let f = pre.filter(live);
        assert(r_collect(pre) == f);
        if live(qs.last()) {
            let t = f.push(qs.last());
            assert(r_collect(qs) == t);
            assert forall|i: int| 0 <= i < t.len() implies exists|m: int|
                0 <= m < qs.len() && #[trigger] t[i] == qs[m] by {
                if i < f.len() {
                    assert(t[i] == f[i]);
                    let m = choose|m: int| 0 <= m < pre.len() && #[trigger] f[i] == pre[m];
                    assert(qs[m] == pre[m]);
                } else {
                    assert(t[i] == qs[qs.len() - 1]);
                }
            }
            assert forall|i: int, j: int| 0 <= i < j < t.len() implies (#[trigger] t[i]).name != (
            #[trigger] t[j]).name by {
                if j == f.len() as int {
                    assert(t[j] == qs.last());
                    assert(t[i] == f[i]);
                    let m = choose|m: int| 0 <= m < pre.len() && #[trigger] f[i] == pre[m];
                    assert(qs[m] == pre[m]);
                    assert(qs[m].name != qs[qs.len() - 1].name);
                }
            }
            assert forall|i: int| 0 <= i < t.len() implies (#[trigger] t[i]).wf() by {
                if i < f.len() {
                    assert(t[i] == f[i]);
                } else {
                    assert(t[i] == qs.last());
                    assert(qs.last() == qs[qs.len() - 1]);
                }
            }
        } else {
            assert(r_collect(qs) == f);
            assert forall|i: int| 0 <= i < f.len() implies exists|m: int|
                0 <= m < qs.len() && #[trigger] f[i] == qs[m] by {
                let m = choose|m: int| 0 <= m < pre.len() && #[trigger] f[i] == pre[m];
                assert(qs[m] == pre[m]);
            }
        }
    } else {
        assert(r_collect(qs) == qs);
    }
}

/// One step of a front-to-back garbage-collection scan: filtering one more
/// queue keeps it exactly when it is live.
proof fn lemma_collect_take_succ(qs: Seq<QueueV>, i: int)
    requires
        0 <= i < qs.len(),
    ensures
        queue_live(qs[i]) ==> r_collect(qs.take(i + 1)) == r_collect(qs.take(i)).push(qs[i]),
        !queue_live(qs[i]) ==> r_collect(qs.take(i + 1)) == r_collect(qs.take(i)),
{
    reveal(Seq::filter);
    assert(qs.take(i + 1).drop_last() =~= qs.take(i));
    assert(qs.take(i + 1).last() == qs[i]);
    assert(qs.take(i + 1).len() > 0);
}

impl QueueRegistry {
    /// Removes `client` from the named queue. The queue stays even when it
    /// empties; garbage collection is a separate step.
    pub fn unsubscribe(&mut self, name: &String, client: &String) -> (o: UnsubscribeOutcome)
        ensures
            final(self)@ == r_unsubscribe(old(self)@, name@, client@).0,
            o == r_unsubscribe(old(self)@, name@, client@).1,
            registry_wf(old(self)@) ==> registry_wf(final(self)@),
    {
        let ghost vs = old(self)@;
        let k = self.position(name);
        proof {
            lemma_queues_idx(vs, name@);
        }
        if k == self.queues.len() {
            return UnsubscribeOutcome::NoQueue;
        }
        proof {
            assert(vs[k as int] == self.queues@[k as int]@);
        }
        let ghost oldq = vs[k as int];
        let was = vec_queue_unsubscribe(&mut self.queues, k, client);
        proof {
            assert(self@ =~= vs.update(k as int, q_unsubscribe(oldq, client@).0));
            if registry_wf(vs) {
                lemma_q_unsubscribe_wf(oldq, client@);
                let ns = self@;
                assert forall|i: int, j: int| 0 <= i < j < ns.len() implies (
                #[trigger] ns[i]).name != (#[trigger] ns[j]).name by {
                    assert(vs[i].name == ns[i].name);
                    assert(vs[j].name == ns[j].name);
                }
                assert forall|i: int| 0 <= i < ns.len() implies (#[trigger] ns[i]).wf() by {
                    if i != k as int {
                        assert(ns[i] == vs[i]);
                    }
                }
            }
        }
        if was {
            UnsubscribeOutcome::Removed
        } else {
            UnsubscribeOutcome::NotSubscribed
        }
    }

    /// Appends a delivery to the named queue's backlog, keeping it ordered
    /// by priority with publish order on ties. Reports whether the queue
    /// exists.
    pub fn enqueue(&mut self, name: &String, d: Delivery) -> (found: bool)
        ensures
            final(self)@ == r_enqueue(old(self)@, name@, d@).0,
            found == r_enqueue(old(self)@, name@, d@).1,
            registry_wf(old(self)@) ==> registry_wf(final(self)@),
    {
        let ghost vs = old(self)@;
        let k = self.position(name);
        proof {
            lemma_queues_idx(vs, name@);
        }
        if k == self.queues.len() {
            return false;
        }
        proof {
            assert(vs[k as int] == self.queues@[k as int]@);
        }
        let ghost oldq = vs[k as int];
        vec_queue_enqueue(&mut self.queues, k, d);
        proof {
            assert(self@ =~= vs.update(k as int, q_enqueue(oldq, d@)));
            if registry_wf(vs) {
                lemma_q_enqueue_wf(oldq, d@);
                let ns = self@;
                assert forall|i: int, j: int| 0 <= i < j < ns.len() implies (
                #[trigger] ns[i]).name != (#[trigger] ns[j]).name by {
                    assert(vs[i].name == ns[i].name);
                    assert(vs[j].name == ns[j].name);
                }
                assert forall|i: int| 0 <= i < ns.len() implies (#[trigger] ns[i]).wf() by {
                    if i != k as int {
                        assert(ns[i] == vs[i]);
                    }
                }
            }
        }
        true
    }

    /// Hands out the first backlogged delivery addressed to `client` on the
    /// named queue: the highest-priority one among them. `Err` reports that
    /// no queue of that name exists.
    pub fn dequeue_for(&mut self, name: &String, client: &String) -> (r: Result<
        Option<Delivery>,
        (),
    >)
        ensures
            match r {
                Ok(d) => {
                    &&& queues_contain(old(self)@, name@)
                    &&& final(self)@ == old(self)@.update(
                        queues_idx(old(self)@, name@),
                        q_dequeue_for(old(self)@[queues_idx(old(self)@, name@)], client@).0,
                    )
                    &&& match d {
                        Some(dd) => q_dequeue_for(
                            old(self)@[queues_idx(old(self)@, name@)],
                            client@,
                        ).1 == Some(dd@),
                        None => q_dequeue_for(
                            old(self)@[queues_idx(old(self)@, name@)],
                            client@,
                        ).1 is None,
                    }
                },
                Err(_) => !queues_contain(old(self)@, name@) && final(self)@ == old(self)@,
            },
            registry_wf(old(self)@) ==> registry_wf(final(self)@),
    {
        let ghost vs = old(self)@;
        let k = self.position(name);
        proof {
            lemma_queues_idx(vs, name@);
        }
        if k == self.queues.len() {
            return Err(());
        }
        proof {
            assert(vs[k as int] == self.queues@[k as int]@);
        }
        let ghost oldq = vs[k as int];
        let d = vec_queue_dequeue_for(&mut self.queues, k, client);
        proof {
            assert(self@ =~= vs.update(k as int, q_dequeue_for(oldq, client@).0));
            if registry_wf(vs) {
                lemma_q_dequeue_for_wf(oldq, client@);
                let ns = self@;
                assert forall|i: int, j: int| 0 <= i < j < ns.len() implies (
                #[trigger] ns[i]).name != (#[trigger] ns[j]).name by {
                    assert(vs[i].name == ns[i].name);
                    assert(vs[j].name == ns[j].name);
                }
                assert forall|i: int| 0 <= i < ns.len() implies (#[trigger] ns[i]).wf() by {
                    if i != k as int {
                        assert(ns[i] == vs[i]);
                    }
                }
            }
        }
        Ok(d)
    }

    /// Applies one administrative action to the named queue on behalf of
    /// `requester`, who must hold a moderator or manager role there. A
    /// dispose of a client that outranks the requester is refused; a rename
    /// that would collide with another queue's name is refused.
    pub fn apply_manager_action(
        &mut self,
        name: &String,
        requester: &String,
        action: &crate::protocol::MTPManagerAction,
    ) -> (o: ManageOutcome)
        ensures
            final(self)@ == r_manage(old(self)@, name@, requester@, action@).0,
            o == r_manage(old(self)@, name@, requester@, action@).1,
            registry_wf(old(self)@) ==> registry_wf(final(self)@),
    {
        let ghost vs = old(self)@;
        let k = self.position(name);
        proof {
            lemma_queues_idx(vs, name@);
        }
        if k == self.queues.len() {
            return ManageOutcome::NoQueue;
        }
        proof {
            assert(vs[k as int] == self.queues@[k as int]@);
        }
        let ghost oldq = vs[k as int];
        let role = self.queues[k].find_role(requester);
        let actor_role = match role {
            Some(QueueRoles::Moderator) => QueueRoles::Moderator,
            Some(QueueRoles::Manager) => QueueRoles::Manager,
            _ => {
                return ManageOutcome::Forbidden;
            },
        };
        match action {
            crate::protocol::MTPManagerAction::Rename(nn) => {
                if self.queues[k].name == *nn {
                    proof {
                        assert(final(self)@ =~= vs);
                    }
                    return ManageOutcome::Applied;
                }
                let k2 = self.position(nn);
                proof {
                    lemma_queues_idx(vs, nn@);
                }
                if k2 < self.queues.len() {
                    return ManageOutcome::NameTaken;
                }
                vec_queue_rename(&mut self.queues, k, nn.clone());
                proof {
                    assert(self@ =~= vs.update(k as int, QueueV { name: nn@, ..oldq }));
                    if registry_wf(vs) {
                        let ns = self@;
                        assert forall|i: int, j: int| 0 <= i < j < ns.len() implies (
                        #[trigger] ns[i]).name != (#[trigger] ns[j]).name by {
                            if i != k as int && j != k as int {
                                assert(ns[i] == vs[i]);
                                assert(ns[j] == vs[j]);
                            } else if i == k as int {
                                assert(ns[j] == vs[j]);
                                assert(ns[i].name == nn@);
                            } else {
                                assert(ns[i] == vs[i]);
                                assert(ns[j].name == nn@);
                            }
                        }
                        assert forall|i: int| 0 <= i < ns.len() implies (
                        #[trigger] ns[i]).wf() by {
                            if i != k as int {
                                assert(ns[i] == vs[i]);
                            } else {
                                assert(ns[i] == (QueueV { name: nn@, ..oldq }));
                            }
                        }
                    }
                }
                ManageOutcome::Applied
            },
            crate::protocol::MTPManagerAction::Authorize(c) => {
                vec_queue_authorize(&mut self.queues, k, c);
                proof {
                    assert(self@ =~= vs.update(k as int, q_authorize(oldq, c@)));
                    if registry_wf(vs) {
                        lemma_q_authorize_wf(oldq, c@);
                        self.lemma_update_keeps_wf(vs, k as int, q_authorize(oldq, c@));
                    }
                }
                ManageOutcome::Applied
            },
            crate::protocol::MTPManagerAction::Reject => {
                vec_queue_reject(&mut self.queues, k);
                proof {
                    assert(self@ =~= vs.update(k as int, q_reject(oldq)));
                    if registry_wf(vs) {
                        lemma_q_reject_wf(oldq);
                        self.lemma_update_keeps_wf(vs, k as int, q_reject(oldq));
                    }
                }
                ManageOutcome::Applied
            },
            crate::protocol::MTPManagerAction::Dispose(c) => {
                let target = self.queues[k].find_role(c);
                if let Some(tr) = target {
                    if authority_of(tr) > authority_of(actor_role) {
                        return ManageOutcome::Forbidden;
                    }
                }
                let _ = vec_queue_unsubscribe(&mut self.queues, k, c);
                proof {
                    assert(self@ =~= vs.update(k as int, q_unsubscribe(oldq, c@).0));
                    if registry_wf(vs) {
                        lemma_q_unsubscribe_wf(oldq, c@);
                        self.lemma_update_keeps_wf(vs, k as int, q_unsubscribe(oldq, c@).0);
                    }
                }
                ManageOutcome::Applied
            },
            crate::protocol::MTPManagerAction::AccessorModify(a) => {
                vec_queue_set_access(&mut self.queues, k, *a);
                proof {
                    assert(self@ =~= vs.update(k as int, q_accessor_modify(oldq, *a)));
                    if registry_wf(vs) {
                        lemma_q_accessor_modify_wf(oldq, *a);
                        self.lemma_update_keeps_wf(vs, k as int, q_accessor_modify(oldq, *a));
                    }
                }
                ManageOutcome::Applied
            },
        }
    }

    /// An update that keeps a queue's name and well-formedness keeps the
    /// registry invariant.
    proof fn lemma_update_keeps_wf(&self, vs: Seq<QueueV>, k: int, nq: QueueV)
        requires
            registry_wf(vs),
            0 <= k < vs.len(),
            nq.name == vs[k].name,
            nq.wf(),
            self@ == vs.update(k, nq),
        ensures
            registry_wf(self@),
    {
        let ns = self@;
        assert forall|i: int, j: int| 0 <= i < j < ns.len() implies (#[trigger] ns[i]).name != (
        #[trigger] ns[j]).name by {
            assert(vs[i].name == ns[i].name);
            assert(vs[j].name == ns[j].name);
        }
        assert forall|i: int| 0 <= i < ns.len() implies (#[trigger] ns[i]).wf() by {
            if i != k {
                assert(ns[i] == vs[i]);
            }
        }
    }

    /// Destroys every queue whose roster and backlog are both empty; the
    /// rest stay, in order.
    pub fn collect_garbage(&mut self)
        ensures
            final(self)@ == r_collect(old(self)@),
            registry_wf(old(self)@) ==> registry_wf(final(self)@),
    {
        proof {
            if registry_wf(old(self)@) {
                lemma_r_collect_wf(old(self)@);
            }
        }
        let ghost vs = old(self)@;
        let mut rest: Vec<Queue> = Vec::new();
        core::mem::swap(&mut self.queues, &mut rest);
        proof {
            reveal(Seq::filter);
            assert(self@ =~= Seq::<QueueV>::empty());
            assert(vs.take(0) =~= Seq::<QueueV>::empty());
            assert(r_collect(vs.take(0)) == vs.take(0));
        }
        let mut i: usize = 0;
        while i < rest.len()
            invariant
                i <= rest@.len(),
                vs == rest@.map_values(|q: Queue| q@),
                vs.len() == rest@.len(),
                self@ == r_collect(vs.take(i as int)),
            decreases rest@.len() - i,
        {
            let ghost pre = self@;
            let keep = rest[i].subscribers.len() > 0 || rest[i].backlog.len() > 0;
            proof {
                assert(vs[i as int] == rest@[i as int]@);
                assert(vs[i as int].subscribers.len() == rest@[i as int].subscribers@.len());
                assert(vs[i as int].backlog.len() == rest@[i as int].backlog@.len());
                assert(keep == queue_live(vs[i as int]));
                lemma_collect_take_succ(vs, i as int);
            }
            if keep {
                let q = rest[i].clone();
                self.queues.push(q);
                proof {
                    assert(self@ =~= pre.push(vs[i as int]));
                }
            }
            i = i + 1;
        }
        proof {
            assert(vs.take(vs.len() as int) =~= vs);
        }
    }
}

impl Clone for Queue {
    fn clone(&self) -> (r: Self)
        ensures
            r@ == self@,
    {
        let mut subscribers: Vec<Subscriber> = Vec::new();
        let mut i: usize = 0;
        while i < self.subscribers.len()
            invariant
                i <= self.subscribers@.len(),
                subscribers@.len() == i,
                forall|j: int| 0 <= j < i ==> subscribers@[j]@ == self.subscribers@[j]@,
            decreases self.subscribers@.len() - i,
        {
            subscribers.push(self.subscribers[i].clone());
            i = i + 1;
        }
        let mut pending: Vec<String> = Vec::new();
        let mut i: usize = 0;
        while i < self.pending.len()
            invariant
                i <= self.pending@.len(),
                pending@.len() == i,
                forall|j: int| 0 <= j < i ==> pending@[j]@ == self.pending@[j]@,
            decreases self.pending@.len() - i,
        {
            pending.push(self.pending[i].clone());
            i = i + 1;
        }
        let mut approved: Vec<String> = Vec::new();
        let mut i: usize = 0;
        while i < self.approved.len()
            invariant
                i <= self.approved@.len(),
                approved@.len() == i,
                forall|j: int| 0 <= j < i ==> approved@[j]@ == self.approved@[j]@,
            decreases self.approved@.len() - i,
        {
            approved.push(self.approved[i].clone());
            i = i + 1;
        }
        let mut backlog: Vec<Delivery> = Vec::new();
        let mut i: usize = 0;
        while i < self.backlog.len()
            invariant
                i <= self.backlog@.len(),
                backlog@.len() == i,
                forall|j: int| 0 <= j < i ==> backlog@[j]@ == self.backlog@[j]@,
            decreases self.backlog@.len() - i,
        {
            backlog.push(self.backlog[i].clone());
            i = i + 1;
        }
        let r = Queue {
            name: self.name.clone(),
            access: self.access,
            subscribers,
            pending,
            approved,
            backlog,
        };
        proof {
            assert(r.subscribers@.map_values(|s: Subscriber| s@) =~= self.subscribers@.map_values(
                |s: Subscriber| s@,
            ));
            assert(r.pending@.map_values(|s: String| s@) =~= self.pending@.map_values(
                |s: String| s@,
            ));
            assert(r.approved@.map_values(|s: String| s@) =~= self.approved@.map_values(
                |s: String| s@,
            ));
            assert(r.backlog@.map_values(|d: Delivery| d@) =~= self.backlog@.map_values(
                |d: Delivery| d@,
            ));
            assert(r@ =~= self@);
        }
        r
    }
}

} // verus!
