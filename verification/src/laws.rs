//! The library's laws: properties that hold of the broker as a whole,
//! stated over the spec functions that the operations' contracts use and
//! proved once and for all. Each law is a public proof function; its doc
//! comment states the law in words.

use vstd::prelude::*;

use crate::protocol::{ManagerActionV, MessagePriority, MessagePublishV, MessageV, QueueAccess,
    QueueRoles};
use crate::registry::{
    drank, ManageOutcome, names_contain, q_dequeue, q_dequeue_for, q_subscribe, q_unsubscribe,
    queues_contain, queues_idx, QueueV, r_manage, r_subscribe, r_unsubscribe, registry_wf,
    roster_contains, SubscribeOutcome, lemma_find_for, lemma_queues_idx, lemma_q_subscribe_wf,
    lemma_q_unsubscribe_wf,
};
use crate::router::{group_recipients, lemma_deliver_all_facts, lemma_group_recipients_iff,
    route_spec};

verus! {

// ---------------------------------------------------------------------------
// Subscription
// ---------------------------------------------------------------------------

/// Subscribing to a public queue never waits: the outcome is never a pending
/// approval.
pub proof fn lemma_public_subscribe_never_pending(
    q: QueueV,
    c: Seq<char>,
    role: QueueRoles,
    authed: bool,
)
    requires
        q.access == QueueAccess::Public,
    ensures
        q_subscribe(q, c, role, authed).1 != SubscribeOutcome::PendingApproval,
{
}

/// Subscribing to a private queue without a prior authorization always
/// waits: a client that is not on the roster and was never approved gets a
/// pending approval, never a subscription.
pub proof fn lemma_private_subscribe_always_pending(
    q: QueueV,
    c: Seq<char>,
    role: QueueRoles,
    authed: bool,
)
    requires
        q.access == QueueAccess::Private,
        !roster_contains(q.subscribers, c),
        !names_contain(q.approved, c),
    ensures
        q_subscribe(q, c, role, authed).1 == SubscribeOutcome::PendingApproval,
{
}

// ---------------------------------------------------------------------------
// Group publish delivery
// ---------------------------------------------------------------------------

/// A group publish reaches exactly the named clients that are subscribed: a
/// client is reported as delivered to if and only if the group names it and
/// it is on the roster, and each reported client has the message in the
/// queue's backlog afterwards.
pub proof fn lemma_group_publish_exact(
    qs: Seq<QueueV>,
    k: int,
    publisher: Seq<char>,
    ids: Seq<Seq<char>>,
    m: MessageV,
    x: Seq<char>,
)
    requires
        0 <= k < qs.len(),
    ensures
        ({
            let (nqs, delivered) = route_spec(qs, k, publisher, MessagePublishV::GROUP(ids), m);
            &&& delivered == Some(group_recipients(ids, qs[k].subscribers))
            &&& (delivered->Some_0.contains(x) <==> (ids.contains(x) && roster_contains(
                qs[k].subscribers,
                x,
            )))
            &&& (delivered->Some_0.contains(x) ==> nqs[k].backlog.contains(
                crate::registry::DeliveryV { recipient: x, message: m },
            ))
        }),
{
    let rs = group_recipients(ids, qs[k].subscribers);
    lemma_group_recipients_iff(ids, qs[k].subscribers, x);
    lemma_deliver_all_facts(qs[k], rs, m);
}

// ---------------------------------------------------------------------------
// Priority order of the backlog
// ---------------------------------------------------------------------------

/// On a well-formed queue, dequeueing never hands out a low-priority
/// delivery while a critical one waits in the backlog: whatever comes out
/// ranks at least as high as everything present, so a backlog holding a
/// critical delivery yields a critical one.
pub proof fn lemma_dequeue_never_starves_critical(q: QueueV)
    requires
        q.wf(),
    ensures
        ({
            let d = q_dequeue(q).1;
            &&& (d matches Some(dd) ==> forall|i: int|
                0 <= i < q.backlog.len() ==> drank(dd) >= drank(#[trigger] q.backlog[i]))
            &&& ((exists|i: int|
                0 <= i < q.backlog.len() && (#[trigger] q.backlog[i]).message.priority
                    == MessagePriority::Critical) ==> (d matches Some(dd)
                && dd.message.priority == MessagePriority::Critical))
        }),
{
    if q.backlog.len() > 0 {
        let dd = q.backlog[0];
        if exists|i: int|
            0 <= i < q.backlog.len() && (#[trigger] q.backlog[i]).message.priority
                == MessagePriority::Critical {
            let i = choose|i: int|
                0 <= i < q.backlog.len() && (#[trigger] q.backlog[i]).message.priority
                    == MessagePriority::Critical;
            assert(drank(dd) >= drank(q.backlog[i]));
        }
    }
}

/// The same per recipient: pulling for a client never hands it a
/// low-priority delivery while a critical one addressed to it waits.
pub proof fn lemma_pull_never_starves_critical(q: QueueV, c: Seq<char>)
    requires
        q.wf(),
    ensures
        ({
            let d = q_dequeue_for(q, c).1;
            (exists|i: int|
                0 <= i < q.backlog.len() && (#[trigger] q.backlog[i]).recipient == c
                    && q.backlog[i].message.priority == MessagePriority::Critical) ==> (
            d matches Some(dd) && dd.message.priority == MessagePriority::Critical)
        }),
{
    lemma_find_for(q.backlog, c);
    let k = crate::registry::find_for(q.backlog, c);
    if exists|i: int|
        0 <= i < q.backlog.len() && (#[trigger] q.backlog[i]).recipient == c
            && q.backlog[i].message.priority == MessagePriority::Critical {
        let i = choose|i: int|
            0 <= i < q.backlog.len() && (#[trigger] q.backlog[i]).recipient == c
                && q.backlog[i].message.priority == MessagePriority::Critical;
        assert(k <= i);
        assert(k < q.backlog.len());
        assert(drank(q.backlog[k]) >= drank(q.backlog[i]));
    }
}

// ---------------------------------------------------------------------------
// Dispose
// ---------------------------------------------------------------------------

/// Disposing a client removes it from the queue's roster, and a publish
/// addressed `TO` that client on the queue afterwards delivers to nobody: it
/// reports the target as not found.
pub proof fn lemma_dispose_then_to_fails(
    qs: Seq<QueueV>,
    name: Seq<char>,
    requester: Seq<char>,
    x: Seq<char>,
    publisher: Seq<char>,
    m: MessageV,
)
    requires
        registry_wf(qs),
        queues_contain(qs, name),
    ensures
        ({
            let (qs1, o) = r_manage(qs, name, requester, ManagerActionV::Dispose(x));
            let k = queues_idx(qs, name);
            o == ManageOutcome::Applied ==> {
                &&& !roster_contains(qs1[k].subscribers, x)
                &&& route_spec(qs1, k, publisher, MessagePublishV::TO(x), m).1 is None
                &&& route_spec(qs1, k, publisher, MessagePublishV::TO(x), m).0 == qs1
            }
        }),
{
    let k = queues_idx(qs, name);
    lemma_queues_idx(qs, name);
    let (qs1, o) = r_manage(qs, name, requester, ManagerActionV::Dispose(x));
    if o == ManageOutcome::Applied {
        let q = qs[k];
        assert(q.wf());
        crate::registry::lemma_roster_remove_facts(q.subscribers, x);
        assert(qs1[k] == q_unsubscribe(q, x).0);
    }
}

// ---------------------------------------------------------------------------
// Serializability of roster operations
// ---------------------------------------------------------------------------

/// One roster operation, as a value: what one task asks of the registry.
pub enum RegistryOpV {
    Subscribe { name: Seq<char>, client: Seq<char>, role: QueueRoles, authed: bool },
    Unsubscribe { name: Seq<char>, client: Seq<char> },
}

/// The registry after one roster operation.
pub open spec fn apply_op(qs: Seq<QueueV>, op: RegistryOpV) -> Seq<QueueV> {
    match op {
        RegistryOpV::Subscribe { name, client, role, authed } => r_subscribe(
            qs,
            name,
            client,
            role,
            authed,
        ).0,
        RegistryOpV::Unsubscribe { name, client } => r_unsubscribe(qs, name, client).0,
    }
}

/// The registry after a sequence of roster operations, applied in order.
pub open spec fn apply_ops(qs: Seq<QueueV>, ops: Seq<RegistryOpV>) -> Seq<QueueV>
    decreases ops.len(),
{
    if ops.len() == 0 {
        qs
    } else {
        apply_ops(apply_op(qs, ops[0]), ops.drop_first())
    }
}

/// Subscribing keeps the registry invariant.
pub proof fn lemma_r_subscribe_wf(
    qs: Seq<QueueV>,
    name: Seq<char>,
    c: Seq<char>,
    role: QueueRoles,
    authed: bool,
)
    requires
        registry_wf(qs),
    ensures
        registry_wf(r_subscribe(qs, name, c, role, authed).0),
{
    let k = queues_idx(qs, name);
    lemma_queues_idx(qs, name);
    let ns = r_subscribe(qs, name, c, role, authed).0;
    if k == qs.len() {
        let fq = crate::registry::fresh_queue(name, c);
        assert(ns == qs.push(fq));
        assert forall|i: int, j: int| 0 <= i < j < ns.len() implies (#[trigger] ns[i]).name != (
        #[trigger] ns[j]).name by {
            if j == qs.len() as int {
                assert(ns[j].name == name);
                assert(ns[i] == qs[i]);
            }
        }
        assert forall|i: int| 0 <= i < ns.len() implies (#[trigger] ns[i]).wf() by {
            if i < qs.len() {
                assert(ns[i] == qs[i]);
            } else {
                assert(ns[i] == fq);
            }
        }
    } else {
        lemma_q_subscribe_wf(qs[k], c, role, authed);
        assert forall|i: int, j: int| 0 <= i < j < ns.len() implies (#[trigger] ns[i]).name != (
        #[trigger] ns[j]).name by {
            assert(qs[i].name == ns[i].name);
            assert(qs[j].name == ns[j].name);
        }
        assert forall|i: int| 0 <= i < ns.len() implies (#[trigger] ns[i]).wf() by {
            if i != k {
                assert(ns[i] == qs[i]);
            }
        }
    }
}

/// Unsubscribing keeps the registry invariant.
pub proof fn lemma_r_unsubscribe_wf(qs: Seq<QueueV>, name: Seq<char>, c: Seq<char>)
    requires
        registry_wf(qs),
    ensures
        registry_wf(r_unsubscribe(qs, name, c).0),
{
    let k = queues_idx(qs, name);
    lemma_queues_idx(qs, name);
    let ns = r_unsubscribe(qs, name, c).0;
    if k < qs.len() {
        lemma_q_unsubscribe_wf(qs[k], c);
        assert forall|i: int, j: int| 0 <= i < j < ns.len() implies (#[trigger] ns[i]).name != (
        #[trigger] ns[j]).name by {
            assert(qs[i].name == ns[i].name);
            assert(qs[j].name == ns[j].name);
        }
        assert forall|i: int| 0 <= i < ns.len() implies (#[trigger] ns[i]).wf() by {
            if i != k {
                assert(ns[i] == qs[i]);
            }
        }
    }
}

/// Any serialization of subscribe and unsubscribe operations leaves every
/// roster consistent: applied in any order, one at a time, the operations
/// keep queue names unique and every roster free of duplicate entries. Since
/// each executable operation's contract says its effect is exactly its spec
/// step, a run in which the operations take effect one at a time behaves as
/// the serialization given by that order, with no update lost.
pub proof fn lemma_serialized_ops_keep_rosters_consistent(qs: Seq<QueueV>, ops: Seq<RegistryOpV>)
    requires
        registry_wf(qs),
    ensures
        registry_wf(apply_ops(qs, ops)),
    decreases ops.len(),
{
    if ops.len() > 0 {
        match ops[0] {
            RegistryOpV::Subscribe { name, client, role, authed } => {
                lemma_r_subscribe_wf(qs, name, client, role, authed);
            },
            RegistryOpV::Unsubscribe { name, client } => {
                lemma_r_unsubscribe_wf(qs, name, client);
            },
        }
        lemma_serialized_ops_keep_rosters_consistent(apply_op(qs, ops[0]), ops.drop_first());
    }
}

} // verus!
