//! The publish router: given a source queue, an addressing mode and a
//! message, it computes the recipients and appends one delivery per
//! recipient to the queue's backlog, honoring message priority.
//!
//! `ALL` reaches every subscriber but the publisher; `TO` reaches exactly
//! the named subscriber or fails; `GROUP` reaches the named clients that are
//! subscribed and silently drops the rest — the caller learns exactly which
//! clients were delivered to.

use vstd::prelude::*;

use crate::protocol::{MessagePublishV, MessageV, MTPMessage, MessagePublish};
use crate::registry::{
    Delivery, DeliveryV, q_enqueue, Queue, QueueRegistry, QueueV, registry_wf, roster_contains,
    Subscriber, SubscriberV, lemma_roster_idx, lemma_q_enqueue_wf, drank, insert_pos,
};

verus! {

// ---------------------------------------------------------------------------
// Recipients
// ---------------------------------------------------------------------------

/// The recipients of an `ALL` publish: every roster client but the
/// publisher, in roster order.
pub open spec fn all_recipients(s: Seq<SubscriberV>, publisher: Seq<char>) -> Seq<Seq<char>>
    decreases s.len(),
{
    if s.len() == 0 {
        Seq::empty()
    } else if s[0].client == publisher {
        all_recipients(s.drop_first(), publisher)
    } else {
        seq![s[0].client] + all_recipients(s.drop_first(), publisher)
    }
}

/// The recipients of a `GROUP` publish: the named clients that are on the
/// roster, in the order the group names them.
pub open spec fn group_recipients(ids: Seq<Seq<char>>, s: Seq<SubscriberV>) -> Seq<Seq<char>>
    decreases ids.len(),
{
    if ids.len() == 0 {
        Seq::empty()
    } else if roster_contains(s, ids[0]) {
        seq![ids[0]] + group_recipients(ids.drop_first(), s)
    } else {
        group_recipients(ids.drop_first(), s)
    }
}

/// The recipients of a publish, or `None` when a `TO` names a client that is
/// not subscribed.
pub open spec fn recipients_spec(
    s: Seq<SubscriberV>,
    publisher: Seq<char>,
    target: MessagePublishV,
) -> Option<Seq<Seq<char>>> {
    match target {
        MessagePublishV::ALL => Some(all_recipients(s, publisher)),
        MessagePublishV::TO(id) => {
            if roster_contains(s, id) {
                Some(seq![id])
            } else {
                None
            }
        },
        MessagePublishV::GROUP(ids) => Some(group_recipients(ids, s)),
    }
}

/// A name is an `ALL` recipient exactly when it is on the roster and is not
/// the publisher.
pub proof fn lemma_all_recipients_iff(s: Seq<SubscriberV>, publisher: Seq<char>, x: Seq<char>)
    ensures
        all_recipients(s, publisher).contains(x) <==> (roster_contains(s, x) && x != publisher),
    decreases s.len(),
{
    lemma_roster_idx(s, x);
    if s.len() > 0 {
        lemma_all_recipients_iff(s.drop_first(), publisher, x);
        lemma_roster_idx(s.drop_first(), x);
        let rest = all_recipients(s.drop_first(), publisher);
        if s[0].client == publisher {
            if roster_contains(s, x) && x != publisher {
                assert(roster_contains(s.drop_first(), x)) by {
                    crate::registry::lemma_roster_idx(s, x);
                    let k = crate::registry::roster_idx(s, x);
                    assert(s[k].client == x);
                    assert(k > 0);
                    assert(s.drop_first()[k - 1] == s[k]);
                    lemma_roster_contains_drop(s, x, k);
                }
            }
            if roster_contains(s.drop_first(), x) {
                let k = crate::registry::roster_idx(s.drop_first(), x);
                assert(s.drop_first()[k].client == x);
                assert(s[k + 1] == s.drop_first()[k]);
                lemma_roster_contains_at(s, x, k + 1);
            }
        } else {
            let here = seq![s[0].client] + rest;
            assert(all_recipients(s, publisher) == here);
            if here.contains(x) {
                let i = choose|i: int| 0 <= i < here.len() && here[i] == x;
                if i == 0 {
                    assert(x == s[0].client);
                    lemma_roster_contains_at(s, x, 0);
                } else {
                    assert(rest[i - 1] == x);
                    assert(rest.contains(x));
                    let k = crate::registry::roster_idx(s.drop_first(), x);
                    assert(s.drop_first()[k].client == x);
                    assert(s[k + 1] == s.drop_first()[k]);
                    lemma_roster_contains_at(s, x, k + 1);
                }
            }
            if roster_contains(s, x) && x != publisher {
                if s[0].client == x {
                    assert(here[0] == x);
                } else {
                    let k = crate::registry::roster_idx(s, x);
                    assert(s[k].client == x);
                    assert(k > 0);
                    assert(s.drop_first()[k - 1] == s[k]);
                    lemma_roster_contains_drop(s, x, k);
                    assert(rest.contains(x));
                    let i = choose|i: int| 0 <= i < rest.len() && rest[i] == x;
                    assert(here[i + 1] == x);
                }
            }
        }
    }
}

/// If some entry at `k > 0` names `x`, the tail's roster holds `x`.
proof fn lemma_roster_contains_drop(s: Seq<SubscriberV>, x: Seq<char>, k: int)
    requires
        0 < k < s.len(),
        s[k].client == x,
    ensures
        roster_contains(s.drop_first(), x),
{
    assert(s.drop_first()[k - 1] == s[k]);
    lemma_roster_contains_at(s.drop_first(), x, k - 1);
}

/// If some entry at `k` names `x`, the roster holds `x`.
proof fn lemma_roster_contains_at(s: Seq<SubscriberV>, x: Seq<char>, k: int)
    requires
        0 <= k < s.len(),
        s[k].client == x,
    ensures
        roster_contains(s, x),
{
    lemma_roster_idx(s, x);
    if !roster_contains(s, x) {
        assert(s[k].client != x);
    }
}

/// A name is a `GROUP` recipient exactly when the group names it and it is
/// on the roster.
pub proof fn lemma_group_recipients_iff(ids: Seq<Seq<char>>, s: Seq<SubscriberV>, x: Seq<char>)
    ensures
        group_recipients(ids, s).contains(x) <==> (ids.contains(x) && roster_contains(s, x)),
    decreases ids.len(),
{
    if ids.len() > 0 {
        lemma_group_recipients_iff(ids.drop_first(), s, x);
        let rest = group_recipients(ids.drop_first(), s);
        if roster_contains(s, ids[0]) {
            let here = seq![ids[0]] + rest;
            assert(group_recipients(ids, s) == here);
            if here.contains(x) {
                let i = choose|i: int| 0 <= i < here.len() && here[i] == x;
                if i == 0 {
                    assert(ids[0] == x);
                    assert(ids.contains(x));
                } else {
                    assert(rest[i - 1] == x);
                    assert(rest.contains(x));
                    let j = choose|j: int| 0 <= j < ids.drop_first().len() && ids.drop_first()[j]
                        == x;
                    assert(ids[j + 1] == x);
                    assert(ids.contains(x));
                }
            }
            if ids.contains(x) && roster_contains(s, x) {
                let j = choose|j: int| 0 <= j < ids.len() && ids[j] == x;
                if j == 0 {
                    assert(here[0] == x);
                } else {
                    assert(ids.drop_first()[j - 1] == x);
                    assert(ids.drop_first().contains(x));
                    assert(rest.contains(x));
                    let i = choose|i: int| 0 <= i < rest.len() && rest[i] == x;
                    assert(here[i + 1] == x);
                }
            }
        } else {
            if ids.contains(x) && roster_contains(s, x) {
                let j = choose|j: int| 0 <= j < ids.len() && ids[j] == x;
                if j == 0 {
                    assert(x == ids[0]);
                } else {
                    assert(ids.drop_first()[j - 1] == x);
                    assert(ids.drop_first().contains(x));
                }
            }
            if rest.contains(x) {
                assert(ids.drop_first().contains(x));
                let j = choose|j: int| 0 <= j < ids.drop_first().len() && ids.drop_first()[j] == x;
                assert(ids[j + 1] == x);
                assert(ids.contains(x));
            }
        }
    }
}

// ---------------------------------------------------------------------------
// Delivering to each recipient
// ---------------------------------------------------------------------------

/// The queue after one delivery of `m` has been enqueued for each recipient,
/// in recipient order.
pub open spec fn deliver_all(q: QueueV, rs: Seq<Seq<char>>, m: MessageV) -> QueueV
    decreases rs.len(),
{
    if rs.len() == 0 {
        q
    } else {
        deliver_all(q_enqueue(q, DeliveryV { recipient: rs[0], message: m }), rs.drop_first(), m)
    }
}

/// Delivering touches only the backlog, never the roster or the sets, and
/// grows the backlog by one entry per recipient; every recipient has a
/// delivery of the message in the new backlog.
pub proof fn lemma_deliver_all_facts(q: QueueV, rs: Seq<Seq<char>>, m: MessageV)
    ensures
        ({
            let nq = deliver_all(q, rs, m);
            &&& nq.name == q.name
            &&& nq.access == q.access
            &&& nq.subscribers == q.subscribers
            &&& nq.pending == q.pending
            &&& nq.approved == q.approved
            &&& nq.backlog.len() == q.backlog.len() + rs.len()
            &&& forall|d: DeliveryV| q.backlog.contains(d) ==> nq.backlog.contains(d)
            &&& forall|x: Seq<char>|
                rs.contains(x) ==> nq.backlog.contains(
                    DeliveryV { recipient: x, message: m },
                )
            &&& forall|d: DeliveryV|
                nq.backlog.contains(d) ==> (q.backlog.contains(d) || (d.message == m
                    && rs.contains(d.recipient)))
        }),
    decreases rs.len(),
{
    if rs.len() > 0 {
        let d0 = DeliveryV { recipient: rs[0], message: m };
        let q1 = q_enqueue(q, d0);
        let k = insert_pos(q.backlog, drank(d0));
        crate::registry::lemma_insert_pos(q.backlog, drank(d0));
        lemma_deliver_all_facts(q1, rs.drop_first(), m);
        let nq = deliver_all(q, rs, m);
        assert(q1.backlog == q.backlog.insert(k, d0));
        assert(q1.backlog.len() == q.backlog.len() + 1);
        assert forall|d: DeliveryV| q.backlog.contains(d) implies q1.backlog.contains(d) by {
            let i = choose|i: int| 0 <= i < q.backlog.len() && q.backlog[i] == d;
            if i < k {
                assert(q1.backlog[i] == d);
            } else {
                assert(q1.backlog[i + 1] == d);
            }
        }
        assert(q1.backlog[k] == d0);
        assert(q1.backlog.contains(d0));
        assert forall|x: Seq<char>| rs.contains(x) implies nq.backlog.contains(
            DeliveryV { recipient: x, message: m },
        ) by {
            let i = choose|i: int| 0 <= i < rs.len() && rs[i] == x;
            if i == 0 {
                assert(q1.backlog.contains(DeliveryV { recipient: x, message: m }));
            } else {
                assert(rs.drop_first()[i - 1] == x);
                assert(rs.drop_first().contains(x));
            }
        }
        assert forall|d: DeliveryV| nq.backlog.contains(d) implies (q.backlog.contains(d) || (
        d.message == m && rs.contains(d.recipient))) by {
            if q1.backlog.contains(d) && !(d.message == m && rs.drop_first().contains(
                d.recipient,
            ))
            {
                let i = choose|i: int| 0 <= i < q1.backlog.len() && q1.backlog[i] == d;
                if i < k {
                    assert(q.backlog[i] == d);
                } else if i == k {
                    assert(d == d0);
                    assert(rs.contains(rs[0]));
                } else {
                    assert(q.backlog[i - 1] == d);
                }
            }
            if d.message == m && rs.drop_first().contains(d.recipient) {
                let i = choose|i: int|
                    0 <= i < rs.drop_first().len() && rs.drop_first()[i] == d.recipient;
                assert(rs[i + 1] == d.recipient);
                assert(rs.contains(d.recipient));
            }
        }
    }
}

/// Delivering keeps the queue invariant.
pub proof fn lemma_deliver_all_wf(q: QueueV, rs: Seq<Seq<char>>, m: MessageV)
    requires
        q.wf(),
    ensures
        deliver_all(q, rs, m).wf(),
    decreases rs.len(),
{
    if rs.len() > 0 {
        lemma_q_enqueue_wf(q, DeliveryV { recipient: rs[0], message: m });
        lemma_deliver_all_wf(
            q_enqueue(q, DeliveryV { recipient: rs[0], message: m }),
            rs.drop_first(),
            m,
        );
    }
}

/// What routing one publish does to the registry, and which recipients it
/// delivers to; `None` stands for a `TO` whose client is not subscribed, in
/// which case nothing changes.
pub open spec fn route_spec(
    qs: Seq<QueueV>,
    k: int,
    publisher: Seq<char>,
    target: MessagePublishV,
    m: MessageV,
) -> (Seq<QueueV>, Option<Seq<Seq<char>>>)
    recommends
        0 <= k < qs.len(),
{
    match recipients_spec(qs[k].subscribers, publisher, target) {
        Some(rs) => (qs.update(k, deliver_all(qs[k], rs, m)), Some(rs)),
        None => (qs, None),
    }
}

// ---------------------------------------------------------------------------
// The executable router
// ---------------------------------------------------------------------------

/// Appends one delivery of `m` per listed recipient to the queue at `k`.
fn deliver_list(queues: &mut Vec<Queue>, k: usize, rs: &Vec<String>, m: &MTPMessage)
    requires
        k < old(queues)@.len(),
    ensures
        final(queues)@.len() == old(queues)@.len(),
        final(queues)@[k as int]@ == deliver_all(
            old(queues)@[k as int]@,
            rs@.map_values(|x: String| x@),
            m@,
        ),
        forall|i: int|
            0 <= i < old(queues)@.len() && i != k as int ==> final(queues)@[i] == old(queues)@[i],
{
    let ghost q0 = old(queues)@[k as int]@;
    let ghost rsv = rs@.map_values(|x: String| x@);
    proof {
        assert(rsv.skip(0) =~= rsv);
    }
    let mut i: usize = 0;
    while i < rs.len()
        invariant
            i <= rs@.len(),
            k < queues@.len(),
            queues@.len() == old(queues)@.len(),
            rsv == rs@.map_values(|x: String| x@),
            rsv.len() == rs@.len(),
            deliver_all(queues@[k as int]@, rsv.skip(i as int), m@) == deliver_all(q0, rsv, m@),
            forall|j: int|
                0 <= j < old(queues)@.len() && j != k as int ==> queues@[j] == old(queues)@[j],
        decreases rs@.len() - i,
    {
        let ghost qcur = queues@[k as int]@;
        let d = Delivery { recipient: rs[i].clone(), message: m.clone() };
        proof {
            assert(rsv[i as int] == rs@[i as int]@);
            assert(d@ == (DeliveryV { recipient: rsv[i as int], message: m@ }));
            assert(rsv.skip(i as int)[0] == rsv[i as int]);
            assert(rsv.skip(i as int).drop_first() =~= rsv.skip(i as int + 1));
            assert(deliver_all(qcur, rsv.skip(i as int), m@) == deliver_all(
                q_enqueue(qcur, d@),
                rsv.skip(i as int + 1),
                m@,
            ));
        }
        crate::registry::vec_queue_enqueue(queues, k, d);
        i = i + 1;
    }
    proof {
        assert(rsv.skip(rsv.len() as int) =~= Seq::<Seq<char>>::empty());
        assert(deliver_all(queues@[k as int]@, rsv.skip(i as int), m@) == queues@[k as int]@);
        assert(rsv.skip(0) =~= rsv);
    }
}

impl QueueRegistry {
    /// Routes one publish on the queue at position `k`: computes the
    /// recipients for the addressing mode and appends one delivery per
    /// recipient, in order. Returns the recipients actually delivered to, or
    /// `None` for a `TO` whose client is not subscribed, in which case
    /// nothing changes.
    pub fn route_publish(
        &mut self,
        k: usize,
        publisher: &String,
        target: &MessagePublish,
        m: &MTPMessage,
    ) -> (r: Option<Vec<String>>)
        requires
            k < old(self)@.len(),
        ensures
            match r {
                Some(delivered) => {
                    &&& route_spec(old(self)@, k as int, publisher@, target@, m@).1 == Some(
                        delivered@.map_values(|x: String| x@),
                    )
                    &&& final(self)@ == route_spec(
                        old(self)@,
                        k as int,
                        publisher@,
                        target@,
                        m@,
                    ).0
                },
                None => {
                    &&& route_spec(old(self)@, k as int, publisher@, target@, m@).1 is None
                    &&& final(self)@ == old(self)@
                },
            },
            registry_wf(old(self)@) ==> registry_wf(final(self)@),
    {
        let ghost vs = old(self)@;
        let ghost q0 = vs[k as int];
        proof {
            assert(q0 == self.queues@[k as int]@);
        }
        let recipients: Vec<String> = match target {
            MessagePublish::ALL => {
                let subs = &self.queues[k].subscribers;
                let mut rs: Vec<String> = Vec::new();
                let mut i: usize = 0;
                while i < subs.len()
                    invariant
                        i <= subs@.len(),
                        q0.subscribers == subs@.map_values(|s: Subscriber| s@),
                        q0.subscribers.len() == subs@.len(),
                        rs@.map_values(|x: String| x@) == all_recipients(
                            q0.subscribers.take(i as int),
                            publisher@,
                        ),
                    decreases subs@.len() - i,
                {
                    proof {
                        assert(q0.subscribers[i as int] == subs@[i as int]@);
                        lemma_all_recipients_take_succ(q0.subscribers, publisher@, i as int);
                    }
                    if !(subs[i].client == *publisher) {
                        let ghost pre = rs@.map_values(|x: String| x@);
                        rs.push(subs[i].client.clone());
                        proof {
                            assert(rs@.map_values(|x: String| x@) =~= pre.push(
                                q0.subscribers[i as int].client,
                            ));
                        }
                    }
                    i = i + 1;
                }
                proof {
                    assert(q0.subscribers.take(q0.subscribers.len() as int) =~= q0.subscribers);
                }
                rs
            },
            MessagePublish::TO(id) => {
                let subs = &self.queues[k].subscribers;
                let pos = crate::registry::roster_position(subs, id);
                proof {
                    lemma_roster_idx(q0.subscribers, id@);
                }
                if pos == subs.len() {
                    return None;
                }
                let mut rs: Vec<String> = Vec::new();
                rs.push(id.clone());
                proof {
                    assert(rs@.map_values(|x: String| x@) =~= seq![id@]);
                }
                rs
            },
            MessagePublish::GROUP(ids) => {
                let mut rs: Vec<String> = Vec::new();
                let mut i: usize = 0;
                while i < ids.len()
                    invariant
                        i <= ids@.len(),
                        q0.subscribers == self.queues@[k as int]@.subscribers,
                        k < self.queues@.len(),
                        ids@.map_values(|x: String| x@).len() == ids@.len(),
                        rs@.map_values(|x: String| x@) == group_recipients(
                            ids@.map_values(|x: String| x@).take(i as int),
                            q0.subscribers,
                        ),
                    decreases ids@.len() - i,
                {
                    let ghost idsv = ids@.map_values(|x: String| x@);
                    proof {
                        assert(idsv[i as int] == ids@[i as int]@);
                        lemma_group_recipients_take_succ(idsv, q0.subscribers, i as int);
                    }
                    let subs = &self.queues[k].subscribers;
                    let pos = crate::registry::roster_position(subs, &ids[i]);
                    proof {
                        lemma_roster_idx(q0.subscribers, idsv[i as int]);
                    }
                    if pos < subs.len() {
                        let ghost pre = rs@.map_values(|x: String| x@);
                        rs.push(ids[i].clone());
                        proof {
                            assert(rs@.map_values(|x: String| x@) =~= pre.push(idsv[i as int]));
                        }
                    }
                    i = i + 1;
                }
                proof {
                    let idsv = ids@.map_values(|x: String| x@);
                    assert(idsv.take(idsv.len() as int) =~= idsv);
                }
                rs
            },
        };
        let ghost rsv = recipients@.map_values(|x: String| x@);
        deliver_list(&mut self.queues, k, &recipients, m);
        proof {
            assert(self@ =~= vs.update(k as int, deliver_all(q0, rsv, m@)));
            if registry_wf(vs) {
                lemma_deliver_all_wf(q0, rsv, m@);
                lemma_deliver_all_facts(q0, rsv, m@);
                let ns = self@;
                assert forall|i: int, j: int| 0 <= i < j < ns.len() implies (
                #[trigger] ns[i]).name != (#[trigger] ns[j]).name by {
                    assert(vs[i].name == ns[i].name);
                    assert(vs[j].name == ns[j].name);
                }
                assert forall|i: int| 0 <= i < ns.len() implies (#[trigger] ns[i]).wf() by {
                    if i != k as int {
                        assert(ns[i] == vs[i]);
                    }
                }
            }
        }
        Some(recipients)
    }
}

/// Scanning one more roster entry extends the `ALL` recipients exactly when
/// the entry is not the publisher.
proof fn lemma_all_recipients_take_succ(s: Seq<SubscriberV>, publisher: Seq<char>, i: int)
    requires
        0 <= i < s.len(),
    ensures
        s[i].client == publisher ==> all_recipients(s.take(i + 1), publisher) == all_recipients(
            s.take(i),
            publisher,
        ),
        s[i].client != publisher ==> all_recipients(s.take(i + 1), publisher) == all_recipients(
            s.take(i),
            publisher,
        ).push(s[i].client),
    decreases i,
{
    if i == 0 {
        assert(s.take(1).drop_first() =~= s.take(0));
        assert(s.take(1)[0] == s[0]);
        assert(s.take(0).len() == 0);
        if s[0].client != publisher {
            assert(all_recipients(s.take(1), publisher) == seq![s[0].client] + all_recipients(
                s.take(0),
                publisher,
            ));
            assert(seq![s[0].client] + Seq::<Seq<char>>::empty() =~= Seq::<Seq<
                char,
            >>::empty().push(s[0].client));
        }
    } else {
        lemma_all_recipients_take_succ(s.drop_first(), publisher, i - 1);
        assert(s.take(i + 1)[0] == s[0]);
        assert(s.take(i + 1).drop_first() =~= s.drop_first().take(i));
        assert(s.take(i).drop_first() =~= s.drop_first().take(i - 1));
        assert(s.take(i)[0] == s[0]);
        assert(s.drop_first()[i - 1] == s[i]);
        if s[0].client == publisher {
        } else {
            if s[i].client != publisher {
                assert(seq![s[0].client] + all_recipients(s.drop_first().take(i - 1),
                    publisher).push(s[i].client) =~= (seq![s[0].client] + all_recipients(
                    s.drop_first().take(i - 1),
                    publisher,
                )).push(s[i].client));
            }
        }
    }
}

/// Scanning one more group member extends the `GROUP` recipients exactly
/// when the member is subscribed.
proof fn lemma_group_recipients_take_succ(ids: Seq<Seq<char>>, s: Seq<SubscriberV>, i: int)
    requires
        0 <= i < ids.len(),
    ensures
        roster_contains(s, ids[i]) ==> group_recipients(ids.take(i + 1), s) == group_recipients(
            ids.take(i),
            s,
        ).push(ids[i]),
        !roster_contains(s, ids[i]) ==> group_recipients(ids.take(i + 1), s) == group_recipients(
            ids.take(i),
            s,
        ),
    decreases i,
{
    if i == 0 {
        assert(ids.take(1).drop_first() =~= ids.take(0));
        assert(ids.take(1)[0] == ids[0]);
        if roster_contains(s, ids[0]) {
            assert(seq![ids[0]] + Seq::<Seq<char>>::empty() =~= Seq::<Seq<char>>::empty().push(
                ids[0],
            ));
        }
    } else {
        lemma_group_recipients_take_succ(ids.drop_first(), s, i - 1);
        assert(ids.take(i + 1)[0] == ids[0]);
        assert(ids.take(i + 1).drop_first() =~= ids.drop_first().take(i));
        assert(ids.take(i).drop_first() =~= ids.drop_first().take(i - 1));
        assert(ids.take(i)[0] == ids[0]);
        assert(ids.drop_first()[i - 1] == ids[i]);
        if roster_contains(s, ids[0]) {
            if roster_contains(s, ids[i]) {
                assert(seq![ids[0]] + group_recipients(ids.drop_first().take(i - 1), s).push(
                    ids[i],
                ) =~= (seq![ids[0]] + group_recipients(ids.drop_first().take(i - 1), s)).push(
                    ids[i],
                ));
            }
        }
    }
}

} // verus!
