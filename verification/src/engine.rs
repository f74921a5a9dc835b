//! The broker engine: one request/response cycle per decoded payload. It
//! validates the headers the request kind needs, settles the sender's
//! identity, runs access control, dispatches to the registry and the router,
//! and assembles exactly one response.
//!
//! Conflicting header units are resolved by a deliberate, explicit rule: the
//! last occurrence of a kind wins. The addressing mode of a publish is the
//! one carried by the last `MessagePublish` header unit. Administrative
//! actions are applied in receipt order; the first refused action stops the
//! batch. A `Ping` bypasses identity, queues and access control entirely and
//! always succeeds.

use vstd::prelude::*;

use crate::access::{may_publish, may_pull};
use crate::protocol::QueueRoles;
use crate::errors::{Error, ProtocolError};
use crate::protocol::{
    HeaderUnitV, ManagerActionV, MessagePublish, MessagePublishV, MTPAuth, MTPHeaderUnit,
    MTPPayload, MTPRequestType, MTPResponse, MTPStatusCode, MTPStorage, QueueAccess, StatusV,
    StorageCellV,
};
use crate::registry::{
    fresh_queue, ManageOutcome, Queue, QueueRegistry, QueueV, queues_contain, queues_idx,
    r_manage, r_subscribe, r_unsubscribe, registry_wf, role_of, q_dequeue_for, lemma_queues_idx,
    SubscribeOutcome, UnsubscribeOutcome,
};
use crate::router::route_spec;

verus! {

// ---------------------------------------------------------------------------
// Reading the header units, last occurrence winning
// ---------------------------------------------------------------------------

/// The authoritative authentication claim: the last `Authentication` unit.
pub open spec fn last_auth(us: Seq<HeaderUnitV>) -> Option<(MTPAuth, Seq<char>)>
    decreases us.len(),
{
    if us.len() == 0 {
        None
    } else {
        match us.last() {
            HeaderUnitV::Authentication { key, value } => Some((key, value)),
            _ => last_auth(us.drop_last()),
        }
    }
}

/// The authoritative publish target: the last `MessagePublish` unit.
pub open spec fn last_target(us: Seq<HeaderUnitV>) -> Option<(Seq<char>, MessagePublishV)>
    decreases us.len(),
{
    if us.len() == 0 {
        None
    } else {
        match us.last() {
            HeaderUnitV::MessagePublish { queue, to } => Some((queue, to)),
            _ => last_target(us.drop_last()),
        }
    }
}

/// Whether any unit asks for the addressed queue to be created.
pub open spec fn wants_creation(us: Seq<HeaderUnitV>) -> bool {
    exists|i: int| 0 <= i < us.len() && (#[trigger] us[i]) is QueueCreation
}

/// The administrative actions carried by the units, in receipt order.
pub open spec fn admin_actions(us: Seq<HeaderUnitV>) -> Seq<ManagerActionV>
    decreases us.len(),
{
    if us.len() == 0 {
        Seq::empty()
    } else {
        match us[0] {
            HeaderUnitV::Administration { action } => seq![action] + admin_actions(
                us.drop_first(),
            ),
            _ => admin_actions(us.drop_first()),
        }
    }
}

// ---------------------------------------------------------------------------
// The step function: what one request does
// ---------------------------------------------------------------------------

/// Everything one request decides: the session identity afterwards, the
/// queues afterwards, the response's status code (0 for success), and the
/// response's storage cells.
pub struct StepV {
    pub identity: Option<Seq<char>>,
    pub queues: Seq<QueueV>,
    pub code: u32,
    pub cells: Seq<StorageCellV>,
}

/// One cell reporting the state of a subscription.
pub open spec fn subscription_cell(state: Seq<char>) -> StorageCellV {
    StorageCellV { key: "subscription"@, value: state }
}

/// One cell per client a publish was delivered to.
pub open spec fn delivered_cells(rs: Seq<Seq<char>>) -> Seq<StorageCellV>
    decreases rs.len(),
{
    if rs.len() == 0 {
        Seq::empty()
    } else {
        seq![StorageCellV { key: "delivered"@, value: rs[0] }] + delivered_cells(rs.drop_first())
    }
}

/// Applies administrative actions in receipt order against the named queue;
/// the first refused action stops the batch and its outcome is reported.
pub open spec fn apply_actions(
    qs: Seq<QueueV>,
    name: Seq<char>,
    requester: Seq<char>,
    actions: Seq<ManagerActionV>,
) -> (Seq<QueueV>, ManageOutcome)
    decreases actions.len(),
{
    if actions.len() == 0 {
        (qs, ManageOutcome::Applied)
    } else {
        let (qs1, o) = r_manage(qs, name, requester, actions[0]);
        if o == ManageOutcome::Applied {
            apply_actions(qs1, name, requester, actions.drop_first())
        } else {
            (qs1, o)
        }
    }
}

/// The queues after an explicit creation request: a `QueueCreation` unit
/// beside a publish target brings the queue to life with the sender as its
/// moderator, if the name is still free.
pub open spec fn apply_creation(qs: Seq<QueueV>, p: crate::protocol::PayloadV, me: Seq<char>) -> Seq<
    QueueV,
> {
    if wants_creation(p.headers.headers) {
        match last_target(p.headers.headers) {
            Some((name, _)) => {
                if queues_contain(qs, name) {
                    qs
                } else {
                    qs.push(fresh_queue(name, me))
                }
            },
            None => qs,
        }
    } else {
        qs
    }
}

/// What one decoded request does to the session identity and the queues, and
/// which response it earns. A `Ping` always succeeds. Any other request
/// without a settled identity is refused as unauthorized. A request that
/// needs a publish target (or, for a publish, a message body) and lacks it
/// is refused as a bad request.
pub open spec fn engine_step(
    ident: Option<Seq<char>>,
    qs: Seq<QueueV>,
    p: crate::protocol::PayloadV,
) -> StepV {
    let ident2 = match last_auth(p.headers.headers) {
        Some((_, cred)) => Some(cred),
        None => ident,
    };
    if p.request == MTPRequestType::Ping {
        StepV { identity: ident2, queues: qs, code: 0, cells: Seq::empty() }
    } else if ident2 is None {
        StepV { identity: ident2, queues: qs, code: 101, cells: Seq::empty() }
    } else {
        let me = ident2->Some_0;
        let qs1 = apply_creation(qs, p, me);
        match last_target(p.headers.headers) {
            None => StepV { identity: ident2, queues: qs1, code: 100, cells: Seq::empty() },
            Some((qname, to)) => match p.request {
                MTPRequestType::Subscribe => {
                    let (qs2, o) = r_subscribe(
                        qs1,
                        qname,
                        me,
                        crate::protocol::QueueRoles::Consumer,
                        true,
                    );
                    match o {
                        SubscribeOutcome::Subscribed => StepV {
                            identity: ident2,
                            queues: qs2,
                            code: 0,
                            cells: seq![subscription_cell("active"@)],
                        },
                        SubscribeOutcome::AlreadySubscribed => StepV {
                            identity: ident2,
                            queues: qs2,
                            code: 0,
                            cells: seq![subscription_cell("active"@)],
                        },
                        SubscribeOutcome::PendingApproval => StepV {
                            identity: ident2,
                            queues: qs2,
                            code: 0,
                            cells: seq![subscription_cell("pending"@)],
                        },
                        SubscribeOutcome::Unauthenticated => StepV {
                            identity: ident2,
                            queues: qs2,
                            code: 101,
                            cells: Seq::empty(),
                        },
                    }
                },
                MTPRequestType::Unsubscribe => {
                    let (qs2, o) = r_unsubscribe(qs1, qname, me);
                    match o {
                        UnsubscribeOutcome::Removed => StepV {
                            identity: ident2,
                            queues: qs2,
                            code: 0,
                            cells: Seq::empty(),
                        },
                        _ => StepV { identity: ident2, queues: qs2, code: 103, cells: Seq::empty() },
                    }
                },
                MTPRequestType::Publish => {
                    match p.message {
                        None => StepV {
                            identity: ident2,
                            queues: qs1,
                            code: 100,
                            cells: Seq::empty(),
                        },
                        Some(m) => {
                            if !queues_contain(qs1, qname) {
                                StepV {
                                    identity: ident2,
                                    queues: qs1,
                                    code: 103,
                                    cells: Seq::empty(),
                                }
                            } else {
                                let k = queues_idx(qs1, qname);
                                if !may_publish(role_of(qs1[k].subscribers, me)) {
                                    StepV {
                                        identity: ident2,
                                        queues: qs1,
                                        code: 102,
                                        cells: Seq::empty(),
                                    }
                                } else {
                                    let (qs2, delivered) = route_spec(qs1, k, me, to, m);
                                    match delivered {
                                        Some(rs) => StepV {
                                            identity: ident2,
                                            queues: qs2,
                                            code: 0,
                                            cells: delivered_cells(rs),
                                        },
                                        None => StepV {
                                            identity: ident2,
                                            queues: qs1,
                                            code: 103,
                                            cells: Seq::empty(),
                                        },
                                    }
                                }
                            }
                        },
                    }
                },
                MTPRequestType::Pull => {
                    if !queues_contain(qs1, qname) {
                        StepV { identity: ident2, queues: qs1, code: 103, cells: Seq::empty() }
                    } else {
                        let k = queues_idx(qs1, qname);
                        let q = qs1[k];
                        if !(may_pull(role_of(q.subscribers, me)) || q.access
                            == QueueAccess::Public) {
                            StepV { identity: ident2, queues: qs1, code: 102, cells: Seq::empty() }
                        } else {
                            let (nq, d) = q_dequeue_for(q, me);
                            match d {
                                Some(dd) => StepV {
                                    identity: ident2,
                                    queues: qs1.update(k, nq),
                                    code: 0,
                                    cells: seq![
                                        StorageCellV {
                                            key: "message"@,
                                            value: dd.message.message,
                                        },
                                    ],
                                },
                                None => StepV {
                                    identity: ident2,
                                    queues: qs1.update(k, nq),
                                    code: 0,
                                    cells: seq![
                                        StorageCellV { key: "messages"@, value: "none"@ },
                                    ],
                                },
                            }
                        }
                    }
                },
                MTPRequestType::Manage => {
                    let (qs2, o) = apply_actions(
                        qs1,
                        qname,
                        me,
                        admin_actions(p.headers.headers),
                    );
                    match o {
                        ManageOutcome::Applied => StepV {
                            identity: ident2,
                            queues: qs2,
                            code: 0,
                            cells: Seq::empty(),
                        },
                        ManageOutcome::NoQueue => StepV {
                            identity: ident2,
                            queues: qs2,
                            code: 103,
                            cells: Seq::empty(),
                        },
                        ManageOutcome::Forbidden => StepV {
                            identity: ident2,
                            queues: qs2,
                            code: 102,
                            cells: Seq::empty(),
                        },
                        ManageOutcome::NameTaken => StepV {
                            identity: ident2,
                            queues: qs2,
                            code: 108,
                            cells: Seq::empty(),
                        },
                    }
                },
                MTPRequestType::Ping => StepV {
                    identity: ident2,
                    queues: qs1,
                    code: 0,
                    cells: Seq::empty(),
                },
            },
        }
    }
}


// ---------------------------------------------------------------------------
// Reading the header units, executably
// ---------------------------------------------------------------------------

/// Finds the authoritative authentication claim: the last one sent.
fn extract_auth(units: &Vec<MTPHeaderUnit>) -> (r: Option<(MTPAuth, String)>)
    ensures
        match r {
            Some((k, v)) => last_auth(units@.map_values(|u: MTPHeaderUnit| u@)) == Some((k, v@)),
            None => last_auth(units@.map_values(|u: MTPHeaderUnit| u@)) is None,
        },
{
    let ghost us = units@.map_values(|u: MTPHeaderUnit| u@);
    let mut found: Option<(MTPAuth, String)> = None;
    let mut i: usize = 0;
    while i < units.len()
        invariant
            i <= units@.len(),
            us == units@.map_values(|u: MTPHeaderUnit| u@),
            us.len() == units@.len(),
            match found {
                Some((k, v)) => last_auth(us.take(i as int)) == Some((k, v@)),
                None => last_auth(us.take(i as int)) is None,
            },
        decreases units@.len() - i,
    {
        proof {
            assert(us[i as int] == units@[i as int]@);
            assert(us.take(i + 1).drop_last() =~= us.take(i as int));
            assert(us.take(i + 1).last() == us[i as int]);
        }
        match &units[i] {
            MTPHeaderUnit::Authentication { key, value } => {
                found = Some((*key, value.clone()));
            },
            _ => {},
        }
        i = i + 1;
    }
    proof {
        assert(us.take(us.len() as int) =~= us);
    }
    found
}

/// Finds the authoritative publish target: the last one sent.
fn extract_target(units: &Vec<MTPHeaderUnit>) -> (r: Option<(String, MessagePublish)>)
    ensures
        match r {
            Some((q, t)) => last_target(units@.map_values(|u: MTPHeaderUnit| u@)) == Some(
                (q@, t@),
            ),
            None => last_target(units@.map_values(|u: MTPHeaderUnit| u@)) is None,
        },
{
    let ghost us = units@.map_values(|u: MTPHeaderUnit| u@);
    let mut found: Option<(String, MessagePublish)> = None;
    let mut i: usize = 0;
    while i < units.len()
        invariant
            i <= units@.len(),
            us == units@.map_values(|u: MTPHeaderUnit| u@),
            us.len() == units@.len(),
            match found {
                Some((q, t)) => last_target(us.take(i as int)) == Some((q@, t@)),
                None => last_target(us.take(i as int)) is None,
            },
        decreases units@.len() - i,
    {
        proof {
            assert(us[i as int] == units@[i as int]@);
            assert(us.take(i + 1).drop_last() =~= us.take(i as int));
            assert(us.take(i + 1).last() == us[i as int]);
        }
        match &units[i] {
            MTPHeaderUnit::MessagePublish { queue, to } => {
                found = Some((queue.clone(), to.clone()));
            },
            _ => {},
        }
        i = i + 1;
    }
    proof {
        assert(us.take(us.len() as int) =~= us);
    }
    found
}

/// Whether any unit asks for queue creation.
fn extract_creation(units: &Vec<MTPHeaderUnit>) -> (r: bool)
    ensures
        r == wants_creation(units@.map_values(|u: MTPHeaderUnit| u@)),
{
    let ghost us = units@.map_values(|u: MTPHeaderUnit| u@);
    let mut i: usize = 0;
    while i < units.len()
        invariant
            i <= units@.len(),
            us == units@.map_values(|u: MTPHeaderUnit| u@),
            us.len() == units@.len(),
            forall|j: int| 0 <= j < i ==> !((#[trigger] us[j]) is QueueCreation),
        decreases units@.len() - i,
    {
        proof {
            assert(us[i as int] == units@[i as int]@);
        }
        match &units[i] {
            MTPHeaderUnit::QueueCreation {} => {
                return true;
            },
            _ => {},
        }
        i = i + 1;
    }
    false
}

// ---------------------------------------------------------------------------
// The session and the request handler
// ---------------------------------------------------------------------------

/// One connection's broker-side state: unauthenticated until a request
/// carries an authentication claim, then bound to that identity. The engine
/// records the claimed credential; verifying it is delegated to an external
/// identity service.
#[derive(Debug)]
pub struct Session {
    pub identity: Option<String>,
}

impl View for Session {
    type V = Option<Seq<char>>;

    open spec fn view(&self) -> Option<Seq<char>> {
        match self.identity {
            Some(ref s) => Some(s@),
            None => None,
        }
    }
}

impl Session {
    /// A fresh, unauthenticated session.
    pub fn new() -> (s: Session)
        ensures
            s@ is None,
    {
        Session { identity: None }
    }
}

/// Whether a role may publish.
fn may_publish_exec(role: Option<QueueRoles>) -> (r: bool)
    ensures
        r == may_publish(role),
{
    match role {
        Some(QueueRoles::Producer) | Some(QueueRoles::Moderator) | Some(QueueRoles::Manager)
            | Some(QueueRoles::Couple) => true,
        _ => false,
    }
}

/// Whether a role may pull.
fn may_pull_exec(role: Option<QueueRoles>) -> (r: bool)
    ensures
        r == may_pull(role),
{
    match role {
        Some(QueueRoles::Consumer) | Some(QueueRoles::Moderator) | Some(QueueRoles::Manager)
            | Some(QueueRoles::Couple) => true,
        _ => false,
    }
}

/// Appending one recipient appends its delivered cell.
proof fn lemma_delivered_cells_push(rs: Seq<Seq<char>>, x: Seq<char>)
    ensures
        delivered_cells(rs.push(x)) == delivered_cells(rs).push(
            StorageCellV { key: "delivered"@, value: x },
        ),
    decreases rs.len(),
{
    if rs.len() == 0 {
        let t = rs.push(x);
        assert(t.drop_first() =~= Seq::<Seq<char>>::empty());
        assert(t[0] == x);
        assert(delivered_cells(t) == seq![StorageCellV { key: "delivered"@, value: x }]
            + delivered_cells(t.drop_first()));
        assert(delivered_cells(t.drop_first()) =~= Seq::<StorageCellV>::empty());
        assert(delivered_cells(rs) =~= Seq::<StorageCellV>::empty());
        assert(seq![StorageCellV { key: "delivered"@, value: x }] + Seq::<StorageCellV>::empty()
            =~= delivered_cells(rs).push(StorageCellV { key: "delivered"@, value: x }));
    } else {
        lemma_delivered_cells_push(rs.drop_first(), x);
        assert(rs.push(x).drop_first() =~= rs.drop_first().push(x));
        assert(rs.push(x)[0] == rs[0]);
        assert(seq![StorageCellV { key: "delivered"@, value: rs[0] }] + delivered_cells(
            rs.drop_first(),
        ).push(StorageCellV { key: "delivered"@, value: x }) =~= (seq![
            StorageCellV { key: "delivered"@, value: rs[0] },
        ] + delivered_cells(rs.drop_first())).push(StorageCellV { key: "delivered"@, value: x }));
    }
}

/// Builds the storage section that lists the delivered recipients.
fn build_delivered_storage(rs: &Vec<String>) -> (s: MTPStorage)
    ensures
        s@ == delivered_cells(rs@.map_values(|x: String| x@)),
{
    let ghost rsv = rs@.map_values(|x: String| x@);
    let mut s = MTPStorage::new();
    proof {
        assert(delivered_cells(rsv.take(0)) =~= Seq::<StorageCellV>::empty());
    }
    let mut i: usize = 0;
    while i < rs.len()
        invariant
            i <= rs@.len(),
            rsv == rs@.map_values(|x: String| x@),
            rsv.len() == rs@.len(),
            s@ == delivered_cells(rsv.take(i as int)),
        decreases rs@.len() - i,
    {
        proof {
            assert(rsv[i as int] == rs@[i as int]@);
            lemma_delivered_cells_push(rsv.take(i as int), rsv[i as int]);
            assert(rsv.take(i as int).push(rsv[i as int]) =~= rsv.take(i + 1));
        }
        s.push(String::from_str("delivered"), rs[i].clone());
        i = i + 1;
    }
    proof {
        assert(rsv.take(rsv.len() as int) =~= rsv);
    }
    s
}

/// Builds a response that echoes the request headers.
fn respond(payload: &MTPPayload, status: MTPStatusCode, storage: MTPStorage) -> (r: MTPResponse)
    ensures
        r@.headers == payload@.headers,
        r@.status == status@,
        r@.storage == storage@,
{
    MTPResponse::construct(status, payload.headers.clone(), storage)
}

/// Builds the failure status for one protocol error code the engine emits.
fn status_for(code: u32, text: &str) -> (r: MTPStatusCode)
    requires
        code == 100 || code == 101 || code == 102 || code == 103 || code == 108,
    ensures
        r@ matches StatusV::Error { code: c, .. } && c == code,
{
    let info = Error::new(text.to_owned());
    if code == 100 {
        MTPStatusCode::Error1(ProtocolError::BadRequest100(info))
    } else if code == 101 {
        MTPStatusCode::Error1(ProtocolError::Unauthorized101(info))
    } else if code == 102 {
        MTPStatusCode::Error1(ProtocolError::Forbidden102(info))
    } else if code == 103 {
        MTPStatusCode::Error1(ProtocolError::NotFound103(info))
    } else {
        MTPStatusCode::Error1(ProtocolError::Conflict108(info))
    }
}

/// Handles one decoded request: settles the identity, validates the headers
/// the request kind needs, runs access control, dispatches to the registry
/// and the router, and assembles exactly one response whose headers echo the
/// request's. The whole effect is [`engine_step`] of the old state.
#[verifier::rlimit(100)]
#[verifier::spinoff_prover]
pub fn handle_request(session: &mut Session, registry: &mut QueueRegistry, payload: &MTPPayload)
    -> (r: MTPResponse)
    ensures
        ({
            let st = engine_step(old(session)@, old(registry)@, payload@);
            &&& final(session)@ == st.identity
            &&& final(registry)@ == st.queues
            &&& r@.headers == payload@.headers
            &&& r@.storage == st.cells
            &&& (st.code == 0 ==> r@.status is Success)
            &&& (st.code != 0 ==> (r@.status matches StatusV::Error { code, .. } && code
                == st.code))
        }),
        registry_wf(old(registry)@) ==> registry_wf(final(registry)@),
{
    let ghost st = engine_step(old(session)@, old(registry)@, payload@);
    let ghost qs0 = old(registry)@;
    match extract_auth(&payload.headers.headers) {
        Some((_, cred)) => {
            session.identity = Some(cred);
        },
        None => {},
    }
    if matches!(payload.request, MTPRequestType::Ping) {
        return respond(payload, MTPStatusCode::Success0, MTPStorage::new());
    }
    let me = match &session.identity {
        Some(c) => c.clone(),
        None => {
            return respond(payload, status_for(101, "no identity was presented"), MTPStorage::new());
        },
    };
    let target = extract_target(&payload.headers.headers);
    if extract_creation(&payload.headers.headers) {
        if let Some((qname, _)) = &target {
            if !registry.has_queue(qname) {
                let _ = registry.subscribe(qname, &me, QueueRoles::Consumer, true);
                proof {
                    lemma_queues_idx(qs0, qname@);
                }
            }
        }
    }
    let ghost qs1 = apply_creation(qs0, payload@, me@);
    proof {
        assert(registry@ == qs1);
    }
    let (qname, to) = match target {
        Some(x) => x,
        None => {
            return respond(payload, status_for(100, "the request names no queue"), MTPStorage::new());
        },
    };
    match payload.request {
        MTPRequestType::Subscribe => {
            let o = registry.subscribe(&qname, &me, QueueRoles::Consumer, true);
            match o {
                SubscribeOutcome::Subscribed | SubscribeOutcome::AlreadySubscribed => {
                    let mut s = MTPStorage::new();
                    s.push(String::from_str("subscription"), String::from_str("active"));
                    proof {
                        assert(s@ =~= seq![subscription_cell("active"@)]);
                    }
                    respond(payload, MTPStatusCode::Success0, s)
                },
                SubscribeOutcome::PendingApproval => {
                    let mut s = MTPStorage::new();
                    s.push(String::from_str("subscription"), String::from_str("pending"));
                    proof {
                        assert(s@ =~= seq![subscription_cell("pending"@)]);
                    }
                    respond(payload, MTPStatusCode::Success0, s)
                },
                SubscribeOutcome::Unauthenticated => respond(
                    payload,
                    status_for(101, "the queue admits only authenticated clients"),
                    MTPStorage::new(),
                ),
            }
        },
        MTPRequestType::Unsubscribe => {
            let o = registry.unsubscribe(&qname, &me);
            match o {
                UnsubscribeOutcome::Removed => respond(
                    payload,
                    MTPStatusCode::Success0,
                    MTPStorage::new(),
                ),
                _ => respond(
                    payload,
                    status_for(103, "no such subscription"),
                    MTPStorage::new(),
                ),
            }
        },
        MTPRequestType::Publish => {
            let m = match &payload.message {
                Some(m) => m,
                None => {
                    return respond(
                        payload,
                        status_for(100, "a publish carries no message body"),
                        MTPStorage::new(),
                    );
                },
            };
            let k = registry.position(&qname);
            proof {
                lemma_queues_idx(qs1, qname@);
            }
            if k == registry.queues.len() {
                return respond(payload, status_for(103, "no such queue"), MTPStorage::new());
            }
            proof {
                assert(qs1[k as int] == registry.queues@[k as int]@);
            }
            let role = registry.queues[k].find_role(&me);
            if !may_publish_exec(role) {
                return respond(
                    payload,
                    status_for(102, "the client may not publish here"),
                    MTPStorage::new(),
                );
            }
            match registry.route_publish(k, &me, &to, m) {
                Some(delivered) => {
                    let s = build_delivered_storage(&delivered);
                    respond(payload, MTPStatusCode::Success0, s)
                },
                None => respond(
                    payload,
                    status_for(103, "the addressed client is not subscribed"),
                    MTPStorage::new(),
                ),
            }
        },
        MTPRequestType::Pull => {
            let k = registry.position(&qname);
            proof {
                lemma_queues_idx(qs1, qname@);
            }
            if k == registry.queues.len() {
                return respond(payload, status_for(103, "no such queue"), MTPStorage::new());
            }
            proof {
                assert(qs1[k as int] == registry.queues@[k as int]@);
            }
            let role = registry.queues[k].find_role(&me);
            let is_public = matches!(registry.queues[k].access, QueueAccess::Public);
            if !(may_pull_exec(role) || is_public) {
                return respond(
                    payload,
                    status_for(102, "the client may not pull here"),
                    MTPStorage::new(),
                );
            }
            match registry.dequeue_for(&qname, &me) {
                Ok(Some(d)) => {
                    let mut s = MTPStorage::new();
                    let body = d.message.message;
                    s.push(String::from_str("message"), body);
                    proof {
                        assert(s@ =~= seq![
                            StorageCellV { key: "message"@, value: d@.message.message },
                        ]);
                    }
                    respond(payload, MTPStatusCode::Success0, s)
                },
                Ok(None) => {
                    let mut s = MTPStorage::new();
                    s.push(String::from_str("messages"), String::from_str("none"));
                    proof {
                        assert(s@ =~= seq![StorageCellV { key: "messages"@, value: "none"@ }]);
                    }
                    respond(payload, MTPStatusCode::Success0, s)
                },
                Err(_) => {
                    proof {
                        assert(false);
                    }
                    respond(payload, status_for(103, "no such queue"), MTPStorage::new())
                },
            }
        },
        MTPRequestType::Manage => {
            let o = run_admin_actions(registry, &payload.headers.headers, &qname, &me);
            match o {
                ManageOutcome::Applied => respond(
                    payload,
                    MTPStatusCode::Success0,
                    MTPStorage::new(),
                ),
                ManageOutcome::NoQueue => respond(
                    payload,
                    status_for(103, "no such queue"),
                    MTPStorage::new(),
                ),
                ManageOutcome::Forbidden => respond(
                    payload,
                    status_for(102, "the client may not manage here"),
                    MTPStorage::new(),
                ),
                ManageOutcome::NameTaken => respond(
                    payload,
                    status_for(108, "a queue of that name already exists"),
                    MTPStorage::new(),
                ),
            }
        },
        MTPRequestType::Ping => {
            proof {
                assert(false);
            }
            respond(payload, MTPStatusCode::Success0, MTPStorage::new())
        },
    }
}

/// Applies every administrative action the units carry, in receipt order,
/// stopping at the first refused one.
fn run_admin_actions(
    registry: &mut QueueRegistry,
    units: &Vec<MTPHeaderUnit>,
    qname: &String,
    me: &String,
) -> (o: ManageOutcome)
    ensures
        ({
            let (nqs, oo) = apply_actions(
                old(registry)@,
                qname@,
                me@,
                admin_actions(units@.map_values(|u: MTPHeaderUnit| u@)),
            );
            final(registry)@ == nqs && o == oo
        }),
        registry_wf(old(registry)@) ==> registry_wf(final(registry)@),
{
    let ghost us = units@.map_values(|u: MTPHeaderUnit| u@);
    let ghost qs0 = old(registry)@;
    proof {
        assert(us.skip(0) =~= us);
    }
    let mut i: usize = 0;
    while i < units.len()
        invariant
            i <= units@.len(),
            us == units@.map_values(|u: MTPHeaderUnit| u@),
            us.len() == units@.len(),
            qs0 == old(registry)@,
            apply_actions(qs0, qname@, me@, admin_actions(us)) == apply_actions(
                registry@,
                qname@,
                me@,
                admin_actions(us.skip(i as int)),
            ),
            registry_wf(qs0) ==> registry_wf(registry@),
        decreases units@.len() - i,
    {
        proof {
            assert(us[i as int] == units@[i as int]@);
            assert(us.skip(i as int)[0] == us[i as int]);
            assert(us.skip(i as int).drop_first() =~= us.skip(i as int + 1));
        }
        match &units[i] {
            MTPHeaderUnit::Administration { action } => {
                let ghost qs_pre = registry@;
                let ghost acts = admin_actions(us.skip(i as int));
                proof {
                    assert(acts == seq![action@] + admin_actions(us.skip(i as int + 1)));
                    assert(acts[0] == action@);
                    assert(acts.drop_first() =~= admin_actions(us.skip(i as int + 1)));
                }
                let o = registry.apply_manager_action(qname, me, action);
                proof {
                    assert(registry@ == r_manage(qs_pre, qname@, me@, action@).0);
                    if o == ManageOutcome::Applied {
                        assert(apply_actions(qs_pre, qname@, me@, acts) == apply_actions(
                            registry@,
                            qname@,
                            me@,
                            acts.drop_first(),
                        ));
                    } else {
                        assert(apply_actions(qs_pre, qname@, me@, acts) == (registry@, o));
                    }
                }
                if !matches!(o, ManageOutcome::Applied) {
                    return o;
                }
            },
            _ => {},
        }
        i = i + 1;
    }
    proof {
        assert(us.skip(us.len() as int) =~= Seq::<HeaderUnitV>::empty());
    }
    ManageOutcome::Applied
}

} // verus!
