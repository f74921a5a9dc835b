//! The access-control evaluator: given a queue's admission policy, the role
//! a client holds there (if any), and the requested operation, it decides
//! whether the operation may proceed, must wait for approval, or is denied.
//!
//! Administrative requests need a moderator or manager role; publishing
//! needs a producing role; pulling needs a consuming role unless the queue
//! is public. Subscription follows the queue's policy: public queues admit
//! anyone, protected queues admit the authenticated, private queues admit
//! the approved and park everyone else as pending.

use vstd::prelude::*;

use crate::protocol::{MTPRequestType, QueueAccess, QueueRoles};
use crate::registry::{q_subscribe, QueueV, roster_contains, role_of, names_contain,
    SubscribeOutcome};

verus! {

/// What the evaluator decides for one requested operation.
#[derive(Clone, Copy, Debug, PartialEq, Eq, Structural)]
pub enum AccessDecision {
    /// The operation may proceed.
    Allow,
    /// The operation is refused: the client lacks the required role.
    DenyForbidden,
    /// The operation is refused: the queue demands a credential and the
    /// client presented none.
    DenyUnauthenticated,
    /// The operation waits for a moderator's approval.
    Pending,
}

/// Whether a role may publish to a queue.
pub open spec fn may_publish(role: Option<QueueRoles>) -> bool {
    ||| role == Some(QueueRoles::Producer)
    ||| role == Some(QueueRoles::Moderator)
    ||| role == Some(QueueRoles::Manager)
    ||| role == Some(QueueRoles::Couple)
}

/// Whether a role may pull from a queue.
pub open spec fn may_pull(role: Option<QueueRoles>) -> bool {
    ||| role == Some(QueueRoles::Consumer)
    ||| role == Some(QueueRoles::Moderator)
    ||| role == Some(QueueRoles::Manager)
    ||| role == Some(QueueRoles::Couple)
}

/// Whether a role may issue administrative actions.
pub open spec fn may_manage(role: Option<QueueRoles>) -> bool {
    ||| role == Some(QueueRoles::Moderator)
    ||| role == Some(QueueRoles::Manager)
}

/// The decision for one operation, given the queue's policy, the client's
/// role there, whether the client is authenticated, and whether it was
/// approved earlier. Pings are always allowed.
pub open spec fn evaluate_spec(
    access: QueueAccess,
    role: Option<QueueRoles>,
    request: MTPRequestType,
    authenticated: bool,
    approved: bool,
) -> AccessDecision {
    match request {
        MTPRequestType::Ping => AccessDecision::Allow,
        MTPRequestType::Manage => {
            if may_manage(role) {
                AccessDecision::Allow
            } else {
                AccessDecision::DenyForbidden
            }
        },
        MTPRequestType::Publish => {
            if may_publish(role) {
                AccessDecision::Allow
            } else {
                AccessDecision::DenyForbidden
            }
        },
        MTPRequestType::Pull => {
            if may_pull(role) || access == QueueAccess::Public {
                AccessDecision::Allow
            } else {
                AccessDecision::DenyForbidden
            }
        },
        MTPRequestType::Unsubscribe => {
            if role is Some {
                AccessDecision::Allow
            } else {
                AccessDecision::DenyForbidden
            }
        },
        MTPRequestType::Subscribe => {
            if role is Some {
                AccessDecision::Allow
            } else {
                match access {
                    QueueAccess::Public => AccessDecision::Allow,
                    QueueAccess::Protected => {
                        if authenticated {
                            AccessDecision::Allow
                        } else {
                            AccessDecision::DenyUnauthenticated
                        }
                    },
                    QueueAccess::Private => {
                        if approved {
                            AccessDecision::Allow
                        } else {
                            AccessDecision::Pending
                        }
                    },
                }
            }
        },
    }
}

/// Decides whether one operation may proceed on a queue.
pub fn evaluate(
    access: QueueAccess,
    role: Option<QueueRoles>,
    request: MTPRequestType,
    authenticated: bool,
    approved: bool,
) -> (d: AccessDecision)
    ensures
        d == evaluate_spec(access, role, request, authenticated, approved),
{
    match request {
        MTPRequestType::Ping => AccessDecision::Allow,
        MTPRequestType::Manage => {
            match role {
                Some(QueueRoles::Moderator) | Some(QueueRoles::Manager) => AccessDecision::Allow,
                _ => AccessDecision::DenyForbidden,
            }
        },
        MTPRequestType::Publish => {
            match role {
                Some(QueueRoles::Producer) | Some(QueueRoles::Moderator) | Some(
                    QueueRoles::Manager,
                ) | Some(QueueRoles::Couple) => AccessDecision::Allow,
                _ => AccessDecision::DenyForbidden,
            }
        },
        MTPRequestType::Pull => {
            let consuming = match role {
                Some(QueueRoles::Consumer) | Some(QueueRoles::Moderator) | Some(
                    QueueRoles::Manager,
                ) | Some(QueueRoles::Couple) => true,
                _ => false,
            };
            if consuming || matches!(access, QueueAccess::Public) {
                AccessDecision::Allow
            } else {
                AccessDecision::DenyForbidden
            }
        },
        MTPRequestType::Unsubscribe => {
            if role.is_some() {
                AccessDecision::Allow
            } else {
                AccessDecision::DenyForbidden
            }
        },
        MTPRequestType::Subscribe => {
            if role.is_some() {
                AccessDecision::Allow
            } else {
                match access {
                    QueueAccess::Public => AccessDecision::Allow,
                    QueueAccess::Protected => {
                        if authenticated {
                            AccessDecision::Allow
                        } else {
                            AccessDecision::DenyUnauthenticated
                        }
                    },
                    QueueAccess::Private => {
                        if approved {
                            AccessDecision::Allow
                        } else {
                            AccessDecision::Pending
                        }
                    },
                }
            }
        },
    }
}

/// The evaluator and the registry's subscribe agree: a subscribe proceeds
/// exactly when the evaluator allows it, waits exactly when the evaluator
/// says pending, and is refused for a missing credential exactly when the
/// evaluator says so.
pub proof fn lemma_evaluate_matches_subscribe(q: QueueV, c: Seq<char>, role: QueueRoles, authed:
    bool)
    ensures
        ({
            let d = evaluate_spec(
                q.access,
                role_of(q.subscribers, c),
                MTPRequestType::Subscribe,
                authed,
                names_contain(q.approved, c),
            );
            let o = q_subscribe(q, c, role, authed).1;
            &&& (d == AccessDecision::Allow <==> (o == SubscribeOutcome::Subscribed || o
                == SubscribeOutcome::AlreadySubscribed))
            &&& (d == AccessDecision::Pending <==> o == SubscribeOutcome::PendingApproval)
            &&& (d == AccessDecision::DenyUnauthenticated <==> o
                == SubscribeOutcome::Unauthenticated)
        }),
{
    crate::registry::lemma_roster_idx(q.subscribers, c);
}

} // verus!
