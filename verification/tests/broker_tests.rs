//! Exercises the broker: subscription outcomes per admission policy, group
//! publish delivery, priority ordering of pulls, administrative actions, and
//! one full request/response conversation through the engine.

use excal_mq::data::{Data, Endian};
use excal_mq::engine::{handle_request, Session};
use excal_mq::protocol::{
    ContentType, MessageCategory, MessagePriority, MessagePublish, MTPAuth, MTPHeaderUnit,
    MTPHeaders, MTPManagerAction, MTPMessage, MTPPayload, MTPRequestType, MTPStorage,
    QueueAccess, QueueRoles,
};
use excal_mq::registry::{
    ManageOutcome, Queue, QueueRegistry, SubscribeOutcome, UnsubscribeOutcome,
};

fn payload(
    request: MTPRequestType,
    units: Vec<MTPHeaderUnit>,
    message: Option<MTPMessage>,
) -> MTPPayload {
    MTPPayload {
        headers: MTPHeaders {
            headers: units,
            local: MTPStorage { items: vec![] },
            timestamp: None,
        },
        message,
        request,
    }
}

fn auth(name: &str) -> MTPHeaderUnit {
    MTPHeaderUnit::Authentication { key: MTPAuth::LocalToken, value: name.to_string() }
}

fn target(queue: &str, to: MessagePublish) -> MTPHeaderUnit {
    MTPHeaderUnit::MessagePublish { queue: queue.to_string(), to }
}

fn message(priority: MessagePriority, body: &str) -> MTPMessage {
    MTPMessage {
        content_type: ContentType::JSON,
        priority,
        category: MessageCategory::EVENT,
        publish: MessagePublish::ALL,
        message: body.to_string(),
    }
}

fn storage_pairs(r: &excal_mq::protocol::MTPResponse) -> Vec<(String, String)> {
    r.get_storage()
        .unwrap()
        .items
        .iter()
        .map(|c| (c.key.clone(), c.value.clone()))
        .collect()
}

// ---------------------------------------------------------------------------
// Registry-level behavior
// ---------------------------------------------------------------------------

#[test]
fn first_subscribe_creates_queue_with_moderator() {
    let mut reg = QueueRegistry::new();
    let orders = "orders".to_string();
    let alice = "alice".to_string();
    let o = reg.subscribe(&orders, &alice, QueueRoles::Consumer, true);
    assert_eq!(o, SubscribeOutcome::Subscribed);
    assert_eq!(reg.role_on(&orders, &alice), Some(QueueRoles::Moderator));
}

#[test]
fn public_subscribe_is_never_pending() {
    let mut reg = QueueRegistry::new();
    let orders = "orders".to_string();
    reg.subscribe(&orders, &"alice".to_string(), QueueRoles::Consumer, true);
    let o = reg.subscribe(&orders, &"bob".to_string(), QueueRoles::Consumer, false);
    assert_eq!(o, SubscribeOutcome::Subscribed);
    let o2 = reg.subscribe(&orders, &"bob".to_string(), QueueRoles::Consumer, false);
    assert_eq!(o2, SubscribeOutcome::AlreadySubscribed);
}

#[test]
fn private_subscribe_without_authorize_is_pending() {
    let mut reg = QueueRegistry::new();
    let orders = "orders".to_string();
    let alice = "alice".to_string();
    reg.subscribe(&orders, &alice, QueueRoles::Consumer, true);
    let o = reg.apply_manager_action(
        &orders,
        &alice,
        &MTPManagerAction::AccessorModify(QueueAccess::Private),
    );
    assert_eq!(o, ManageOutcome::Applied);
    let bob = "bob".to_string();
    let o = reg.subscribe(&orders, &bob, QueueRoles::Consumer, true);
    assert_eq!(o, SubscribeOutcome::PendingApproval);
    // Still pending on a second ask, never silently admitted.
    let o = reg.subscribe(&orders, &bob, QueueRoles::Consumer, true);
    assert_eq!(o, SubscribeOutcome::PendingApproval);
    assert_eq!(reg.role_on(&orders, &bob), None);
}

#[test]
fn authorize_grants_a_pending_request() {
    let mut reg = QueueRegistry::new();
    let orders = "orders".to_string();
    let alice = "alice".to_string();
    reg.subscribe(&orders, &alice, QueueRoles::Consumer, true);
    reg.apply_manager_action(
        &orders,
        &alice,
        &MTPManagerAction::AccessorModify(QueueAccess::Private),
    );
    let bob = "bob".to_string();
    reg.subscribe(&orders, &bob, QueueRoles::Consumer, true);
    let o = reg.apply_manager_action(&orders, &alice, &MTPManagerAction::Authorize(bob.clone()));
    assert_eq!(o, ManageOutcome::Applied);
    assert_eq!(reg.role_on(&orders, &bob), Some(QueueRoles::Consumer));
}

#[test]
fn prior_authorize_makes_private_subscribe_succeed() {
    let mut reg = QueueRegistry::new();
    let orders = "orders".to_string();
    let alice = "alice".to_string();
    reg.subscribe(&orders, &alice, QueueRoles::Consumer, true);
    reg.apply_manager_action(
        &orders,
        &alice,
        &MTPManagerAction::AccessorModify(QueueAccess::Private),
    );
    let carol = "carol".to_string();
    reg.apply_manager_action(&orders, &alice, &MTPManagerAction::Authorize(carol.clone()));
    let o = reg.subscribe(&orders, &carol, QueueRoles::Producer, true);
    assert_eq!(o, SubscribeOutcome::Subscribed);
    assert_eq!(reg.role_on(&orders, &carol), Some(QueueRoles::Producer));
}

#[test]
fn protected_subscribe_requires_a_credential() {
    let mut reg = QueueRegistry::new();
    let orders = "orders".to_string();
    let alice = "alice".to_string();
    reg.subscribe(&orders, &alice, QueueRoles::Consumer, true);
    reg.apply_manager_action(
        &orders,
        &alice,
        &MTPManagerAction::AccessorModify(QueueAccess::Protected),
    );
    let o = reg.subscribe(&orders, &"anon".to_string(), QueueRoles::Consumer, false);
    assert_eq!(o, SubscribeOutcome::Unauthenticated);
    let o = reg.subscribe(&orders, &"bob".to_string(), QueueRoles::Consumer, true);
    assert_eq!(o, SubscribeOutcome::Subscribed);
}

#[test]
fn manage_requires_a_managing_role() {
    let mut reg = QueueRegistry::new();
    let orders = "orders".to_string();
    let alice = "alice".to_string();
    reg.subscribe(&orders, &alice, QueueRoles::Consumer, true);
    let bob = "bob".to_string();
    reg.subscribe(&orders, &bob, QueueRoles::Consumer, true);
    let o = reg.apply_manager_action(&orders, &bob, &MTPManagerAction::Reject);
    assert_eq!(o, ManageOutcome::Forbidden);
}

#[test]
fn rename_refuses_a_taken_name() {
    let mut reg = QueueRegistry::new();
    let alice = "alice".to_string();
    reg.subscribe(&"orders".to_string(), &alice, QueueRoles::Consumer, true);
    reg.subscribe(&"billing".to_string(), &alice, QueueRoles::Consumer, true);
    let o = reg.apply_manager_action(
        &"orders".to_string(),
        &alice,
        &MTPManagerAction::Rename("billing".to_string()),
    );
    assert_eq!(o, ManageOutcome::NameTaken);
    let o = reg.apply_manager_action(
        &"orders".to_string(),
        &alice,
        &MTPManagerAction::Rename("sales".to_string()),
    );
    assert_eq!(o, ManageOutcome::Applied);
    assert!(reg.has_queue(&"sales".to_string()));
    assert!(!reg.has_queue(&"orders".to_string()));
}

#[test]
fn unsubscribe_then_roster_is_clean() {
    let mut reg = QueueRegistry::new();
    let orders = "orders".to_string();
    let alice = "alice".to_string();
    let bob = "bob".to_string();
    reg.subscribe(&orders, &alice, QueueRoles::Consumer, true);
    reg.subscribe(&orders, &bob, QueueRoles::Consumer, true);
    assert_eq!(reg.unsubscribe(&orders, &bob), UnsubscribeOutcome::Removed);
    assert_eq!(reg.role_on(&orders, &bob), None);
    assert_eq!(reg.role_on(&orders, &alice), Some(QueueRoles::Moderator));
    assert_eq!(reg.unsubscribe(&orders, &bob), UnsubscribeOutcome::NotSubscribed);
    assert_eq!(reg.unsubscribe(&"nope".to_string(), &bob), UnsubscribeOutcome::NoQueue);
}

#[test]
fn interleaved_roster_operations_leave_one_entry_per_client() {
    // Two tasks race to subscribe and unsubscribe the same client; whatever
    // the interleaving, the roster holds the client at most once.
    let mut reg = QueueRegistry::new();
    let orders = "orders".to_string();
    let bob = "bob".to_string();
    reg.subscribe(&orders, &"alice".to_string(), QueueRoles::Consumer, true);
    let o1 = reg.subscribe(&orders, &bob, QueueRoles::Consumer, true);
    let o2 = reg.subscribe(&orders, &bob, QueueRoles::Producer, true);
    assert_eq!(o1, SubscribeOutcome::Subscribed);
    assert_eq!(o2, SubscribeOutcome::AlreadySubscribed);
    assert_eq!(reg.role_on(&orders, &bob), Some(QueueRoles::Consumer));
    reg.unsubscribe(&orders, &bob);
    assert_eq!(reg.role_on(&orders, &bob), None);
    let o3 = reg.subscribe(&orders, &bob, QueueRoles::Producer, true);
    assert_eq!(o3, SubscribeOutcome::Subscribed);
    assert_eq!(reg.role_on(&orders, &bob), Some(QueueRoles::Producer));
}

#[test]
fn garbage_collection_destroys_only_empty_idle_queues() {
    let mut reg = QueueRegistry::new();
    let alice = "alice".to_string();
    reg.subscribe(&"live".to_string(), &alice, QueueRoles::Consumer, true);
    reg.subscribe(&"dead".to_string(), &alice, QueueRoles::Consumer, true);
    reg.unsubscribe(&"dead".to_string(), &alice);
    // The emptied queue survives until collection, to tolerate reconnects.
    assert!(reg.has_queue(&"dead".to_string()));
    reg.collect_garbage();
    assert!(reg.has_queue(&"live".to_string()));
    assert!(!reg.has_queue(&"dead".to_string()));
}

#[test]
fn dequeue_orders_by_priority_then_arrival() {
    let mut q = Queue::new("orders".to_string(), QueueAccess::Public);
    for (p, body) in [
        (MessagePriority::Low, "low-1"),
        (MessagePriority::Critical, "crit-1"),
        (MessagePriority::Medium, "med-1"),
        (MessagePriority::Critical, "crit-2"),
    ] {
        q.enqueue(excal_mq::registry::Delivery {
            recipient: "bob".to_string(),
            message: message(p, body),
        });
    }
    let order: Vec<String> = std::iter::from_fn(|| q.dequeue())
        .map(|d| d.message.message)
        .collect();
    assert_eq!(order, vec!["crit-1", "crit-2", "med-1", "low-1"]);
}

// ---------------------------------------------------------------------------
// The engine, request by request
// ---------------------------------------------------------------------------

#[test]
fn ping_always_succeeds_without_identity() {
    let mut session = Session::new();
    let mut reg = QueueRegistry::new();
    let r = handle_request(&mut session, &mut reg, &payload(MTPRequestType::Ping, vec![], None));
    assert_eq!(r.get_status_code().numeric(), 0);
}

#[test]
fn requests_without_identity_are_unauthorized() {
    let mut session = Session::new();
    let mut reg = QueueRegistry::new();
    let p = payload(
        MTPRequestType::Subscribe,
        vec![target("orders", MessagePublish::ALL)],
        None,
    );
    let r = handle_request(&mut session, &mut reg, &p);
    assert_eq!(r.get_status_code().numeric(), 101);
}

#[test]
fn requests_without_a_queue_are_bad_requests() {
    let mut session = Session::new();
    let mut reg = QueueRegistry::new();
    let p = payload(MTPRequestType::Subscribe, vec![auth("alice")], None);
    let r = handle_request(&mut session, &mut reg, &p);
    assert_eq!(r.get_status_code().numeric(), 100);
}

#[test]
fn group_publish_delivers_exactly_to_subscribed_members() {
    let mut session = Session::new();
    let mut reg = QueueRegistry::new();
    let orders = "orders".to_string();
    reg.subscribe(&orders, &"alice".to_string(), QueueRoles::Consumer, true);
    reg.subscribe(&orders, &"a".to_string(), QueueRoles::Consumer, true);
    reg.subscribe(&orders, &"b".to_string(), QueueRoles::Consumer, true);
    let group = MessagePublish::GROUP(vec![
        "a".to_string(),
        "b".to_string(),
        "c".to_string(),
    ]);
    let p = payload(
        MTPRequestType::Publish,
        vec![auth("alice"), target("orders", group)],
        Some(message(MessagePriority::Medium, "hello group")),
    );
    let r = handle_request(&mut session, &mut reg, &p);
    assert_eq!(r.get_status_code().numeric(), 0);
    let cells = storage_pairs(&r);
    assert_eq!(
        cells,
        vec![
            ("delivered".to_string(), "a".to_string()),
            ("delivered".to_string(), "b".to_string()),
        ]
    );
}

#[test]
fn dispose_then_publish_to_is_not_found() {
    let mut session = Session::new();
    let mut reg = QueueRegistry::new();
    let orders = "orders".to_string();
    reg.subscribe(&orders, &"alice".to_string(), QueueRoles::Consumer, true);
    reg.subscribe(&orders, &"x".to_string(), QueueRoles::Consumer, true);
    // Dispose client x through a manage request.
    let manage = payload(
        MTPRequestType::Manage,
        vec![
            auth("alice"),
            target("orders", MessagePublish::ALL),
            MTPHeaderUnit::Administration {
                action: MTPManagerAction::Dispose("x".to_string()),
            },
        ],
        None,
    );
    let r = handle_request(&mut session, &mut reg, &manage);
    assert_eq!(r.get_status_code().numeric(), 0);
    assert_eq!(reg.role_on(&orders, &"x".to_string()), None);
    // A publish addressed TO the disposed client now fails.
    let publish = payload(
        MTPRequestType::Publish,
        vec![auth("alice"), target("orders", MessagePublish::TO("x".to_string()))],
        Some(message(MessagePriority::Low, "are you there")),
    );
    let r = handle_request(&mut session, &mut reg, &publish);
    assert_eq!(r.get_status_code().numeric(), 103);
}

#[test]
fn publish_requires_a_producing_role() {
    let mut session = Session::new();
    let mut reg = QueueRegistry::new();
    let orders = "orders".to_string();
    reg.subscribe(&orders, &"alice".to_string(), QueueRoles::Consumer, true);
    reg.subscribe(&orders, &"bob".to_string(), QueueRoles::Consumer, true);
    let p = payload(
        MTPRequestType::Publish,
        vec![auth("bob"), target("orders", MessagePublish::ALL)],
        Some(message(MessagePriority::Low, "not allowed")),
    );
    let r = handle_request(&mut session, &mut reg, &p);
    assert_eq!(r.get_status_code().numeric(), 102);
}

#[test]
fn publish_without_body_is_a_bad_request() {
    let mut session = Session::new();
    let mut reg = QueueRegistry::new();
    reg.subscribe(&"orders".to_string(), &"alice".to_string(), QueueRoles::Consumer, true);
    let p = payload(
        MTPRequestType::Publish,
        vec![auth("alice"), target("orders", MessagePublish::ALL)],
        None,
    );
    let r = handle_request(&mut session, &mut reg, &p);
    assert_eq!(r.get_status_code().numeric(), 100);
}

#[test]
fn pull_never_yields_low_while_critical_waits() {
    let mut session = Session::new();
    let mut reg = QueueRegistry::new();
    let orders = "orders".to_string();
    reg.subscribe(&orders, &"alice".to_string(), QueueRoles::Consumer, true);
    reg.subscribe(&orders, &"bob".to_string(), QueueRoles::Consumer, true);
    for (prio, body) in [
        (MessagePriority::Low, "low-first"),
        (MessagePriority::Critical, "critical-second"),
    ] {
        let p = payload(
            MTPRequestType::Publish,
            vec![auth("alice"), target("orders", MessagePublish::TO("bob".to_string()))],
            Some(message(prio, body)),
        );
        let r = handle_request(&mut session, &mut reg, &p);
        assert_eq!(r.get_status_code().numeric(), 0);
    }
    let pull = payload(
        MTPRequestType::Pull,
        vec![auth("bob"), target("orders", MessagePublish::ALL)],
        None,
    );
    let r = handle_request(&mut session, &mut reg, &pull);
    assert_eq!(
        storage_pairs(&r),
        vec![("message".to_string(), "critical-second".to_string())]
    );
    let r = handle_request(&mut session, &mut reg, &pull);
    assert_eq!(storage_pairs(&r), vec![("message".to_string(), "low-first".to_string())]);
}

#[test]
fn orders_queue_conversation() {
    // Queue "orders" created public by alice; bob subscribes; alice publishes
    // a critical message to ALL; bob pulls it; a second pull is an empty,
    // successful response, not an error.
    let mut session = Session::new();
    let mut reg = QueueRegistry::new();
    let create = payload(
        MTPRequestType::Subscribe,
        vec![
            auth("alice"),
            target("orders", MessagePublish::ALL),
            MTPHeaderUnit::QueueCreation {},
        ],
        None,
    );
    let r = handle_request(&mut session, &mut reg, &create);
    assert_eq!(r.get_status_code().numeric(), 0);
    let subscribe = payload(
        MTPRequestType::Subscribe,
        vec![auth("bob"), target("orders", MessagePublish::ALL)],
        None,
    );
    let r = handle_request(&mut session, &mut reg, &subscribe);
    assert_eq!(r.get_status_code().numeric(), 0);
    assert_eq!(
        storage_pairs(&r),
        vec![("subscription".to_string(), "active".to_string())]
    );
    let publish = payload(
        MTPRequestType::Publish,
        vec![auth("alice"), target("orders", MessagePublish::ALL)],
        Some(message(MessagePriority::Critical, "m1")),
    );
    let r = handle_request(&mut session, &mut reg, &publish);
    assert_eq!(r.get_status_code().numeric(), 0);
    assert_eq!(storage_pairs(&r), vec![("delivered".to_string(), "bob".to_string())]);
    let pull = payload(
        MTPRequestType::Pull,
        vec![auth("bob"), target("orders", MessagePublish::ALL)],
        None,
    );
    let r = handle_request(&mut session, &mut reg, &pull);
    assert_eq!(r.get_status_code().numeric(), 0);
    assert_eq!(storage_pairs(&r), vec![("message".to_string(), "m1".to_string())]);
    let r = handle_request(&mut session, &mut reg, &pull);
    assert_eq!(r.get_status_code().numeric(), 0);
    assert_eq!(storage_pairs(&r), vec![("messages".to_string(), "none".to_string())]);
}

#[test]
fn private_queue_subscribe_through_engine_is_pending() {
    let mut session = Session::new();
    let mut reg = QueueRegistry::new();
    let orders = "orders".to_string();
    reg.subscribe(&orders, &"alice".to_string(), QueueRoles::Consumer, true);
    reg.apply_manager_action(
        &orders,
        &"alice".to_string(),
        &MTPManagerAction::AccessorModify(QueueAccess::Private),
    );
    let p = payload(
        MTPRequestType::Subscribe,
        vec![auth("bob"), target("orders", MessagePublish::ALL)],
        None,
    );
    let r = handle_request(&mut session, &mut reg, &p);
    assert_eq!(r.get_status_code().numeric(), 0);
    assert_eq!(
        storage_pairs(&r),
        vec![("subscription".to_string(), "pending".to_string())]
    );
}

#[test]
fn rename_collision_through_engine_is_a_conflict() {
    let mut session = Session::new();
    let mut reg = QueueRegistry::new();
    let alice = "alice".to_string();
    reg.subscribe(&"orders".to_string(), &alice, QueueRoles::Consumer, true);
    reg.subscribe(&"billing".to_string(), &alice, QueueRoles::Consumer, true);
    let p = payload(
        MTPRequestType::Manage,
        vec![
            auth("alice"),
            target("orders", MessagePublish::ALL),
            MTPHeaderUnit::Administration {
                action: MTPManagerAction::Rename("billing".to_string()),
            },
        ],
        None,
    );
    let r = handle_request(&mut session, &mut reg, &p);
    assert_eq!(r.get_status_code().numeric(), 108);
}

// ---------------------------------------------------------------------------
// Stream data helpers
// ---------------------------------------------------------------------------

#[test]
fn utf16_pairs_bytes_by_endianness() {
    let bytes = vec![0x00u8, 0x68, 0x00, 0x69];
    assert_eq!(Data::to_utf16_encoded(&bytes, Endian::Big), vec![0x0068, 0x0069]);
    assert_eq!(Data::to_utf16_encoded(&bytes, Endian::Little), vec![0x6800, 0x6900]);
    assert_eq!(Data::to_utf16_string(&bytes, Endian::Big), "hi");
}

#[test]
fn utf16_drops_a_trailing_odd_byte() {
    let bytes = vec![0x00u8, 0x68, 0x42];
    assert_eq!(Data::to_utf16_encoded(&bytes, Endian::Big), vec![0x0068]);
}
