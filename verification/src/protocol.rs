//! The protocol message model: request kinds, header units, authentication
//! methods, manager actions, message bodies, local storage cells, payloads
//! and responses.
//!
//! Each data-carrying type has a mathematical view (the `...V` types) over
//! `Seq<char>` and `Seq` so that contracts elsewhere in the crate can speak
//! about values abstractly. Field-free enums are their own views.

use vstd::prelude::*;

use crate::errors::ProtocolError;

verus! {

// ---------------------------------------------------------------------------
// Request kinds and status codes
// ---------------------------------------------------------------------------

/// The operations a client can request from the broker.
#[derive(Clone, Copy, Debug, PartialEq, Eq, Structural)]
pub enum MTPRequestType {
    /// Subscribe to a message queue.
    Subscribe,
    /// Unsubscribe from a message queue.
    Unsubscribe,
    /// Publish a message to a specified queue.
    Publish,
    /// Pull a pending message from a queue.
    Pull,
    /// Probe the server for liveness.
    Ping,
    /// Perform manager actions on a queue; valid only with the matching role.
    Manage,
}

/// The outcome of one protocol operation: success, or one error of the
/// closed taxonomy.
#[derive(Debug)]
pub enum MTPStatusCode {
    Success0,
    Error1(ProtocolError),
}

impl Clone for MTPStatusCode {
    fn clone(&self) -> (r: Self)
        ensures
            r@ == self@,
    {
        match self {
            Self::Success0 => Self::Success0,
            Self::Error1(e) => Self::Error1(e.clone()),
        }
    }
}

// ---------------------------------------------------------------------------
// Authentication
// ---------------------------------------------------------------------------

/// The authorization schemes the protocol understands.
#[derive(Clone, Copy, Debug, PartialEq, Eq, Structural)]
pub enum AuthSchemes {
    Bearer,
    Basic,
}

/// How a client claims an identity. The credential itself travels beside
/// this tag in an `Authentication` header unit; verifying it is delegated
/// to an external identity service, the broker only records the claim.
#[derive(Clone, Copy, Debug, PartialEq, Eq, Structural)]
pub enum MTPAuth {
    /// A token issued by an external identity provider.
    ExternalToken,
    /// A token issued and checked by the broker's own authority.
    LocalToken,
    /// An authorization header carrying the named scheme.
    Authorization { scheme: AuthSchemes },
    /// Cookie-based authentication.
    Cookie,
}

// ---------------------------------------------------------------------------
// Queue access, roles, message attributes
// ---------------------------------------------------------------------------

/// Queue-level admission policy.
#[derive(Clone, Copy, Debug, PartialEq, Eq, Structural)]
pub enum QueueAccess {
    /// Anyone with the queue identifier joins immediately.
    Public,
    /// Joining requires a moderator's `Authorize`; until then the request
    /// waits in the queue's pending set.
    Private,
    /// Joining is immediate but only for authenticated clients: a subscriber
    /// must present a credential, no approval round-trip is required.
    Protected,
}

/// Per-(client, queue) capability level.
#[derive(Clone, Copy, Debug, PartialEq, Eq, Structural)]
pub enum QueueRoles {
    Moderator,
    Manager,
    Producer,
    Consumer,
    /// A paired producer-and-consumer capability.
    Couple,
}

/// Importance of a message; governs the order in which backlogged messages
/// are handed to pullers.
#[derive(Clone, Copy, Debug, PartialEq, Eq, Structural)]
pub enum MessagePriority {
    Low,
    Medium,
    High,
    Critical,
}

impl MessagePriority {
    /// Numeric rank of a priority: `Low` is 0 and `Critical` is 3.
    pub open spec fn rank_spec(self) -> int {
        match self {
            MessagePriority::Low => 0,
            MessagePriority::Medium => 1,
            MessagePriority::High => 2,
            MessagePriority::Critical => 3,
        }
    }

    /// Returns the numeric rank of this priority.
    pub fn rank(self) -> (r: u8)
        ensures
            r as int == self.rank_spec(),
    {
        match self {
            MessagePriority::Low => 0,
            MessagePriority::Medium => 1,
            MessagePriority::High => 2,
            MessagePriority::Critical => 3,
        }
    }
}

/// The functional category of a message; significant only between clients.
#[allow(non_camel_case_types)]
#[derive(Clone, Copy, Debug, PartialEq, Eq, Structural)]
pub enum MessageCategory {
    EVENT,
    COMMAND,
    REQUEST,
    RESPONSE,
    ACKNOWLEDGEMENT,
    ERROR,
    NOTIFICATION,
    STATUS,
}

/// The serialization formats a message body may use.
#[derive(Clone, Copy, Debug, PartialEq, Eq, Structural)]
pub enum ContentType {
    JSON,
    XML,
}

// ---------------------------------------------------------------------------
// Addressing and manager actions
// ---------------------------------------------------------------------------

/// Clones a vector of strings, element by element.
fn clone_strings(v: &Vec<String>) -> (r: Vec<String>)
    ensures
        r@.map_values(|s: String| s@) == v@.map_values(|s: String| s@),
{
    let mut out: Vec<String> = Vec::new();
    let mut i: usize = 0;
    while i < v.len()
        invariant
            i <= v@.len(),
            out@.len() == i,
            forall|j: int| 0 <= j < i ==> out@[j]@ == v@[j]@,
        decreases v@.len() - i,
    {
        out.push(v[i].clone());
        i = i + 1;
    }
    proof {
        assert(out@.map_values(|s: String| s@) =~= v@.map_values(|s: String| s@));
    }
    out
}

/// The addressing mode of a publish: every subscriber, one subscriber, or a
/// named group of subscribers.
#[derive(Debug)]
pub enum MessagePublish {
    /// Every client registered in the queue, except the publisher itself.
    ALL,
    /// Exactly the named client, if it is subscribed.
    TO(String),
    /// The subset of the named clients that are currently subscribed.
    GROUP(Vec<String>),
}

impl Clone for MessagePublish {
    fn clone(&self) -> (r: Self)
        ensures
            r@ == self@,
    {
        match self {
            Self::ALL => Self::ALL,
            Self::TO(c) => Self::TO(c.clone()),
            Self::GROUP(g) => Self::GROUP(clone_strings(g)),
        }
    }
}

/// View of [`MessagePublish`].
#[verifier::ext_equal]
pub enum MessagePublishV {
    ALL,
    TO(Seq<char>),
    GROUP(Seq<Seq<char>>),
}

impl View for MessagePublish {
    type V = MessagePublishV;

    open spec fn view(&self) -> MessagePublishV {
        match self {
            MessagePublish::ALL => MessagePublishV::ALL,
            MessagePublish::TO(c) => MessagePublishV::TO(c@),
            MessagePublish::GROUP(g) => MessagePublishV::GROUP(
                g@.map_values(|s: String| s@),
            ),
        }
    }
}

/// An administrative action a moderator or manager may apply to a queue.
#[derive(Debug)]
pub enum MTPManagerAction {
    /// Rename the queue the actor moderates.
    Rename(String),
    /// Approve the named client's request to join (or pre-approve a future
    /// request).
    Authorize(String),
    /// Turn down every request currently waiting for approval.
    Reject,
    /// Remove the named client from the queue.
    Dispose(String),
    /// Change the queue's admission policy.
    AccessorModify(QueueAccess),
}

impl Clone for MTPManagerAction {
    fn clone(&self) -> (r: Self)
        ensures
            r@ == self@,
    {
        match self {
            Self::Rename(s) => Self::Rename(s.clone()),
            Self::Authorize(s) => Self::Authorize(s.clone()),
            Self::Reject => Self::Reject,
            Self::Dispose(s) => Self::Dispose(s.clone()),
            Self::AccessorModify(a) => Self::AccessorModify(*a),
        }
    }
}

/// View of [`MTPManagerAction`].
#[verifier::ext_equal]
pub enum ManagerActionV {
    Rename(Seq<char>),
    Authorize(Seq<char>),
    Reject,
    Dispose(Seq<char>),
    AccessorModify(QueueAccess),
}

impl View for MTPManagerAction {
    type V = ManagerActionV;

    open spec fn view(&self) -> ManagerActionV {
        match self {
            MTPManagerAction::Rename(s) => ManagerActionV::Rename(s@),
            MTPManagerAction::Authorize(s) => ManagerActionV::Authorize(s@),
            MTPManagerAction::Reject => ManagerActionV::Reject,
            MTPManagerAction::Dispose(s) => ManagerActionV::Dispose(s@),
            MTPManagerAction::AccessorModify(a) => ManagerActionV::AccessorModify(*a),
        }
    }
}

/// A batch of administrative actions carried by one `Manage` request.
#[derive(Debug)]
pub struct MTPManagerActions {
    pub actions: Vec<MTPManagerAction>,
}

impl Clone for MTPManagerActions {
    fn clone(&self) -> (r: Self)
        ensures
            r@ == self@,
    {
        let mut out: Vec<MTPManagerAction> = Vec::new();
        let mut i: usize = 0;
        while i < self.actions.len()
            invariant
                i <= self.actions@.len(),
                out@.len() == i,
                forall|j: int| 0 <= j < i ==> out@[j]@ == self.actions@[j]@,
            decreases self.actions@.len() - i,
        {
            out.push(self.actions[i].clone());
            i = i + 1;
        }
        proof {
            assert(out@.map_values(|a: MTPManagerAction| a@) =~= self.actions@.map_values(
                |a: MTPManagerAction| a@,
            ));
        }
        MTPManagerActions { actions: out }
    }
}

impl View for MTPManagerActions {
    type V = Seq<ManagerActionV>;

    open spec fn view(&self) -> Seq<ManagerActionV> {
        self.actions@.map_values(|a: MTPManagerAction| a@)
    }
}

// ---------------------------------------------------------------------------
// Message body
// ---------------------------------------------------------------------------

/// The body of a published message together with its metadata.
#[derive(Debug)]
pub struct MTPMessage {
    pub content_type: ContentType,
    pub priority: MessagePriority,
    pub category: MessageCategory,
    pub publish: MessagePublish,
    pub message: String,
}

impl Clone for MTPMessage {
    fn clone(&self) -> (r: Self)
        ensures
            r@ == self@,
    {
        MTPMessage {
            content_type: self.content_type,
            priority: self.priority,
            category: self.category,
            publish: self.publish.clone(),
            message: self.message.clone(),
        }
    }
}

/// View of [`MTPMessage`].
#[verifier::ext_equal]
pub struct MessageV {
    pub content_type: ContentType,
    pub priority: MessagePriority,
    pub category: MessageCategory,
    pub publish: MessagePublishV,
    pub message: Seq<char>,
}

impl View for MTPMessage {
    type V = MessageV;

    open spec fn view(&self) -> MessageV {
        MessageV {
            content_type: self.content_type,
            priority: self.priority,
            category: self.category,
            publish: self.publish@,
            message: self.message@,
        }
    }
}

// ---------------------------------------------------------------------------
// Header units
// ---------------------------------------------------------------------------

/// One tagged unit in a payload's header section. A payload may carry any
/// number of units of each kind; when units of one kind conflict (two
/// `Authentication` units, say), the engine deliberately treats the last
/// occurrence as authoritative.
#[derive(Debug)]
pub enum MTPHeaderUnit {
    /// The sender's claimed identity: an authentication method and the
    /// credential value that goes with it.
    Authentication { key: MTPAuth, value: String },
    /// An administrative action on the queue the request addresses; ignored
    /// unless the sender holds a moderator or manager role there.
    Administration { action: MTPManagerAction },
    /// The address the request came from.
    Source { source: String },
    /// Metadata of the message being published: its identifier, an optional
    /// send time in milliseconds, priority, category and content format.
    Message {
        id: String,
        timestamp: Option<u64>,
        priority: MessagePriority,
        category: MessageCategory,
        content_type: ContentType,
    },
    /// Where a publish is directed: the queue, and the addressing mode.
    MessagePublish { queue: String, to: MessagePublish },
    /// Asks for the addressed queue to be created if it does not exist.
    QueueCreation {},
}

impl Clone for MTPHeaderUnit {
    fn clone(&self) -> (r: Self)
        ensures
            r@ == self@,
    {
        match self {
            Self::Authentication { key, value } => Self::Authentication {
                key: *key,
                value: value.clone(),
            },
            Self::Administration { action } => Self::Administration { action: action.clone() },
            Self::Source { source } => Self::Source { source: source.clone() },
            Self::Message { id, timestamp, priority, category, content_type } => Self::Message {
                id: id.clone(),
                timestamp: *timestamp,
                priority: *priority,
                category: *category,
                content_type: *content_type,
            },
            Self::MessagePublish { queue, to } => Self::MessagePublish {
                queue: queue.clone(),
                to: to.clone(),
            },
            Self::QueueCreation {} => Self::QueueCreation {},
        }
    }
}

/// View of [`MTPHeaderUnit`].
#[verifier::ext_equal]
pub enum HeaderUnitV {
    Authentication { key: MTPAuth, value: Seq<char> },
    Administration { action: ManagerActionV },
    Source { source: Seq<char> },
    Message {
        id: Seq<char>,
        timestamp: Option<u64>,
        priority: MessagePriority,
        category: MessageCategory,
        content_type: ContentType,
    },
    MessagePublish { queue: Seq<char>, to: MessagePublishV },
    QueueCreation {},
}

impl View for MTPHeaderUnit {
    type V = HeaderUnitV;

    open spec fn view(&self) -> HeaderUnitV {
        match self {
            MTPHeaderUnit::Authentication { key, value } => HeaderUnitV::Authentication {
                key: *key,
                value: value@,
            },
            MTPHeaderUnit::Administration { action } => HeaderUnitV::Administration {
                action: action@,
            },
            MTPHeaderUnit::Source { source } => HeaderUnitV::Source { source: source@ },
            MTPHeaderUnit::Message { id, timestamp, priority, category, content_type } => {
                HeaderUnitV::Message {
                    id: id@,
                    timestamp: *timestamp,
                    priority: *priority,
                    category: *category,
                    content_type: *content_type,
                }
            },
            MTPHeaderUnit::MessagePublish { queue, to } => HeaderUnitV::MessagePublish {
                queue: queue@,
                to: to@,
            },
            MTPHeaderUnit::QueueCreation {} => HeaderUnitV::QueueCreation {},
        }
    }
}

// ---------------------------------------------------------------------------
// Local storage
// ---------------------------------------------------------------------------

/// One key-value cell of ancillary data carried beside headers.
#[derive(Debug)]
pub struct StorageCell {
    pub key: String,
    pub value: String,
}

impl Clone for StorageCell {
    fn clone(&self) -> (r: Self)
        ensures
            r@ == self@,
    {
        StorageCell { key: self.key.clone(), value: self.value.clone() }
    }
}

/// View of [`StorageCell`].
#[verifier::ext_equal]
pub struct StorageCellV {
    pub key: Seq<char>,
    pub value: Seq<char>,
}

impl View for StorageCell {
    type V = StorageCellV;

    open spec fn view(&self) -> StorageCellV {
        StorageCellV { key: self.key@, value: self.value@ }
    }
}

/// Ordered key-value cells for ancillary data beside a payload or response.
#[derive(Debug)]
pub struct MTPStorage {
    pub items: Vec<StorageCell>,
}

impl Clone for MTPStorage {
    fn clone(&self) -> (r: Self)
        ensures
            r@ == self@,
    {
        let mut out: Vec<StorageCell> = Vec::new();
        let mut i: usize = 0;
        while i < self.items.len()
            invariant
                i <= self.items@.len(),
                out@.len() == i,
                forall|j: int| 0 <= j < i ==> out@[j]@ == self.items@[j]@,
            decreases self.items@.len() - i,
        {
            out.push(self.items[i].clone());
            i = i + 1;
        }
        proof {
            assert(out@.map_values(|c: StorageCell| c@) =~= self.items@.map_values(
                |c: StorageCell| c@,
            ));
        }
        MTPStorage { items: out }
    }
}

impl View for MTPStorage {
    type V = Seq<StorageCellV>;

    open spec fn view(&self) -> Seq<StorageCellV> {
        self.items@.map_values(|c: StorageCell| c@)
    }
}

impl MTPStorage {
    /// An empty storage section.
    pub fn new() -> (r: MTPStorage)
        ensures
            r@ =~= Seq::<StorageCellV>::empty(),
    {
        MTPStorage { items: Vec::new() }
    }

    /// Appends one key-value cell.
    pub fn push(&mut self, key: String, value: String)
        ensures
            final(self)@ =~= old(self)@.push(StorageCellV { key: key@, value: value@ }),
    {
        self.items.push(StorageCell { key, value });
    }
}

// ---------------------------------------------------------------------------
// Headers, payload, response
// ---------------------------------------------------------------------------

/// The header section of a payload or response: its units, a local storage
/// section, and an optional timestamp in milliseconds.
#[derive(Debug)]
pub struct MTPHeaders {
    pub headers: Vec<MTPHeaderUnit>,
    pub local: MTPStorage,
    pub timestamp: Option<u64>,
}

impl Clone for MTPHeaders {
    fn clone(&self) -> (r: Self)
        ensures
            r@ == self@,
    {
        let mut out: Vec<MTPHeaderUnit> = Vec::new();
        let mut i: usize = 0;
        while i < self.headers.len()
            invariant
                i <= self.headers@.len(),
                out@.len() == i,
                forall|j: int| 0 <= j < i ==> out@[j]@ == self.headers@[j]@,
            decreases self.headers@.len() - i,
        {
            out.push(self.headers[i].clone());
            i = i + 1;
        }
        proof {
            assert(out@.map_values(|u: MTPHeaderUnit| u@) =~= self.headers@.map_values(
                |u: MTPHeaderUnit| u@,
            ));
        }
        MTPHeaders { headers: out, local: self.local.clone(), timestamp: self.timestamp }
    }
}

/// View of [`MTPHeaders`].
#[verifier::ext_equal]
pub struct HeadersV {
    pub headers: Seq<HeaderUnitV>,
    pub local: Seq<StorageCellV>,
    pub timestamp: Option<u64>,
}

impl View for MTPHeaders {
    type V = HeadersV;

    open spec fn view(&self) -> HeadersV {
        HeadersV {
            headers: self.headers@.map_values(|u: MTPHeaderUnit| u@),
            local: self.local@,
            timestamp: self.timestamp,
        }
    }
}

/// One protocol message unit: a header section, an optional message body,
/// and the kind of request it makes. A `Publish` request is well-formed only
/// with a message body present.
#[derive(Debug)]
pub struct MTPPayload {
    pub headers: MTPHeaders,
    pub message: Option<MTPMessage>,
    pub request: MTPRequestType,
}

impl Clone for MTPPayload {
    fn clone(&self) -> (r: Self)
        ensures
            r@ == self@,
    {
        MTPPayload {
            headers: self.headers.clone(),
            message: match &self.message {
                Some(m) => Some(m.clone()),
                None => None,
            },
            request: self.request,
        }
    }
}

/// View of [`MTPPayload`].
#[verifier::ext_equal]
pub struct PayloadV {
    pub headers: HeadersV,
    pub message: Option<MessageV>,
    pub request: MTPRequestType,
}

impl View for MTPPayload {
    type V = PayloadV;

    open spec fn view(&self) -> PayloadV {
        PayloadV {
            headers: self.headers@,
            message: match self.message {
                Some(m) => Some(m@),
                None => None,
            },
            request: self.request,
        }
    }
}

impl PayloadV {
    /// The payload's structural invariant: a publish carries a body.
    pub open spec fn wf(self) -> bool {
        self.request == MTPRequestType::Publish ==> self.message is Some
    }
}

impl MTPPayload {
    /// The headers passed with the request.
    pub fn get_headers(&self) -> (r: &MTPHeaders)
        ensures
            r@ == self.headers@,
    {
        &self.headers
    }

    /// The message body of the payload, if one was sent.
    pub fn get_message(&self) -> (r: &Option<MTPMessage>)
        ensures
            *r == self.message,
    {
        &self.message
    }

    /// The kind of request the payload makes.
    pub fn get_request(&self) -> (r: MTPRequestType)
        ensures
            r == self.request,
    {
        self.request
    }

    /// The timestamp carried in the header section, in milliseconds.
    pub fn get_timestamp(&self) -> (r: Option<u64>)
        ensures
            r == self.headers.timestamp,
    {
        self.headers.timestamp
    }
}

/// The response returned for one request: a status, echoed or augmented
/// headers, and a storage section with ancillary data. Immutable once
/// constructed; one instance per request.
#[derive(Debug)]
pub struct MTPResponse {
    status_code: MTPStatusCode,
    headers: MTPHeaders,
    storage: MTPStorage,
}

impl Clone for MTPResponse {
    fn clone(&self) -> (r: Self)
        ensures
            r@ == self@,
    {
        MTPResponse {
            status_code: self.status_code.clone(),
            headers: self.headers.clone(),
            storage: self.storage.clone(),
        }
    }
}

/// View of [`MTPStatusCode`]: success, or the error's numeric code together
/// with its diagnostic text.
#[verifier::ext_equal]
pub enum StatusV {
    Success,
    Error { code: u32, info: Seq<char> },
}

impl View for MTPStatusCode {
    type V = StatusV;

    open spec fn view(&self) -> StatusV {
        match self {
            MTPStatusCode::Success0 => StatusV::Success,
            MTPStatusCode::Error1(e) => StatusV::Error {
                code: e.code_spec(),
                info: e.info_view(),
            },
        }
    }
}

/// View of [`MTPResponse`].
#[verifier::ext_equal]
pub struct ResponseV {
    pub status: StatusV,
    pub headers: HeadersV,
    pub storage: Seq<StorageCellV>,
}

impl View for MTPResponse {
    type V = ResponseV;

    closed spec fn view(&self) -> ResponseV {
        ResponseV {
            status: self.status_code@,
            headers: self.headers@,
            storage: self.storage@,
        }
    }
}

impl MTPResponse {
    /// Assembles a response from a status, headers and storage.
    pub fn construct(status: MTPStatusCode, headers: MTPHeaders, storage: MTPStorage) -> (r:
        MTPResponse)
        ensures
            r@ == (ResponseV { status: status@, headers: headers@, storage: storage@ }),
    {
        MTPResponse { status_code: status, headers, storage }
    }

    /// The status code of the response.
    pub fn get_status_code(&self) -> (r: MTPStatusCode)
        ensures
            r@ == self@.status,
    {
        self.status_code.clone()
    }

    /// The headers of the response.
    pub fn get_headers(&self) -> (r: Option<&MTPHeaders>)
        ensures
            match r {
                Some(h) => h@ == self@.headers,
                None => false,
            },
    {
        Some(&self.headers)
    }

    /// The ancillary storage of the response.
    pub fn get_storage(&self) -> (r: Option<&MTPStorage>)
        ensures
            match r {
                Some(s) => s@ == self@.storage,
                None => false,
            },
    {
        Some(&self.storage)
    }
}


// ---------------------------------------------------------------------------
// Structural equality of protocol values, decided executably
// ---------------------------------------------------------------------------

/// Whether two optional timestamps are equal.
fn opt_u64_eq(a: &Option<u64>, b: &Option<u64>) -> (r: bool)
    ensures
        r == (a == b),
{
    match (a, b) {
        (Some(x), Some(y)) => *x == *y,
        (None, None) => true,
        _ => false,
    }
}

/// Whether two string lists have equal views.
fn strings_eq(a: &Vec<String>, b: &Vec<String>) -> (r: bool)
    ensures
        r == (a@.map_values(|s: String| s@) == b@.map_values(|s: String| s@)),
{
    let ghost av = a@.map_values(|s: String| s@);
    let ghost bv = b@.map_values(|s: String| s@);
    if a.len() != b.len() {
        proof {
            assert(av.len() != bv.len());
        }
        return false;
    }
    let mut i: usize = 0;
    while i < a.len()
        invariant
            i <= a@.len(),
            a@.len() == b@.len(),
            av == a@.map_values(|s: String| s@),
            bv == b@.map_values(|s: String| s@),
            av.len() == a@.len(),
            bv.len() == b@.len(),
            forall|j: int| 0 <= j < i ==> #[trigger] av[j] == bv[j],
        decreases a@.len() - i,
    {
        proof {
            assert(av[i as int] == a@[i as int]@);
            assert(bv[i as int] == b@[i as int]@);
        }
        if !(a[i] == b[i]) {
            return false;
        }
        i = i + 1;
    }
    proof {
        assert(av =~= bv);
    }
    true
}

/// Whether two addressing modes have equal views.
pub fn publish_eq(a: &MessagePublish, b: &MessagePublish) -> (r: bool)
    ensures
        r == (a@ == b@),
{
    match a {
        MessagePublish::ALL => match b {
            MessagePublish::ALL => true,
            _ => false,
        },
        MessagePublish::TO(x) => match b {
            MessagePublish::TO(y) => *x == *y,
            _ => false,
        },
        MessagePublish::GROUP(x) => match b {
            MessagePublish::GROUP(y) => strings_eq(x, y),
            _ => false,
        },
    }
}

/// Whether two manager actions have equal views.
pub fn action_eq(a: &MTPManagerAction, b: &MTPManagerAction) -> (r: bool)
    ensures
        r == (a@ == b@),
{
    match a {
        MTPManagerAction::Rename(x) => match b {
            MTPManagerAction::Rename(y) => *x == *y,
            _ => false,
        },
        MTPManagerAction::Authorize(x) => match b {
            MTPManagerAction::Authorize(y) => *x == *y,
            _ => false,
        },
        MTPManagerAction::Reject => matches!(b, MTPManagerAction::Reject),
        MTPManagerAction::Dispose(x) => match b {
            MTPManagerAction::Dispose(y) => *x == *y,
            _ => false,
        },
        MTPManagerAction::AccessorModify(x) => match b {
            MTPManagerAction::AccessorModify(y) => *x == *y,
            _ => false,
        },
    }
}

/// Whether two header units have equal views.
pub fn unit_eq(a: &MTPHeaderUnit, b: &MTPHeaderUnit) -> (r: bool)
    ensures
        r == (a@ == b@),
{
    match a {
        MTPHeaderUnit::Authentication { key: ka, value: va } => match b {
            MTPHeaderUnit::Authentication { key: kb, value: vb } => *ka == *kb && *va == *vb,
            _ => false,
        },
        MTPHeaderUnit::Administration { action: aa } => match b {
            MTPHeaderUnit::Administration { action: ab } => action_eq(aa, ab),
            _ => false,
        },
        MTPHeaderUnit::Source { source: sa } => match b {
            MTPHeaderUnit::Source { source: sb } => *sa == *sb,
            _ => false,
        },
        MTPHeaderUnit::Message {
            id: ia,
            timestamp: ta,
            priority: pa,
            category: ca,
            content_type: cta,
        } => match b {
            MTPHeaderUnit::Message {
                id: ib,
                timestamp: tb,
                priority: pb,
                category: cb,
                content_type: ctb,
            } => *ia == *ib && opt_u64_eq(ta, tb) && *pa == *pb && *ca == *cb && *cta == *ctb,
            _ => false,
        },
        MTPHeaderUnit::MessagePublish { queue: qa, to: ta } => match b {
            MTPHeaderUnit::MessagePublish { queue: qb, to: tb } => *qa == *qb && publish_eq(ta, tb),
            _ => false,
        },
        MTPHeaderUnit::QueueCreation {} => matches!(b, MTPHeaderUnit::QueueCreation {}),
    }
}

/// Whether two message bodies have equal views.
pub fn message_eq(a: &MTPMessage, b: &MTPMessage) -> (r: bool)
    ensures
        r == (a@ == b@),
{
    let r = a.content_type == b.content_type && a.priority == b.priority && a.category
        == b.category && publish_eq(&a.publish, &b.publish) && a.message == b.message;
    proof {
        if r {
            assert(a@ =~= b@);
        }
    }
    r
}

/// Whether two storage sections have equal views.
pub fn storage_eq(a: &MTPStorage, b: &MTPStorage) -> (r: bool)
    ensures
        r == (a@ == b@),
{
    let ghost av = a@;
    let ghost bv = b@;
    if a.items.len() != b.items.len() {
        proof {
            assert(av.len() != bv.len());
        }
        return false;
    }
    let mut i: usize = 0;
    while i < a.items.len()
        invariant
            i <= a.items@.len(),
            a.items@.len() == b.items@.len(),
            av == a@,
            bv == b@,
            av.len() == a.items@.len(),
            bv.len() == b.items@.len(),
            forall|j: int| 0 <= j < i ==> #[trigger] av[j] == bv[j],
        decreases a.items@.len() - i,
    {
        proof {
            assert(av[i as int] == a.items@[i as int]@);
            assert(bv[i as int] == b.items@[i as int]@);
        }
        let ca = &a.items[i];
        let cb = &b.items[i];
        if !(ca.key == cb.key && ca.value == cb.value) {
            proof {
                assert(av[i as int] != bv[i as int]);
            }
            return false;
        }
        proof {
            assert(av[i as int] =~= bv[i as int]);
        }
        i = i + 1;
    }
    proof {
        assert(av =~= bv);
    }
    true
}

/// Whether two header sections have equal views.
pub fn headers_eq(a: &MTPHeaders, b: &MTPHeaders) -> (r: bool)
    ensures
        r == (a@ == b@),
{
    let ghost av = a@;
    let ghost bv = b@;
    if a.headers.len() != b.headers.len() {
        proof {
            assert(av.headers.len() != bv.headers.len());
        }
        return false;
    }
    let mut i: usize = 0;
    while i < a.headers.len()
        invariant
            i <= a.headers@.len(),
            a.headers@.len() == b.headers@.len(),
            av == a@,
            bv == b@,
            av.headers.len() == a.headers@.len(),
            bv.headers.len() == b.headers@.len(),
            forall|j: int| 0 <= j < i ==> #[trigger] av.headers[j] == bv.headers[j],
        decreases a.headers@.len() - i,
    {
        proof {
            assert(av.headers[i as int] == a.headers@[i as int]@);
            assert(bv.headers[i as int] == b.headers@[i as int]@);
        }
        if !unit_eq(&a.headers[i], &b.headers[i]) {
            return false;
        }
        i = i + 1;
    }
    proof {
        assert(av.headers =~= bv.headers);
    }
    let r = storage_eq(&a.local, &b.local) && opt_u64_eq(&a.timestamp, &b.timestamp);
    proof {
        if r {
            assert(av =~= bv);
        }
    }
    r
}

/// Whether two payloads have equal views: the same header units in the same
/// order, the same storage, the same timestamp, the same message body if
/// any, and the same request kind.
pub fn payload_eq(a: &MTPPayload, b: &MTPPayload) -> (r: bool)
    ensures
        r == (a@ == b@),
{
    let r = headers_eq(&a.headers, &b.headers) && a.request == b.request && match (
        &a.message,
        &b.message,
    ) {
        (Some(x), Some(y)) => message_eq(x, y),
        (None, None) => true,
        _ => false,
    };
    proof {
        if r {
            assert(a@ =~= b@);
        }
    }
    r
}

impl MTPStatusCode {
    /// The numeric code of a status: 0 for success, the error's code
    /// otherwise.
    pub fn numeric(&self) -> (c: u32)
        ensures
            match self@ {
                StatusV::Success => c == 0,
                StatusV::Error { code, .. } => c == code,
            },
    {
        match self {
            MTPStatusCode::Success0 => 0,
            MTPStatusCode::Error1(e) => e.code(),
        }
    }
}

} // verus!
