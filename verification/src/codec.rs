//! The frame codec: turns an [`MTPPayload`] into a self-delimiting byte
//! frame and back. A frame is a 4-byte little-endian body length followed by
//! the body; the body is a tag-and-length encoding of the payload's request
//! kind, timestamp, header units, storage cells and optional message body.
//!
//! The encoding is specified by the `enc_*` spec functions and the decoding
//! by the `dec_*` spec functions; [`lemma_frame_round_trip`] proves that
//! decoding an encoded payload gives the payload back. The executable
//! [`encode`] and [`decode`] are verified against those spec functions.

use vstd::prelude::*;
use vstd::bytes::*;
use vstd::utf8::*;
use vstd::slice::{slice_subrange, slice_to_vec};

use crate::errors::{Error, ProtocolError};
use crate::protocol::{
    AuthSchemes, ContentType, HeaderUnitV, HeadersV, ManagerActionV, MessageCategory,
    MessagePriority, MessagePublish, MessagePublishV, MessageV, MTPAuth, MTPHeaderUnit,
    MTPHeaders, MTPManagerAction, MTPMessage, MTPPayload, MTPRequestType, MTPResponse,
    MTPStatusCode, MTPStorage, PayloadV, ResponseV, StatusV, StorageCell, StorageCellV,
    QueueAccess,
};

verus! {

/// Hard limit on the byte length of a frame body. A frame that declares a
/// longer body is refused with `PayloadTooLarge111`.
pub const MAX_BODY: u32 = 0x0010_0000;

/// Cap on the number of header units one payload may carry. A frame that
/// declares more is refused with `RequestHeaderTooLarge115`.
pub const MAX_UNITS: u32 = 1024;

// ---------------------------------------------------------------------------
// Primitive encoders and decoders
// ---------------------------------------------------------------------------

/// One byte.
pub open spec fn dec_u8(b: Seq<u8>) -> Option<(u8, int)> {
    if b.len() >= 1 {
        Some((b[0], 1int))
    } else {
        None
    }
}

/// A 32-bit length or count, little endian.
pub open spec fn enc_u32(x: u32) -> Seq<u8> {
    spec_u32_to_le_bytes(x)
}

/// Decodes a 32-bit little-endian value from the front of `b`.
pub open spec fn dec_u32(b: Seq<u8>) -> Option<(u32, int)> {
    if b.len() >= 4 {
        Some((spec_u32_from_le_bytes(b.subrange(0, 4)), 4int))
    } else {
        None
    }
}

/// A 64-bit timestamp, little endian.
pub open spec fn enc_u64(x: u64) -> Seq<u8> {
    spec_u64_to_le_bytes(x)
}

/// Decodes a 64-bit little-endian value from the front of `b`.
pub open spec fn dec_u64(b: Seq<u8>) -> Option<(u64, int)> {
    if b.len() >= 8 {
        Some((spec_u64_from_le_bytes(b.subrange(0, 8)), 8int))
    } else {
        None
    }
}

/// An optional timestamp: a presence byte, then the value if present.
pub open spec fn enc_opt_u64(o: Option<u64>) -> Seq<u8> {
    match o {
        None => seq![0u8],
        Some(x) => seq![1u8] + enc_u64(x),
    }
}

/// Decodes an optional 64-bit value from the front of `b`.
pub open spec fn dec_opt_u64(b: Seq<u8>) -> Option<(Option<u64>, int)> {
    match dec_u8(b) {
        None => None,
        Some((t, _)) => {
            if t == 0 {
                Some((None, 1int))
            } else if t == 1 {
                match dec_u64(b.skip(1)) {
                    None => None,
                    Some((x, k)) => Some((Some(x), 1 + k)),
                }
            } else {
                None
            }
        },
    }
}

/// True when a character sequence's UTF-8 encoding fits a 32-bit length
/// prefix; every string a frame carries must satisfy it.
pub open spec fn str_ok(s: Seq<char>) -> bool {
    encode_utf8(s).len() <= u32::MAX
}

/// A string: a 32-bit byte length, then the UTF-8 bytes.
pub open spec fn enc_str(s: Seq<char>) -> Seq<u8> {
    enc_u32(encode_utf8(s).len() as u32) + encode_utf8(s)
}

/// Decodes a length-prefixed UTF-8 string from the front of `b`.
pub open spec fn dec_str(b: Seq<u8>) -> Option<(Seq<char>, int)> {
    match dec_u32(b) {
        None => None,
        Some((n, _)) => {
            if 4 + n <= b.len() && valid_utf8(b.subrange(4, 4 + n)) {
                Some((decode_utf8(b.subrange(4, 4 + n)), 4 + n))
            } else {
                None
            }
        },
    }
}

// ---------------------------------------------------------------------------
// Tags for the field-free enumerations
// ---------------------------------------------------------------------------

/// Wire tag of a request kind.
pub open spec fn tag_of_request(r: MTPRequestType) -> u8 {
    match r {
        MTPRequestType::Subscribe => 0,
        MTPRequestType::Unsubscribe => 1,
        MTPRequestType::Publish => 2,
        MTPRequestType::Pull => 3,
        MTPRequestType::Ping => 4,
        MTPRequestType::Manage => 5,
    }
}

/// The request kind a wire tag stands for.
pub open spec fn request_of_tag(t: u8) -> Option<MTPRequestType> {
    if t == 0 {
        Some(MTPRequestType::Subscribe)
    } else if t == 1 {
        Some(MTPRequestType::Unsubscribe)
    } else if t == 2 {
        Some(MTPRequestType::Publish)
    } else if t == 3 {
        Some(MTPRequestType::Pull)
    } else if t == 4 {
        Some(MTPRequestType::Ping)
    } else if t == 5 {
        Some(MTPRequestType::Manage)
    } else {
        None
    }
}

/// Wire tag of an authentication method; the authorization scheme is folded
/// into the tag.
pub open spec fn tag_of_auth(a: MTPAuth) -> u8 {
    match a {
        MTPAuth::ExternalToken => 0,
        MTPAuth::LocalToken => 1,
        MTPAuth::Authorization { scheme: AuthSchemes::Bearer } => 2,
        MTPAuth::Authorization { scheme: AuthSchemes::Basic } => 3,
        MTPAuth::Cookie => 4,
    }
}

/// The authentication method a wire tag stands for.
pub open spec fn auth_of_tag(t: u8) -> Option<MTPAuth> {
    if t == 0 {
        Some(MTPAuth::ExternalToken)
    } else if t == 1 {
        Some(MTPAuth::LocalToken)
    } else if t == 2 {
        Some(MTPAuth::Authorization { scheme: AuthSchemes::Bearer })
    } else if t == 3 {
        Some(MTPAuth::Authorization { scheme: AuthSchemes::Basic })
    } else if t == 4 {
        Some(MTPAuth::Cookie)
    } else {
        None
    }
}

/// Wire tag of a queue access policy.
pub open spec fn tag_of_access(a: QueueAccess) -> u8 {
    match a {
        QueueAccess::Public => 0,
        QueueAccess::Private => 1,
        QueueAccess::Protected => 2,
    }
}

/// The queue access policy a wire tag stands for.
pub open spec fn access_of_tag(t: u8) -> Option<QueueAccess> {
    if t == 0 {
        Some(QueueAccess::Public)
    } else if t == 1 {
        Some(QueueAccess::Private)
    } else if t == 2 {
        Some(QueueAccess::Protected)
    } else {
        None
    }
}

/// Wire tag of a message priority.
pub open spec fn tag_of_priority(p: MessagePriority) -> u8 {
    match p {
        MessagePriority::Low => 0,
        MessagePriority::Medium => 1,
        MessagePriority::High => 2,
        MessagePriority::Critical => 3,
    }
}

/// The message priority a wire tag stands for.
pub open spec fn priority_of_tag(t: u8) -> Option<MessagePriority> {
    if t == 0 {
        Some(MessagePriority::Low)
    } else if t == 1 {
        Some(MessagePriority::Medium)
    } else if t == 2 {
        Some(MessagePriority::High)
    } else if t == 3 {
        Some(MessagePriority::Critical)
    } else {
        None
    }
}

/// Wire tag of a message category.
pub open spec fn tag_of_category(c: MessageCategory) -> u8 {
    match c {
        MessageCategory::EVENT => 0,
        MessageCategory::COMMAND => 1,
        MessageCategory::REQUEST => 2,
        MessageCategory::RESPONSE => 3,
        MessageCategory::ACKNOWLEDGEMENT => 4,
        MessageCategory::ERROR => 5,
        MessageCategory::NOTIFICATION => 6,
        MessageCategory::STATUS => 7,
    }
}

/// The message category a wire tag stands for.
pub open spec fn category_of_tag(t: u8) -> Option<MessageCategory> {
    if t == 0 {
        Some(MessageCategory::EVENT)
    } else if t == 1 {
        Some(MessageCategory::COMMAND)
    } else if t == 2 {
        Some(MessageCategory::REQUEST)
    } else if t == 3 {
        Some(MessageCategory::RESPONSE)
    } else if t == 4 {
        Some(MessageCategory::ACKNOWLEDGEMENT)
    } else if t == 5 {
        Some(MessageCategory::ERROR)
    } else if t == 6 {
        Some(MessageCategory::NOTIFICATION)
    } else if t == 7 {
        Some(MessageCategory::STATUS)
    } else {
        None
    }
}

/// Wire tag of a content type.
pub open spec fn tag_of_content(c: ContentType) -> u8 {
    match c {
        ContentType::JSON => 0,
        ContentType::XML => 1,
    }
}

/// The content type a wire tag stands for.
pub open spec fn content_of_tag(t: u8) -> Option<ContentType> {
    if t == 0 {
        Some(ContentType::JSON)
    } else if t == 1 {
        Some(ContentType::XML)
    } else {
        None
    }
}

// ---------------------------------------------------------------------------
// Composite encoders
// ---------------------------------------------------------------------------

/// A list of strings, one after the other; the count travels separately.
pub open spec fn enc_str_list(g: Seq<Seq<char>>) -> Seq<u8>
    decreases g.len(),
{
    if g.len() == 0 {
        Seq::empty()
    } else {
        enc_str(g[0]) + enc_str_list(g.drop_first())
    }
}

/// Decodes `n` strings from the front of `b`.
pub open spec fn dec_str_list(b: Seq<u8>, n: nat) -> Option<(Seq<Seq<char>>, int)>
    decreases n,
{
    if n == 0 {
        Some((Seq::empty(), 0int))
    } else {
        match dec_str(b) {
            None => None,
            Some((s, k)) => match dec_str_list(b.skip(k), (n - 1) as nat) {
                None => None,
                Some((ss, k2)) => Some((seq![s] + ss, k + k2)),
            },
        }
    }
}

/// Every string of an addressing mode fits its length prefix, and a group's
/// member count fits its count prefix.
pub open spec fn publish_ok(p: MessagePublishV) -> bool {
    match p {
        MessagePublishV::ALL => true,
        MessagePublishV::TO(c) => str_ok(c),
        MessagePublishV::GROUP(g) => g.len() <= u32::MAX && forall|i: int|
            0 <= i < g.len() ==> str_ok(#[trigger] g[i]),
    }
}

/// An addressing mode: a tag, then the client or the counted group.
pub open spec fn enc_publish(p: MessagePublishV) -> Seq<u8> {
    match p {
        MessagePublishV::ALL => seq![0u8],
        MessagePublishV::TO(c) => seq![1u8] + enc_str(c),
        MessagePublishV::GROUP(g) => seq![2u8] + enc_u32(g.len() as u32) + enc_str_list(g),
    }
}

/// Decodes an addressing mode from the front of `b`.
pub open spec fn dec_publish(b: Seq<u8>) -> Option<(MessagePublishV, int)> {
    match dec_u8(b) {
        None => None,
        Some((t, _)) => {
            if t == 0 {
                Some((MessagePublishV::ALL, 1int))
            } else if t == 1 {
                match dec_str(b.skip(1)) {
                    None => None,
                    Some((c, k)) => Some((MessagePublishV::TO(c), 1 + k)),
                }
            } else if t == 2 {
                match dec_u32(b.skip(1)) {
                    None => None,
                    Some((n, _)) => match dec_str_list(b.skip(5), n as nat) {
                        None => None,
                        Some((g, k)) => Some((MessagePublishV::GROUP(g), 5 + k)),
                    },
                }
            } else {
                None
            }
        },
    }
}

/// Every string of a manager action fits its length prefix.
pub open spec fn action_ok(a: ManagerActionV) -> bool {
    match a {
        ManagerActionV::Rename(s) => str_ok(s),
        ManagerActionV::Authorize(s) => str_ok(s),
        ManagerActionV::Reject => true,
        ManagerActionV::Dispose(s) => str_ok(s),
        ManagerActionV::AccessorModify(_) => true,
    }
}

/// A manager action: a tag, then its argument.
pub open spec fn enc_action(a: ManagerActionV) -> Seq<u8> {
    match a {
        ManagerActionV::Rename(s) => seq![0u8] + enc_str(s),
        ManagerActionV::Authorize(s) => seq![1u8] + enc_str(s),
        ManagerActionV::Reject => seq![2u8],
        ManagerActionV::Dispose(s) => seq![3u8] + enc_str(s),
        ManagerActionV::AccessorModify(acc) => seq![4u8, tag_of_access(acc)],
    }
}

/// Decodes a manager action from the front of `b`.
pub open spec fn dec_action(b: Seq<u8>) -> Option<(ManagerActionV, int)> {
    match dec_u8(b) {
        None => None,
        Some((t, _)) => {
            if t == 0 {
                match dec_str(b.skip(1)) {
                    None => None,
                    Some((s, k)) => Some((ManagerActionV::Rename(s), 1 + k)),
                }
            } else if t == 1 {
                match dec_str(b.skip(1)) {
                    None => None,
                    Some((s, k)) => Some((ManagerActionV::Authorize(s), 1 + k)),
                }
            } else if t == 2 {
                Some((ManagerActionV::Reject, 1int))
            } else if t == 3 {
                match dec_str(b.skip(1)) {
                    None => None,
                    Some((s, k)) => Some((ManagerActionV::Dispose(s), 1 + k)),
                }
            } else if t == 4 {
                match dec_u8(b.skip(1)) {
                    None => None,
                    Some((t2, _)) => match access_of_tag(t2) {
                        None => None,
                        Some(acc) => Some((ManagerActionV::AccessorModify(acc), 2int)),
                    },
                }
            } else {
                None
            }
        },
    }
}

/// Every string of a header unit fits its length prefix.
pub open spec fn unit_ok(u: HeaderUnitV) -> bool {
    match u {
        HeaderUnitV::Authentication { key, value } => str_ok(value),
        HeaderUnitV::Administration { action } => action_ok(action),
        HeaderUnitV::Source { source } => str_ok(source),
        HeaderUnitV::Message { id, .. } => str_ok(id),
        HeaderUnitV::MessagePublish { queue, to } => str_ok(queue) && publish_ok(to),
        HeaderUnitV::QueueCreation {} => true,
    }
}

/// A header unit: a tag, then its fields in order.
pub open spec fn enc_unit(u: HeaderUnitV) -> Seq<u8> {
    match u {
        HeaderUnitV::Authentication { key, value } => seq![0u8, tag_of_auth(key)] + enc_str(
            value,
        ),
        HeaderUnitV::Administration { action } => seq![1u8] + enc_action(action),
        HeaderUnitV::Source { source } => seq![2u8] + enc_str(source),
        HeaderUnitV::Message { id, timestamp, priority, category, content_type } => seq![3u8]
            + enc_str(id) + enc_opt_u64(timestamp) + seq![
            tag_of_priority(priority),
            tag_of_category(category),
            tag_of_content(content_type),
        ],
        HeaderUnitV::MessagePublish { queue, to } => seq![4u8] + enc_str(queue) + enc_publish(to),
        HeaderUnitV::QueueCreation {} => seq![5u8],
    }
}

/// Decodes a header unit from the front of `b`.
pub open spec fn dec_unit(b: Seq<u8>) -> Option<(HeaderUnitV, int)> {
    match dec_u8(b) {
        None => None,
        Some((t, _)) => {
            if t == 0 {
                match dec_u8(b.skip(1)) {
                    None => None,
                    Some((ta, _)) => match auth_of_tag(ta) {
                        None => None,
                        Some(key) => match dec_str(b.skip(2)) {
                            None => None,
                            Some((value, k)) => Some(
                                (HeaderUnitV::Authentication { key, value }, 2 + k),
                            ),
                        },
                    },
                }
            } else if t == 1 {
                match dec_action(b.skip(1)) {
                    None => None,
                    Some((action, k)) => Some((HeaderUnitV::Administration { action }, 1 + k)),
                }
            } else if t == 2 {
                match dec_str(b.skip(1)) {
                    None => None,
                    Some((source, k)) => Some((HeaderUnitV::Source { source }, 1 + k)),
                }
            } else if t == 3 {
                match dec_str(b.skip(1)) {
                    None => None,
                    Some((id, k1)) => match dec_opt_u64(b.skip(1 + k1)) {
                        None => None,
                        Some((timestamp, k2)) => {
                            let rest = b.skip(1 + k1 + k2);
                            if rest.len() >= 3 {
                                match (
                                    priority_of_tag(rest[0]),
                                    category_of_tag(rest[1]),
                                    content_of_tag(rest[2]),
                                ) {
                                    (Some(priority), Some(category), Some(content_type)) => Some(
                                        (
                                            HeaderUnitV::Message {
                                                id,
                                                timestamp,
                                                priority,
                                                category,
                                                content_type,
                                            },
                                            1 + k1 + k2 + 3,
                                        ),
                                    ),
                                    _ => None,
                                }
                            } else {
                                None
                            }
                        },
                    },
                }
            } else if t == 4 {
                match dec_str(b.skip(1)) {
                    None => None,
                    Some((queue, k1)) => match dec_publish(b.skip(1 + k1)) {
                        None => None,
                        Some((to, k2)) => Some(
                            (HeaderUnitV::MessagePublish { queue, to }, 1 + k1 + k2),
                        ),
                    },
                }
            } else if t == 5 {
                Some((HeaderUnitV::QueueCreation {}, 1int))
            } else {
                None
            }
        },
    }
}

/// A sequence of header units, one after the other.
pub open spec fn enc_units(us: Seq<HeaderUnitV>) -> Seq<u8>
    decreases us.len(),
{
    if us.len() == 0 {
        Seq::empty()
    } else {
        enc_unit(us[0]) + enc_units(us.drop_first())
    }
}

/// Decodes `n` header units from the front of `b`.
pub open spec fn dec_units(b: Seq<u8>, n: nat) -> Option<(Seq<HeaderUnitV>, int)>
    decreases n,
{
    if n == 0 {
        Some((Seq::empty(), 0int))
    } else {
        match dec_unit(b) {
            None => None,
            Some((u, k)) => match dec_units(b.skip(k), (n - 1) as nat) {
                None => None,
                Some((us, k2)) => Some((seq![u] + us, k + k2)),
            },
        }
    }
}

/// Every string of a storage cell fits its length prefix.
pub open spec fn cell_ok(c: StorageCellV) -> bool {
    str_ok(c.key) && str_ok(c.value)
}

/// A storage cell: its key, then its value.
pub open spec fn enc_cell(c: StorageCellV) -> Seq<u8> {
    enc_str(c.key) + enc_str(c.value)
}

/// Decodes a storage cell from the front of `b`.
pub open spec fn dec_cell(b: Seq<u8>) -> Option<(StorageCellV, int)> {
    match dec_str(b) {
        None => None,
        Some((key, k1)) => match dec_str(b.skip(k1)) {
            None => None,
            Some((value, k2)) => Some((StorageCellV { key, value }, k1 + k2)),
        },
    }
}

/// A sequence of storage cells, one after the other.
pub open spec fn enc_cells(cs: Seq<StorageCellV>) -> Seq<u8>
    decreases cs.len(),
{
    if cs.len() == 0 {
        Seq::empty()
    } else {
        enc_cell(cs[0]) + enc_cells(cs.drop_first())
    }
}

/// Decodes `n` storage cells from the front of `b`.
pub open spec fn dec_cells(b: Seq<u8>, n: nat) -> Option<(Seq<StorageCellV>, int)>
    decreases n,
{
    if n == 0 {
        Some((Seq::empty(), 0int))
    } else {
        match dec_cell(b) {
            None => None,
            Some((c, k)) => match dec_cells(b.skip(k), (n - 1) as nat) {
                None => None,
                Some((cs, k2)) => Some((seq![c] + cs, k + k2)),
            },
        }
    }
}

/// Every string of a message body fits its length prefix.
pub open spec fn message_ok(m: MessageV) -> bool {
    publish_ok(m.publish) && str_ok(m.message)
}

/// A message body: content type, priority and category tags, the addressing
/// mode, then the body text.
pub open spec fn enc_message(m: MessageV) -> Seq<u8> {
    seq![tag_of_content(m.content_type), tag_of_priority(m.priority), tag_of_category(m.category)]
        + enc_publish(m.publish) + enc_str(m.message)
}

/// Decodes a message body from the front of `b`.
pub open spec fn dec_message(b: Seq<u8>) -> Option<(MessageV, int)> {
    if b.len() >= 3 {
        match (content_of_tag(b[0]), priority_of_tag(b[1]), category_of_tag(b[2])) {
            (Some(content_type), Some(priority), Some(category)) => match dec_publish(b.skip(3)) {
                None => None,
                Some((publish, k1)) => match dec_str(b.skip(3 + k1)) {
                    None => None,
                    Some((message, k2)) => Some(
                        (
                            MessageV { content_type, priority, category, publish, message },
                            3 + k1 + k2,
                        ),
                    ),
                },
            },
            _ => None,
        }
    } else {
        None
    }
}

/// An optional message body behind a presence byte.
pub open spec fn enc_opt_message(m: Option<MessageV>) -> Seq<u8> {
    match m {
        None => seq![0u8],
        Some(msg) => seq![1u8] + enc_message(msg),
    }
}

/// Decodes an optional message body from the front of `b`.
pub open spec fn dec_opt_message(b: Seq<u8>) -> Option<(Option<MessageV>, int)> {
    match dec_u8(b) {
        None => None,
        Some((t, _)) => {
            if t == 0 {
                Some((None, 1int))
            } else if t == 1 {
                match dec_message(b.skip(1)) {
                    None => None,
                    Some((m, k)) => Some((Some(m), 1 + k)),
                }
            } else {
                None
            }
        },
    }
}

/// The sizes a payload must respect to be encodable: every string fits its
/// 32-bit length prefix, the header-unit count stays within [`MAX_UNITS`],
/// and the cell count fits its 32-bit count prefix.
pub open spec fn payload_sizes_ok(p: PayloadV) -> bool {
    &&& forall|i: int| 0 <= i < p.headers.headers.len() ==> unit_ok(#[trigger] p.headers.headers[i])
    &&& p.headers.headers.len() <= MAX_UNITS
    &&& forall|i: int| 0 <= i < p.headers.local.len() ==> cell_ok(#[trigger] p.headers.local[i])
    &&& p.headers.local.len() <= u32::MAX
    &&& match p.message {
        None => true,
        Some(m) => message_ok(m),
    }
}

/// A frame body: the request tag, the header timestamp, the counted header
/// units, the counted storage cells, then the optional message body.
pub open spec fn enc_body(p: PayloadV) -> Seq<u8> {
    seq![tag_of_request(p.request)] + enc_opt_u64(p.headers.timestamp) + enc_u32(
        p.headers.headers.len() as u32,
    ) + enc_units(p.headers.headers) + enc_u32(p.headers.local.len() as u32) + enc_cells(
        p.headers.local,
    ) + enc_opt_message(p.message)
}

/// Decodes a frame body from the front of `b`.
pub open spec fn dec_body(b: Seq<u8>) -> Option<(PayloadV, int)> {
    match dec_u8(b) {
        None => None,
        Some((t, _)) => match request_of_tag(t) {
            None => None,
            Some(request) => match dec_opt_u64(b.skip(1)) {
                None => None,
                Some((timestamp, k1)) => match dec_u32(b.skip(1 + k1)) {
                    None => None,
                    Some((nu, _)) => {
                        if nu > MAX_UNITS {
                            None
                        } else {
                            match dec_units(b.skip(1 + k1 + 4), nu as nat) {
                                None => None,
                                Some((units, k2)) => match dec_u32(b.skip(1 + k1 + 4 + k2)) {
                                    None => None,
                                    Some((nc, _)) => match dec_cells(
                                        b.skip(1 + k1 + 4 + k2 + 4),
                                        nc as nat,
                                    ) {
                                        None => None,
                                        Some((cells, k3)) => match dec_opt_message(
                                            b.skip(1 + k1 + 4 + k2 + 4 + k3),
                                        ) {
                                            None => None,
                                            Some((message, k4)) => Some(
                                                (
                                                    PayloadV {
                                                        headers: HeadersV {
                                                            headers: units,
                                                            local: cells,
                                                            timestamp,
                                                        },
                                                        message,
                                                        request,
                                                    },
                                                    1 + k1 + 4 + k2 + 4 + k3 + k4,
                                                ),
                                            ),
                                        },
                                    },
                                },
                            }
                        }
                    },
                },
            },
        },
    }
}

/// A payload is encodable when its sizes are in range and its encoded body
/// respects the frame's hard size limit.
pub open spec fn encodable(p: PayloadV) -> bool {
    payload_sizes_ok(p) && enc_body(p).len() <= MAX_BODY
}

/// A whole frame: the body's 32-bit length, then the body.
pub open spec fn enc_frame(p: PayloadV) -> Seq<u8> {
    enc_u32(enc_body(p).len() as u32) + enc_body(p)
}

/// Decodes a whole frame: the declared length must be within the hard size
/// limit, the buffer must hold exactly the declared body, and the body must
/// parse completely.
pub open spec fn dec_frame(b: Seq<u8>) -> Option<PayloadV> {
    match dec_u32(b) {
        None => None,
        Some((n, _)) => {
            if n <= MAX_BODY && b.len() == 4 + n {
                match dec_body(b.skip(4)) {
                    Some((p, k)) => {
                        if k == n {
                            Some(p)
                        } else {
                            None
                        }
                    },
                    None => None,
                }
            } else {
                None
            }
        },
    }
}

// ---------------------------------------------------------------------------
// Executable writers
// ---------------------------------------------------------------------------

/// Appends a 32-bit little-endian value.
fn write_u32(out: &mut Vec<u8>, x: u32)
    ensures
        final(out)@ == old(out)@ + enc_u32(x),
{
    let mut b = u32_to_le_bytes(x);
    out.append(&mut b);
}

/// Appends a 64-bit little-endian value.
fn write_u64(out: &mut Vec<u8>, x: u64)
    ensures
        final(out)@ == old(out)@ + enc_u64(x),
{
    let mut b = u64_to_le_bytes(x);
    out.append(&mut b);
}

/// Appends an optional 64-bit value behind a presence byte.
fn write_opt_u64(out: &mut Vec<u8>, o: Option<u64>)
    ensures
        final(out)@ == old(out)@ + enc_opt_u64(o),
{
    match o {
        None => {
            out.push(0u8);
            proof {
                assert(final(out)@ =~= old(out)@ + enc_opt_u64(o));
            }
        },
        Some(x) => {
            out.push(1u8);
            write_u64(out, x);
            proof {
                assert(final(out)@ =~= old(out)@ + enc_opt_u64(o));
            }
        },
    }
}

/// Appends a length-prefixed UTF-8 string. Fails, leaving `out` unchanged,
/// exactly when the string's UTF-8 encoding does not fit a 32-bit length.
fn write_str(out: &mut Vec<u8>, s: &String) -> (ok: bool)
    ensures
        ok ==> str_ok(s@) && final(out)@ == old(out)@ + enc_str(s@),
        !ok ==> !str_ok(s@) && final(out)@ == old(out)@,
{
    let bytes = s.as_str().as_bytes_vec();
    if bytes.len() as u64 > u32::MAX as u64 {
        return false;
    }
    write_u32(out, bytes.len() as u32);
    let mut b = bytes;
    out.append(&mut b);
    proof {
        assert(final(out)@ =~= old(out)@ + enc_str(s@));
    }
    true
}

// ---------------------------------------------------------------------------
// Executable parsers
// ---------------------------------------------------------------------------

/// Reads one byte at `pos`.
fn parse_u8(buf: &Vec<u8>, pos: usize) -> (r: Option<(u8, usize)>)
    requires
        pos <= buf@.len(),
    ensures
        match r {
            Some((v, p2)) => {
                &&& pos < p2 <= buf@.len()
                &&& dec_u8(buf@.skip(pos as int)) == Some((v, (p2 - pos) as int))
            },
            None => dec_u8(buf@.skip(pos as int)) is None,
        },
{
    if pos < buf.len() {
        Some((buf[pos], pos + 1))
    } else {
        None
    }
}

/// Reads a 32-bit little-endian value at `pos`.
fn parse_u32(buf: &Vec<u8>, pos: usize) -> (r: Option<(u32, usize)>)
    requires
        pos <= buf@.len(),
    ensures
        match r {
            Some((v, p2)) => {
                &&& pos < p2 <= buf@.len()
                &&& dec_u32(buf@.skip(pos as int)) == Some((v, (p2 - pos) as int))
            },
            None => dec_u32(buf@.skip(pos as int)) is None,
        },
{
    if buf.len() - pos >= 4 {
        let s = slice_subrange(buf.as_slice(), pos, pos + 4);
        let x = u32_from_le_bytes(s);
        proof {
            assert(s@ =~= buf@.skip(pos as int).subrange(0, 4));
        }
        Some((x, pos + 4))
    } else {
        None
    }
}

/// Reads a 64-bit little-endian value at `pos`.
fn parse_u64(buf: &Vec<u8>, pos: usize) -> (r: Option<(u64, usize)>)
    requires
        pos <= buf@.len(),
    ensures
        match r {
            Some((v, p2)) => {
                &&& pos < p2 <= buf@.len()
                &&& dec_u64(buf@.skip(pos as int)) == Some((v, (p2 - pos) as int))
            },
            None => dec_u64(buf@.skip(pos as int)) is None,
        },
{
    if buf.len() - pos >= 8 {
        let s = slice_subrange(buf.as_slice(), pos, pos + 8);
        let x = u64_from_le_bytes(s);
        proof {
            assert(s@ =~= buf@.skip(pos as int).subrange(0, 8));
        }
        Some((x, pos + 8))
    } else {
        None
    }
}

/// Reads an optional 64-bit value at `pos`.
fn parse_opt_u64(buf: &Vec<u8>, pos: usize) -> (r: Option<(Option<u64>, usize)>)
    requires
        pos <= buf@.len(),
    ensures
        match r {
            Some((v, p2)) => {
                &&& pos < p2 <= buf@.len()
                &&& dec_opt_u64(buf@.skip(pos as int)) == Some((v, (p2 - pos) as int))
            },
            None => dec_opt_u64(buf@.skip(pos as int)) is None,
        },
{
    let (t, p1) = match parse_u8(buf, pos) {
        Some(x) => x,
        None => {
            return None;
        },
    };
    if t == 0 {
        Some((None, p1))
    } else if t == 1 {
        proof {
            assert(buf@.skip(pos as int).skip(1) =~= buf@.skip(p1 as int));
        }
        match parse_u64(buf, p1) {
            Some((x, p2)) => Some((Some(x), p2)),
            None => None,
        }
    } else {
        None
    }
}

/// Relies on `String::from_utf8`: it returns the string whose UTF-8 bytes
/// are exactly the given bytes, and fails exactly when the bytes are not
/// valid UTF-8.
#[verifier::external_body]
fn string_from_utf8(v: Vec<u8>) -> (r: Option<String>)
    ensures
        match r {
            Some(s) => encode_utf8(s@) == v@,
            None => !valid_utf8(v@),
        },
{
    match String::from_utf8(v) {
        Ok(s) => Some(s),
        Err(_) => None,
    }
}

/// Reads a length-prefixed UTF-8 string at `pos`.
fn parse_str(buf: &Vec<u8>, pos: usize) -> (r: Option<(String, usize)>)
    requires
        pos <= buf@.len(),
    ensures
        match r {
            Some((v, p2)) => {
                &&& pos < p2 <= buf@.len()
                &&& dec_str(buf@.skip(pos as int)) == Some((v@, (p2 - pos) as int))
            },
            None => dec_str(buf@.skip(pos as int)) is None,
        },
{
    proof {
        broadcast use vstd::utf8::encode_utf8_decode_utf8, vstd::utf8::encode_utf8_valid_utf8;

    }
    let (n, p1) = match parse_u32(buf, pos) {
        Some(x) => x,
        None => {
            return None;
        },
    };
    let n = n as usize;
    if n > buf.len() - p1 {
        return None;
    }
    let bytes = slice_to_vec(slice_subrange(buf.as_slice(), p1, p1 + n));
    proof {
        assert(bytes@ =~= buf@.skip(pos as int).subrange(4, 4 + n as int));
    }
    match string_from_utf8(bytes) {
        Some(s) => Some((s, p1 + n)),
        None => None,
    }
}

// ---------------------------------------------------------------------------
// Prefix lemmas for the primitives
// ---------------------------------------------------------------------------

/// Decoding a 32-bit value from its encoding followed by anything yields the
/// value back and consumes exactly its four bytes.
pub proof fn lemma_dec_enc_u32(x: u32, rest: Seq<u8>)
    ensures
        enc_u32(x).len() == 4,
        dec_u32(enc_u32(x) + rest) == Some((x, 4int)),
{
    lemma_auto_spec_u32_to_from_le_bytes();
    assert((enc_u32(x) + rest).subrange(0, 4) =~= enc_u32(x));
}

/// Decoding a 64-bit value from its encoding followed by anything yields the
/// value back and consumes exactly its eight bytes.
pub proof fn lemma_dec_enc_u64(x: u64, rest: Seq<u8>)
    ensures
        enc_u64(x).len() == 8,
        dec_u64(enc_u64(x) + rest) == Some((x, 8int)),
{
    lemma_auto_spec_u64_to_from_le_bytes();
    assert((enc_u64(x) + rest).subrange(0, 8) =~= enc_u64(x));
}

/// Decoding an optional value from its encoding followed by anything yields
/// the value back.
pub proof fn lemma_dec_enc_opt_u64(o: Option<u64>, rest: Seq<u8>)
    ensures
        dec_opt_u64(enc_opt_u64(o) + rest) == Some((o, enc_opt_u64(o).len() as int)),
{
    let b = enc_opt_u64(o) + rest;
    match o {
        None => {
            assert(b[0] == 0);
        },
        Some(x) => {
            lemma_dec_enc_u64(x, rest);
            assert(b[0] == 1);
            assert(b.skip(1) =~= enc_u64(x) + rest);
        },
    }
}

/// Decoding a string from its encoding followed by anything yields the
/// string back.
pub proof fn lemma_dec_enc_str(s: Seq<char>, rest: Seq<u8>)
    requires
        str_ok(s),
    ensures
        enc_str(s).len() == 4 + encode_utf8(s).len(),
        dec_str(enc_str(s) + rest) == Some((s, enc_str(s).len() as int)),
{
    broadcast use vstd::utf8::encode_utf8_decode_utf8, vstd::utf8::encode_utf8_valid_utf8;

    let u = encode_utf8(s);
    let n = u.len() as u32;
    let b = enc_str(s) + rest;
    lemma_dec_enc_u32(n, u + rest);
    assert(b =~= enc_u32(n) + (u + rest));
    assert(b.subrange(4, 4 + n as int) =~= u);
}

// ---------------------------------------------------------------------------
// Prefix lemmas for the composites
// ---------------------------------------------------------------------------

/// Decoding a counted string list from its encoding followed by anything
/// yields the list back.
pub proof fn lemma_dec_enc_str_list(g: Seq<Seq<char>>, rest: Seq<u8>)
    requires
        forall|i: int| 0 <= i < g.len() ==> str_ok(#[trigger] g[i]),
    ensures
        dec_str_list(enc_str_list(g) + rest, g.len()) == Some(
            (g, enc_str_list(g).len() as int),
        ),
    decreases g.len(),
{
    if g.len() == 0 {
        assert(enc_str_list(g) + rest =~= rest);
        assert(Seq::<Seq<char>>::empty() =~= g);
    } else {
        let b = enc_str_list(g) + rest;
        let tail0 = g.drop_first();
        assert(b =~= enc_str(g[0]) + (enc_str_list(tail0) + rest));
        lemma_dec_enc_str(g[0], enc_str_list(tail0) + rest);
        let k = enc_str(g[0]).len() as int;
        assert(b.skip(k) =~= enc_str_list(tail0) + rest);
        lemma_dec_enc_str_list(tail0, rest);
        assert(seq![g[0]] + tail0 =~= g);
    }
}

/// Decoding an addressing mode from its encoding followed by anything yields
/// the mode back.
pub proof fn lemma_dec_enc_publish(p: MessagePublishV, rest: Seq<u8>)
    requires
        publish_ok(p),
    ensures
        dec_publish(enc_publish(p) + rest) == Some((p, enc_publish(p).len() as int)),
{
    let b = enc_publish(p) + rest;
    match p {
        MessagePublishV::ALL => {
            assert(b[0] == 0);
        },
        MessagePublishV::TO(c) => {
            assert(b[0] == 1);
            assert(b.skip(1) =~= enc_str(c) + rest);
            lemma_dec_enc_str(c, rest);
        },
        MessagePublishV::GROUP(g) => {
            assert(b[0] == 2);
            let n = g.len() as u32;
            assert(b.skip(1) =~= enc_u32(n) + (enc_str_list(g) + rest));
            lemma_dec_enc_u32(n, enc_str_list(g) + rest);
            assert(b.skip(5) =~= enc_str_list(g) + rest);
            lemma_dec_enc_str_list(g, rest);
        },
    }
}

/// Decoding a manager action from its encoding followed by anything yields
/// the action back.
pub proof fn lemma_dec_enc_action(a: ManagerActionV, rest: Seq<u8>)
    requires
        action_ok(a),
    ensures
        dec_action(enc_action(a) + rest) == Some((a, enc_action(a).len() as int)),
{
    let b = enc_action(a) + rest;
    match a {
        ManagerActionV::Rename(s) => {
            assert(b[0] == 0);
            assert(b.skip(1) =~= enc_str(s) + rest);
            lemma_dec_enc_str(s, rest);
        },
        ManagerActionV::Authorize(s) => {
            assert(b[0] == 1);
            assert(b.skip(1) =~= enc_str(s) + rest);
            lemma_dec_enc_str(s, rest);
        },
        ManagerActionV::Reject => {
            assert(b[0] == 2);
        },
        ManagerActionV::Dispose(s) => {
            assert(b[0] == 3);
            assert(b.skip(1) =~= enc_str(s) + rest);
            lemma_dec_enc_str(s, rest);
        },
        ManagerActionV::AccessorModify(acc) => {
            assert(b[0] == 4);
            assert(b.skip(1)[0] == tag_of_access(acc));
        },
    }
}

/// Decoding a header unit from its encoding followed by anything yields the
/// unit back.
#[verifier::rlimit(100)]
#[verifier::spinoff_prover]
pub proof fn lemma_dec_enc_unit(u: HeaderUnitV, rest: Seq<u8>)
    requires
        unit_ok(u),
    ensures
        dec_unit(enc_unit(u) + rest) == Some((u, enc_unit(u).len() as int)),
{
    let b = enc_unit(u) + rest;
    match u {
        HeaderUnitV::Authentication { key, value } => {
            assert(b[0] == 0);
            assert(b.skip(1)[0] == tag_of_auth(key));
            assert(b.skip(2) =~= enc_str(value) + rest);
            lemma_dec_enc_str(value, rest);
        },
        HeaderUnitV::Administration { action } => {
            assert(b[0] == 1);
            assert(b.skip(1) =~= enc_action(action) + rest);
            lemma_dec_enc_action(action, rest);
        },
        HeaderUnitV::Source { source } => {
            assert(b[0] == 2);
            assert(b.skip(1) =~= enc_str(source) + rest);
            lemma_dec_enc_str(source, rest);
        },
        HeaderUnitV::Message { id, timestamp, priority, category, content_type } => {
            assert(b[0] == 3);
            let tags = seq![
                tag_of_priority(priority),
                tag_of_category(category),
                tag_of_content(content_type),
            ];
            let k1 = enc_str(id).len() as int;
            let k2 = enc_opt_u64(timestamp).len() as int;
            assert(b.skip(1) =~= enc_str(id) + (enc_opt_u64(timestamp) + (tags + rest)));
            lemma_dec_enc_str(id, enc_opt_u64(timestamp) + (tags + rest));
            assert(b.skip(1 + k1) =~= enc_opt_u64(timestamp) + (tags + rest));
            lemma_dec_enc_opt_u64(timestamp, tags + rest);
            assert(b.skip(1 + k1 + k2) =~= tags + rest);
            let r = b.skip(1 + k1 + k2);
            assert(r[0] == tag_of_priority(priority));
            assert(r[1] == tag_of_category(category));
            assert(r[2] == tag_of_content(content_type));
        },
        HeaderUnitV::MessagePublish { queue, to } => {
            assert(b[0] == 4);
            let k1 = enc_str(queue).len() as int;
            assert(b.skip(1) =~= enc_str(queue) + (enc_publish(to) + rest));
            lemma_dec_enc_str(queue, enc_publish(to) + rest);
            assert(b.skip(1 + k1) =~= enc_publish(to) + rest);
            lemma_dec_enc_publish(to, rest);
        },
        HeaderUnitV::QueueCreation {} => {
            assert(b[0] == 5);
        },
    }
}

/// Decoding a counted unit list from its encoding followed by anything
/// yields the list back.
pub proof fn lemma_dec_enc_units(us: Seq<HeaderUnitV>, rest: Seq<u8>)
    requires
        forall|i: int| 0 <= i < us.len() ==> unit_ok(#[trigger] us[i]),
    ensures
        dec_units(enc_units(us) + rest, us.len()) == Some((us, enc_units(us).len() as int)),
    decreases us.len(),
{
    if us.len() == 0 {
        assert(Seq::<HeaderUnitV>::empty() =~= us);
    } else {
        let b = enc_units(us) + rest;
        let tail0 = us.drop_first();
        assert(b =~= enc_unit(us[0]) + (enc_units(tail0) + rest));
        lemma_dec_enc_unit(us[0], enc_units(tail0) + rest);
        let k = enc_unit(us[0]).len() as int;
        assert(b.skip(k) =~= enc_units(tail0) + rest);
        lemma_dec_enc_units(tail0, rest);
        assert(seq![us[0]] + tail0 =~= us);
    }
}

/// Decoding a storage cell from its encoding followed by anything yields the
/// cell back.
pub proof fn lemma_dec_enc_cell(c: StorageCellV, rest: Seq<u8>)
    requires
        cell_ok(c),
    ensures
        dec_cell(enc_cell(c) + rest) == Some((c, enc_cell(c).len() as int)),
{
    let b = enc_cell(c) + rest;
    let k1 = enc_str(c.key).len() as int;
    assert(b =~= enc_str(c.key) + (enc_str(c.value) + rest));
    lemma_dec_enc_str(c.key, enc_str(c.value) + rest);
    assert(b.skip(k1) =~= enc_str(c.value) + rest);
    lemma_dec_enc_str(c.value, rest);
    assert(dec_cell(b) == Some((StorageCellV { key: c.key, value: c.value }, enc_cell(
        c,
    ).len() as int)));
    assert(StorageCellV { key: c.key, value: c.value } =~= c);
}

/// Decoding a counted cell list from its encoding followed by anything
/// yields the list back.
pub proof fn lemma_dec_enc_cells(cs: Seq<StorageCellV>, rest: Seq<u8>)
    requires
        forall|i: int| 0 <= i < cs.len() ==> cell_ok(#[trigger] cs[i]),
    ensures
        dec_cells(enc_cells(cs) + rest, cs.len()) == Some((cs, enc_cells(cs).len() as int)),
    decreases cs.len(),
{
    if cs.len() == 0 {
        assert(Seq::<StorageCellV>::empty() =~= cs);
    } else {
        let b = enc_cells(cs) + rest;
        let tail0 = cs.drop_first();
        assert(b =~= enc_cell(cs[0]) + (enc_cells(tail0) + rest));
        lemma_dec_enc_cell(cs[0], enc_cells(tail0) + rest);
        let k = enc_cell(cs[0]).len() as int;
        assert(b.skip(k) =~= enc_cells(tail0) + rest);
        lemma_dec_enc_cells(tail0, rest);
        assert(seq![cs[0]] + tail0 =~= cs);
    }
}

/// Decoding a message body from its encoding followed by anything yields the
/// body back.
pub proof fn lemma_dec_enc_message(m: MessageV, rest: Seq<u8>)
    requires
        message_ok(m),
    ensures
        dec_message(enc_message(m) + rest) == Some((m, enc_message(m).len() as int)),
{
    let b = enc_message(m) + rest;
    assert(b[0] == tag_of_content(m.content_type));
    assert(b[1] == tag_of_priority(m.priority));
    assert(b[2] == tag_of_category(m.category));
    let k1 = enc_publish(m.publish).len() as int;
    assert(b.skip(3) =~= enc_publish(m.publish) + (enc_str(m.message) + rest));
    lemma_dec_enc_publish(m.publish, enc_str(m.message) + rest);
    assert(b.skip(3 + k1) =~= enc_str(m.message) + rest);
    lemma_dec_enc_str(m.message, rest);
    assert(MessageV {
        content_type: m.content_type,
        priority: m.priority,
        category: m.category,
        publish: m.publish,
        message: m.message,
    } =~= m);
}

/// Decoding an optional message body from its encoding followed by anything
/// yields it back.
pub proof fn lemma_dec_enc_opt_message(m: Option<MessageV>, rest: Seq<u8>)
    requires
        match m {
            None => true,
            Some(msg) => message_ok(msg),
        },
    ensures
        dec_opt_message(enc_opt_message(m) + rest) == Some(
            (m, enc_opt_message(m).len() as int),
        ),
{
    let b = enc_opt_message(m) + rest;
    match m {
        None => {
            assert(b[0] == 0);
        },
        Some(msg) => {
            assert(b[0] == 1);
            assert(b.skip(1) =~= enc_message(msg) + rest);
            lemma_dec_enc_message(msg, rest);
        },
    }
}

/// Decoding a frame body from its encoding followed by anything yields the
/// payload back.
#[verifier::rlimit(100)]
#[verifier::spinoff_prover]
pub proof fn lemma_dec_enc_body(p: PayloadV, rest: Seq<u8>)
    requires
        payload_sizes_ok(p),
    ensures
        dec_body(enc_body(p) + rest) == Some((p, enc_body(p).len() as int)),
{
    broadcast use vstd::seq_lib::lemma_seq_skip_of_skip;

    let us = p.headers.headers;
    let cs = p.headers.local;
    let ts = p.headers.timestamp;
    let nu = us.len() as u32;
    let nc = cs.len() as u32;
    let e0 = seq![tag_of_request(p.request)];
    let e1 = enc_opt_u64(ts);
    let e2 = enc_u32(nu);
    let e3 = enc_units(us);
    let e4 = enc_u32(nc);
    let e5 = enc_cells(cs);
    let e6 = enc_opt_message(p.message);
    let k1 = e1.len() as int;
    let k2 = e3.len() as int;
    let k3 = e5.len() as int;
    let k4 = e6.len() as int;
    let b = enc_body(p) + rest;
    let r6 = e6 + rest;
    let r5 = e5 + r6;
    let r4 = e4 + r5;
    let r3 = e3 + r4;
    let r2 = e2 + r3;
    let r1 = e1 + r2;
    // Reassociate the concatenation so that each segment heads its own tail.
    vstd::seq_lib::lemma_concat_associative(e0 + e1 + e2 + e3 + e4 + e5, e6, rest);
    vstd::seq_lib::lemma_concat_associative(e0 + e1 + e2 + e3 + e4, e5, r6);
    vstd::seq_lib::lemma_concat_associative(e0 + e1 + e2 + e3, e4, r5);
    vstd::seq_lib::lemma_concat_associative(e0 + e1 + e2, e3, r4);
    vstd::seq_lib::lemma_concat_associative(e0 + e1, e2, r3);
    vstd::seq_lib::lemma_concat_associative(e0, e1, r2);
    assert(b == e0 + r1);
    assert(b[0] == tag_of_request(p.request));
    assert(b.skip(1) =~= r1);
    lemma_dec_enc_opt_u64(ts, r2);
    assert(r1.skip(k1) =~= r2);
    assert(b.skip(1 + k1) == r2);
    lemma_dec_enc_u32(nu, r3);
    assert(r2.skip(4) =~= r3);
    assert(b.skip(1 + k1 + 4) == r3);
    lemma_dec_enc_units(us, r4);
    assert(r3.skip(k2) =~= r4);
    assert(b.skip(1 + k1 + 4 + k2) == r4);
    lemma_dec_enc_u32(nc, r5);
    assert(r4.skip(4) =~= r5);
    assert(b.skip(1 + k1 + 4 + k2 + 4) == r5);
    lemma_dec_enc_cells(cs, r6);
    assert(r5.skip(k3) =~= r6);
    assert(b.skip(1 + k1 + 4 + k2 + 4 + k3) == r6);
    lemma_dec_enc_opt_message(p.message, rest);
    assert(PayloadV {
        headers: HeadersV { headers: us, local: cs, timestamp: ts },
        message: p.message,
        request: p.request,
    } =~= p);
}

/// The round-trip law of the frame codec: decoding the encoding of any
/// encodable payload yields exactly that payload.
pub proof fn lemma_frame_round_trip(p: PayloadV)
    requires
        encodable(p),
    ensures
        dec_frame(enc_frame(p)) == Some(p),
{
    let body = enc_body(p);
    let n = body.len() as u32;
    let b = enc_frame(p);
    lemma_dec_enc_u32(n, body);
    assert(b =~= enc_u32(n) + body);
    assert(b.skip(4) =~= body + Seq::<u8>::empty());
    lemma_dec_enc_body(p, Seq::<u8>::empty());
}

// ---------------------------------------------------------------------------
// Appending one element to an encoded list
// ---------------------------------------------------------------------------

/// Appending a unit to a list appends its encoding.
proof fn lemma_enc_units_push(us: Seq<HeaderUnitV>, u: HeaderUnitV)
    ensures
        enc_units(us.push(u)) == enc_units(us) + enc_unit(u),
    decreases us.len(),
{
    if us.len() == 0 {
        assert(us.push(u).drop_first() =~= Seq::<HeaderUnitV>::empty());
        assert(enc_units(us.push(u)) == enc_unit(u) + enc_units(Seq::<HeaderUnitV>::empty()));
        assert(enc_unit(u) + Seq::<u8>::empty() =~= enc_unit(u));
        assert(enc_units(us) + enc_unit(u) =~= enc_unit(u));
    } else {
        lemma_enc_units_push(us.drop_first(), u);
        assert(us.push(u).drop_first() =~= us.drop_first().push(u));
        assert(us.push(u)[0] == us[0]);
        vstd::seq_lib::lemma_concat_associative(
            enc_unit(us[0]),
            enc_units(us.drop_first()),
            enc_unit(u),
        );
    }
}

/// Appending a cell to a list appends its encoding.
proof fn lemma_enc_cells_push(cs: Seq<StorageCellV>, c: StorageCellV)
    ensures
        enc_cells(cs.push(c)) == enc_cells(cs) + enc_cell(c),
    decreases cs.len(),
{
    if cs.len() == 0 {
        assert(cs.push(c).drop_first() =~= Seq::<StorageCellV>::empty());
        assert(enc_cells(cs.push(c)) == enc_cell(c) + enc_cells(Seq::<StorageCellV>::empty()));
        assert(enc_cell(c) + Seq::<u8>::empty() =~= enc_cell(c));
        assert(enc_cells(cs) + enc_cell(c) =~= enc_cell(c));
    } else {
        lemma_enc_cells_push(cs.drop_first(), c);
        assert(cs.push(c).drop_first() =~= cs.drop_first().push(c));
        assert(cs.push(c)[0] == cs[0]);
        vstd::seq_lib::lemma_concat_associative(
            enc_cell(cs[0]),
            enc_cells(cs.drop_first()),
            enc_cell(c),
        );
    }
}

/// Appending a string to a list appends its encoding.
proof fn lemma_enc_str_list_push(g: Seq<Seq<char>>, s: Seq<char>)
    ensures
        enc_str_list(g.push(s)) == enc_str_list(g) + enc_str(s),
    decreases g.len(),
{
    if g.len() == 0 {
        assert(g.push(s).drop_first() =~= Seq::<Seq<char>>::empty());
        assert(enc_str_list(g.push(s)) == enc_str(s) + enc_str_list(Seq::<Seq<char>>::empty()));
        assert(enc_str(s) + Seq::<u8>::empty() =~= enc_str(s));
        assert(enc_str_list(g) + enc_str(s) =~= enc_str(s));
    } else {
        lemma_enc_str_list_push(g.drop_first(), s);
        assert(g.push(s).drop_first() =~= g.drop_first().push(s));
        assert(g.push(s)[0] == g[0]);
        vstd::seq_lib::lemma_concat_associative(
            enc_str(g[0]),
            enc_str_list(g.drop_first()),
            enc_str(s),
        );
    }
}

// ---------------------------------------------------------------------------
// Executable tag conversions
// ---------------------------------------------------------------------------

/// The wire tag of a request kind.
fn request_tag(r: MTPRequestType) -> (t: u8)
    ensures
        t == tag_of_request(r),
{
    match r {
        MTPRequestType::Subscribe => 0,
        MTPRequestType::Unsubscribe => 1,
        MTPRequestType::Publish => 2,
        MTPRequestType::Pull => 3,
        MTPRequestType::Ping => 4,
        MTPRequestType::Manage => 5,
    }
}

/// The request kind of a wire tag.
fn request_from_tag(t: u8) -> (r: Option<MTPRequestType>)
    ensures
        r == request_of_tag(t),
{
    if t == 0 {
        Some(MTPRequestType::Subscribe)
    } else if t == 1 {
        Some(MTPRequestType::Unsubscribe)
    } else if t == 2 {
        Some(MTPRequestType::Publish)
    } else if t == 3 {
        Some(MTPRequestType::Pull)
    } else if t == 4 {
        Some(MTPRequestType::Ping)
    } else if t == 5 {
        Some(MTPRequestType::Manage)
    } else {
        None
    }
}

/// The wire tag of an authentication method.
fn auth_tag(a: &MTPAuth) -> (t: u8)
    ensures
        t == tag_of_auth(*a),
{
    match a {
        MTPAuth::ExternalToken => 0,
        MTPAuth::LocalToken => 1,
        MTPAuth::Authorization { scheme: AuthSchemes::Bearer } => 2,
        MTPAuth::Authorization { scheme: AuthSchemes::Basic } => 3,
        MTPAuth::Cookie => 4,
    }
}

/// The authentication method of a wire tag.
fn auth_from_tag(t: u8) -> (r: Option<MTPAuth>)
    ensures
        r == auth_of_tag(t),
{
    if t == 0 {
        Some(MTPAuth::ExternalToken)
    } else if t == 1 {
        Some(MTPAuth::LocalToken)
    } else if t == 2 {
        Some(MTPAuth::Authorization { scheme: AuthSchemes::Bearer })
    } else if t == 3 {
        Some(MTPAuth::Authorization { scheme: AuthSchemes::Basic })
    } else if t == 4 {
        Some(MTPAuth::Cookie)
    } else {
        None
    }
}

/// The wire tag of a queue access policy.
fn access_tag(a: QueueAccess) -> (t: u8)
    ensures
        t == tag_of_access(a),
{
    match a {
        QueueAccess::Public => 0,
        QueueAccess::Private => 1,
        QueueAccess::Protected => 2,
    }
}

/// The queue access policy of a wire tag.
fn access_from_tag(t: u8) -> (r: Option<QueueAccess>)
    ensures
        r == access_of_tag(t),
{
    if t == 0 {
        Some(QueueAccess::Public)
    } else if t == 1 {
        Some(QueueAccess::Private)
    } else if t == 2 {
        Some(QueueAccess::Protected)
    } else {
        None
    }
}

/// The wire tag of a message priority.
fn priority_tag(p: MessagePriority) -> (t: u8)
    ensures
        t == tag_of_priority(p),
{
    match p {
        MessagePriority::Low => 0,
        MessagePriority::Medium => 1,
        MessagePriority::High => 2,
        MessagePriority::Critical => 3,
    }
}

/// The message priority of a wire tag.
fn priority_from_tag(t: u8) -> (r: Option<MessagePriority>)
    ensures
        r == priority_of_tag(t),
{
    if t == 0 {
        Some(MessagePriority::Low)
    } else if t == 1 {
        Some(MessagePriority::Medium)
    } else if t == 2 {
        Some(MessagePriority::High)
    } else if t == 3 {
        Some(MessagePriority::Critical)
    } else {
        None
    }
}

/// The wire tag of a message category.
fn category_tag(c: MessageCategory) -> (t: u8)
    ensures
        t == tag_of_category(c),
{
    match c {
        MessageCategory::EVENT => 0,
        MessageCategory::COMMAND => 1,
        MessageCategory::REQUEST => 2,
        MessageCategory::RESPONSE => 3,
        MessageCategory::ACKNOWLEDGEMENT => 4,
        MessageCategory::ERROR => 5,
        MessageCategory::NOTIFICATION => 6,
        MessageCategory::STATUS => 7,
    }
}

/// The message category of a wire tag.
fn category_from_tag(t: u8) -> (r: Option<MessageCategory>)
    ensures
        r == category_of_tag(t),
{
    if t == 0 {
        Some(MessageCategory::EVENT)
    } else if t == 1 {
        Some(MessageCategory::COMMAND)
    } else if t == 2 {
        Some(MessageCategory::REQUEST)
    } else if t == 3 {
        Some(MessageCategory::RESPONSE)
    } else if t == 4 {
        Some(MessageCategory::ACKNOWLEDGEMENT)
    } else if t == 5 {
        Some(MessageCategory::ERROR)
    } else if t == 6 {
        Some(MessageCategory::NOTIFICATION)
    } else if t == 7 {
        Some(MessageCategory::STATUS)
    } else {
        None
    }
}

/// The wire tag of a content type.
fn content_tag(c: ContentType) -> (t: u8)
    ensures
        t == tag_of_content(c),
{
    match c {
        ContentType::JSON => 0,
        ContentType::XML => 1,
    }
}

/// The content type of a wire tag.
fn content_from_tag(t: u8) -> (r: Option<ContentType>)
    ensures
        r == content_of_tag(t),
{
    if t == 0 {
        Some(ContentType::JSON)
    } else if t == 1 {
        Some(ContentType::XML)
    } else {
        None
    }
}

// ---------------------------------------------------------------------------
// Composite writers
// ---------------------------------------------------------------------------

/// Appends an addressing mode. Fails exactly when one of its strings does
/// not fit a 32-bit length prefix or a group's count does not fit 32 bits.
fn write_publish(out: &mut Vec<u8>, p: &MessagePublish) -> (ok: bool)
    ensures
        ok ==> publish_ok(p@) && final(out)@ == old(out)@ + enc_publish(p@),
        !ok ==> !publish_ok(p@),
{
    match p {
        MessagePublish::ALL => {
            out.push(0u8);
            proof {
                assert(final(out)@ =~= old(out)@ + enc_publish(p@));
            }
            true
        },
        MessagePublish::TO(c) => {
            out.push(1u8);
            if !write_str(out, c) {
                return false;
            }
            proof {
                assert(final(out)@ =~= old(out)@ + enc_publish(p@));
            }
            true
        },
        MessagePublish::GROUP(g) => {
            if g.len() as u64 > u32::MAX as u64 {
                return false;
            }
            out.push(2u8);
            write_u32(out, g.len() as u32);
            let ghost gs = g@.map_values(|s: String| s@);
            let ghost mid = out@;
            let mut i: usize = 0;
            while i < g.len()
                invariant
                    i <= g@.len(),
                    gs == g@.map_values(|s: String| s@),
                    gs.len() == g@.len(),
                    p@ == MessagePublishV::GROUP(gs),
                    out@ == mid + enc_str_list(gs.take(i as int)),
                    forall|j: int| 0 <= j < i ==> str_ok(#[trigger] gs[j]),
                decreases g@.len() - i,
            {
                let ghost pre = out@;
                if !write_str(out, &g[i]) {
                    proof {
                        assert(gs[i as int] == g@[i as int]@);
                        assert(!publish_ok(p@));
                    }
                    return false;
                }
                proof {
                    assert(gs[i as int] == g@[i as int]@);
                    lemma_enc_str_list_push(gs.take(i as int), gs[i as int]);
                    assert(gs.take(i as int).push(gs[i as int]) =~= gs.take(i + 1));
                    assert(out@ == mid + (enc_str_list(gs.take(i as int)) + enc_str(
                        gs[i as int],
                    )));
                    assert(mid + (enc_str_list(gs.take(i as int)) + enc_str(gs[i as int])) =~= mid
                        + enc_str_list(gs.take(i + 1)));
                }
                i = i + 1;
            }
            proof {
                assert(gs.take(gs.len() as int) =~= gs);
                assert(old(out)@ + enc_publish(p@) =~= mid + enc_str_list(gs));
            }
            true
        },
    }
}

/// Appends a manager action. Fails exactly when its string does not fit a
/// 32-bit length prefix.
fn write_action(out: &mut Vec<u8>, a: &MTPManagerAction) -> (ok: bool)
    ensures
        ok ==> action_ok(a@) && final(out)@ == old(out)@ + enc_action(a@),
        !ok ==> !action_ok(a@),
{
    match a {
        MTPManagerAction::Rename(s) => {
            out.push(0u8);
            if !write_str(out, s) {
                return false;
            }
            proof {
                assert(final(out)@ =~= old(out)@ + enc_action(a@));
            }
            true
        },
        MTPManagerAction::Authorize(s) => {
            out.push(1u8);
            if !write_str(out, s) {
                return false;
            }
            proof {
                assert(final(out)@ =~= old(out)@ + enc_action(a@));
            }
            true
        },
        MTPManagerAction::Reject => {
            out.push(2u8);
            proof {
                assert(final(out)@ =~= old(out)@ + enc_action(a@));
            }
            true
        },
        MTPManagerAction::Dispose(s) => {
            out.push(3u8);
            if !write_str(out, s) {
                return false;
            }
            proof {
                assert(final(out)@ =~= old(out)@ + enc_action(a@));
            }
            true
        },
        MTPManagerAction::AccessorModify(acc) => {
            out.push(4u8);
            out.push(access_tag(*acc));
            proof {
                assert(final(out)@ =~= old(out)@ + enc_action(a@));
            }
            true
        },
    }
}

/// Appends a header unit. Fails exactly when one of its parts is oversized.
fn write_unit(out: &mut Vec<u8>, u: &MTPHeaderUnit) -> (ok: bool)
    ensures
        ok ==> unit_ok(u@) && final(out)@ == old(out)@ + enc_unit(u@),
        !ok ==> !unit_ok(u@),
{
    match u {
        MTPHeaderUnit::Authentication { key, value } => {
            out.push(0u8);
            out.push(auth_tag(key));
            if !write_str(out, value) {
                return false;
            }
            proof {
                assert(final(out)@ =~= old(out)@ + enc_unit(u@));
            }
            true
        },
        MTPHeaderUnit::Administration { action } => {
            out.push(1u8);
            if !write_action(out, action) {
                return false;
            }
            proof {
                assert(final(out)@ =~= old(out)@ + enc_unit(u@));
            }
            true
        },
        MTPHeaderUnit::Source { source } => {
            out.push(2u8);
            if !write_str(out, source) {
                return false;
            }
            proof {
                assert(final(out)@ =~= old(out)@ + enc_unit(u@));
            }
            true
        },
        MTPHeaderUnit::Message { id, timestamp, priority, category, content_type } => {
            out.push(3u8);
            if !write_str(out, id) {
                return false;
            }
            write_opt_u64(out, *timestamp);
            out.push(priority_tag(*priority));
            out.push(category_tag(*category));
            out.push(content_tag(*content_type));
            proof {
                assert(final(out)@ =~= old(out)@ + enc_unit(u@));
            }
            true
        },
        MTPHeaderUnit::MessagePublish { queue, to } => {
            out.push(4u8);
            if !write_str(out, queue) {
                return false;
            }
            if !write_publish(out, to) {
                return false;
            }
            proof {
                assert(final(out)@ =~= old(out)@ + enc_unit(u@));
            }
            true
        },
        MTPHeaderUnit::QueueCreation {} => {
            out.push(5u8);
            proof {
                assert(final(out)@ =~= old(out)@ + enc_unit(u@));
            }
            true
        },
    }
}

/// Appends every header unit in order. Fails exactly when some unit is
/// oversized; `out` may then hold a partial encoding.
fn write_units(out: &mut Vec<u8>, us: &Vec<MTPHeaderUnit>) -> (ok: bool)
    ensures
        ok ==> final(out)@ == old(out)@ + enc_units(us@.map_values(|u: MTPHeaderUnit| u@))
            && forall|j: int| 0 <= j < us@.len() ==> unit_ok((#[trigger] us@[j])@),
        !ok ==> exists|j: int| 0 <= j < us@.len() && !unit_ok((#[trigger] us@[j])@),
{
    let ghost vs = us@.map_values(|u: MTPHeaderUnit| u@);
    let ghost start = out@;
    let mut i: usize = 0;
    while i < us.len()
        invariant
            i <= us@.len(),
            vs == us@.map_values(|u: MTPHeaderUnit| u@),
            vs.len() == us@.len(),
            out@ == start + enc_units(vs.take(i as int)),
            forall|j: int| 0 <= j < i ==> unit_ok(#[trigger] vs[j]),
        decreases us@.len() - i,
    {
        if !write_unit(out, &us[i]) {
            proof {
                assert(vs[i as int] == us@[i as int]@);
            }
            return false;
        }
        proof {
            assert(vs[i as int] == us@[i as int]@);
            lemma_enc_units_push(vs.take(i as int), vs[i as int]);
            assert(vs.take(i as int).push(vs[i as int]) =~= vs.take(i + 1));
            assert(start + (enc_units(vs.take(i as int)) + enc_unit(vs[i as int])) =~= start
                + enc_units(vs.take(i + 1)));
        }
        i = i + 1;
    }
    proof {
        assert(vs.take(vs.len() as int) =~= vs);
        assert forall|j: int| 0 <= j < us@.len() implies unit_ok((#[trigger] us@[j])@) by {
            assert(vs[j] == us@[j]@);
        }
    }
    true
}

/// Appends every storage cell in order. Fails exactly when some cell is
/// oversized; `out` may then hold a partial encoding.
fn write_cells(out: &mut Vec<u8>, cs: &Vec<StorageCell>) -> (ok: bool)
    ensures
        ok ==> final(out)@ == old(out)@ + enc_cells(cs@.map_values(|c: StorageCell| c@)) && forall|
            j: int,
        | 0 <= j < cs@.len() ==> cell_ok((#[trigger] cs@[j])@),
        !ok ==> exists|j: int| 0 <= j < cs@.len() && !cell_ok((#[trigger] cs@[j])@),
{
    let ghost vs = cs@.map_values(|c: StorageCell| c@);
    let ghost start = out@;
    let mut i: usize = 0;
    while i < cs.len()
        invariant
            i <= cs@.len(),
            vs == cs@.map_values(|c: StorageCell| c@),
            vs.len() == cs@.len(),
            out@ == start + enc_cells(vs.take(i as int)),
            forall|j: int| 0 <= j < i ==> cell_ok(#[trigger] vs[j]),
        decreases cs@.len() - i,
    {
        let ghost pre = out@;
        let cell = &cs[i];
        if !write_str(out, &cell.key) {
            proof {
                assert(vs[i as int] == cs@[i as int]@);
            }
            return false;
        }
        if !write_str(out, &cell.value) {
            proof {
                assert(vs[i as int] == cs@[i as int]@);
            }
            return false;
        }
        proof {
            assert(vs[i as int] == cs@[i as int]@);
            lemma_enc_cells_push(vs.take(i as int), vs[i as int]);
            assert(vs.take(i as int).push(vs[i as int]) =~= vs.take(i + 1));
            assert(out@ == pre + enc_str(vs[i as int].key) + enc_str(vs[i as int].value));
            assert(pre + enc_str(vs[i as int].key) + enc_str(vs[i as int].value) =~= pre
                + enc_cell(vs[i as int]));
            assert(start + (enc_cells(vs.take(i as int)) + enc_cell(vs[i as int])) =~= start
                + enc_cells(vs.take(i + 1)));
        }
        i = i + 1;
    }
    proof {
        assert(vs.take(vs.len() as int) =~= vs);
        assert forall|j: int| 0 <= j < cs@.len() implies cell_ok((#[trigger] cs@[j])@) by {
            assert(vs[j] == cs@[j]@);
        }
    }
    true
}

/// Appends a message body. Fails exactly when one of its parts is oversized.
fn write_message(out: &mut Vec<u8>, m: &MTPMessage) -> (ok: bool)
    ensures
        ok ==> message_ok(m@) && final(out)@ == old(out)@ + enc_message(m@),
        !ok ==> !message_ok(m@),
{
    out.push(content_tag(m.content_type));
    out.push(priority_tag(m.priority));
    out.push(category_tag(m.category));
    if !write_publish(out, &m.publish) {
        return false;
    }
    if !write_str(out, &m.message) {
        return false;
    }
    proof {
        assert(final(out)@ =~= old(out)@ + enc_message(m@));
    }
    true
}

// ---------------------------------------------------------------------------
// Encoding a whole frame
// ---------------------------------------------------------------------------

/// Encodes a payload into one self-delimiting frame. Succeeds exactly when
/// the payload is encodable: every string fits its length prefix, the
/// header-unit count stays within [`MAX_UNITS`], and the encoded body stays
/// within [`MAX_BODY`]; otherwise the payload is refused as too large.
pub fn encode(p: &MTPPayload) -> (r: Result<Vec<u8>, ProtocolError>)
    ensures
        match r {
            Ok(v) => encodable(p@) && v@ == enc_frame(p@),
            Err(e) => !encodable(p@) && e.code_spec() == 111,
        },
{
    let mut body: Vec<u8> = Vec::new();
    body.push(request_tag(p.request));
    proof {
        assert(body@ =~= seq![tag_of_request(p@.request)]);
    }
    write_opt_u64(&mut body, p.headers.timestamp);
    if p.headers.headers.len() as u64 > MAX_UNITS as u64 {
        proof {
            assert(p@.headers.headers.len() == p.headers.headers@.len());
        }
        return Err(ProtocolError::PayloadTooLarge111(Error::new(payload_too_large_text())));
    }
    write_u32(&mut body, p.headers.headers.len() as u32);
    if !write_units(&mut body, &p.headers.headers) {
        proof {
            let j = choose|j: int|
                0 <= j < p.headers.headers@.len() && !unit_ok((#[trigger] p.headers.headers@[j])@);
            assert(p@.headers.headers[j] == p.headers.headers@[j]@);
            assert(!payload_sizes_ok(p@));
        }
        return Err(ProtocolError::PayloadTooLarge111(Error::new(payload_too_large_text())));
    }
    if p.headers.local.items.len() as u64 > u32::MAX as u64 {
        proof {
            assert(p@.headers.local.len() == p.headers.local.items@.len());
        }
        return Err(ProtocolError::PayloadTooLarge111(Error::new(payload_too_large_text())));
    }
    write_u32(&mut body, p.headers.local.items.len() as u32);
    if !write_cells(&mut body, &p.headers.local.items) {
        proof {
            let j = choose|j: int|
                0 <= j < p.headers.local.items@.len() && !cell_ok(
                    (#[trigger] p.headers.local.items@[j])@,
                );
            assert(p@.headers.local[j] == p.headers.local.items@[j]@);
            assert(!payload_sizes_ok(p@));
        }
        return Err(ProtocolError::PayloadTooLarge111(Error::new(payload_too_large_text())));
    }
    match &p.message {
        None => {
            body.push(0u8);
            proof {
                assert(enc_opt_message(p@.message) =~= seq![0u8]);
            }
        },
        Some(m) => {
            body.push(1u8);
            if !write_message(&mut body, m) {
                return Err(ProtocolError::PayloadTooLarge111(Error::new(
                    payload_too_large_text(),
                )));
            }
        },
    }
    proof {
        assert(body@ =~= enc_body(p@));
    }
    if body.len() as u64 > MAX_BODY as u64 {
        return Err(ProtocolError::PayloadTooLarge111(Error::new(payload_too_large_text())));
    }
    let mut out: Vec<u8> = Vec::new();
    write_u32(&mut out, body.len() as u32);
    let mut b = body;
    out.append(&mut b);
    Ok(out)
}

/// Diagnostic text for a payload the codec refuses to encode.
fn payload_too_large_text() -> String {
    String::from_str("payload exceeds the frame size limits")
}


// ---------------------------------------------------------------------------
// Composite parsers
// ---------------------------------------------------------------------------

/// Loop invariant for parsing a counted string list: what the whole list's
/// parse yields, given what remains to be parsed from the cursor on.
spec fn strs_loop_inv(b: Seq<u8>, pos: int, cur: int, n: nat, i: nat, acc: Seq<Seq<char>>) -> bool {
    match dec_str_list(b.skip(cur), (n - i) as nat) {
        Some((ss, k)) => dec_str_list(b.skip(pos), n) == Some((acc + ss, cur - pos + k)),
        None => dec_str_list(b.skip(pos), n) is None,
    }
}

/// Loop invariant for parsing a counted unit list.
spec fn units_loop_inv(
    b: Seq<u8>,
    pos: int,
    cur: int,
    n: nat,
    i: nat,
    acc: Seq<HeaderUnitV>,
) -> bool {
    match dec_units(b.skip(cur), (n - i) as nat) {
        Some((ss, k)) => dec_units(b.skip(pos), n) == Some((acc + ss, cur - pos + k)),
        None => dec_units(b.skip(pos), n) is None,
    }
}

/// Loop invariant for parsing a counted cell list.
spec fn cells_loop_inv(
    b: Seq<u8>,
    pos: int,
    cur: int,
    n: nat,
    i: nat,
    acc: Seq<StorageCellV>,
) -> bool {
    match dec_cells(b.skip(cur), (n - i) as nat) {
        Some((ss, k)) => dec_cells(b.skip(pos), n) == Some((acc + ss, cur - pos + k)),
        None => dec_cells(b.skip(pos), n) is None,
    }
}

/// Reads an addressing mode at `pos`.
fn parse_publish(buf: &Vec<u8>, pos: usize) -> (r: Option<(MessagePublish, usize)>)
    requires
        pos <= buf@.len(),
    ensures
        match r {
            Some((v, p2)) => {
                &&& pos < p2 <= buf@.len()
                &&& dec_publish(buf@.skip(pos as int)) == Some((v@, (p2 - pos) as int))
            },
            None => dec_publish(buf@.skip(pos as int)) is None,
        },
{
    let (t, p1) = match parse_u8(buf, pos) {
        Some(x) => x,
        None => {
            return None;
        },
    };
    if t == 0 {
        Some((MessagePublish::ALL, p1))
    } else if t == 1 {
        proof {
            assert(buf@.skip(pos as int).skip(1) =~= buf@.skip(p1 as int));
        }
        match parse_str(buf, p1) {
            Some((c, p2)) => Some((MessagePublish::TO(c), p2)),
            None => None,
        }
    } else if t == 2 {
        proof {
            assert(buf@.skip(pos as int).skip(1) =~= buf@.skip(p1 as int));
        }
        let (n, p2) = match parse_u32(buf, p1) {
            Some(x) => x,
            None => {
                return None;
            },
        };
        proof {
            assert(buf@.skip(pos as int).skip(5) =~= buf@.skip(p2 as int));
        }
        match parse_str_group(buf, p2, n) {
            Some((acc, p3)) => Some((MessagePublish::GROUP(acc), p3)),
            None => None,
        }
    } else {
        None
    }
}

/// Reads `n` strings at `pos`, the members of a group address.
fn parse_str_group(buf: &Vec<u8>, pos: usize, n: u32) -> (r: Option<(Vec<String>, usize)>)
    requires
        pos <= buf@.len(),
    ensures
        match r {
            Some((v, p2)) => {
                &&& pos <= p2 <= buf@.len()
                &&& dec_str_list(buf@.skip(pos as int), n as nat) == Some(
                    (v@.map_values(|x: String| x@), (p2 - pos) as int),
                )
            },
            None => dec_str_list(buf@.skip(pos as int), n as nat) is None,
        },
{
    let mut acc: Vec<String> = Vec::new();
    let mut cur = pos;
    let mut i: u32 = 0;
    while i < n
        invariant
            i <= n,
            pos <= cur <= buf@.len(),
            acc@.len() == i,
            strs_loop_inv(
                buf@,
                pos as int,
                cur as int,
                n as nat,
                i as nat,
                acc@.map_values(|x: String| x@),
            ),
        decreases n - i,
    {
        let ghost accv = acc@.map_values(|x: String| x@);
        let (sv, c2) = match parse_str(buf, cur) {
            Some(x) => x,
            None => {
                proof {
                    assert(dec_str_list(buf@.skip(cur as int), (n - i) as nat) is None);
                }
                return None;
            },
        };
        proof {
            assert(buf@.skip(cur as int).skip((c2 - cur) as int) =~= buf@.skip(c2 as int));
            let tail_r = dec_str_list(buf@.skip(c2 as int), (n - i - 1) as nat);
            if tail_r is Some {
                let (ss2, k2) = tail_r->Some_0;
                assert(dec_str_list(buf@.skip(cur as int), (n - i) as nat) == Some(
                    (seq![sv@] + ss2, (c2 - cur) + k2),
                ));
                assert(accv + (seq![sv@] + ss2) =~= accv.push(sv@) + ss2);
            } else {
                assert(dec_str_list(buf@.skip(cur as int), (n - i) as nat) is None);
            }
            assert(acc@.push(sv).map_values(|x: String| x@) =~= accv.push(sv@));
        }
        acc.push(sv);
        cur = c2;
        i = i + 1;
    }
    proof {
        let accv = acc@.map_values(|x: String| x@);
        assert(dec_str_list(buf@.skip(cur as int), 0nat) == Some(
            (Seq::<Seq<char>>::empty(), 0int),
        ));
        assert(accv + Seq::<Seq<char>>::empty() =~= accv);
    }
    Some((acc, cur))
}

/// Reads a manager action at `pos`.
fn parse_action(buf: &Vec<u8>, pos: usize) -> (r: Option<(MTPManagerAction, usize)>)
    requires
        pos <= buf@.len(),
    ensures
        match r {
            Some((v, p2)) => {
                &&& pos < p2 <= buf@.len()
                &&& dec_action(buf@.skip(pos as int)) == Some((v@, (p2 - pos) as int))
            },
            None => dec_action(buf@.skip(pos as int)) is None,
        },
{
    let (t, p1) = match parse_u8(buf, pos) {
        Some(x) => x,
        None => {
            return None;
        },
    };
    proof {
        assert(buf@.skip(pos as int).skip(1) =~= buf@.skip(p1 as int));
    }
    if t == 0 {
        match parse_str(buf, p1) {
            Some((sv, p2)) => Some((MTPManagerAction::Rename(sv), p2)),
            None => None,
        }
    } else if t == 1 {
        match parse_str(buf, p1) {
            Some((sv, p2)) => Some((MTPManagerAction::Authorize(sv), p2)),
            None => None,
        }
    } else if t == 2 {
        Some((MTPManagerAction::Reject, p1))
    } else if t == 3 {
        match parse_str(buf, p1) {
            Some((sv, p2)) => Some((MTPManagerAction::Dispose(sv), p2)),
            None => None,
        }
    } else if t == 4 {
        let (t2, p2) = match parse_u8(buf, p1) {
            Some(x) => x,
            None => {
                return None;
            },
        };
        match access_from_tag(t2) {
            Some(acc) => Some((MTPManagerAction::AccessorModify(acc), p2)),
            None => None,
        }
    } else {
        None
    }
}

/// Reads a header unit at `pos`.
#[verifier::rlimit(100)]
#[verifier::spinoff_prover]
fn parse_unit(buf: &Vec<u8>, pos: usize) -> (r: Option<(MTPHeaderUnit, usize)>)
    requires
        pos <= buf@.len(),
    ensures
        match r {
            Some((v, p2)) => {
                &&& pos < p2 <= buf@.len()
                &&& dec_unit(buf@.skip(pos as int)) == Some((v@, (p2 - pos) as int))
            },
            None => dec_unit(buf@.skip(pos as int)) is None,
        },
{
    let (t, p1) = match parse_u8(buf, pos) {
        Some(x) => x,
        None => {
            return None;
        },
    };
    proof {
        assert(buf@.skip(pos as int).skip(1) =~= buf@.skip(p1 as int));
    }
    if t == 0 {
        let (ta, p2) = match parse_u8(buf, p1) {
            Some(x) => x,
            None => {
                return None;
            },
        };
        let key = match auth_from_tag(ta) {
            Some(k) => k,
            None => {
                return None;
            },
        };
        proof {
            assert(buf@.skip(pos as int).skip(2) =~= buf@.skip(p2 as int));
        }
        match parse_str(buf, p2) {
            Some((value, p3)) => Some((MTPHeaderUnit::Authentication { key, value }, p3)),
            None => None,
        }
    } else if t == 1 {
        match parse_action(buf, p1) {
            Some((action, p2)) => Some((MTPHeaderUnit::Administration { action }, p2)),
            None => None,
        }
    } else if t == 2 {
        match parse_str(buf, p1) {
            Some((source, p2)) => Some((MTPHeaderUnit::Source { source }, p2)),
            None => None,
        }
    } else if t == 3 {
        let (id, p2) = match parse_str(buf, p1) {
            Some(x) => x,
            None => {
                return None;
            },
        };
        proof {
            assert(buf@.skip(pos as int).skip((p2 - pos) as int) =~= buf@.skip(p2 as int));
        }
        let (timestamp, p3) = match parse_opt_u64(buf, p2) {
            Some(x) => x,
            None => {
                return None;
            },
        };
        proof {
            assert(buf@.skip(pos as int).skip((p3 - pos) as int) =~= buf@.skip(p3 as int));
            assert(buf@.skip(p3 as int).len() == buf@.len() - p3);
        }
        if buf.len() - p3 < 3 {
            return None;
        }
        proof {
            assert(buf@.skip(p3 as int)[0] == buf@[p3 as int]);
            assert(buf@.skip(p3 as int)[1] == buf@[p3 as int + 1]);
            assert(buf@.skip(p3 as int)[2] == buf@[p3 as int + 2]);
        }
        let priority = match priority_from_tag(buf[p3]) {
            Some(x) => x,
            None => {
                return None;
            },
        };
        let category = match category_from_tag(buf[p3 + 1]) {
            Some(x) => x,
            None => {
                return None;
            },
        };
        let content_type = match content_from_tag(buf[p3 + 2]) {
            Some(x) => x,
            None => {
                return None;
            },
        };
        Some((MTPHeaderUnit::Message { id, timestamp, priority, category, content_type }, p3 + 3))
    } else if t == 4 {
        let (queue, p2) = match parse_str(buf, p1) {
            Some(x) => x,
            None => {
                return None;
            },
        };
        proof {
            assert(buf@.skip(pos as int).skip((p2 - pos) as int) =~= buf@.skip(p2 as int));
        }
        match parse_publish(buf, p2) {
            Some((to, p3)) => Some((MTPHeaderUnit::MessagePublish { queue, to }, p3)),
            None => None,
        }
    } else if t == 5 {
        Some((MTPHeaderUnit::QueueCreation {}, p1))
    } else {
        None
    }
}

/// Reads `n` header units at `pos`.
fn parse_units(buf: &Vec<u8>, pos: usize, n: u32) -> (r: Option<(Vec<MTPHeaderUnit>, usize)>)
    requires
        pos <= buf@.len(),
    ensures
        match r {
            Some((v, p2)) => {
                &&& pos <= p2 <= buf@.len()
                &&& dec_units(buf@.skip(pos as int), n as nat) == Some(
                    (v@.map_values(|u: MTPHeaderUnit| u@), (p2 - pos) as int),
                )
            },
            None => dec_units(buf@.skip(pos as int), n as nat) is None,
        },
{
    let mut acc: Vec<MTPHeaderUnit> = Vec::new();
    let mut cur = pos;
    let mut i: u32 = 0;
    while i < n
        invariant
            i <= n,
            pos <= cur <= buf@.len(),
            acc@.len() == i,
            units_loop_inv(
                buf@,
                pos as int,
                cur as int,
                n as nat,
                i as nat,
                acc@.map_values(|u: MTPHeaderUnit| u@),
            ),
        decreases n - i,
    {
        let ghost accv = acc@.map_values(|u: MTPHeaderUnit| u@);
        let (u, c2) = match parse_unit(buf, cur) {
            Some(x) => x,
            None => {
                proof {
                    assert(dec_units(buf@.skip(cur as int), (n - i) as nat) is None);
                }
                return None;
            },
        };
        proof {
            assert(buf@.skip(cur as int).skip((c2 - cur) as int) =~= buf@.skip(c2 as int));
            let tail_r = dec_units(buf@.skip(c2 as int), (n - i - 1) as nat);
            if tail_r is Some {
                let (ss2, k2) = tail_r->Some_0;
                assert(dec_units(buf@.skip(cur as int), (n - i) as nat) == Some(
                    (seq![u@] + ss2, (c2 - cur) + k2),
                ));
                assert(accv + (seq![u@] + ss2) =~= accv.push(u@) + ss2);
            } else {
                assert(dec_units(buf@.skip(cur as int), (n - i) as nat) is None);
            }
            assert(acc@.push(u).map_values(|x: MTPHeaderUnit| x@) =~= accv.push(u@));
        }
        acc.push(u);
        cur = c2;
        i = i + 1;
    }
    proof {
        let accv = acc@.map_values(|u: MTPHeaderUnit| u@);
        assert(dec_units(buf@.skip(cur as int), 0nat) == Some(
            (Seq::<HeaderUnitV>::empty(), 0int),
        ));
        assert(accv + Seq::<HeaderUnitV>::empty() =~= accv);
    }
    Some((acc, cur))
}

/// Reads `n` storage cells at `pos`.
fn parse_cells(buf: &Vec<u8>, pos: usize, n: u32) -> (r: Option<(Vec<StorageCell>, usize)>)
    requires
        pos <= buf@.len(),
    ensures
        match r {
            Some((v, p2)) => {
                &&& pos <= p2 <= buf@.len()
                &&& dec_cells(buf@.skip(pos as int), n as nat) == Some(
                    (v@.map_values(|c: StorageCell| c@), (p2 - pos) as int),
                )
            },
            None => dec_cells(buf@.skip(pos as int), n as nat) is None,
        },
{
    let mut acc: Vec<StorageCell> = Vec::new();
    let mut cur = pos;
    let mut i: u32 = 0;
    while i < n
        invariant
            i <= n,
            pos <= cur <= buf@.len(),
            acc@.len() == i,
            cells_loop_inv(
                buf@,
                pos as int,
                cur as int,
                n as nat,
                i as nat,
                acc@.map_values(|c: StorageCell| c@),
            ),
        decreases n - i,
    {
        let ghost accv = acc@.map_values(|c: StorageCell| c@);
        let (key, c1) = match parse_str(buf, cur) {
            Some(x) => x,
            None => {
                proof {
                    assert(dec_cell(buf@.skip(cur as int)) is None);
                    assert(dec_cells(buf@.skip(cur as int), (n - i) as nat) is None);
                }
                return None;
            },
        };
        proof {
            assert(buf@.skip(cur as int).skip((c1 - cur) as int) =~= buf@.skip(c1 as int));
        }
        let (value, c2) = match parse_str(buf, c1) {
            Some(x) => x,
            None => {
                proof {
                    assert(dec_cell(buf@.skip(cur as int)) is None);
                    assert(dec_cells(buf@.skip(cur as int), (n - i) as nat) is None);
                }
                return None;
            },
        };
        let cell = StorageCell { key, value };
        proof {
            assert(dec_cell(buf@.skip(cur as int)) == Some((cell@, (c2 - cur) as int)));
            assert(buf@.skip(cur as int).skip((c2 - cur) as int) =~= buf@.skip(c2 as int));
            let tail_r = dec_cells(buf@.skip(c2 as int), (n - i - 1) as nat);
            if tail_r is Some {
                let (ss2, k2) = tail_r->Some_0;
                assert(dec_cells(buf@.skip(cur as int), (n - i) as nat) == Some(
                    (seq![cell@] + ss2, (c2 - cur) + k2),
                ));
                assert(accv + (seq![cell@] + ss2) =~= accv.push(cell@) + ss2);
            } else {
                assert(dec_cells(buf@.skip(cur as int), (n - i) as nat) is None);
            }
            assert(acc@.push(cell).map_values(|x: StorageCell| x@) =~= accv.push(cell@));
        }
        acc.push(cell);
        cur = c2;
        i = i + 1;
    }
    proof {
        let accv = acc@.map_values(|c: StorageCell| c@);
        assert(dec_cells(buf@.skip(cur as int), 0nat) == Some(
            (Seq::<StorageCellV>::empty(), 0int),
        ));
        assert(accv + Seq::<StorageCellV>::empty() =~= accv);
    }
    Some((acc, cur))
}

/// Reads a message body at `pos`.
fn parse_message(buf: &Vec<u8>, pos: usize) -> (r: Option<(MTPMessage, usize)>)
    requires
        pos <= buf@.len(),
    ensures
        match r {
            Some((v, p2)) => {
                &&& pos < p2 <= buf@.len()
                &&& dec_message(buf@.skip(pos as int)) == Some((v@, (p2 - pos) as int))
            },
            None => dec_message(buf@.skip(pos as int)) is None,
        },
{
    proof {
        assert(buf@.skip(pos as int).len() == buf@.len() - pos);
    }
    if buf.len() - pos < 3 {
        return None;
    }
    proof {
        assert(buf@.skip(pos as int)[0] == buf@[pos as int]);
        assert(buf@.skip(pos as int)[1] == buf@[pos as int + 1]);
        assert(buf@.skip(pos as int)[2] == buf@[pos as int + 2]);
    }
    let content_type = match content_from_tag(buf[pos]) {
        Some(x) => x,
        None => {
            return None;
        },
    };
    let priority = match priority_from_tag(buf[pos + 1]) {
        Some(x) => x,
        None => {
            return None;
        },
    };
    let category = match category_from_tag(buf[pos + 2]) {
        Some(x) => x,
        None => {
            return None;
        },
    };
    proof {
        assert(buf@.skip(pos as int).skip(3) =~= buf@.skip(pos as int + 3));
    }
    let (publish, p1) = match parse_publish(buf, pos + 3) {
        Some(x) => x,
        None => {
            return None;
        },
    };
    proof {
        assert(buf@.skip(pos as int).skip((p1 - pos) as int) =~= buf@.skip(p1 as int));
    }
    let (message, p2) = match parse_str(buf, p1) {
        Some(x) => x,
        None => {
            return None;
        },
    };
    Some((MTPMessage { content_type, priority, category, publish, message }, p2))
}

/// What parsing a frame body can yield: a payload and its end position, a
/// refusal because the declared header-unit count exceeds [`MAX_UNITS`], or a
/// plain parse failure.
enum BodyParse {
    Parsed(MTPPayload, usize),
    HeadersOver,
    Fail,
}

/// The declared header-unit count of a body exceeds [`MAX_UNITS`], though
/// everything before it parses.
pub open spec fn units_count_over(body: Seq<u8>) -> bool {
    &&& dec_u8(body) matches Some((t, _)) && request_of_tag(t) is Some
    &&& dec_opt_u64(body.skip(1)) matches Some((ts, k1)) && (dec_u32(body.skip(1 + k1)) matches Some(
        (nu, _),
    ) && nu > MAX_UNITS)
}

/// Reads a frame body at `pos`.
#[verifier::rlimit(100)]
#[verifier::spinoff_prover]
fn parse_body(buf: &Vec<u8>, pos: usize) -> (r: BodyParse)
    requires
        pos <= buf@.len(),
    ensures
        match r {
            BodyParse::Parsed(q, p2) => {
                &&& pos <= p2 <= buf@.len()
                &&& dec_body(buf@.skip(pos as int)) == Some((q@, (p2 - pos) as int))
            },
            BodyParse::HeadersOver => dec_body(buf@.skip(pos as int)) is None && units_count_over(
                buf@.skip(pos as int),
            ),
            BodyParse::Fail => dec_body(buf@.skip(pos as int)) is None && !units_count_over(
                buf@.skip(pos as int),
            ),
        },
{
    let (t, p1) = match parse_u8(buf, pos) {
        Some(x) => x,
        None => {
            return BodyParse::Fail;
        },
    };
    let request = match request_from_tag(t) {
        Some(x) => x,
        None => {
            return BodyParse::Fail;
        },
    };
    proof {
        assert(buf@.skip(pos as int).skip(1) =~= buf@.skip(p1 as int));
    }
    let (timestamp, p2) = match parse_opt_u64(buf, p1) {
        Some(x) => x,
        None => {
            return BodyParse::Fail;
        },
    };
    proof {
        assert(buf@.skip(pos as int).skip((p2 - pos) as int) =~= buf@.skip(p2 as int));
    }
    let (nu, p3) = match parse_u32(buf, p2) {
        Some(x) => x,
        None => {
            return BodyParse::Fail;
        },
    };
    if nu > MAX_UNITS {
        return BodyParse::HeadersOver;
    }
    proof {
        assert(buf@.skip(pos as int).skip((p3 - pos) as int) =~= buf@.skip(p3 as int));
    }
    let (units, p4) = match parse_units(buf, p3, nu) {
        Some(x) => x,
        None => {
            return BodyParse::Fail;
        },
    };
    proof {
        assert(buf@.skip(pos as int).skip((p4 - pos) as int) =~= buf@.skip(p4 as int));
    }
    let (nc, p5) = match parse_u32(buf, p4) {
        Some(x) => x,
        None => {
            return BodyParse::Fail;
        },
    };
    proof {
        assert(buf@.skip(pos as int).skip((p5 - pos) as int) =~= buf@.skip(p5 as int));
    }
    let (cells, p6) = match parse_cells(buf, p5, nc) {
        Some(x) => x,
        None => {
            return BodyParse::Fail;
        },
    };
    proof {
        assert(buf@.skip(pos as int).skip((p6 - pos) as int) =~= buf@.skip(p6 as int));
    }
    let (tm, p7) = match parse_u8(buf, p6) {
        Some(x) => x,
        None => {
            return BodyParse::Fail;
        },
    };
    if tm == 0 {
        let payload = MTPPayload {
            headers: MTPHeaders {
                headers: units,
                local: MTPStorage { items: cells },
                timestamp,
            },
            message: None,
            request,
        };
        BodyParse::Parsed(payload, p7)
    } else if tm == 1 {
        proof {
            assert(buf@.skip(p6 as int).skip(1) =~= buf@.skip(p7 as int));
        }
        match parse_message(buf, p7) {
            Some((m, p8)) => {
                let payload = MTPPayload {
                    headers: MTPHeaders {
                        headers: units,
                        local: MTPStorage { items: cells },
                        timestamp,
                    },
                    message: Some(m),
                    request,
                };
                BodyParse::Parsed(payload, p8)
            },
            None => BodyParse::Fail,
        }
    } else {
        BodyParse::Fail
    }
}

// ---------------------------------------------------------------------------
// Decoding a whole frame
// ---------------------------------------------------------------------------

/// The buffer declares a body longer than the hard size limit.
pub open spec fn frame_declared_oversized(b: Seq<u8>) -> bool {
    dec_u32(b) matches Some((n, _)) && n > MAX_BODY
}

/// The buffer is one well-shaped frame whose declared header-unit count
/// exceeds [`MAX_UNITS`].
pub open spec fn frame_units_over(b: Seq<u8>) -> bool {
    &&& dec_u32(b) matches Some((n, _)) && n <= MAX_BODY && b.len() == 4 + n
    &&& units_count_over(b.skip(4))
}

/// The error code [`decode`] reports for a buffer it cannot decode: payload
/// too large when the declared body exceeds the hard limit, header section
/// too large when the declared unit count exceeds its cap, bad request
/// otherwise.
pub open spec fn decode_err_code(b: Seq<u8>) -> u32 {
    if frame_declared_oversized(b) {
        111
    } else if frame_units_over(b) {
        115
    } else {
        100
    }
}

/// Decodes one whole frame. Succeeds exactly when the buffer is a complete,
/// well-formed frame; a buffer whose declared body exceeds [`MAX_BODY`] is
/// refused as too large, one whose declared header-unit count exceeds
/// [`MAX_UNITS`] is refused for oversized headers, and anything else
/// malformed is refused as a bad request.
pub fn decode(buf: &Vec<u8>) -> (r: Result<MTPPayload, ProtocolError>)
    ensures
        match r {
            Ok(q) => dec_frame(buf@) == Some(q@),
            Err(e) => dec_frame(buf@) is None && e.code_spec() == decode_err_code(buf@),
        },
{
    proof {
        assert(buf@.skip(0) =~= buf@);
    }
    let (n, p1) = match parse_u32(buf, 0) {
        Some(x) => x,
        None => {
            return Err(ProtocolError::BadRequest100(Error::new(bad_frame_text())));
        },
    };
    if n > MAX_BODY {
        return Err(ProtocolError::PayloadTooLarge111(Error::new(oversized_frame_text())));
    }
    if buf.len() - 4 != n as usize {
        return Err(ProtocolError::BadRequest100(Error::new(bad_frame_text())));
    }
    match parse_body(buf, 4) {
        BodyParse::Parsed(q, p2) => {
            if p2 == buf.len() {
                Ok(q)
            } else {
                Err(ProtocolError::BadRequest100(Error::new(bad_frame_text())))
            }
        },
        BodyParse::HeadersOver => Err(
            ProtocolError::RequestHeaderTooLarge115(Error::new(oversized_headers_text())),
        ),
        BodyParse::Fail => Err(ProtocolError::BadRequest100(Error::new(bad_frame_text()))),
    }
}

/// Diagnostic text for a malformed frame.
fn bad_frame_text() -> String {
    String::from_str("malformed frame")
}

/// Diagnostic text for a frame whose declared body exceeds the size limit.
fn oversized_frame_text() -> String {
    String::from_str("frame body exceeds the size limit")
}

/// Diagnostic text for a frame whose header section exceeds its cap.
fn oversized_headers_text() -> String {
    String::from_str("header section exceeds the unit cap")
}

/// How many bytes the frame at the front of `buf` spans, read from its
/// length prefix.
pub enum FrameNeed {
    /// Not enough bytes yet to know the frame length.
    MoreBytes,
    /// The declared body exceeds [`MAX_BODY`].
    TooLarge,
    /// The whole frame spans this many bytes.
    Span(usize),
}

/// Reads the length prefix of a frame and reports how many bytes the whole
/// frame spans, so that a caller feeding on a byte stream knows when a full
/// frame has arrived and decoding may start.
pub fn frame_span(buf: &Vec<u8>) -> (r: FrameNeed)
    ensures
        match r {
            FrameNeed::MoreBytes => buf@.len() < 4,
            FrameNeed::TooLarge => frame_declared_oversized(buf@),
            FrameNeed::Span(k) => {
                &&& dec_u32(buf@) matches Some((n, _)) && n <= MAX_BODY && k == 4 + n
            },
        },
{
    proof {
        assert(buf@.skip(0) =~= buf@);
    }
    let (n, _) = match parse_u32(buf, 0) {
        Some(x) => x,
        None => {
            return FrameNeed::MoreBytes;
        },
    };
    if n > MAX_BODY {
        FrameNeed::TooLarge
    } else {
        FrameNeed::Span(4 + n as usize)
    }
}



// ---------------------------------------------------------------------------
// Encoding a response envelope
// ---------------------------------------------------------------------------

/// A response status: a success byte, or a failure byte followed by the
/// error's code and its diagnostic text.
pub open spec fn enc_status(s: StatusV) -> Seq<u8> {
    match s {
        StatusV::Success => seq![0u8],
        StatusV::Error { code, info } => seq![1u8] + enc_u32(code) + enc_str(info),
    }
}

/// Every string of a status fits its length prefix.
pub open spec fn status_ok(s: StatusV) -> bool {
    match s {
        StatusV::Success => true,
        StatusV::Error { code, info } => str_ok(info),
    }
}

/// A response body: the status, the echoed header section, then the
/// response's own storage cells.
pub open spec fn enc_response_body(r: ResponseV) -> Seq<u8> {
    enc_status(r.status) + enc_opt_u64(r.headers.timestamp) + enc_u32(
        r.headers.headers.len() as u32,
    ) + enc_units(r.headers.headers) + enc_u32(r.headers.local.len() as u32) + enc_cells(
        r.headers.local,
    ) + enc_u32(r.storage.len() as u32) + enc_cells(r.storage)
}

/// The sizes a response must respect to be encodable.
pub open spec fn response_sizes_ok(r: ResponseV) -> bool {
    &&& status_ok(r.status)
    &&& forall|i: int| 0 <= i < r.headers.headers.len() ==> unit_ok(#[trigger] r.headers.headers[i])
    &&& r.headers.headers.len() <= MAX_UNITS
    &&& forall|i: int| 0 <= i < r.headers.local.len() ==> cell_ok(#[trigger] r.headers.local[i])
    &&& r.headers.local.len() <= u32::MAX
    &&& forall|i: int| 0 <= i < r.storage.len() ==> cell_ok(#[trigger] r.storage[i])
    &&& r.storage.len() <= u32::MAX
}

/// A response is encodable when its sizes are in range and its encoded body
/// respects the frame's hard size limit.
pub open spec fn response_encodable(r: ResponseV) -> bool {
    response_sizes_ok(r) && enc_response_body(r).len() <= MAX_BODY
}

/// A whole response frame: the body's 32-bit length, then the body.
pub open spec fn enc_response_frame(r: ResponseV) -> Seq<u8> {
    enc_u32(enc_response_body(r).len() as u32) + enc_response_body(r)
}

/// Appends a status. Fails exactly when its diagnostic text is oversized.
fn write_status(out: &mut Vec<u8>, s: &MTPStatusCode) -> (ok: bool)
    ensures
        ok ==> status_ok(s@) && final(out)@ == old(out)@ + enc_status(s@),
        !ok ==> !status_ok(s@),
{
    match s {
        MTPStatusCode::Success0 => {
            out.push(0u8);
            proof {
                assert(final(out)@ =~= old(out)@ + enc_status(s@));
            }
            true
        },
        MTPStatusCode::Error1(e) => {
            out.push(1u8);
            write_u32(out, e.code());
            if !write_str(out, e.info()) {
                return false;
            }
            proof {
                assert(final(out)@ =~= old(out)@ + enc_status(s@));
            }
            true
        },
    }
}

/// Encodes a response into one self-delimiting frame. Succeeds exactly when
/// the response is encodable: every string fits its length prefix, the
/// echoed header-unit count stays within [`MAX_UNITS`], and the encoded body
/// stays within [`MAX_BODY`]; otherwise the response is refused as too
/// large.
pub fn encode_response(r: &MTPResponse) -> (res: Result<Vec<u8>, ProtocolError>)
    ensures
        match res {
            Ok(v) => response_encodable(r@) && v@ == enc_response_frame(r@),
            Err(e) => !response_encodable(r@) && e.code_spec() == 111,
        },
{
    let mut body: Vec<u8> = Vec::new();
    let status = r.get_status_code();
    if !write_status(&mut body, &status) {
        return Err(ProtocolError::PayloadTooLarge111(Error::new(payload_too_large_text())));
    }
    let headers = match r.get_headers() {
        Some(h) => h,
        None => {
            proof {
                assert(false);
            }
            return Err(ProtocolError::PayloadTooLarge111(Error::new(payload_too_large_text())));
        },
    };
    let storage = match r.get_storage() {
        Some(s) => s,
        None => {
            proof {
                assert(false);
            }
            return Err(ProtocolError::PayloadTooLarge111(Error::new(payload_too_large_text())));
        },
    };
    write_opt_u64(&mut body, headers.timestamp);
    if headers.headers.len() as u64 > MAX_UNITS as u64 {
        proof {
            assert(r@.headers.headers.len() == headers.headers@.len());
        }
        return Err(ProtocolError::PayloadTooLarge111(Error::new(payload_too_large_text())));
    }
    write_u32(&mut body, headers.headers.len() as u32);
    if !write_units(&mut body, &headers.headers) {
        proof {
            let j = choose|j: int|
                0 <= j < headers.headers@.len() && !unit_ok((#[trigger] headers.headers@[j])@);
            assert(r@.headers.headers[j] == headers.headers@[j]@);
            assert(!response_sizes_ok(r@));
        }
        return Err(ProtocolError::PayloadTooLarge111(Error::new(payload_too_large_text())));
    }
    if headers.local.items.len() as u64 > u32::MAX as u64 {
        proof {
            assert(r@.headers.local.len() == headers.local.items@.len());
        }
        return Err(ProtocolError::PayloadTooLarge111(Error::new(payload_too_large_text())));
    }
    write_u32(&mut body, headers.local.items.len() as u32);
    if !write_cells(&mut body, &headers.local.items) {
        proof {
            let j = choose|j: int|
                0 <= j < headers.local.items@.len() && !cell_ok(
                    (#[trigger] headers.local.items@[j])@,
                );
            assert(r@.headers.local[j] == headers.local.items@[j]@);
            assert(!response_sizes_ok(r@));
        }
        return Err(ProtocolError::PayloadTooLarge111(Error::new(payload_too_large_text())));
    }
    if storage.items.len() as u64 > u32::MAX as u64 {
        proof {
            assert(r@.storage.len() == storage.items@.len());
        }
        return Err(ProtocolError::PayloadTooLarge111(Error::new(payload_too_large_text())));
    }
    write_u32(&mut body, storage.items.len() as u32);
    if !write_cells(&mut body, &storage.items) {
        proof {
            let j = choose|j: int|
                0 <= j < storage.items@.len() && !cell_ok((#[trigger] storage.items@[j])@);
            assert(r@.storage[j] == storage.items@[j]@);
            assert(!response_sizes_ok(r@));
        }
        return Err(ProtocolError::PayloadTooLarge111(Error::new(payload_too_large_text())));
    }
    proof {
        assert(body@ =~= enc_response_body(r@));
    }
    if body.len() as u64 > MAX_BODY as u64 {
        return Err(ProtocolError::PayloadTooLarge111(Error::new(payload_too_large_text())));
    }
    let mut out: Vec<u8> = Vec::new();
    write_u32(&mut out, body.len() as u32);
    let mut b = body;
    out.append(&mut b);
    Ok(out)
}

} // verus!
