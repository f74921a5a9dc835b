//! Exercises the frame codec: round trips, framing, and the error codes for
//! malformed or oversized frames.

use excal_mq::codec::{decode, encode, frame_span, FrameNeed, MAX_UNITS};
use excal_mq::errors::{Error, ProtocolError};
use excal_mq::protocol::{
    payload_eq, AuthSchemes, ContentType, MessageCategory, MessagePriority, MessagePublish,
    MTPAuth, MTPHeaderUnit, MTPHeaders, MTPManagerAction, MTPMessage, MTPPayload, MTPRequestType,
    MTPStorage, QueueAccess, StorageCell,
};

fn sample_payload() -> MTPPayload {
    MTPPayload {
        headers: MTPHeaders {
            headers: vec![
                MTPHeaderUnit::Authentication {
                    key: MTPAuth::Authorization { scheme: AuthSchemes::Bearer },
                    value: "alice-token".to_string(),
                },
                MTPHeaderUnit::Source { source: "127.0.0.1:9000".to_string() },
                MTPHeaderUnit::Administration {
                    action: MTPManagerAction::Authorize("bob".to_string()),
                },
                MTPHeaderUnit::Administration {
                    action: MTPManagerAction::AccessorModify(QueueAccess::Protected),
                },
                MTPHeaderUnit::Message {
                    id: "msg-1".to_string(),
                    timestamp: Some(1_700_000_000_123),
                    priority: MessagePriority::High,
                    category: MessageCategory::EVENT,
                    content_type: ContentType::JSON,
                },
                MTPHeaderUnit::MessagePublish {
                    queue: "orders".to_string(),
                    to: MessagePublish::GROUP(vec![
                        "bob".to_string(),
                        "carol".to_string(),
                    ]),
                },
                MTPHeaderUnit::QueueCreation {},
            ],
            local: MTPStorage {
                items: vec![StorageCell {
                    key: "trace".to_string(),
                    value: "abc123".to_string(),
                }],
            },
            timestamp: Some(42),
        },
        message: Some(MTPMessage {
            content_type: ContentType::XML,
            priority: MessagePriority::Critical,
            category: MessageCategory::COMMAND,
            publish: MessagePublish::TO("bob".to_string()),
            message: "restock item 7".to_string(),
        }),
        request: MTPRequestType::Publish,
    }
}

#[test]
fn round_trip_full_payload() {
    let p = sample_payload();
    let bytes = encode(&p).expect("a small payload encodes");
    let q = decode(&bytes).expect("its own encoding decodes");
    assert!(payload_eq(&p, &q));
}

#[test]
fn round_trip_minimal_payload() {
    let p = MTPPayload {
        headers: MTPHeaders {
            headers: vec![],
            local: MTPStorage { items: vec![] },
            timestamp: None,
        },
        message: None,
        request: MTPRequestType::Ping,
    };
    let bytes = encode(&p).expect("encodes");
    let q = decode(&bytes).expect("decodes");
    assert!(payload_eq(&p, &q));
}

#[test]
fn round_trip_non_ascii_text() {
    let mut p = sample_payload();
    p.message.as_mut().unwrap().message = "caf\u{e9} \u{1F680} \u{4e2d}\u{6587}".to_string();
    let bytes = encode(&p).expect("encodes");
    let q = decode(&bytes).expect("decodes");
    assert!(payload_eq(&p, &q));
}

#[test]
fn changed_payload_is_not_equal() {
    let p = sample_payload();
    let mut q = sample_payload();
    q.request = MTPRequestType::Pull;
    assert!(!payload_eq(&p, &q));
}

#[test]
fn decode_empty_buffer_is_bad_request() {
    let r = decode(&vec![]);
    match r {
        Err(e) => assert_eq!(e.code(), 100),
        Ok(_) => panic!("an empty buffer must not decode"),
    }
}

#[test]
fn decode_truncated_frame_is_bad_request() {
    let p = sample_payload();
    let mut bytes = encode(&p).unwrap();
    bytes.pop();
    match decode(&bytes) {
        Err(e) => assert_eq!(e.code(), 100),
        Ok(_) => panic!("a truncated frame must not decode"),
    }
}

#[test]
fn decode_trailing_bytes_is_bad_request() {
    let p = sample_payload();
    let mut bytes = encode(&p).unwrap();
    bytes.push(0);
    match decode(&bytes) {
        Err(e) => assert_eq!(e.code(), 100),
        Ok(_) => panic!("trailing bytes must not decode"),
    }
}

#[test]
fn decode_oversized_declaration_is_payload_too_large() {
    // A length prefix declaring a body beyond the hard limit.
    let bytes = vec![0x00u8, 0x00, 0x20, 0x00];
    match decode(&bytes) {
        Err(e) => assert_eq!(e.code(), 111),
        Ok(_) => panic!("an oversized declaration must not decode"),
    }
}

#[test]
fn decode_too_many_units_is_header_too_large() {
    // Body: request tag 0, no timestamp, unit count above the cap.
    let count = (MAX_UNITS + 1).to_le_bytes();
    let body = vec![0u8, 0u8, count[0], count[1], count[2], count[3]];
    let mut bytes = (body.len() as u32).to_le_bytes().to_vec();
    bytes.extend_from_slice(&body);
    match decode(&bytes) {
        Err(e) => assert_eq!(e.code(), 115),
        Ok(_) => panic!("an oversized header section must not decode"),
    }
}

#[test]
fn encode_too_many_units_is_payload_too_large() {
    let mut p = sample_payload();
    p.headers.headers = (0..(MAX_UNITS + 1)).map(|_| MTPHeaderUnit::QueueCreation {}).collect();
    match encode(&p) {
        Err(e) => assert_eq!(e.code(), 111),
        Ok(_) => panic!("too many header units must not encode"),
    }
}

#[test]
fn frame_span_reports_progress() {
    let p = sample_payload();
    let bytes = encode(&p).unwrap();
    match frame_span(&vec![bytes[0], bytes[1]]) {
        FrameNeed::MoreBytes => {},
        _ => panic!("two bytes cannot hold a length prefix"),
    }
    match frame_span(&bytes) {
        FrameNeed::Span(n) => assert_eq!(n, bytes.len()),
        _ => panic!("a whole frame spans its own length"),
    }
    match frame_span(&vec![0x00, 0x00, 0x20, 0x00]) {
        FrameNeed::TooLarge => {},
        _ => panic!("an oversized declaration must be reported"),
    }
}

#[test]
fn error_codes_match_their_kinds() {
    let e = |text: &str| Error::new(text.to_string());
    assert_eq!(ProtocolError::BadRequest100(e("x")).code(), 100);
    assert_eq!(ProtocolError::Unauthorized101(e("x")).code(), 101);
    assert_eq!(ProtocolError::Forbidden102(e("x")).code(), 102);
    assert_eq!(ProtocolError::NotFound103(e("x")).code(), 103);
    assert_eq!(ProtocolError::Conflict108(e("x")).code(), 108);
    assert_eq!(ProtocolError::PayloadTooLarge111(e("x")).code(), 111);
    assert_eq!(ProtocolError::RequestHeaderTooLarge115(e("x")).code(), 115);
    assert_eq!(ProtocolError::InternalServerError120(e("x")).code(), 120);
    assert_eq!(ProtocolError::ServiceUnavailable123(e("x")).code(), 123);
    assert_eq!(ProtocolError::NetworkAuthenticationRequired128(e("x")).code(), 128);
}

#[test]
fn error_description_is_fixed_text() {
    let e = Error::new("whatever".to_string());
    assert_eq!(
        ProtocolError::BadRequest100(e).description(),
        "100 - Bad Request: The request could not be understood or was missing required parameters."
    );
}
