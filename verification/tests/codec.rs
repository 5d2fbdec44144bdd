use bytes::BytesMut;
use serde_json::Value;
use wire_protocol::codec::{encode_frame, Codec};
use wire_protocol::message::ProtocolMessage;

fn buf(bytes: &[u8]) -> BytesMut {
    BytesMut::from(bytes)
}

fn json(text: &str) -> Value {
    serde_json::from_str::<Value>(text).unwrap()
}

#[test]
fn round_trip_request() {
    let msg = ProtocolMessage::Request {
        seq: 1,
        command: String::from("launch"),
        arguments: Some(json("{\"program\":\"/bin/true\"}")),
    };
    let expected = ProtocolMessage::Request {
        seq: 1,
        command: String::from("launch"),
        arguments: Some(json("{\"program\":\"/bin/true\"}")),
    };
    let codec = Codec::new();
    let mut out = BytesMut::new();
    codec.encode(msg, &mut out);
    let mut dec = Codec::new();
    let got = dec.decode(&mut out);
    assert_eq!(got, Some(expected));
    assert_eq!(out.len(), 0);
}

#[test]
fn round_trip_response() {
    let msg = ProtocolMessage::Response {
        seq: 7,
        request_seq: 3,
        success: true,
        command: String::from("evaluate"),
        body: Some(json("{\"result\":\"42\"}")),
    };
    let expected = ProtocolMessage::Response {
        seq: 7,
        request_seq: 3,
        success: true,
        command: String::from("evaluate"),
        body: Some(json("{\"result\":\"42\"}")),
    };
    let codec = Codec::new();
    let mut out = BytesMut::new();
    codec.encode(msg, &mut out);
    let mut dec = Codec::new();
    assert_eq!(dec.decode(&mut out), Some(expected));
}

#[test]
fn round_trip_event_without_body() {
    let msg = ProtocolMessage::Event { seq: 2, event: String::from("stopped"), body: None };
    let expected = ProtocolMessage::Event { seq: 2, event: String::from("stopped"), body: None };
    let codec = Codec::new();
    let mut out = BytesMut::new();
    codec.encode(msg, &mut out);
    let mut dec = Codec::new();
    assert_eq!(dec.decode(&mut out), Some(expected));
}

#[test]
fn fragmentation_invariance() {
    let msg = ProtocolMessage::Event {
        seq: 9,
        event: String::from("output"),
        body: Some(json("{\"output\":\"hi\"}")),
    };
    let codec = Codec::new();
    let mut wire = BytesMut::new();
    codec.encode(msg, &mut wire);

    let mut all_at_once = buf(&wire[..]);
    let mut dec_whole = Codec::new();
    let mut whole_results = Vec::new();
    loop {
        match dec_whole.decode(&mut all_at_once) {
            Some(m) => whole_results.push(m),
            None => break,
        }
    }

    let mut dec_split = Codec::new();
    let mut trickle = BytesMut::new();
    let mut split_results = Vec::new();
    for i in 0..wire.len() {
        trickle.extend_from_slice(&wire[i..i + 1]);
        loop {
            match dec_split.decode(&mut trickle) {
                Some(m) => split_results.push(m),
                None => break,
            }
        }
    }
    assert_eq!(split_results, whole_results);
    assert_eq!(split_results.len(), 1);
    assert_eq!(trickle.len(), 0);
}

#[test]
fn header_case_insensitivity() {
    let spellings: [&[u8]; 3] = [
        b"content-length: 2\r\n\r\n{}",
        b"Content-Length: 2\r\n\r\n{}",
        b"CONTENT-LENGTH: 2\r\n\r\n{}",
    ];
    for wire in spellings.iter() {
        let mut b = buf(wire);
        let mut dec = Codec::new();
        let got = dec.decode(&mut b);
        assert_eq!(got, Some(ProtocolMessage::Unknown(json("{}"))));
        assert_eq!(b.len(), 0);
    }
}

#[test]
fn unknown_header_tolerance() {
    let mut plain = buf(b"Content-Length: 2\r\n\r\n{}");
    let mut extra = buf(b"X-Trace-Id: abc123\r\nContent-Length: 2\r\n\r\n{}");
    let mut dec1 = Codec::new();
    let mut dec2 = Codec::new();
    let a = dec1.decode(&mut plain);
    let b = dec2.decode(&mut extra);
    assert_eq!(a, b);
    assert_eq!(b, Some(ProtocolMessage::Unknown(json("{}"))));
    assert_eq!(extra.len(), 0);
}

#[test]
fn zero_length_body_completes() {
    let mut b = buf(b"Content-Length: 0\r\n\r\n");
    let mut dec = Codec::new();
    let frame = dec.decode_frame(&mut b);
    assert_eq!(frame, Some(Vec::new()));
    assert_eq!(b.len(), 0);
}

#[test]
fn zero_length_body_yields_no_message_but_stream_continues() {
    let mut b = buf(b"Content-Length: 0\r\n\r\nContent-Length: 4\r\n\r\ntrue");
    let mut dec = Codec::new();
    // The empty body is consumed; it is not valid JSON, so no message.
    assert_eq!(dec.decode(&mut b), None);
    // The stream is not corrupted: the next frame still decodes.
    assert_eq!(dec.decode(&mut b), Some(ProtocolMessage::Unknown(json("true"))));
    assert_eq!(b.len(), 0);
}

#[test]
fn back_to_back_messages() {
    let first = ProtocolMessage::Request { seq: 1, command: String::from("next"), arguments: None };
    let second = ProtocolMessage::Event { seq: 2, event: String::from("stopped"), body: None };
    let codec = Codec::new();
    let mut wire = BytesMut::new();
    codec.encode(first, &mut wire);
    codec.encode(second, &mut wire);
    let mut dec = Codec::new();
    let got1 = dec.decode(&mut wire);
    let got2 = dec.decode(&mut wire);
    assert_eq!(
        got1,
        Some(ProtocolMessage::Request { seq: 1, command: String::from("next"), arguments: None })
    );
    assert_eq!(
        got2,
        Some(ProtocolMessage::Event { seq: 2, event: String::from("stopped"), body: None })
    );
    assert_eq!(wire.len(), 0);
}

#[test]
fn schema_fallback() {
    let body = b"{\"type\":\"bogus\",\"seq\":1}";
    let mut wire = BytesMut::new();
    encode_frame(&body.to_vec(), &mut wire);
    let mut dec = Codec::new();
    let got = dec.decode(&mut wire);
    assert_eq!(got, Some(ProtocolMessage::Unknown(json("{\"type\":\"bogus\",\"seq\":1}"))));
}

#[test]
fn near_miss_request_falls_back() {
    // A request without "seq" is not the typed shape.
    let body = b"{\"type\":\"request\",\"command\":\"launch\"}";
    let mut wire = BytesMut::new();
    encode_frame(&body.to_vec(), &mut wire);
    let mut dec = Codec::new();
    let got = dec.decode(&mut wire);
    assert_eq!(
        got,
        Some(ProtocolMessage::Unknown(json("{\"type\":\"request\",\"command\":\"launch\"}")))
    );
}

#[test]
fn typed_request_decodes() {
    let body = b"{\"type\":\"request\",\"seq\":5,\"command\":\"launch\"}";
    let mut wire = BytesMut::new();
    encode_frame(&body.to_vec(), &mut wire);
    let mut dec = Codec::new();
    let got = dec.decode(&mut wire);
    assert_eq!(
        got,
        Some(ProtocolMessage::Request { seq: 5, command: String::from("launch"), arguments: None })
    );
}

#[test]
fn partial_body_waits_then_completes() {
    let mut b = buf(b"Content-Length: 5\r\n\r\n123");
    let mut dec = Codec::new();
    assert_eq!(dec.decode(&mut b), None);
    // The partial body stays buffered, nothing was lost.
    assert_eq!(&b[..], b"123");
    b.extend_from_slice(b"45");
    assert_eq!(dec.decode(&mut b), Some(ProtocolMessage::Unknown(json("12345"))));
    assert_eq!(b.len(), 0);
}

#[test]
fn incomplete_header_line_waits() {
    let mut b = buf(b"Content-Len");
    let mut dec = Codec::new();
    assert_eq!(dec.decode(&mut b), None);
    assert_eq!(&b[..], b"Content-Len");
}

#[test]
fn header_value_whitespace_trimmed() {
    let mut b = buf(b"Content-Length:   2  \r\n\r\n{}");
    let mut dec = Codec::new();
    assert_eq!(dec.decode(&mut b), Some(ProtocolMessage::Unknown(json("{}"))));
}

#[test]
fn malformed_length_ignored() {
    let mut b = buf(b"Content-Length: abc\r\nContent-Length: 2\r\n\r\n{}");
    let mut dec = Codec::new();
    assert_eq!(dec.decode(&mut b), Some(ProtocolMessage::Unknown(json("{}"))));
}

#[test]
fn overlong_length_ignored() {
    // A value past usize::MAX fails to parse and is ignored, so the
    // declared length stays zero and the frame completes with an empty body.
    let mut b = buf(b"Content-Length: 99999999999999999999999999999999\r\n\r\n");
    let mut dec = Codec::new();
    assert_eq!(dec.decode_frame(&mut b), Some(Vec::new()));
    assert_eq!(b.len(), 0);
}

#[test]
fn invalid_body_dropped_stream_survives() {
    let mut b = buf(b"Content-Length: 1\r\n\r\n{Content-Length: 4\r\n\r\ntrue");
    let mut dec = Codec::new();
    // "{" is not valid JSON: the frame is consumed, nothing yielded.
    assert_eq!(dec.decode(&mut b), None);
    assert_eq!(dec.decode(&mut b), Some(ProtocolMessage::Unknown(json("true"))));
    assert_eq!(b.len(), 0);
}

#[test]
fn encode_frame_exact_bytes() {
    let mut wire = BytesMut::new();
    encode_frame(&b"abc".to_vec(), &mut wire);
    assert_eq!(&wire[..], b"Content-Length: 3\r\n\r\nabc");
}

#[test]
fn encode_exact_bytes() {
    let codec = Codec::new();
    let mut wire = BytesMut::new();
    codec.encode(ProtocolMessage::Unknown(json("true")), &mut wire);
    assert_eq!(&wire[..], b"Content-Length: 4\r\n\r\ntrue");
}

#[test]
fn encode_zero_length_body() {
    let mut wire = BytesMut::new();
    encode_frame(&Vec::new(), &mut wire);
    assert_eq!(&wire[..], b"Content-Length: 0\r\n\r\n");
}

#[test]
fn typed_event_decodes() {
    let body = b"{\"type\":\"event\",\"seq\":3,\"event\":\"exited\",\"body\":{\"code\":0}}";
    let mut wire = BytesMut::new();
    encode_frame(&body.to_vec(), &mut wire);
    let mut dec = Codec::new();
    let got = dec.decode(&mut wire);
    assert_eq!(
        got,
        Some(ProtocolMessage::Event {
            seq: 3,
            event: String::from("exited"),
            body: Some(json("{\"code\":0}")),
        })
    );
}

#[test]
fn typed_response_decodes() {
    let body =
        b"{\"type\":\"response\",\"seq\":8,\"request_seq\":5,\"success\":false,\"command\":\"step\"}";
    let mut wire = BytesMut::new();
    encode_frame(&body.to_vec(), &mut wire);
    let mut dec = Codec::new();
    let got = dec.decode(&mut wire);
    assert_eq!(
        got,
        Some(ProtocolMessage::Response {
            seq: 8,
            request_seq: 5,
            success: false,
            command: String::from("step"),
            body: None,
        })
    );
}

#[test]
fn encode_deterministic() {
    let msg1 = ProtocolMessage::Request {
        seq: 4,
        command: String::from("threads"),
        arguments: Some(json("{\"filter\":\"all\"}")),
    };
    let msg2 = ProtocolMessage::Request {
        seq: 4,
        command: String::from("threads"),
        arguments: Some(json("{\"filter\":\"all\"}")),
    };
    let codec = Codec::new();
    let mut wire1 = BytesMut::new();
    let mut wire2 = BytesMut::new();
    codec.encode(msg1, &mut wire1);
    codec.encode(msg2, &mut wire2);
    assert_eq!(&wire1[..], &wire2[..]);
}

#[test]
fn header_value_vertical_tab_trimmed() {
    let mut b = buf(b"Content-Length: \x0b2\x0b\r\n\r\n{}");
    let mut dec = Codec::new();
    assert_eq!(dec.decode(&mut b), Some(ProtocolMessage::Unknown(json("{}"))));
    assert_eq!(b.len(), 0);
}
