//! Protocol messages. A frame body that is valid JSON is classified by its
//! envelope: the `type` tag and the fields each typed shape requires. A
//! body that is valid JSON but matches no typed shape falls back to
//! `Unknown`, wrapping the raw value; classification never fails on valid
//! JSON. Everything here is exact over the names of the JSON primitives:
//! which message a body parses to, and which JSON value a message
//! serializes as, are pinned as functions of the bytes and of the message.
use vstd::prelude::*;

use crate::json::{
    json_bool, json_bool_value, json_get, json_str, json_string_value, json_syntax_ok, json_u64,
    json_u64_value, json_object_value, parse_json, parsed_json, value_as_bool, value_as_str,
    value_as_u64, value_bool, value_clone, value_get, value_object, value_string, value_u64,
};

verus! {

/// A decoded protocol message: one of the typed shapes, or the fallback
/// wrapping a JSON value of any other shape.
#[derive(Debug, PartialEq)]
pub enum ProtocolMessage {
    Request { seq: u64, command: String, arguments: Option<serde_json::Value> },
    Response {
        seq: u64,
        request_seq: u64,
        success: bool,
        command: String,
        body: Option<serde_json::Value>,
    },
    Event { seq: u64, event: String, body: Option<serde_json::Value> },
    Unknown(serde_json::Value),
}

/// The envelope fields read off a JSON value before classifying it.
pub struct Envelope {
    pub tag: Option<String>,
    pub seq: Option<u64>,
    pub command: Option<String>,
    pub event: Option<String>,
    pub request_seq: Option<u64>,
    pub success: Option<bool>,
    pub arguments: Option<serde_json::Value>,
    pub body: Option<serde_json::Value>,
}

/// The string member of that name, when the value is an object holding one.
pub open spec fn str_field(v: serde_json::Value, key: Seq<char>) -> Option<Seq<char>> {
    match json_get(v, key) {
        Some(t) => json_str(t),
        None => None,
    }
}

/// The `u64` member of that name.
pub open spec fn u64_field(v: serde_json::Value, key: Seq<char>) -> Option<u64> {
    match json_get(v, key) {
        Some(t) => json_u64(t),
        None => None,
    }
}

/// The boolean member of that name.
pub open spec fn bool_field(v: serde_json::Value, key: Seq<char>) -> Option<bool> {
    match json_get(v, key) {
        Some(t) => json_bool(t),
        None => None,
    }
}

/// The envelope holds exactly what the JSON value's members say.
pub open spec fn envelope_matches(e: Envelope, v: serde_json::Value) -> bool {
    &&& match e.tag {
        Some(s) => str_field(v, "type"@) == Some(s@),
        None => str_field(v, "type"@) is None,
    }
    &&& e.seq == u64_field(v, "seq"@)
    &&& match e.command {
        Some(s) => str_field(v, "command"@) == Some(s@),
        None => str_field(v, "command"@) is None,
    }
    &&& match e.event {
        Some(s) => str_field(v, "event"@) == Some(s@),
        None => str_field(v, "event"@) is None,
    }
    &&& e.request_seq == u64_field(v, "request_seq"@)
    &&& e.success == bool_field(v, "success"@)
    &&& e.arguments == json_get(v, "arguments"@)
    &&& e.body == json_get(v, "body"@)
}

/// The envelope carries everything a request needs.
pub open spec fn is_request_shape(e: Envelope) -> bool {
    &&& e.tag matches Some(t) && t@ == "request"@
    &&& e.seq is Some
    &&& e.command is Some
}

/// The envelope carries everything a response needs.
pub open spec fn is_response_shape(e: Envelope) -> bool {
    &&& e.tag matches Some(t) && t@ == "response"@
    &&& e.seq is Some
    &&& e.request_seq is Some
    &&& e.success is Some
    &&& e.command is Some
}

/// The envelope carries everything an event needs.
pub open spec fn is_event_shape(e: Envelope) -> bool {
    &&& e.tag matches Some(t) && t@ == "event"@
    &&& e.seq is Some
    &&& e.event is Some
}

/// What an envelope (read off `raw`) classifies to: the matching typed
/// shape, or `Unknown(raw)` when none matches.
pub open spec fn spec_classify(e: Envelope, raw: serde_json::Value) -> ProtocolMessage {
    if is_request_shape(e) {
        ProtocolMessage::Request {
            seq: e.seq.unwrap(),
            command: e.command.unwrap(),
            arguments: e.arguments,
        }
    } else if is_response_shape(e) {
        ProtocolMessage::Response {
            seq: e.seq.unwrap(),
            request_seq: e.request_seq.unwrap(),
            success: e.success.unwrap(),
            command: e.command.unwrap(),
            body: e.body,
        }
    } else if is_event_shape(e) {
        ProtocolMessage::Event { seq: e.seq.unwrap(), event: e.event.unwrap(), body: e.body }
    } else {
        ProtocolMessage::Unknown(raw)
    }
}

/// The message a JSON value decodes to, as a relation on the value's
/// members: the typed shape whose required members are all present, else
/// the `Unknown` fallback wrapping the value itself. (A relation, not a
/// function: a typed message is pinned down to its field values, the
/// `String` fields by their characters.)
pub open spec fn is_message_of(v: serde_json::Value, m: ProtocolMessage) -> bool {
    if str_field(v, "type"@) == Some("request"@) && u64_field(v, "seq"@) is Some && str_field(
        v,
        "command"@,
    ) is Some {
        m matches ProtocolMessage::Request { seq, command, arguments } && seq == u64_field(
            v,
            "seq"@,
        ).unwrap() && command@ == str_field(v, "command"@).unwrap() && arguments == json_get(
            v,
            "arguments"@,
        )
    } else if str_field(v, "type"@) == Some("response"@) && u64_field(v, "seq"@) is Some
        && u64_field(v, "request_seq"@) is Some && bool_field(v, "success"@) is Some && str_field(
        v,
        "command"@,
    ) is Some {
        m matches ProtocolMessage::Response { seq, request_seq, success, command, body } && seq
            == u64_field(v, "seq"@).unwrap() && request_seq == u64_field(v, "request_seq"@).unwrap()
            && success == bool_field(v, "success"@).unwrap() && command@ == str_field(
            v,
            "command"@,
        ).unwrap() && body == json_get(v, "body"@)
    } else if str_field(v, "type"@) == Some("event"@) && u64_field(v, "seq"@) is Some && str_field(
        v,
        "event"@,
    ) is Some {
        m matches ProtocolMessage::Event { seq, event, body } && seq == u64_field(v, "seq"@).unwrap()
            && event@ == str_field(v, "event"@).unwrap() && body == json_get(v, "body"@)
    } else {
        m == ProtocolMessage::Unknown(v)
    }
}

/// An envelope read faithfully off a value classifies to the message the
/// value decodes to.
pub proof fn lemma_classify_matches(e: Envelope, v: serde_json::Value)
    requires
        envelope_matches(e, v),
    ensures
        is_message_of(v, spec_classify(e, v)),
{
    assert((e.tag matches Some(t) && t@ == "request"@) <==> str_field(v, "type"@) == Some(
        "request"@,
    ));
    assert((e.tag matches Some(t) && t@ == "response"@) <==> str_field(v, "type"@) == Some(
        "response"@,
    ));
    assert((e.tag matches Some(t) && t@ == "event"@) <==> str_field(v, "type"@) == Some("event"@));
}

/// The string equals the literal.
fn str_is(s: &String, lit: &str) -> (r: bool)
    ensures
        r <==> s@ == lit@,
{
    let l: String = lit.to_owned();
    *s == l
}

/// Classifies an envelope: exactly `spec_classify`. In particular a valid
/// JSON value whose envelope matches no typed shape becomes the `Unknown`
/// fallback wrapping that value — never a failure.
pub fn classify(e: Envelope, raw: serde_json::Value) -> (m: ProtocolMessage)
    ensures
        m == spec_classify(e, raw),
{
    let tag_request = match &e.tag {
        Some(t) => str_is(t, "request"),
        None => false,
    };
    let tag_response = match &e.tag {
        Some(t) => str_is(t, "response"),
        None => false,
    };
    let tag_event = match &e.tag {
        Some(t) => str_is(t, "event"),
        None => false,
    };
    if tag_request && e.seq.is_some() && e.command.is_some() {
        ProtocolMessage::Request {
            seq: e.seq.unwrap(),
            command: e.command.unwrap(),
            arguments: e.arguments,
        }
    } else if tag_response && e.seq.is_some() && e.request_seq.is_some() && e.success.is_some()
        && e.command.is_some() {
        ProtocolMessage::Response {
            seq: e.seq.unwrap(),
            request_seq: e.request_seq.unwrap(),
            success: e.success.unwrap(),
            command: e.command.unwrap(),
            body: e.body,
        }
    } else if tag_event && e.seq.is_some() && e.event.is_some() {
        ProtocolMessage::Event { seq: e.seq.unwrap(), event: e.event.unwrap(), body: e.body }
    } else {
        ProtocolMessage::Unknown(raw)
    }
}

/// Reads the envelope fields off a JSON value through the serde_json
/// accessors: exactly the value's members.
pub fn read_envelope(v: &serde_json::Value) -> (e: Envelope)
    ensures
        envelope_matches(e, *v),
{
    let tag = match value_get(v, "type") {
        Some(t) => value_as_str(t),
        None => None,
    };
    let seq = match value_get(v, "seq") {
        Some(t) => value_as_u64(t),
        None => None,
    };
    let command = match value_get(v, "command") {
        Some(t) => value_as_str(t),
        None => None,
    };
    let event = match value_get(v, "event") {
        Some(t) => value_as_str(t),
        None => None,
    };
    let request_seq = match value_get(v, "request_seq") {
        Some(t) => value_as_u64(t),
        None => None,
    };
    let success = match value_get(v, "success") {
        Some(t) => value_as_bool(t),
        None => None,
    };
    let arguments = match value_get(v, "arguments") {
        Some(t) => Some(value_clone(t)),
        None => None,
    };
    let body = match value_get(v, "body") {
        Some(t) => Some(value_clone(t)),
        None => None,
    };
    Envelope { tag, seq, command, event, request_seq, success, arguments, body }
}

/// Parses one frame body. Yields a message exactly when the bytes are
/// syntactically valid JSON, and then exactly the message the parsed value
/// decodes to: the typed shape the envelope matches, else the `Unknown`
/// fallback. Invalid bytes yield nothing.
pub fn parse_body(bytes: &Vec<u8>) -> (r: Option<ProtocolMessage>)
    ensures
        r is Some <==> json_syntax_ok(bytes@),
        r matches Some(m) ==> is_message_of(parsed_json(bytes@), m),
{
    match parse_json(bytes.as_slice()) {
        Some(v) => {
            let ghost gv = v;
            let env = read_envelope(&v);
            let m = classify(env, v);
            proof {
                lemma_classify_matches(env, gv);
            }
            Some(m)
        },
        None => None,
    }
}

/// The object members a request serializes to, in order.
pub open spec fn request_entries(
    seq: u64,
    command: Seq<char>,
    arguments: Option<serde_json::Value>,
) -> Seq<(Seq<char>, serde_json::Value)> {
    let base = seq![
        ("type"@, json_string_value("request"@)),
        ("seq"@, json_u64_value(seq)),
        ("command"@, json_string_value(command)),
    ];
    match arguments {
        Some(a) => base.push(("arguments"@, a)),
        None => base,
    }
}

/// The object members a response serializes to, in order.
pub open spec fn response_entries(
    seq: u64,
    request_seq: u64,
    success: bool,
    command: Seq<char>,
    body: Option<serde_json::Value>,
) -> Seq<(Seq<char>, serde_json::Value)> {
    let base = seq![
        ("type"@, json_string_value("response"@)),
        ("seq"@, json_u64_value(seq)),
        ("request_seq"@, json_u64_value(request_seq)),
        ("success"@, json_bool_value(success)),
        ("command"@, json_string_value(command)),
    ];
    match body {
        Some(b) => base.push(("body"@, b)),
        None => base,
    }
}

/// The object members an event serializes to, in order.
pub open spec fn event_entries(
    seq: u64,
    event: Seq<char>,
    body: Option<serde_json::Value>,
) -> Seq<(Seq<char>, serde_json::Value)> {
    let base = seq![
        ("type"@, json_string_value("event"@)),
        ("seq"@, json_u64_value(seq)),
        ("event"@, json_string_value(event)),
    ];
    match body {
        Some(b) => base.push(("body"@, b)),
        None => base,
    }
}

/// The JSON value a message serializes as: the envelope object for the
/// typed shapes, the wrapped value itself for the fallback.
pub open spec fn spec_message_value(m: ProtocolMessage) -> serde_json::Value {
    match m {
        ProtocolMessage::Request { seq, command, arguments } => json_object_value(
            request_entries(seq, command@, arguments),
        ),
        ProtocolMessage::Response { seq, request_seq, success, command, body } => json_object_value(
            response_entries(seq, request_seq, success, command@, body),
        ),
        ProtocolMessage::Event { seq, event, body } => json_object_value(
            event_entries(seq, event@, body),
        ),
        ProtocolMessage::Unknown(v) => v,
    }
}

/// Builds exactly the JSON value the message serializes as.
pub fn message_to_value(m: ProtocolMessage) -> (r: serde_json::Value)
    ensures
        r == spec_message_value(m),
{
    match m {
        ProtocolMessage::Request { seq, command, arguments } => {
            let ghost gcmd = command@;
            let ghost gargs = arguments;
            let mut entries: Vec<(String, serde_json::Value)> = Vec::new();
            entries.push((String::from_str("type"), value_string("request")));
            entries.push((String::from_str("seq"), value_u64(seq)));
            entries.push((String::from_str("command"), value_string(command.as_str())));
            if let Some(a) = arguments {
                entries.push((String::from_str("arguments"), a));
            }
            proof {
                let mapped = entries@.map_values(|p: (String, serde_json::Value)| (p.0@, p.1));
                let want = request_entries(seq, gcmd, gargs);
                assert(mapped[0] == want[0]);
                assert(mapped[1] == want[1]);
                assert(mapped[2] == want[2]);
                if gargs is Some {
                    assert(mapped[3] == want[3]);
                }
                assert(mapped =~= want);
            }
            value_object(entries)
        },
        ProtocolMessage::Response { seq, request_seq, success, command, body } => {
            let ghost gcmd = command@;
            let ghost gbody = body;
            let mut entries: Vec<(String, serde_json::Value)> = Vec::new();
            entries.push((String::from_str("type"), value_string("response")));
            entries.push((String::from_str("seq"), value_u64(seq)));
            entries.push((String::from_str("request_seq"), value_u64(request_seq)));
            entries.push((String::from_str("success"), value_bool(success)));
            entries.push((String::from_str("command"), value_string(command.as_str())));
            if let Some(b) = body {
                entries.push((String::from_str("body"), b));
            }
            proof {
                let mapped = entries@.map_values(|p: (String, serde_json::Value)| (p.0@, p.1));
                let want = response_entries(seq, request_seq, success, gcmd, gbody);
                assert(mapped[0] == want[0]);
                assert(mapped[1] == want[1]);
                assert(mapped[2] == want[2]);
                assert(mapped[3] == want[3]);
                assert(mapped[4] == want[4]);
                if gbody is Some {
                    assert(mapped[5] == want[5]);
                }
                assert(mapped =~= want);
            }
            value_object(entries)
        },
        ProtocolMessage::Event { seq, event, body } => {
            let ghost gevent = event@;
            let ghost gbody = body;
            let mut entries: Vec<(String, serde_json::Value)> = Vec::new();
            entries.push((String::from_str("type"), value_string("event")));
            entries.push((String::from_str("seq"), value_u64(seq)));
            entries.push((String::from_str("event"), value_string(event.as_str())));
            if let Some(b) = body {
                entries.push((String::from_str("body"), b));
            }
            proof {
                let mapped = entries@.map_values(|p: (String, serde_json::Value)| (p.0@, p.1));
                let want = event_entries(seq, gevent, gbody);
                assert(mapped[0] == want[0]);
                assert(mapped[1] == want[1]);
                assert(mapped[2] == want[2]);
                if gbody is Some {
                    assert(mapped[3] == want[3]);
                }
                assert(mapped =~= want);
            }
            value_object(entries)
        },
        ProtocolMessage::Unknown(v) => v,
    }
}

} // verus!
