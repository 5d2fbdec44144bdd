//! The guarantees the framing layer gives, stated and proved over the
//! decoder's mathematical model `spec_decode` and the encoder's
//! `header_bytes` framing.
use vstd::prelude::*;

use crate::codec::{header_bytes, header_prefix};
use crate::json::json_bytes;
use crate::dec::lemma_dec_digits_wf;
use crate::frame::{
    crlf, crlf_at, find_crlf, lemma_find_crlf, lemma_find_crlf_some, lemma_step_blank_line,
    lemma_decode_shrinks, lemma_step_body, lemma_step_header_line, lemma_step_partial_body,
    spec_decode, spec_drain, state_rank, DecState,
};
use crate::headers::{content_length_name, header_update, header_value, lower, lower_seq};
use crate::message::{
    is_event_shape, is_message_of, is_request_shape, is_response_shape, spec_classify,
    spec_message_value, Envelope, ProtocolMessage,
};

verus! {

/// The message a parsed value decodes to is determined by that value: two
/// messages it decodes to have the same shape and the same fields, string
/// fields character for character. With the fragmentation lemma below,
/// which makes the sequence of yielded bodies independent of chunking, the
/// sequence of decoded messages is independent of chunking too.
pub proof fn lemma_message_of_deterministic(
    v: serde_json::Value,
    m1: ProtocolMessage,
    m2: ProtocolMessage,
)
    requires
        is_message_of(v, m1),
        is_message_of(v, m2),
    ensures
        m1 matches ProtocolMessage::Request { seq: s1, command: c1, arguments: a1 } ==> (
        m2 matches ProtocolMessage::Request { seq: s2, command: c2, arguments: a2 } && s1 == s2
            && c1@ == c2@ && a1 == a2),
        m1 matches ProtocolMessage::Response {
            seq: s1,
            request_seq: q1,
            success: k1,
            command: c1,
            body: b1,
        } ==> (m2 matches ProtocolMessage::Response {
            seq: s2,
            request_seq: q2,
            success: k2,
            command: c2,
            body: b2,
        } && s1 == s2 && q1 == q2 && k1 == k2 && c1@ == c2@ && b1 == b2),
        m1 matches ProtocolMessage::Event { seq: s1, event: e1, body: b1 } ==> (
        m2 matches ProtocolMessage::Event { seq: s2, event: e2, body: b2 } && s1 == s2 && e1@ == e2@
            && b1 == b2),
        m1 matches ProtocolMessage::Unknown(u) ==> m2 == ProtocolMessage::Unknown(u),
{
}

/// Schema fallback: a JSON value whose envelope matches none of the typed
/// shapes classifies to the fallback variant wrapping that value — never to
/// a failure and never to a typed shape.
pub proof fn lemma_schema_fallback(e: Envelope, raw: serde_json::Value)
    requires
        !is_request_shape(e),
        !is_response_shape(e),
        !is_event_shape(e),
    ensures
        spec_classify(e, raw) == ProtocolMessage::Unknown(raw),
{
}

/// The concrete bytes of `Content-Length: `: no CR among them, and the first
/// fifteen lowercase to the header name the decoder matches.
proof fn lemma_header_prefix_facts()
    ensures
        header_prefix().len() == 16,
        header_prefix()[15] == 32,
        forall|i: int| 0 <= i < 16 ==> #[trigger] header_prefix()[i] != 13,
        lower_seq(header_prefix().take(15)) == content_length_name(),
{
    let p = header_prefix();
    let m = content_length_name();
    assert(p[0] == 67 && m[0] == 99);
    assert(p[1] == 111 && m[1] == 111);
    assert(p[2] == 110 && m[2] == 110);
    assert(p[3] == 116 && m[3] == 116);
    assert(p[4] == 101 && m[4] == 101);
    assert(p[5] == 110 && m[5] == 110);
    assert(p[6] == 116 && m[6] == 116);
    assert(p[7] == 45 && m[7] == 45);
    assert(p[8] == 76 && m[8] == 108);
    assert(p[9] == 101 && m[9] == 101);
    assert(p[10] == 110 && m[10] == 110);
    assert(p[11] == 103 && m[11] == 103);
    assert(p[12] == 116 && m[12] == 116);
    assert(p[13] == 104 && m[13] == 104);
    assert(p[14] == 58 && m[14] == 58);
    assert(p[15] == 32);
    assert forall|i: int| 0 <= i < 16 implies #[trigger] p[i] != 13 by {
        if i == 0 {
        } else if i == 1 {
        } else if i == 2 {
        } else if i == 3 {
        } else if i == 4 {
        } else if i == 5 {
        } else if i == 6 {
        } else if i == 7 {
        } else if i == 8 {
        } else if i == 9 {
        } else if i == 10 {
        } else if i == 11 {
        } else if i == 12 {
        } else if i == 13 {
        } else if i == 14 {
        } else {
            assert(i == 15);
        }
    }
    assert forall|i: int| 0 <= i < 15 implies lower_seq(p.take(15))[i] == m[i] by {
        assert(lower_seq(p.take(15))[i] == lower(p[i]));
        if i == 0 {
        } else if i == 1 {
        } else if i == 2 {
        } else if i == 3 {
        } else if i == 4 {
        } else if i == 5 {
        } else if i == 6 {
        } else if i == 7 {
        } else if i == 8 {
        } else if i == 9 {
        } else if i == 10 {
        } else if i == 11 {
        } else if i == 12 {
        } else if i == 13 {
        } else {
            assert(i == 14);
        }
    }
    assert(lower_seq(p.take(15)) =~= m);
}

/// The header block the encoder writes for a body of `n` bytes is read back
/// as exactly that declaration: the decoder consumes the `Content-Length`
/// line and the blank line, stores `n`, and moves to the body, whatever
/// declared length it held before.
pub proof fn lemma_consume_header(c0: nat, n: nat, rest: Seq<u8>)
    requires
        n <= usize::MAX,
    ensures
        spec_decode(DecState::ReadingHeaders, c0, header_bytes(n) + rest) == spec_decode(
            DecState::ReadingBody,
            n,
            rest,
        ),
{
    lemma_header_prefix_facts();
    lemma_dec_digits_wf(n);
    let dd = crate::dec::dec_digits(n);
    let line = header_prefix() + dd;
    let whole = header_bytes(n) + rest;
    let p = line.len() as int;
    assert(whole =~= line + crlf() + (crlf() + rest));
    assert(whole[p] == 13 && whole[p + 1] == 10) by {
        assert(crlf()[0] == 13 && crlf()[1] == 10);
        assert(whole[p] == (line + crlf())[p]);
        assert(whole[p + 1] == (line + crlf())[p + 1]);
    }
    assert(crlf_at(whole, p));
    assert forall|i: int| 0 <= i < p implies !#[trigger] crlf_at(whole, i) by {
        assert(whole[i] == line[i]);
        if i < 16 {
            assert(line[i] == header_prefix()[i]);
        } else {
            assert(line[i] == dd[i - 16]);
            assert(crate::dec::is_digit(dd[i - 16]));
        }
        assert(whole[i] != 13);
    }
    lemma_find_crlf_some(whole, p);
    // The line is a well-formed Content-Length header declaring n.
    assert(whole.take(p) =~= line);
    assert(line.take(15) =~= header_prefix().take(15));
    let tail = line.skip(15);
    assert(tail =~= seq![32u8] + dd);
    assert(crate::headers::is_ws(tail[0]));
    assert(crate::headers::trim_front(tail) == crate::headers::trim_front(tail.skip(1)));
    assert(tail.skip(1) =~= dd);
    assert(!crate::headers::is_ws(dd[0])) by {
        assert(crate::dec::is_digit(dd[0]));
    }
    assert(crate::headers::trim_front(dd) == dd);
    assert(crate::headers::trim_back(dd) == dd) by {
        assert(crate::dec::is_digit(dd[dd.len() - 1]));
        assert(!crate::headers::is_ws(dd.last()));
    }
    assert(header_value(line) == Some(n));
    assert(header_update(c0, line) == n);
    lemma_step_header_line(c0, whole, p);
    assert(whole.skip(p + 2) =~= crlf() + rest);
    // The blank line ends the header block.
    assert(crlf_at(crlf() + rest, 0)) by {
        assert((crlf() + rest)[0] == 13 && (crlf() + rest)[1] == 10);
    }
    lemma_find_crlf_some(crlf() + rest, 0);
    lemma_step_blank_line(n, crlf() + rest);
    assert((crlf() + rest).skip(2) =~= rest);
}

/// Round trip of the framing: a frame the encoder writes decodes, in one
/// invocation of a decoder scanning headers, to exactly the body it framed,
/// consuming the whole frame and leaving the decoder fresh.
pub proof fn lemma_frame_round_trip(c0: nat, body: Seq<u8>)
    requires
        body.len() <= usize::MAX,
    ensures
        spec_decode(DecState::ReadingHeaders, c0, header_bytes(body.len()) + body) == (
            DecState::ReadingHeaders,
            0nat,
            Seq::<u8>::empty(),
            Some(body),
        ),
{
    lemma_consume_header(c0, body.len(), body);
    lemma_step_body(body.len(), body);
    assert(body.skip(body.len() as int) =~= Seq::<u8>::empty());
    assert(body.take(body.len() as int) =~= body);
}

/// Round trip of one encoded message, to the byte level: the frame the
/// encoder writes for a message decodes, in one invocation of a decoder
/// scanning headers, to exactly the message's serialized bytes, consuming
/// the whole frame. (Whether those bytes parse back to an equal message is
/// the JSON codec's own round trip, which no contract of the trusted
/// boundary states; the tests exercise it.)
pub proof fn lemma_encode_decode_frame(c0: nat, m: ProtocolMessage)
    requires
        json_bytes(spec_message_value(m)).len() <= usize::MAX,
    ensures
        ({
            let body = json_bytes(spec_message_value(m));
            spec_decode(DecState::ReadingHeaders, c0, header_bytes(body.len()) + body) == (
                DecState::ReadingHeaders,
                0nat,
                Seq::<u8>::empty(),
                Some(body),
            )
        }),
{
    lemma_frame_round_trip(c0, json_bytes(spec_message_value(m)));
}

/// Fragmentation invariance: running the decoder on a prefix and then, from
/// the state and remainder it left, on the remainder plus newly arrived
/// bytes, is the same as running it on all the bytes at once. A yielded body
/// is never changed by bytes that arrive later.
pub proof fn lemma_decode_extend(s: DecState, clen: nat, b1: Seq<u8>, b2: Seq<u8>)
    ensures
        ({
            let step = spec_decode(s, clen, b1);
            if step.3 is Some {
                spec_decode(s, clen, b1 + b2) == (step.0, step.1, step.2 + b2, step.3)
            } else {
                spec_decode(s, clen, b1 + b2) == spec_decode(step.0, step.1, step.2 + b2)
            }
        }),
    decreases b1.len(),
{
    match s {
        DecState::ReadingHeaders => {
            lemma_find_crlf(b1);
            match find_crlf(b1) {
                None => {
                    assert(spec_decode(s, clen, b1) == (s, clen, b1, None::<Seq<u8>>));
                },
                Some(p) => {
                    crate::frame::lemma_find_crlf_concat(b1, b2, p);
                    if p == 0 {
                        assert((b1 + b2).skip(2) =~= b1.skip(2) + b2);
                        lemma_step_blank_line(clen, b1);
                        lemma_step_blank_line(clen, b1 + b2);
                        lemma_decode_extend(DecState::ReadingBody, clen, b1.skip(2), b2);
                    } else {
                        assert((b1 + b2).take(p) =~= b1.take(p));
                        assert((b1 + b2).skip(p + 2) =~= b1.skip(p + 2) + b2);
                        lemma_step_header_line(clen, b1, p);
                        lemma_step_header_line(clen, b1 + b2, p);
                        lemma_decode_extend(
                            DecState::ReadingHeaders,
                            header_update(clen, b1.take(p)),
                            b1.skip(p + 2),
                            b2,
                        );
                    }
                },
            }
        },
        DecState::ReadingBody => {
            if clen <= b1.len() {
                lemma_step_body(clen, b1);
                lemma_step_body(clen, b1 + b2);
                assert((b1 + b2).take(clen as int) =~= b1.take(clen as int));
                assert((b1 + b2).skip(clen as int) =~= b1.skip(clen as int) + b2);
            } else {
                lemma_step_partial_body(s, clen, b1);
            }
        },
    }
}

/// Draining a prefix of the stream and then, from the state it left,
/// draining the remainder plus newly arrived bytes, yields exactly the
/// messages of draining everything at once, in the same order.
pub proof fn lemma_drain_extend(s: DecState, clen: nat, b1: Seq<u8>, b2: Seq<u8>)
    ensures
        ({
            let d = spec_drain(s, clen, b1);
            let d2 = spec_drain(d.0, d.1, d.2 + b2);
            spec_drain(s, clen, b1 + b2) == (d2.0, d2.1, d2.2, d.3 + d2.3)
        }),
    decreases b1.len(), state_rank(s),
{
    let st = spec_decode(s, clen, b1);
    lemma_decode_extend(s, clen, b1, b2);
    lemma_decode_shrinks(s, clen, b1);
    match st.3 {
        None => {
            // The whole-buffer drain and the resumed drain start from the
            // same decoder step, so they are the same drain.
            assert(spec_decode(s, clen, b1 + b2) == spec_decode(st.0, st.1, st.2 + b2));
            let d2 = spec_drain(st.0, st.1, st.2 + b2);
            assert(spec_drain(s, clen, b1 + b2) == d2) by {
                let st2 = spec_decode(st.0, st.1, st.2 + b2);
                match st2.3 {
                    None => {},
                    Some(m) => {},
                }
            }
            assert(Seq::<Seq<u8>>::empty() + d2.3 =~= d2.3);
        },
        Some(m) => {
            // The step yields the same body with the new bytes appended to
            // its leftover; the rest follows by induction on that leftover.
            assert(spec_decode(s, clen, b1 + b2) == (st.0, st.1, st.2 + b2, Some(m)));
            let rec = spec_drain(st.0, st.1, st.2);
            lemma_drain_extend(st.0, st.1, st.2, b2);
            let d2 = spec_drain(rec.0, rec.1, rec.2 + b2);
            assert(spec_drain(st.0, st.1, st.2 + b2) == (d2.0, d2.1, d2.2, rec.3 + d2.3));
            assert(spec_drain(s, clen, b1 + b2) == (d2.0, d2.1, d2.2, seq![m] + (rec.3 + d2.3)));
            assert(seq![m] + (rec.3 + d2.3) =~= (seq![m] + rec.3) + d2.3);
        },
    }
}

/// The bytes of a list of chunks, in order.
pub open spec fn concat_chunks(chunks: Seq<Seq<u8>>) -> Seq<u8>
    decreases chunks.len(),
{
    if chunks.len() == 0 {
        Seq::<u8>::empty()
    } else {
        chunks[0] + concat_chunks(chunks.skip(1))
    }
}

/// Feeding chunks one at a time: drain what is buffered, append the next
/// chunk, and go on, collecting every yielded body in order.
pub open spec fn spec_feed(s: DecState, clen: nat, buf: Seq<u8>, chunks: Seq<Seq<u8>>) -> (
    DecState,
    nat,
    Seq<u8>,
    Seq<Seq<u8>>,
)
    decreases chunks.len(),
{
    let d = spec_drain(s, clen, buf);
    if chunks.len() == 0 {
        d
    } else {
        let rec = spec_feed(d.0, d.1, d.2 + chunks[0], chunks.skip(1));
        (rec.0, rec.1, rec.2, d.3 + rec.3)
    }
}

/// Fragmentation invariance: however an incoming byte sequence is split
/// into chunks, feeding the chunks one at a time — draining the decoder
/// after each — yields exactly the messages, in exactly the order, of
/// feeding all the bytes at once.
pub proof fn lemma_fragmentation_invariance(
    s: DecState,
    clen: nat,
    buf: Seq<u8>,
    chunks: Seq<Seq<u8>>,
)
    ensures
        spec_feed(s, clen, buf, chunks) == spec_drain(s, clen, buf + concat_chunks(chunks)),
    decreases chunks.len(),
{
    let d = spec_drain(s, clen, buf);
    if chunks.len() == 0 {
        assert(buf + concat_chunks(chunks) =~= buf);
    } else {
        let rest = chunks.skip(1);
        lemma_fragmentation_invariance(d.0, d.1, d.2 + chunks[0], rest);
        lemma_drain_extend(s, clen, buf, concat_chunks(chunks));
        assert((d.2 + chunks[0]) + concat_chunks(rest) =~= d.2 + concat_chunks(chunks));
        let d2 = spec_drain(d.0, d.1, d.2 + concat_chunks(chunks));
        assert(spec_feed(s, clen, buf, chunks) == (d2.0, d2.1, d2.2, d.3 + d2.3));
    }
}

/// Header-name case does not matter: two header lines of the same length
/// whose first fifteen bytes agree up to ASCII case and whose remainders are
/// identical declare the same thing.
pub proof fn lemma_header_case_insensitive(a: Seq<u8>, b: Seq<u8>)
    requires
        a.len() == b.len(),
        lower_seq(a.take(15)) == lower_seq(b.take(15)),
        a.skip(15) == b.skip(15),
    ensures
        header_value(a) == header_value(b),
{
}

/// An extra header line that declares nothing (any unrecognized or malformed
/// line) is consumed and ignored: inserting it before the rest of the stream
/// leaves the decoder's behaviour on the rest untouched.
pub proof fn lemma_unknown_header_ignored(c0: nat, line: Seq<u8>, rest: Seq<u8>)
    requires
        line.len() > 0,
        forall|i: int| !#[trigger] crlf_at(line, i),
        header_value(line) == None::<nat>,
    ensures
        spec_decode(DecState::ReadingHeaders, c0, line + crlf() + rest) == spec_decode(
            DecState::ReadingHeaders,
            c0,
            rest,
        ),
{
    let whole = line + crlf() + rest;
    let p = line.len() as int;
    assert(whole[p] == 13 && whole[p + 1] == 10) by {
        assert(crlf()[0] == 13 && crlf()[1] == 10);
        assert(whole[p] == (line + crlf())[p]);
        assert(whole[p + 1] == (line + crlf())[p + 1]);
    }
    assert(crlf_at(whole, p));
    assert forall|i: int| 0 <= i < p implies !#[trigger] crlf_at(whole, i) by {
        assert(whole[i] == line[i]);
        if i < p - 1 {
            assert(whole[i + 1] == line[i + 1]);
            assert(!crlf_at(line, i));
        } else {
            assert(whole[i + 1] == 13);
        }
    }
    lemma_find_crlf_some(whole, p);
    lemma_step_header_line(c0, whole, p);
    assert(whole.take(p) =~= line);
    assert(whole.skip(p + 2) =~= rest);
}

/// Two frames back to back in one buffer decode, in two successive
/// invocations, to the two original bodies in order.
pub proof fn lemma_back_to_back(a: Seq<u8>, b: Seq<u8>)
    requires
        a.len() <= usize::MAX,
        b.len() <= usize::MAX,
    ensures
        ({
            let stream = header_bytes(a.len()) + a + header_bytes(b.len()) + b;
            let first = spec_decode(DecState::ReadingHeaders, 0, stream);
            &&& first.3 == Some(a)
            &&& spec_decode(first.0, first.1, first.2) == (
                DecState::ReadingHeaders,
                0nat,
                Seq::<u8>::empty(),
                Some(b),
            )
        }),
{
    let f1 = header_bytes(a.len()) + a;
    let f2 = header_bytes(b.len()) + b;
    lemma_frame_round_trip(0, a);
    lemma_decode_extend(DecState::ReadingHeaders, 0, f1, f2);
    assert(header_bytes(a.len()) + a + header_bytes(b.len()) + b =~= f1 + f2);
    assert(Seq::<u8>::empty() + f2 =~= f2);
    lemma_frame_round_trip(0, b);
}

/// Partial bodies make the decoder wait without consuming or corrupting
/// anything: a header block followed by too few body bytes yields nothing
/// and leaves the partial body buffered; once the remaining bytes arrive,
/// the decoder yields the body whose prefix is exactly the bytes that were
/// already there — nothing duplicated, nothing skipped — and the outcome is
/// the same as if all bytes had arrived at once.
pub proof fn lemma_partial_body_wait(c0: nat, n: nat, part: Seq<u8>, more: Seq<u8>)
    requires
        n <= usize::MAX,
        part.len() < n,
        n <= part.len() + more.len(),
    ensures
        spec_decode(DecState::ReadingHeaders, c0, header_bytes(n) + part) == (
            DecState::ReadingBody,
            n,
            part,
            None::<Seq<u8>>,
        ),
        spec_decode(DecState::ReadingBody, n, part + more) == (
            DecState::ReadingHeaders,
            0nat,
            (part + more).skip(n as int),
            Some((part + more).take(n as int)),
        ),
        (part + more).take(n as int).take(part.len() as int) == part,
        spec_decode(DecState::ReadingHeaders, c0, header_bytes(n) + part + more) == spec_decode(
            DecState::ReadingBody,
            n,
            part + more,
        ),
{
    lemma_consume_header(c0, n, part);
    lemma_step_partial_body(DecState::ReadingBody, n, part);
    lemma_step_body(n, part + more);
    assert((part + more).take(n as int).take(part.len() as int) =~= part);
    lemma_consume_header(c0, n, part + more);
    assert(header_bytes(n) + part + more =~= header_bytes(n) + (part + more));
}

} // verus!
