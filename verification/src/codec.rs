//! The codec itself: an incremental frame decoder that never blocks and is
//! resumable under any fragmentation of the byte stream, and a stateless
//! frame encoder. The decoder holds no bytes of its own: it only tracks
//! where it stands in interpreting the externally-owned buffer.
use vstd::prelude::*;

use crate::bytes_buf::{buf_byte, buf_bytes, buf_len, buf_push_slice, buf_take};
use crate::dec::{dec_digits, format_decimal};
use crate::frame::{
    crlf, crlf_at, find_crlf, lemma_find_crlf, lemma_find_crlf_some, lemma_step_blank_line,
    lemma_step_body, lemma_step_header_line, lemma_step_no_line, lemma_step_partial_body,
    spec_decode, DecState,
};
use crate::headers::process_header_line;
use crate::json::{json_bytes, json_syntax_ok, parsed_json};
use crate::message::{
    is_message_of, message_to_value, parse_body, spec_message_value, ProtocolMessage,
};

verus! {

/// The first 16 bytes of the header line the encoder writes:
/// `Content-Length: ` with its trailing space.
pub open spec fn header_prefix() -> Seq<u8> {
    seq![67u8, 111u8, 110u8, 116u8, 101u8, 110u8, 116u8, 45u8, 76u8, 101u8, 110u8, 103u8, 116u8, 104u8, 58u8, 32u8]
}

/// The complete framing the encoder puts around a body of `n` bytes: the
/// `Content-Length` line, then the blank line that ends the header block.
pub open spec fn header_bytes(n: nat) -> Seq<u8> {
    header_prefix() + dec_digits(n) + crlf() + crlf()
}

/// The frame codec for one stream: decoder state plus the declared body
/// length most recently seen (zero at construction and after each body).
pub struct Codec {
    pub state: DecState,
    pub content_len: usize,
}

/// Finds the first CRLF in the buffer; consumes nothing.
fn find_crlf_in(b: &bytes::BytesMut) -> (r: Option<usize>)
    ensures
        buf_bytes(*b).len() <= usize::MAX,
        match r {
            Some(p) => find_crlf(buf_bytes(*b)) == Some(p as int) && p + 2 <= buf_bytes(*b).len(),
            None => find_crlf(buf_bytes(*b)) == None::<int>,
        },
{
    let ghost v = buf_bytes(*b);
    let len = buf_len(b);
    if len < 2 {
        proof {
            lemma_find_crlf(v);
            if let Some(p) = find_crlf(v) {
                assert(crlf_at(v, p));
            }
        }
        return None;
    }
    let mut i: usize = 0;
    while i < len - 1
        invariant
            2 <= len == v.len(),
            v == buf_bytes(*b),
            i <= len,
            forall|k: int| 0 <= k < i ==> !#[trigger] crlf_at(v, k),
        decreases len - i,
    {
        let c0 = buf_byte(b, i);
        let c1 = buf_byte(b, i + 1);
        if c0 == 13 && c1 == 10 {
            proof {
                lemma_find_crlf_some(v, i as int);
            }
            return Some(i);
        }
        assert(!crlf_at(v, i as int));
        i = i + 1;
    }
    proof {
        lemma_find_crlf(v);
        if let Some(p) = find_crlf(v) {
            assert(crlf_at(v, p));
            assert(p < i);
        }
    }
    None
}

impl Codec {
    /// A fresh codec for one stream: scanning headers, declared length zero.
    pub fn new() -> (c: Codec)
        ensures
            c.state == DecState::ReadingHeaders,
            c.content_len == 0,
    {
        Codec { state: DecState::ReadingHeaders, content_len: 0 }
    }

    /// One decoder invocation. Consumes header lines until the header block
    /// ends, then waits for (or consumes) the declared body: exactly
    /// `spec_decode` on the old state and buffer. Returns the body bytes of
    /// at most one frame; `None` means more bytes are needed (or, for the
    /// caller above, that this frame yielded nothing). Never blocks.
    pub fn decode_frame(&mut self, buffer: &mut bytes::BytesMut) -> (r: Option<Vec<u8>>)
        ensures
            ({
                let step = spec_decode(
                    old(self).state,
                    old(self).content_len as nat,
                    buf_bytes(*old(buffer)),
                );
                &&& final(self).state == step.0
                &&& final(self).content_len as nat == step.1
                &&& buf_bytes(*final(buffer)) == step.2
                &&& match step.3 {
                    None => r is None,
                    Some(body) => r matches Some(v) && v@ == body,
                }
            }),
    {
        let ghost s0 = self.state;
        let ghost c0 = self.content_len as nat;
        let ghost b0 = buf_bytes(*buffer);
        loop
            invariant
                s0 == old(self).state,
                c0 == old(self).content_len as nat,
                b0 == buf_bytes(*old(buffer)),
                spec_decode(s0, c0, b0) == spec_decode(
                    self.state,
                    self.content_len as nat,
                    buf_bytes(*buffer),
                ),
            decreases buf_bytes(*buffer).len(),
        {
            let ghost bcur = buf_bytes(*buffer);
            let ghost ccur = self.content_len as nat;
            match self.state {
                DecState::ReadingHeaders => {
                    match find_crlf_in(buffer) {
                        None => {
                            proof {
                                lemma_step_no_line(DecState::ReadingHeaders, ccur, bcur);
                            }
                            return None;
                        },
                        Some(p) => {
                            let line = buf_take(buffer, p + 2);
                            if p == 0 {
                                self.state = DecState::ReadingBody;
                                proof {
                                    lemma_step_blank_line(ccur, bcur);
                                }
                            } else {
                                proof {
                                    lemma_step_header_line(ccur, bcur, p as int);
                                    assert(line@.take(p as int) =~= bcur.take(p as int));
                                }
                                self.content_len = process_header_line(&line, p, self.content_len);
                            }
                        },
                    }
                },
                DecState::ReadingBody => {
                    let need = self.content_len;
                    if buf_len(buffer) >= need {
                        let body = buf_take(buffer, need);
                        self.state = DecState::ReadingHeaders;
                        self.content_len = 0;
                        proof {
                            lemma_step_body(ccur, bcur);
                        }
                        return Some(body);
                    } else {
                        proof {
                            lemma_step_partial_body(DecState::ReadingBody, ccur, bcur);
                        }
                        return None;
                    }
                },
            }
        }
    }

    /// One decoder invocation, messages included. At the frame level it is
    /// exactly `spec_decode`: the same bytes consumed, the same state
    /// reached. When a frame's body completes, a message comes back if and
    /// only if the body is syntactically valid JSON (a schema mismatch
    /// still yields the fallback message), and the message is exactly what
    /// the parsed body decodes to; an invalid body is consumed and dropped,
    /// and this invocation yields nothing. Never blocks: `None` also means
    /// more bytes are needed.
    pub fn decode(&mut self, buffer: &mut bytes::BytesMut) -> (r: Option<ProtocolMessage>)
        ensures
            ({
                let step = spec_decode(
                    old(self).state,
                    old(self).content_len as nat,
                    buf_bytes(*old(buffer)),
                );
                &&& final(self).state == step.0
                &&& final(self).content_len as nat == step.1
                &&& buf_bytes(*final(buffer)) == step.2
                &&& match step.3 {
                    None => r is None,
                    Some(body) => {
                        &&& r is Some <==> json_syntax_ok(body)
                        &&& r matches Some(m) ==> is_message_of(parsed_json(body), m)
                    },
                }
            }),
    {
        match self.decode_frame(buffer) {
            Some(body) => parse_body(&body),
            None => None,
        }
    }

    /// Encodes one message into the output buffer: exactly the
    /// `Content-Length` header block declaring the serialized body's byte
    /// count, then the body — the serialization of the message, nothing
    /// else. Stateless: the bytes appended are a function of the message
    /// alone, and the call always succeeds (serializing a JSON value has
    /// no failure path).
    pub fn encode(&self, message: ProtocolMessage, buffer: &mut bytes::BytesMut)
        ensures
            ({
                let body = json_bytes(spec_message_value(message));
                buf_bytes(*final(buffer)) == buf_bytes(*old(buffer)) + header_bytes(body.len())
                    + body
            }),
    {
        let v = message_to_value(message);
        let body = crate::json::value_to_bytes(&v);
        encode_frame(&body, buffer);
    }
}

/// Writes `Content-Length: ` at the tail of a byte vector.
fn push_header_prefix(out: &mut Vec<u8>)
    ensures
        final(out)@ == old(out)@ + header_prefix(),
{
    let ghost o = out@;
    out.push(67);
    out.push(111);
    out.push(110);
    out.push(116);
    out.push(101);
    out.push(110);
    out.push(116);
    out.push(45);
    out.push(76);
    out.push(101);
    out.push(110);
    out.push(103);
    out.push(116);
    out.push(104);
    out.push(58);
    out.push(32);
    assert(out@ =~= o + header_prefix());
}

/// Appends the wire framing of one body to the output buffer: the
/// `Content-Length` header line with the exact decimal byte count, the blank
/// line, then the body bytes themselves, with no trailing delimiter.
pub fn encode_frame(body: &Vec<u8>, buffer: &mut bytes::BytesMut)
    ensures
        buf_bytes(*final(buffer)) == buf_bytes(*old(buffer)) + header_bytes(body@.len()) + body@,
{
    let ghost pre = buf_bytes(*buffer);
    let mut header: Vec<u8> = Vec::new();
    push_header_prefix(&mut header);
    let mut digits = format_decimal(body.len());
    header.append(&mut digits);
    header.push(13);
    header.push(10);
    header.push(13);
    header.push(10);
    proof {
        assert(header@ =~= header_bytes(body@.len()));
    }
    buf_push_slice(buffer, header.as_slice());
    buf_push_slice(buffer, body.as_slice());
    proof {
        assert(buf_bytes(*buffer) =~= pre + header_bytes(body@.len()) + body@);
    }
}

} // verus!
