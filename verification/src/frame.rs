//! The decoder's state machine over the buffered bytes, as a mathematical
//! function. `spec_decode` says exactly what one decoder invocation does:
//! which bytes it consumes, how the state and the declared body length move,
//! and which body (if any) it yields.
use vstd::prelude::*;

use crate::headers::header_update;

verus! {

/// Where the decoder stands in the byte stream.
pub enum DecState {
    /// Scanning header lines for the end of the header block.
    ReadingHeaders,
    /// Waiting until the declared number of body bytes is buffered.
    ReadingBody,
}

/// The two-byte header-line terminator.
pub open spec fn crlf() -> Seq<u8> {
    seq![13u8, 10u8]
}

/// A CRLF pair stands at position `i`.
pub open spec fn crlf_at(b: Seq<u8>, i: int) -> bool {
    0 <= i && i + 2 <= b.len() && b[i] == 13 && b[i + 1] == 10
}

/// The position of the first CRLF pair, if any.
pub open spec fn find_crlf(b: Seq<u8>) -> Option<int>
    decreases b.len(),
{
    if b.len() < 2 {
        None
    } else if b[0] == 13 && b[1] == 10 {
        Some(0)
    } else {
        match find_crlf(b.skip(1)) {
            None => None,
            Some(q) => Some(q + 1),
        }
    }
}

/// `find_crlf` returns the first CRLF position, and `None` only when there is
/// none.
pub proof fn lemma_find_crlf(b: Seq<u8>)
    ensures
        match find_crlf(b) {
            Some(p) => crlf_at(b, p) && forall|i: int| 0 <= i < p ==> !#[trigger] crlf_at(b, i),
            None => forall|i: int| !#[trigger] crlf_at(b, i),
        },
    decreases b.len(),
{
    if b.len() < 2 {
    } else if b[0] == 13 && b[1] == 10 {
    } else {
        let t = b.skip(1);
        lemma_find_crlf(t);
        assert(!crlf_at(b, 0));
        assert forall|i: int| 1 <= i implies (crlf_at(b, i) <==> #[trigger] crlf_at(t, i - 1)) by {
            if i + 2 <= b.len() {
                assert(t[i - 1] == b[i]);
                assert(t[i] == b[i + 1]);
            }
        }
        match find_crlf(t) {
            None => {
                assert forall|i: int| !#[trigger] crlf_at(b, i) by {
                    if i >= 1 {
                        assert(!crlf_at(t, i - 1));
                    }
                }
            },
            Some(q) => {
                assert(crlf_at(t, q));
                assert(crlf_at(b, q + 1));
                assert forall|i: int| 0 <= i < q + 1 implies !#[trigger] crlf_at(b, i) by {
                    if i >= 1 {
                        assert(!crlf_at(t, i - 1));
                    }
                }
            },
        }
    }
}

/// A CRLF at `p` with none before it pins `find_crlf` down.
pub proof fn lemma_find_crlf_some(b: Seq<u8>, p: int)
    requires
        crlf_at(b, p),
        forall|i: int| 0 <= i < p ==> !#[trigger] crlf_at(b, i),
    ensures
        find_crlf(b) == Some(p),
{
    lemma_find_crlf(b);
    match find_crlf(b) {
        None => {
            assert(!crlf_at(b, p));
        },
        Some(q) => {
            if q < p {
                assert(!crlf_at(b, q));
            } else if p < q {
                assert(!crlf_at(b, p));
            }
        },
    }
}

/// The first CRLF inside a prefix stays the first CRLF after appending bytes.
pub proof fn lemma_find_crlf_concat(b1: Seq<u8>, b2: Seq<u8>, p: int)
    requires
        find_crlf(b1) == Some(p),
    ensures
        find_crlf(b1 + b2) == Some(p),
{
    lemma_find_crlf(b1);
    let c = b1 + b2;
    assert(crlf_at(c, p)) by {
        assert(c[p] == b1[p] && c[p + 1] == b1[p + 1]);
    }
    assert forall|i: int| 0 <= i < p implies !#[trigger] crlf_at(c, i) by {
        assert(c[i] == b1[i] && c[i + 1] == b1[i + 1]);
        assert(!crlf_at(b1, i));
    }
    lemma_find_crlf_some(c, p);
}

/// One decoder invocation over the buffered bytes: consumes header lines
/// until it must wait, yields at most one body, and leaves the rest of the
/// buffer untouched. The result is (state, declared length, remaining
/// buffer, yielded body).
pub open spec fn spec_decode(s: DecState, clen: nat, buf: Seq<u8>) -> (
    DecState,
    nat,
    Seq<u8>,
    Option<Seq<u8>>,
)
    decreases buf.len(),
    via spec_decode_decreases
{
    match s {
        DecState::ReadingHeaders => match find_crlf(buf) {
            None => (s, clen, buf, None),
            Some(p) => {
                if p == 0 {
                    spec_decode(DecState::ReadingBody, clen, buf.skip(2))
                } else {
                    spec_decode(
                        DecState::ReadingHeaders,
                        header_update(clen, buf.take(p)),
                        buf.skip(p + 2),
                    )
                }
            },
        },
        DecState::ReadingBody => {
            if clen <= buf.len() {
                (DecState::ReadingHeaders, 0, buf.skip(clen as int), Some(buf.take(clen as int)))
            } else {
                (s, clen, buf, None)
            }
        },
    }
}

#[via_fn]
proof fn spec_decode_decreases(s: DecState, clen: nat, buf: Seq<u8>) {
    match s {
        DecState::ReadingHeaders => {
            lemma_find_crlf(buf);
        },
        DecState::ReadingBody => {},
    }
}

/// The decoder only consumes: it never grows the buffer; yielding from a
/// header scan consumes at least the blank line; and whenever a body is
/// yielded the decoder is left fresh (scanning headers, declared length
/// zero).
pub proof fn lemma_decode_shrinks(s: DecState, clen: nat, buf: Seq<u8>)
    ensures
        ({
            let st = spec_decode(s, clen, buf);
            &&& st.2.len() <= buf.len()
            &&& (s is ReadingHeaders && st.3 is Some ==> st.2.len() < buf.len())
            &&& (st.3 is Some ==> st.0 == DecState::ReadingHeaders && st.1 == 0)
        }),
    decreases buf.len(),
{
    match s {
        DecState::ReadingHeaders => {
            lemma_find_crlf(buf);
            match find_crlf(buf) {
                None => {},
                Some(p) => {
                    if p == 0 {
                        lemma_decode_shrinks(DecState::ReadingBody, clen, buf.skip(2));
                    } else {
                        lemma_decode_shrinks(
                            DecState::ReadingHeaders,
                            header_update(clen, buf.take(p)),
                            buf.skip(p + 2),
                        );
                    }
                },
            }
        },
        DecState::ReadingBody => {},
    }
}

/// How far a state is from the fresh one; used only to order the drain.
pub open spec fn state_rank(s: DecState) -> int {
    if s is ReadingHeaders {
        0
    } else {
        1
    }
}

/// Every message available in the buffer: invoke the decoder until it
/// yields nothing, collecting the yielded bodies in order. The result is
/// (state, declared length, remaining buffer, bodies yielded).
pub open spec fn spec_drain(s: DecState, clen: nat, buf: Seq<u8>) -> (
    DecState,
    nat,
    Seq<u8>,
    Seq<Seq<u8>>,
)
    decreases buf.len(), state_rank(s),
    via spec_drain_decreases
{
    let st = spec_decode(s, clen, buf);
    match st.3 {
        None => (st.0, st.1, st.2, Seq::<Seq<u8>>::empty()),
        Some(m) => {
            let rec = spec_drain(st.0, st.1, st.2);
            (rec.0, rec.1, rec.2, seq![m] + rec.3)
        },
    }
}

#[via_fn]
proof fn spec_drain_decreases(s: DecState, clen: nat, buf: Seq<u8>) {
    lemma_decode_shrinks(s, clen, buf);
}

/// Unfolding: a stuck header scan.
pub proof fn lemma_step_no_line(s: DecState, clen: nat, buf: Seq<u8>)
    requires
        s == DecState::ReadingHeaders,
        find_crlf(buf) == None::<int>,
    ensures
        spec_decode(s, clen, buf) == (s, clen, buf, None::<Seq<u8>>),
{
}

/// Unfolding: a blank line ends the header block.
pub proof fn lemma_step_blank_line(clen: nat, buf: Seq<u8>)
    requires
        find_crlf(buf) == Some(0int),
    ensures
        spec_decode(DecState::ReadingHeaders, clen, buf) == spec_decode(
            DecState::ReadingBody,
            clen,
            buf.skip(2),
        ),
{
}

/// Unfolding: a header line is consumed and interpreted.
pub proof fn lemma_step_header_line(clen: nat, buf: Seq<u8>, p: int)
    requires
        find_crlf(buf) == Some(p),
        p > 0,
    ensures
        spec_decode(DecState::ReadingHeaders, clen, buf) == spec_decode(
            DecState::ReadingHeaders,
            header_update(clen, buf.take(p)),
            buf.skip(p + 2),
        ),
{
}

/// Unfolding: a fully buffered body is consumed and yielded.
pub proof fn lemma_step_body(clen: nat, buf: Seq<u8>)
    requires
        clen <= buf.len(),
    ensures
        spec_decode(DecState::ReadingBody, clen, buf) == (
            DecState::ReadingHeaders,
            0nat,
            buf.skip(clen as int),
            Some(buf.take(clen as int)),
        ),
{
}

/// Unfolding: a partial body makes the decoder wait.
pub proof fn lemma_step_partial_body(s: DecState, clen: nat, buf: Seq<u8>)
    requires
        s == DecState::ReadingBody,
        clen > buf.len(),
    ensures
        spec_decode(s, clen, buf) == (s, clen, buf, None::<Seq<u8>>),
{
}

} // verus!
