//! Header lines of the wire format. A line is the bytes before a CRLF
//! terminator. Only `Content-Length` (matched case-insensitively) means
//! anything to this layer: its value replaces the declared body length.
//! Every other line, and every malformed value, is silently ignored.
use vstd::prelude::*;

use crate::dec::{all_digits, dec_value, parse_decimal};

verus! {

/// A byte is ASCII whitespace (space, tab, line feed, vertical tab, form
/// feed, carriage return), the set trimmed around the header value. A value
/// padded with whitespace from outside this set (multi-byte Unicode spaces)
/// is not trimmed and therefore ignored, like any other malformed value.
pub open spec fn is_ws(c: u8) -> bool {
    c == 32 || c == 9 || c == 10 || c == 11 || c == 12 || c == 13
}

/// ASCII lowercasing of one byte; bytes outside `A`..`Z` are untouched.
pub open spec fn lower(c: u8) -> u8 {
    if 65 <= c && c <= 90 {
        (c + 32) as u8
    } else {
        c
    }
}

/// ASCII lowercasing of a byte sequence.
pub open spec fn lower_seq(s: Seq<u8>) -> Seq<u8> {
    s.map_values(|c: u8| lower(c))
}

/// The 15 bytes of `content-length:`, the lowercase header name with its
/// delimiting colon.
pub open spec fn content_length_name() -> Seq<u8> {
    seq![99u8, 111u8, 110u8, 116u8, 101u8, 110u8, 116u8, 45u8, 108u8, 101u8, 110u8, 103u8, 116u8, 104u8, 58u8]
}

/// Leading whitespace removed.
pub open spec fn trim_front(s: Seq<u8>) -> Seq<u8>
    decreases s.len(),
{
    if s.len() > 0 && is_ws(s[0]) {
        trim_front(s.skip(1))
    } else {
        s
    }
}

/// Trailing whitespace removed.
pub open spec fn trim_back(s: Seq<u8>) -> Seq<u8>
    decreases s.len(),
{
    if s.len() > 0 && is_ws(s.last()) {
        trim_back(s.drop_last())
    } else {
        s
    }
}

/// Surrounding whitespace removed.
pub open spec fn trim(s: Seq<u8>) -> Seq<u8> {
    trim_back(trim_front(s))
}

/// What a header line (without its CRLF terminator) declares: `Some(n)` when
/// the line is a well-formed `Content-Length` header whose trimmed value is a
/// digit string denoting `n <= usize::MAX`; `None` for every other line.
pub open spec fn header_value(content: Seq<u8>) -> Option<nat> {
    let v = trim(content.skip(15));
    if content.len() >= 15 && lower_seq(content.take(15)) == content_length_name() && v.len() > 0
        && all_digits(v) && dec_value(v) <= usize::MAX {
        Some(dec_value(v))
    } else {
        None
    }
}

/// The declared body length after a header line is read: a well-formed
/// `Content-Length` line replaces it, every other line leaves it unchanged.
pub open spec fn header_update(clen: nat, content: Seq<u8>) -> nat {
    match header_value(content) {
        Some(n) => n,
        None => clen,
    }
}

/// The byte of the lowercase header name at one position.
fn name_byte(i: usize) -> (b: u8)
    requires
        i < 15,
    ensures
        b == content_length_name()[i as int],
{
    let b: u8 = if i == 0 {
        99
    } else if i == 1 {
        111
    } else if i == 2 {
        110
    } else if i == 3 {
        116
    } else if i == 4 {
        101
    } else if i == 5 {
        110
    } else if i == 6 {
        116
    } else if i == 7 {
        45
    } else if i == 8 {
        108
    } else if i == 9 {
        101
    } else if i == 10 {
        110
    } else if i == 11 {
        103
    } else if i == 12 {
        116
    } else if i == 13 {
        104
    } else {
        58
    };
    b
}

fn lower_byte(c: u8) -> (r: u8)
    ensures
        r == lower(c),
{
    if 65 <= c && c <= 90 {
        c + 32
    } else {
        c
    }
}

fn is_ws_byte(c: u8) -> (r: bool)
    ensures
        r == is_ws(c),
{
    c == 32 || c == 9 || c == 10 || c == 11 || c == 12 || c == 13
}

/// `trim_front` keeps exactly the suffix from the first non-whitespace byte.
proof fn lemma_trim_front_at(s: Seq<u8>, i: int)
    requires
        0 <= i <= s.len(),
        forall|k: int| 0 <= k < i ==> is_ws(#[trigger] s[k]),
        i == s.len() || !is_ws(s[i]),
    ensures
        trim_front(s) == s.skip(i),
    decreases i,
{
    if i == 0 {
        assert(s.skip(0) =~= s);
    } else {
        assert(is_ws(s[0]));
        let t = s.skip(1);
        assert(forall|k: int| 0 <= k < i - 1 ==> is_ws(#[trigger] t[k]));
        assert(i - 1 == t.len() || !is_ws(t[i - 1]));
        lemma_trim_front_at(t, i - 1);
        assert(t.skip(i - 1) =~= s.skip(i));
    }
}

/// `trim_back` keeps exactly the prefix up to the last non-whitespace byte.
proof fn lemma_trim_back_at(s: Seq<u8>, j: int)
    requires
        0 <= j <= s.len(),
        forall|k: int| j <= k < s.len() ==> is_ws(#[trigger] s[k]),
        j == 0 || !is_ws(s[j - 1]),
    ensures
        trim_back(s) == s.take(j),
    decreases s.len() - j,
{
    if j == s.len() {
        assert(s.take(j) =~= s);
        if s.len() > 0 {
            assert(!is_ws(s.last()));
        }
    } else {
        assert(is_ws(s.last()));
        let t = s.drop_last();
        assert(t =~= s.take(s.len() - 1));
        assert(forall|k: int| j <= k < t.len() ==> is_ws(#[trigger] t[k])) by {
            assert(forall|k: int| j <= k < t.len() ==> t[k] == s[k]);
        }
        if j > 0 {
            assert(t[j - 1] == s[j - 1]);
        }
        lemma_trim_back_at(t, j);
        assert(t.take(j) =~= s.take(j));
    }
}

/// Reads one header line (`line@.take(end)`, the bytes before the CRLF) and
/// returns the declared body length it leaves behind.
pub fn process_header_line(line: &Vec<u8>, end: usize, clen: usize) -> (r: usize)
    requires
        end <= line@.len(),
    ensures
        r as nat == header_update(clen as nat, line@.take(end as int)),
{
    let ghost content = line@.take(end as int);
    if end < 15 {
        return clen;
    }
    // Compare the name, case-insensitively, with `content-length:`.
    let mut i: usize = 0;
    while i < 15
        invariant
            i <= 15,
            15 <= end <= line@.len(),
            content == line@.take(end as int),
            forall|k: int| 0 <= k < i ==> lower_seq(content.take(15))[k] == content_length_name()[k],
        decreases 15 - i,
    {
        let c = lower_byte(line[i]);
        let n = name_byte(i);
        if c != n {
            assert(lower_seq(content.take(15))[i as int] != content_length_name()[i as int]);
            assert(lower_seq(content.take(15)) != content_length_name());
            return clen;
        }
        assert(lower_seq(content.take(15))[i as int] == content_length_name()[i as int]);
        i = i + 1;
    }
    assert(lower_seq(content.take(15)) =~= content_length_name());
    // Find the whitespace-trimmed bounds of the value.
    let mut vs: usize = 15;
    while vs < end && is_ws_byte(line[vs])
        invariant
            15 <= vs <= end <= line@.len(),
            content == line@.take(end as int),
            forall|k: int| 15 <= k < vs ==> is_ws(#[trigger] content[k]),
        decreases end - vs,
    {
        vs = vs + 1;
    }
    let mut ve: usize = end;
    while ve > vs && is_ws_byte(line[ve - 1])
        invariant
            15 <= vs <= ve <= end <= line@.len(),
            content == line@.take(end as int),
            forall|k: int| ve <= k < end ==> is_ws(#[trigger] content[k]),
        decreases ve,
    {
        ve = ve - 1;
    }
    proof {
        let tail = content.skip(15);
        assert(forall|k: int| 0 <= k < vs - 15 ==> is_ws(#[trigger] tail[k])) by {
            assert(forall|k: int| 0 <= k < vs - 15 ==> tail[k] == content[k + 15]);
        }
        if vs < end {
            assert(tail[vs - 15] == content[vs as int]);
        }
        lemma_trim_front_at(tail, vs - 15);
        let mid = tail.skip(vs - 15);
        assert(mid =~= content.subrange(vs as int, end as int));
        assert(forall|k: int| ve - vs <= k < mid.len() ==> is_ws(#[trigger] mid[k])) by {
            assert(forall|k: int| ve - vs <= k < mid.len() ==> mid[k] == content[k + vs]);
        }
        if ve > vs {
            assert(mid[ve - vs - 1] == content[ve - 1]);
        }
        lemma_trim_back_at(mid, ve - vs);
        assert(mid.take(ve - vs) =~= content.subrange(vs as int, ve as int));
        assert(trim(content.skip(15)) == content.subrange(vs as int, ve as int));
        assert(content.subrange(vs as int, ve as int) =~= line@.subrange(vs as int, ve as int));
    }
    match parse_decimal(line, vs, ve) {
        Some(v) => v,
        None => clen,
    }
}

} // verus!
