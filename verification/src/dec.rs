//! ASCII decimal numbers: the spec-level meaning of a digit string, an exact
//! parser, and an exact formatter. The `Content-Length` header value is read
//! and written through these.
use vstd::prelude::*;

verus! {

/// A byte is an ASCII decimal digit.
pub open spec fn is_digit(c: u8) -> bool {
    48 <= c && c <= 57
}

/// Every byte of the sequence is an ASCII decimal digit.
pub open spec fn all_digits(s: Seq<u8>) -> bool {
    forall|i: int| 0 <= i < s.len() ==> is_digit(#[trigger] s[i])
}

/// The number denoted by a digit string, most significant digit first.
pub open spec fn dec_value(s: Seq<u8>) -> nat
    decreases s.len(),
{
    if s.len() == 0 {
        0
    } else {
        (10 * dec_value(s.drop_last()) + (s.last() - 48)) as nat
    }
}

/// The canonical digit string of a number: no leading zeros, `"0"` for zero.
pub open spec fn dec_digits(n: nat) -> Seq<u8>
    decreases n,
{
    if n < 10 {
        seq![(48 + n) as u8]
    } else {
        dec_digits(n / 10).push((48 + n % 10) as u8)
    }
}

pub proof fn lemma_dec_digits_wf(n: nat)
    ensures
        dec_digits(n).len() > 0,
        all_digits(dec_digits(n)),
        dec_value(dec_digits(n)) == n,
    decreases n,
{
    if n < 10 {
        let d = dec_digits(n);
        assert(d =~= seq![(48 + n) as u8]);
        assert(d.len() == 1);
        assert(d.last() == (48 + n) as u8);
        assert(d.drop_last() =~= Seq::<u8>::empty());
        assert(dec_value(d.drop_last()) == 0);
        assert(dec_value(d) == (10 * dec_value(d.drop_last()) + (d.last() - 48)) as nat);
    } else {
        lemma_dec_digits_wf(n / 10);
        let d = dec_digits(n);
        assert(d.drop_last() =~= dec_digits(n / 10));
        assert(d.last() == (48 + n % 10) as u8);
        assert(all_digits(d)) by {
            assert forall|i: int| 0 <= i < d.len() implies is_digit(#[trigger] d[i]) by {
                if i < d.len() - 1 {
                    assert(d[i] == dec_digits(n / 10)[i]);
                }
            }
        }
        assert(dec_value(d) == 10 * (n / 10) + n % 10);
    }
}

/// The value of a proper prefix of a digit string never exceeds the value of
/// the whole string.
pub proof fn lemma_dec_value_prefix(s: Seq<u8>, j: int)
    requires
        all_digits(s),
        0 <= j <= s.len(),
    ensures
        dec_value(s.take(j)) <= dec_value(s),
    decreases s.len(),
{
    if j == s.len() {
        assert(s.take(j) =~= s);
    } else {
        let t = s.drop_last();
        assert(all_digits(t)) by {
            assert forall|i: int| 0 <= i < t.len() implies is_digit(#[trigger] t[i]) by {
                assert(t[i] == s[i]);
            }
        }
        assert(s.take(j) =~= t.take(j));
        lemma_dec_value_prefix(t, j);
        assert(dec_value(s) == (10 * dec_value(t) + (s.last() - 48)) as nat);
        assert(dec_value(t) <= dec_value(s));
    }
}

/// Parses `s[start..end]` as a decimal number. Returns `None` when the range
/// is empty, holds a non-digit byte, or denotes a value above `usize::MAX`.
pub fn parse_decimal(s: &Vec<u8>, start: usize, end: usize) -> (r: Option<usize>)
    requires
        start <= end <= s@.len(),
    ensures
        ({
            let d = s@.subrange(start as int, end as int);
            match r {
                Some(v) => d.len() > 0 && all_digits(d) && v == dec_value(d) && dec_value(d)
                    <= usize::MAX,
                None => d.len() == 0 || !all_digits(d) || dec_value(d) > usize::MAX,
            }
        }),
{
    let ghost d = s@.subrange(start as int, end as int);
    if start == end {
        return None;
    }
    let mut acc: usize = 0;
    let mut i: usize = start;
    while i < end
        invariant
            start <= i <= end <= s@.len(),
            d == s@.subrange(start as int, end as int),
            all_digits(d.take(i - start)),
            acc == dec_value(d.take(i - start)),
        decreases end - i,
    {
        let c = s[i];
        if c < 48 || c > 57 {
            assert(!is_digit(d[i - start]));
            return None;
        }
        let digit = (c - 48) as usize;
        let acc10 = match acc.checked_mul(10) {
            Some(t) => t,
            None => {
                proof {
                    overflow_means_too_big(d, i - start, acc, digit);
                }
                return None;
            },
        };
        let next = match acc10.checked_add(digit) {
            Some(t) => t,
            None => {
                proof {
                    overflow_means_too_big(d, i - start, acc, digit);
                }
                return None;
            },
        };
        proof {
            let k = i - start;
            assert(d.take(k + 1).drop_last() =~= d.take(k));
            assert(d.take(k + 1).last() == d[k]);
            assert(all_digits(d.take(k + 1))) by {
                assert forall|m: int| 0 <= m < k + 1 implies is_digit(#[trigger] d.take(k + 1)[m])
                    by {
                    if m < k {
                        assert(d.take(k + 1)[m] == d.take(k)[m]);
                    }
                }
            }
        }
        acc = next;
        i = i + 1;
    }
    proof {
        assert(d.take(end - start) =~= d);
    }
    Some(acc)
}

/// When the next accumulation step overflows `usize`, the whole digit string
/// (if it is all digits) denotes a value above `usize::MAX`.
proof fn overflow_means_too_big(d: Seq<u8>, k: int, acc: usize, digit: usize)
    requires
        0 <= k < d.len(),
        all_digits(d.take(k)),
        acc == dec_value(d.take(k)),
        is_digit(d[k]),
        digit == d[k] - 48,
        10 * acc + digit > usize::MAX,
    ensures
        !all_digits(d) || dec_value(d) > usize::MAX,
{
    if all_digits(d) {
        assert(d.take(k + 1).drop_last() =~= d.take(k));
        assert(d.take(k + 1).last() == d[k]);
        assert(dec_value(d.take(k + 1)) == 10 * acc + digit);
        lemma_dec_value_prefix(d, k + 1);
    }
}

proof fn lemma_push_reverse(s: Seq<u8>, x: u8)
    ensures
        (s.push(x)).reverse() == seq![x] + s.reverse(),
{
    assert((s.push(x)).reverse() =~= seq![x] + s.reverse());
}

/// Writes `n` in decimal, exactly the canonical digit string.
pub fn format_decimal(n: usize) -> (r: Vec<u8>)
    ensures
        r@ == dec_digits(n as nat),
{
    if n == 0 {
        let r: Vec<u8> = vec![48];
        assert(r@ =~= dec_digits(0));
        return r;
    }
    let mut rev: Vec<u8> = Vec::new();
    let mut m: usize = n;
    while m > 0
        invariant
            dec_digits(n as nat) == if m > 0 {
                dec_digits(m as nat) + rev@.reverse()
            } else {
                rev@.reverse()
            },
        decreases m,
    {
        let digit: u8 = (m % 10) as u8 + 48;
        proof {
            lemma_push_reverse(rev@, digit);
            if m < 10 {
                assert(dec_digits(m as nat) =~= seq![digit]);
                assert(seq![digit] + rev@.reverse() =~= rev@.push(digit).reverse());
            } else {
                assert(dec_digits(m as nat) == dec_digits((m as nat) / 10).push(digit));
                assert(dec_digits((m as nat) / 10).push(digit) + rev@.reverse() =~= dec_digits(
                    (m as nat) / 10,
                ) + (seq![digit] + rev@.reverse()));
                assert((m as nat) / 10 == ((m / 10) as nat));
            }
        }
        rev.push(digit);
        m = m / 10;
    }
    let mut out: Vec<u8> = Vec::new();
    let mut i: usize = rev.len();
    while i > 0
        invariant
            i <= rev@.len(),
            out@ == rev@.reverse().take(rev@.len() - i),
        decreases i,
    {
        i = i - 1;
        let b = rev[i];
        proof {
            let t = rev@.reverse();
            assert(t[rev@.len() - i - 1] == rev@[i as int]);
            assert(t.take(rev@.len() - i) =~= t.take(rev@.len() - i - 1).push(rev@[i as int]));
        }
        out.push(b);
    }
    proof {
        assert(rev@.reverse().take(rev@.len() as int) =~= rev@.reverse());
    }
    out
}

} // verus!
