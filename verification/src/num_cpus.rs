//! Counting the CPUs the kernel may ever schedule on.
//!
//! The kernel publishes its possible CPUs as text: a comma-separated list of
//! ranges such as `0-7` or `0-3,8-11`, usually ending in a newline. The number
//! of per-CPU slots every structure needs is the endpoint of the last range
//! plus one. Reading the text is the embedding's affair; this module turns the
//! text into that count.
//!
//! The value is a boot-time setting that does not change until reboot.

use vstd::prelude::*;

verus! {

/// ASCII whitespace, as trimmed from the ends of the inventory text.
pub open spec fn is_space(b: u8) -> bool {
    b == 32 || (9 <= b && b <= 13)
}

/// A byte separating ranges (`,`) or the two ends of a range (`-`).
pub open spec fn is_delim(b: u8) -> bool {
    b == 44 || b == 45
}

/// An ASCII decimal digit.
pub open spec fn is_digit(b: u8) -> bool {
    48 <= b && b <= 57
}

/// The text with trailing whitespace removed.
pub open spec fn trim_end(s: Seq<u8>) -> Seq<u8>
    decreases s.len(),
{
    if s.len() > 0 && is_space(s.last()) {
        trim_end(s.drop_last())
    } else {
        s
    }
}

/// The text with leading whitespace removed.
pub open spec fn trim_start(s: Seq<u8>) -> Seq<u8>
    decreases s.len(),
{
    if s.len() > 0 && is_space(s.first()) {
        trim_start(s.drop_first())
    } else {
        s
    }
}

/// The text with whitespace removed from both ends.
pub open spec fn trimmed(s: Seq<u8>) -> Seq<u8> {
    trim_start(trim_end(s))
}

/// The suffix after the last `,` or `-`: the endpoint of the last range.
pub open spec fn last_token(s: Seq<u8>) -> Seq<u8>
    decreases s.len(),
{
    if s.len() == 0 {
        s
    } else if is_delim(s.last()) {
        Seq::empty()
    } else {
        last_token(s.drop_last()).push(s.last())
    }
}

/// Whether every byte is a decimal digit.
pub open spec fn all_digits(s: Seq<u8>) -> bool {
    forall|i: int| 0 <= i < s.len() ==> is_digit(s[i])
}

/// The number a digit string denotes.
pub open spec fn digits_value(s: Seq<u8>) -> nat
    decreases s.len(),
{
    if s.len() == 0 {
        0
    } else {
        (digits_value(s.drop_last()) * 10 + (s.last() - 48)) as nat
    }
}

/// The CPU count the inventory text denotes: the endpoint of the last range,
/// plus one. `None` when the endpoint is not a plain decimal number or the
/// count does not fit in `usize`.
pub open spec fn num_cpus_spec(s: Seq<u8>) -> Option<usize> {
    let t = last_token(trimmed(s));
    if t.len() > 0 && all_digits(t) && digits_value(t) < usize::MAX {
        Some((digits_value(t) + 1) as usize)
    } else {
        None
    }
}

/// Checks whether a byte is ASCII whitespace.
fn byte_is_space(b: u8) -> (r: bool)
    ensures
        r == is_space(b),
{
    32 == b || (9 <= b && b <= 13)
}

/// Checks whether a byte separates ranges or range ends.
fn byte_is_delim(b: u8) -> (r: bool)
    ensures
        r == is_delim(b),
{
    b == 44 || b == 45
}

/// Appending a digit never shrinks the denoted number.
proof fn lemma_digits_value_drop_last(s: Seq<u8>)
    requires
        all_digits(s),
        s.len() > 0,
    ensures
        digits_value(s) >= digits_value(s.drop_last()),
{
}

/// A prefix of a digit string denotes at most what the whole string denotes.
proof fn lemma_digits_value_prefix(s: Seq<u8>, k: int)
    requires
        all_digits(s),
        0 <= k <= s.len(),
    ensures
        digits_value(s.take(k)) <= digits_value(s),
    decreases s.len() - k,
{
    if k == s.len() {
        assert(s.take(k) =~= s);
    } else {
        lemma_digits_value_prefix(s, k + 1);
        assert(s.take(k + 1).drop_last() =~= s.take(k));
        lemma_digits_value_drop_last(s.take(k + 1));
    }
}

/// Computes the CPU count from the kernel's possible-CPUs text.
///
/// Returns the endpoint of the last range plus one, or `None` when the text
/// does not end in a plain decimal endpoint or the count overflows. A caller
/// must treat `None` as fatal: without the inventory, no per-CPU structure
/// can be sized.
pub fn num_cpus_from_possible(text: &[u8]) -> (r: Option<usize>)
    ensures
        r == num_cpus_spec(text@),
{
    let len: usize = text.len();
    // Trim trailing whitespace.
    let mut hi: usize = len;
    proof {
        assert(text@.take(len as int) =~= text@);
    }
    while hi > 0 && byte_is_space(text[hi - 1])
        invariant
            hi <= len,
            len == text@.len(),
            trim_end(text@) == trim_end(text@.take(hi as int)),
        decreases hi,
    {
        proof {
            assert(text@.take(hi as int).drop_last() =~= text@.take(hi - 1));
        }
        hi = hi - 1;
    }
    proof {
        assert(text@.take(len as int) =~= text@);
        assert(trim_end(text@) == text@.take(hi as int));
    }
    // Trim leading whitespace.
    let mut lo: usize = 0;
    while lo < hi && byte_is_space(text[lo])
        invariant
            lo <= hi <= len,
            len == text@.len(),
            trim_end(text@) == text@.take(hi as int),
            trimmed(text@) == trim_start(text@.subrange(lo as int, hi as int)),
        decreases hi - lo,
    {
        proof {
            assert(text@.subrange(lo as int, hi as int).drop_first() =~= text@.subrange(
                lo + 1,
                hi as int,
            ));
        }
        lo = lo + 1;
    }
    proof {
        assert(trimmed(text@) == text@.subrange(lo as int, hi as int));
    }
    // Find the start of the endpoint of the last range: the suffix after the
    // last `,` or `-`.
    let mut start: usize = hi;
    while start > lo && !byte_is_delim(text[start - 1])
        invariant
            lo <= start <= hi <= len,
            len == text@.len(),
            trimmed(text@) == text@.subrange(lo as int, hi as int),
            last_token(text@.subrange(lo as int, hi as int)) == last_token(
                text@.subrange(lo as int, start as int),
            ).add(text@.subrange(start as int, hi as int)),
        decreases start,
    {
        proof {
            let s = text@;
            let cur = s.subrange(lo as int, start as int);
            assert(cur.drop_last() =~= s.subrange(lo as int, start - 1));
            assert(last_token(cur) == last_token(s.subrange(lo as int, start - 1)).push(
                s[start - 1],
            ));
            assert(last_token(s.subrange(lo as int, start - 1)).push(s[start - 1]).add(
                s.subrange(start as int, hi as int),
            ) =~= last_token(s.subrange(lo as int, start - 1)).add(
                s.subrange(start - 1, hi as int),
            ));
        }
        start = start - 1;
    }
    let ghost token = last_token(trimmed(text@));
    proof {
        let s = text@;
        if start == lo {
            assert(last_token(s.subrange(lo as int, lo as int)) =~= Seq::<u8>::empty());
        }
        assert(last_token(s.subrange(lo as int, start as int)) =~= Seq::<u8>::empty());
        assert(token =~= s.subrange(start as int, hi as int));
    }
    if start == hi {
        // Empty endpoint: nothing to parse.
        return None;
    }
    // Parse the decimal endpoint.
    let mut acc: usize = 0;
    let mut j: usize = start;
    while j < hi
        invariant
            start <= j <= hi <= len,
            len == text@.len(),
            start < hi,
            token == last_token(trimmed(text@)),
            token == text@.subrange(start as int, hi as int),
            all_digits(token.take(j - start)),
            acc == digits_value(token.take(j - start)),
        decreases hi - j,
    {
        let b = text[j];
        if !(48 <= b && b <= 57) {
            // A byte of the endpoint is not a digit.
            proof {
                assert(token[j - start] == b);
                assert(!is_digit(token[j - start]));
                assert(!all_digits(token));
            }
            return None;
        }
        let d: usize = (b - 48) as usize;
        proof {
            assert(token.take(j - start + 1).drop_last() =~= token.take(j - start));
            assert(token.take(j - start + 1).last() == b);
        }
        let next = match acc.checked_mul(10) {
            Some(x) => x.checked_add(d),
            None => None,
        };
        match next {
            Some(x) => {
                acc = x;
            },
            None => {
                // The endpoint overflows the machine word, so the count does too.
                proof {
                    if all_digits(token) {
                        assert(digits_value(token.take(j - start + 1)) == acc * 10 + (b - 48));
                        assert(acc * 10 + (b - 48) > usize::MAX);
                        lemma_digits_value_prefix(token, j - start + 1);
                        assert(digits_value(token) >= usize::MAX);
                    }
                }
                return None;
            },
        }
        j = j + 1;
    }
    proof {
        assert(token.take(hi - start) =~= token);
    }
    if acc == usize::MAX {
        // The endpoint itself fits, but the count (endpoint plus one) does not.
        return None;
    }
    Some(acc + 1)
}

} // verus!
