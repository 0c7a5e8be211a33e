//! Verified text utilities for the classifier: trimming, substring search,
//! decimal-literal recognition and the candidate-number pattern.
//!
//! Whitespace and lower-casing follow the Unicode tables, which are reached
//! through two small trusted wrappers; everything built on top of them is
//! verified.

use vstd::prelude::*;
use vstd::string::*;

verus! {

/// Whether a character has the Unicode `White_Space` property; a function of
/// the character alone.
pub uninterp spec fn is_ws(c: char) -> bool;

/// Relies on char::is_whitespace: whether the character has the Unicode
/// `White_Space` property, a function of the character alone.
#[verifier::external_body]
pub(crate) fn is_ws_char(c: char) -> (r: bool)
    ensures
        r == is_ws(c),
{
    c.is_whitespace()
}

/// The Unicode lower-casing of a character sequence; a function of the
/// characters alone.
pub uninterp spec fn lower_of(s: Seq<char>) -> Seq<char>;

/// Relies on str::to_lowercase: the result depends on the characters alone.
#[verifier::external_body]
pub(crate) fn lowercase(s: &str) -> (r: String)
    ensures
        r@ == lower_of(s@),
{
    s.to_lowercase()
}

/// The number of whitespace characters at the front of `s`.
pub open spec fn leading_ws(s: Seq<char>) -> int
    decreases s.len(),
{
    if s.len() > 0 && is_ws(s[0]) {
        1 + leading_ws(s.drop_first())
    } else {
        0
    }
}

/// The index at which the whitespace tail of `s` begins (`s.len()` when the
/// last character is not whitespace).
pub open spec fn trailing_ws_start(s: Seq<char>) -> int
    decreases s.len(),
{
    if s.len() > 0 && is_ws(s.last()) {
        trailing_ws_start(s.drop_last())
    } else {
        s.len() as int
    }
}

/// `s` with leading and trailing whitespace removed.
pub open spec fn trim_spec(s: Seq<char>) -> Seq<char> {
    if leading_ws(s) <= trailing_ws_start(s) {
        s.subrange(leading_ws(s), trailing_ws_start(s))
    } else {
        Seq::empty()
    }
}

proof fn lemma_leading_ws_at(s: Seq<char>, i: int)
    requires
        0 <= i <= s.len(),
        forall|k: int| 0 <= k < i ==> is_ws(s[k]),
        i < s.len() ==> !is_ws(s[i]),
    ensures
        leading_ws(s) == i,
    decreases i,
{
    if i == 0 {
    } else {
        assert(is_ws(s[0]));
        assert(forall|k: int| 0 <= k < i - 1 ==> s.drop_first()[k] == s[k + 1]);
        lemma_leading_ws_at(s.drop_first(), i - 1);
    }
}

proof fn lemma_trailing_ws_at(s: Seq<char>, j: int)
    requires
        0 <= j <= s.len(),
        forall|k: int| j <= k < s.len() ==> is_ws(s[k]),
        j > 0 ==> !is_ws(s[j - 1]),
    ensures
        trailing_ws_start(s) == j,
    decreases s.len(),
{
    if j == s.len() {
    } else {
        assert(is_ws(s.last()));
        assert(forall|k: int| 0 <= k < s.len() - 1 ==> s.drop_last()[k] == s[k]);
        lemma_trailing_ws_at(s.drop_last(), j);
    }
}

/// `s` with leading and trailing whitespace removed.
pub fn trim_str(s: &str) -> (r: String)
    ensures
        r@ == trim_spec(s@),
{
    let len = s.unicode_len();
    let mut start: usize = 0;
    while start < len && is_ws_char(s.get_char(start))
        invariant
            len == s@.len(),
            0 <= start <= len,
            forall|k: int| 0 <= k < start ==> is_ws(s@[k]),
        decreases len - start,
    {
        start = start + 1;
    }
    let mut end: usize = len;
    while end > start && is_ws_char(s.get_char(end - 1))
        invariant
            len == s@.len(),
            start <= end <= len,
            forall|k: int| end <= k < len ==> is_ws(s@[k]),
        decreases end,
    {
        end = end - 1;
    }
    let r = s.substring_char(start, end).to_owned();
    proof {
        if start == end {
            lemma_leading_ws_at(s@, len as int);
            lemma_trailing_ws_at(s@, 0);
            if len > 0 {
                assert(leading_ws(s@) > trailing_ws_start(s@));
            }
            assert(r@ =~= trim_spec(s@));
        } else {
            assert(!is_ws(s@[start as int]));
            assert(!is_ws(s@[end - 1]));
            lemma_leading_ws_at(s@, start as int);
            lemma_trailing_ws_at(s@, end as int);
            assert(r@ =~= trim_spec(s@));
        }
    }
    r
}

/// Whether `n` occurs as a contiguous subsequence of `h`.
pub open spec fn spec_contains(h: Seq<char>, n: Seq<char>) -> bool {
    exists|i: int| 0 <= i && i + n.len() <= h.len() && #[trigger] h.subrange(i, i + n.len()) == n
}

/// Whether the needle occurs as a contiguous substring of the haystack.
pub fn str_contains(h: &str, n: &str) -> (r: bool)
    ensures
        r == spec_contains(h@, n@),
{
    let hlen = h.unicode_len();
    let nlen = n.unicode_len();
    if nlen > hlen {
        return false;
    }
    if nlen == 0 {
        proof {
            assert(spec_contains(h@, n@)) by {
                assert(h@.subrange(0, 0 + n@.len() as int) =~= n@);
            }
        }
        return true;
    }
    let mut i: usize = 0;
    while i <= hlen - nlen
        invariant
            hlen == h@.len(),
            nlen == n@.len(),
            1 <= nlen <= hlen,
            0 <= i <= hlen - nlen + 1,
            forall|p: int|
                0 <= p < i ==> #[trigger] h@.subrange(p, p + n@.len()) != n@,
        decreases hlen - nlen - i + 1,
    {
        let mut j: usize = 0;
        let mut matched = true;
        while j < nlen && matched
            invariant
                hlen == h@.len(),
                nlen == n@.len(),
                i + nlen <= hlen,
                0 <= j <= nlen,
                matched ==> forall|q: int| 0 <= q < j ==> h@[i + q] == n@[q],
                !matched ==> h@.subrange(i as int, i + n@.len()) != n@,
            decreases nlen - j, (if matched { 1int } else { 0int }),
        {
            if h.get_char(i + j) != n.get_char(j) {
                matched = false;
                proof {
                    assert(h@.subrange(i as int, i + n@.len())[j as int] != n@[j as int]);
                }
            } else {
                j = j + 1;
            }
        }
        if matched {
            proof {
                assert(h@.subrange(i as int, i + n@.len()) =~= n@);
            }
            return true;
        }
        proof {
            assert(h@.subrange(i as int, i + n@.len()) != n@);
        }
        i = i + 1;
    }
    proof {
        assert(forall|p: int|
            0 <= p && p + n@.len() <= h@.len() ==> #[trigger] h@.subrange(p, p + n@.len()) != n@);
    }
    false
}

/// Whether `c` is an ASCII decimal digit.
pub open spec fn is_digit(c: char) -> bool {
    48 <= (c as u32) && (c as u32) <= 57
}

/// Whether every character of `s` is an ASCII decimal digit.
pub open spec fn all_digits(s: Seq<char>) -> bool {
    forall|k: int| 0 <= k < s.len() ==> is_digit(s[k])
}

/// The value of a sequence of decimal digits.
pub open spec fn digits_val(s: Seq<char>) -> int
    decreases s.len(),
{
    if s.len() == 0 {
        0
    } else {
        digits_val(s.drop_last()) * 10 + ((s.last() as u32) - 48)
    }
}

/// `s` without its optional leading `+` sign.
pub open spec fn digits_part(s: Seq<char>) -> Seq<char> {
    if s.len() > 0 && s[0] == '+' {
        s.drop_first()
    } else {
        s
    }
}

/// Whether `s` is what `str::parse::<u32>` accepts: an optional leading `+`,
/// then at least one decimal digit, with a value that fits in 32 bits.
pub open spec fn valid_u32_literal(s: Seq<char>) -> bool {
    digits_part(s).len() > 0 && all_digits(digits_part(s)) && digits_val(digits_part(s))
        <= u32::MAX as int
}

proof fn lemma_digits_val_nonneg(s: Seq<char>)
    requires
        all_digits(s),
    ensures
        digits_val(s) >= 0,
    decreases s.len(),
{
    if s.len() > 0 {
        assert(all_digits(s.drop_last())) by {
            assert(forall|k: int| 0 <= k < s.len() - 1 ==> s.drop_last()[k] == s[k]);
        }
        lemma_digits_val_nonneg(s.drop_last());
        assert(is_digit(s.last()));
    }
}

proof fn lemma_digits_val_mono(s: Seq<char>, i: int)
    requires
        all_digits(s),
        0 <= i <= s.len(),
    ensures
        digits_val(s) >= digits_val(s.take(i)),
    decreases s.len() - i,
{
    if i == s.len() {
        assert(s.take(i) =~= s);
    } else {
        assert(s.take(i + 1).drop_last() =~= s.take(i));
        assert(s.take(i + 1).last() == s[i]);
        assert(all_digits(s.take(i))) by {
            assert(forall|k: int| 0 <= k < i ==> s.take(i)[k] == s[k]);
        }
        lemma_digits_val_nonneg(s.take(i));
        assert(is_digit(s[i]));
        assert(digits_val(s.take(i + 1)) >= digits_val(s.take(i)));
        lemma_digits_val_mono(s, i + 1);
    }
}

/// Whether `s` parses as a non-negative 32-bit integer.
pub fn parses_as_u32(s: &str) -> (r: bool)
    ensures
        r == valid_u32_literal(s@),
{
    let len = s.unicode_len();
    if len == 0 {
        return false;
    }
    let start: usize = if s.get_char(0) == '+' {
        1
    } else {
        0
    };
    let ghost d: Seq<char> = digits_part(s@);
    proof {
        assert(forall|k: int| 0 <= k < d.len() ==> d[k] == s@[k + start]);
    }
    if start == len {
        return false;
    }
    let mut i: usize = start;
    let mut val: u64 = 0;
    while i < len
        invariant
            len == s@.len(),
            len > 0,
            start <= i <= len,
            start <= 1,
            d == digits_part(s@),
            d.len() == len - start,
            forall|k: int| 0 <= k < d.len() ==> d[k] == s@[k + start],
            forall|k: int| 0 <= k < i - start ==> is_digit(d[k]),
            val == digits_val(d.take(i - start)),
            val <= u32::MAX as u64,
        decreases len - i,
    {
        let c = s.get_char(i);
        let cu = c as u32;
        if cu < 48 || cu > 57 {
            proof {
                assert(d[i - start] == s@[i as int]);
                assert(!is_digit(d[i - start]));
                assert(!all_digits(d)) by {
                    if all_digits(d) {
                        assert(is_digit(d[i - start]));
                    }
                }
            }
            return false;
        }
        let nv: u64 = val * 10 + ((cu - 48) as u64);
        proof {
            assert(d.take(i - start + 1).drop_last() =~= d.take(i - start));
            assert(d.take(i - start + 1).last() == d[i - start]);
            assert(d[i - start] == s@[i as int]);
            assert(digits_val(d.take(i - start + 1)) == nv);
        }
        if nv > u32::MAX as u64 {
            proof {
                if all_digits(d) {
                    lemma_digits_val_mono(d, i - start + 1);
                    assert(digits_val(d) > u32::MAX as int);
                }
            }
            return false;
        }
        val = nv;
        i = i + 1;
    }
    proof {
        assert(d.take(i - start) =~= d);
    }
    true
}

/// Whether `s` has the shape of a candidate number: the letters `wl`, three
/// decimal digits, the letter `d`, three decimal digits.
pub open spec fn is_candidate_pattern(s: Seq<char>) -> bool {
    s.len() == 9 && s[0] == 'w' && s[1] == 'l' && is_digit(s[2]) && is_digit(s[3]) && is_digit(
        s[4],
    ) && s[5] == 'd' && is_digit(s[6]) && is_digit(s[7]) && is_digit(s[8])
}

fn is_digit_char(c: char) -> (r: bool)
    ensures
        r == is_digit(c),
{
    let n = c as u32;
    48 <= n && n <= 57
}

/// Whether `s` has the shape of a candidate number (`wl`, three digits, `d`,
/// three digits).
pub fn matches_candidate_pattern(s: &str) -> (r: bool)
    ensures
        r == is_candidate_pattern(s@),
{
    if s.unicode_len() != 9 {
        return false;
    }
    s.get_char(0) == 'w' && s.get_char(1) == 'l' && is_digit_char(s.get_char(2)) && is_digit_char(
        s.get_char(3),
    ) && is_digit_char(s.get_char(4)) && s.get_char(5) == 'd' && is_digit_char(s.get_char(6))
        && is_digit_char(s.get_char(7)) && is_digit_char(s.get_char(8))
}

} // verus!
