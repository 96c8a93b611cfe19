//! ASCII tokens of netpbm headers and plain rasters: decimal numbers,
//! whitespace and comments.
use vstd::prelude::*;
use vstd::string::StringSliceAdditionalSpecFns;
use vstd::utf8::*;

verus! {

/// Space, tab, carriage return or line feed.
pub open spec fn is_space(b: u8) -> bool {
    b == 32 || b == 9 || b == 13 || b == 10
}

/// Space or tab: what separates a PAM keyword from its value.
pub open spec fn is_blank(b: u8) -> bool {
    b == 32 || b == 9
}

/// An ASCII decimal digit.
pub open spec fn is_digit(b: u8) -> bool {
    48 <= b <= 57
}

/// The decimal ASCII form of `n`, without leading zeros.
pub open spec fn decimal(n: nat) -> Seq<u8>
    decreases n,
{
    if n < 10 {
        seq![(48 + n) as u8]
    } else {
        decimal(n / 10).push((48 + n % 10) as u8)
    }
}

/// The first position at or after `i` that is neither whitespace nor
/// inside a comment. A comment runs from `#` to the end of its line;
/// `in_comment` says whether position `i` lies inside one.
pub open spec fn skip_gap(s: Seq<u8>, i: int, in_comment: bool) -> int
    decreases s.len() - i,
{
    if i < 0 || i >= s.len() {
        i
    } else if in_comment {
        skip_gap(s, i + 1, s[i] != 10)
    } else if is_space(s[i]) {
        skip_gap(s, i + 1, false)
    } else if s[i] == 35 {
        skip_gap(s, i + 1, true)
    } else {
        i
    }
}

/// The first position at or after `i` that is not whitespace.
pub open spec fn skip_spaces(s: Seq<u8>, i: int) -> int
    decreases s.len() - i,
{
    if 0 <= i < s.len() && is_space(s[i]) {
        skip_spaces(s, i + 1)
    } else {
        i
    }
}

/// The first position at or after `i` that is not a space or a tab.
pub open spec fn skip_blanks(s: Seq<u8>, i: int) -> int
    decreases s.len() - i,
{
    if 0 <= i < s.len() && is_blank(s[i]) {
        skip_blanks(s, i + 1)
    } else {
        i
    }
}

/// The end of the run of digits that starts at `i`.
pub open spec fn digits_end(s: Seq<u8>, i: int) -> int
    decreases s.len() - i,
{
    if 0 <= i < s.len() && is_digit(s[i]) {
        digits_end(s, i + 1)
    } else {
        i
    }
}

/// The end of the run of non-whitespace bytes that starts at `i`.
pub open spec fn word_end(s: Seq<u8>, i: int) -> int
    decreases s.len() - i,
{
    if 0 <= i < s.len() && !is_space(s[i]) {
        word_end(s, i + 1)
    } else {
        i
    }
}

/// The position of the first line feed at or after `i`, or the length
/// of `s` if there is none.
pub open spec fn line_end(s: Seq<u8>, i: int) -> int
    decreases s.len() - i,
{
    if 0 <= i < s.len() && s[i] != 10 {
        line_end(s, i + 1)
    } else {
        i
    }
}

/// The number written by the digits `s[i..j]`.
pub open spec fn digits_value(s: Seq<u8>, i: int, j: int) -> nat
    decreases j - i,
{
    if j <= i {
        0
    } else {
        digits_value(s, i, j - 1) * 10 + (s[j - 1] - 48) as nat
    }
}

/// Parsed numbers are held up to this bound; anything larger reads as
/// the bound itself, which exceeds every accepted field value.
pub const NUMBER_CAP: u64 = 4294967296;

/// `v`, or `NUMBER_CAP` where `v` is larger.
pub open spec fn capped(v: nat) -> nat {
    if v > NUMBER_CAP {
        NUMBER_CAP as nat
    } else {
        v
    }
}

/// Appends the decimal form of `n`.
pub fn push_decimal(out: &mut Vec<u8>, n: u64)
    ensures
        final(out)@ == old(out)@ + decimal(n as nat),
    decreases n,
{
    if n >= 10 {
        push_decimal(out, n / 10);
    }
    out.push(48 + (n % 10) as u8);
    assert(final(out)@ =~= old(out)@ + decimal(n as nat));
}

/// Appends all of `bytes`.
pub fn push_all(out: &mut Vec<u8>, bytes: &[u8])
    ensures
        final(out)@ == old(out)@ + bytes@,
{
    let mut k: usize = 0;
    while k < bytes.len()
        invariant
            k <= bytes.len(),
            out@ == old(out)@ + bytes@.take(k as int),
        decreases bytes.len() - k,
    {
        out.push(bytes[k]);
        k += 1;
        assert(out@ =~= old(out)@ + bytes@.take(k as int));
    }
    assert(bytes@.take(k as int) =~= bytes@);
}

/// The position after the whitespace and comments that start at `i`.
pub fn gap_end(s: &[u8], i: usize) -> (r: usize)
    requires
        i <= s@.len(),
    ensures
        r == skip_gap(s@, i as int, false),
        i <= r <= s@.len(),
{
    let mut k = i;
    let mut in_comment = false;
    while k < s.len()
        invariant
            i <= k <= s@.len(),
            skip_gap(s@, k as int, in_comment) == skip_gap(s@, i as int, false),
        decreases s@.len() - k,
    {
        let b = s[k];
        if in_comment {
            in_comment = b != 10;
        } else if b == 32 || b == 9 || b == 13 || b == 10 {
        } else if b == 35 {
            in_comment = true;
        } else {
            return k;
        }
        k += 1;
    }
    k
}

/// The position after the whitespace that starts at `i`.
pub fn spaces_end(s: &[u8], i: usize) -> (r: usize)
    requires
        i <= s@.len(),
    ensures
        r == skip_spaces(s@, i as int),
        i <= r <= s@.len(),
{
    let mut k = i;
    while k < s.len() && (s[k] == 32 || s[k] == 9 || s[k] == 13 || s[k] == 10)
        invariant
            i <= k <= s@.len(),
            skip_spaces(s@, k as int) == skip_spaces(s@, i as int),
        decreases s@.len() - k,
    {
        k += 1;
    }
    k
}

/// The position after the spaces and tabs that start at `i`.
pub fn blanks_end(s: &[u8], i: usize) -> (r: usize)
    requires
        i <= s@.len(),
    ensures
        r == skip_blanks(s@, i as int),
        i <= r <= s@.len(),
{
    let mut k = i;
    while k < s.len() && (s[k] == 32 || s[k] == 9)
        invariant
            i <= k <= s@.len(),
            skip_blanks(s@, k as int) == skip_blanks(s@, i as int),
        decreases s@.len() - k,
    {
        k += 1;
    }
    k
}

/// The end of the word of non-whitespace bytes that starts at `i`.
pub fn find_word_end(s: &[u8], i: usize) -> (r: usize)
    requires
        i <= s@.len(),
    ensures
        r == word_end(s@, i as int),
        i <= r <= s@.len(),
{
    let mut k = i;
    while k < s.len() && !(s[k] == 32 || s[k] == 9 || s[k] == 13 || s[k] == 10)
        invariant
            i <= k <= s@.len(),
            word_end(s@, k as int) == word_end(s@, i as int),
        decreases s@.len() - k,
    {
        k += 1;
    }
    k
}

/// The position of the line feed that ends the line holding `i`, or the
/// length of `s`.
pub fn find_line_end(s: &[u8], i: usize) -> (r: usize)
    requires
        i <= s@.len(),
    ensures
        r == line_end(s@, i as int),
        i <= r <= s@.len(),
{
    let mut k = i;
    while k < s.len() && s[k] != 10
        invariant
            i <= k <= s@.len(),
            line_end(s@, k as int) == line_end(s@, i as int),
        decreases s@.len() - k,
    {
        k += 1;
    }
    k
}

/// Reads the run of digits at `i`: returns its end and its value, held
/// at `NUMBER_CAP` when larger.
pub fn read_digits(s: &[u8], i: usize) -> (r: (usize, u64))
    requires
        i <= s@.len(),
    ensures
        r.0 == digits_end(s@, i as int),
        i <= r.0 <= s@.len(),
        r.1 as nat == capped(digits_value(s@, i as int, r.0 as int)),
{
    let mut k = i;
    let mut v: u64 = 0;
    while k < s.len() && 48 <= s[k] && s[k] <= 57
        invariant
            i <= k <= s@.len(),
            digits_end(s@, k as int) == digits_end(s@, i as int),
            v as nat == capped(digits_value(s@, i as int, k as int)),
        decreases s@.len() - k,
    {
        let d = (s[k] - 48) as u64;
        let ghost old_v = digits_value(s@, i as int, k as int);
        assert(digits_value(s@, i as int, k + 1) == old_v * 10 + d);
        if v >= NUMBER_CAP {
            assert(old_v * 10 + d >= NUMBER_CAP) by (nonlinear_arith)
                requires old_v >= NUMBER_CAP, d >= 0;
        } else {
            v = v * 10 + d;
            if v > NUMBER_CAP {
                v = NUMBER_CAP;
            }
        }
        k += 1;
    }
    (k, v)
}

/// The decimal form of a number is a non-empty run of digits.
pub proof fn lemma_decimal_digits(n: nat)
    ensures
        decimal(n).len() >= 1,
        forall|k: int| 0 <= k < decimal(n).len() ==> is_digit(#[trigger] decimal(n)[k]),
    decreases n,
{
    if n >= 10 {
        lemma_decimal_digits(n / 10);
    }
}

/// A run of digits from `i` to `j`, followed by no digit, ends at `j`.
pub proof fn lemma_digits_end(s: Seq<u8>, i: int, j: int)
    requires
        0 <= i <= j <= s.len(),
        forall|k: int| i <= k < j ==> is_digit(#[trigger] s[k]),
        j == s.len() || !is_digit(s[j]),
    ensures
        digits_end(s, i) == j,
    decreases j - i,
{
    if i < j {
        lemma_digits_end(s, i + 1, j);
    }
}

/// The digits of `decimal(n)` read back as `n`.
pub proof fn lemma_digits_value(s: Seq<u8>, i: int, n: nat)
    requires
        0 <= i,
        i + decimal(n).len() <= s.len(),
        s.subrange(i, i + decimal(n).len()) == decimal(n),
    ensures
        digits_value(s, i, i + decimal(n).len()) == n,
    decreases n,
{
    let j = i + decimal(n).len();
    assert(s[j - 1] == decimal(n)[decimal(n).len() - 1]);
    if n >= 10 {
        let m = decimal(n / 10).len();
        assert(s.subrange(i, i + m) =~= decimal(n / 10)) by {
            assert forall|k: int| 0 <= k < m implies #[trigger] s.subrange(i, i + m)[k] == decimal(n / 10)[k] by {
                assert(s[i + k] == decimal(n)[k]);
            }
        }
        lemma_digits_value(s, i, n / 10);
        assert(j - 1 == i + m);
    } else {
        assert(digits_value(s, i, i) == 0);
    }
}

/// The decimal form of `n`, followed by a non-digit, reads as `n` and
/// ends where it ends.
pub proof fn lemma_read_decimal(s: Seq<u8>, i: int, n: nat)
    requires
        0 <= i,
        i + decimal(n).len() < s.len(),
        s.subrange(i, i + decimal(n).len()) == decimal(n),
        !is_digit(s[i + decimal(n).len()]),
    ensures
        digits_end(s, i) == i + decimal(n).len(),
        digits_value(s, i, i + decimal(n).len()) == n,
{
    lemma_decimal_digits(n);
    assert forall|k: int| i <= k < i + decimal(n).len() implies is_digit(#[trigger] s[k]) by {
        assert(s[k] == decimal(n)[k - i]);
    }
    lemma_digits_end(s, i, i + decimal(n).len());
    lemma_digits_value(s, i, n);
}

/// A run of non-whitespace from `i` to `j`, followed by whitespace or the
/// end, ends at `j`.
pub proof fn lemma_word_end(s: Seq<u8>, i: int, j: int)
    requires
        0 <= i <= j <= s.len(),
        forall|k: int| i <= k < j ==> !is_space(#[trigger] s[k]),
        j == s.len() || is_space(s[j]),
    ensures
        word_end(s, i) == j,
    decreases j - i,
{
    if i < j {
        lemma_word_end(s, i + 1, j);
    }
}

/// A line from `i` without line feed, followed by one at `j`, ends at `j`.
pub proof fn lemma_line_end(s: Seq<u8>, i: int, j: int)
    requires
        0 <= i <= j < s.len(),
        forall|k: int| i <= k < j ==> #[trigger] s[k] != 10,
        s[j] == 10,
    ensures
        line_end(s, i) == j,
    decreases j - i,
{
    if i < j {
        lemma_line_end(s, i + 1, j);
    }
}

/// ASCII bytes are valid UTF-8: each is the code of its character.
pub proof fn lemma_ascii_utf8(b: Seq<u8>)
    requires
        forall|i: int| 0 <= i < b.len() ==> #[trigger] b[i] < 128,
    ensures
        valid_utf8(b),
{
    broadcast use is_ascii_chars_encode_utf8, encode_utf8_valid_utf8;

    let bc = Seq::new(b.len(), |i: int| b[i] as char);
    assert(is_ascii_chars(bc)) by {
        assert forall|i: int| 0 <= i < bc.len() implies '\0' <= #[trigger] bc[i] <= '\u{7f}' by {
            assert(b[i] < 128);
        }
    }
    assert(encode_utf8(bc) =~= b) by {
        assert forall|i: int| 0 <= i < b.len() implies #[trigger] encode_utf8(bc)[i] == b[i] by {
            assert(bc[i] as u8 == encode_utf8(bc)[i]);
        }
    }
}

/// Decimal digits are valid UTF-8.
pub proof fn lemma_decimal_utf8(n: nat)
    ensures
        valid_utf8(decimal(n)),
{
    lemma_decimal_digits(n);
    lemma_ascii_utf8(decimal(n));
}

/// Appends the UTF-8 bytes of `t`.
pub fn push_str(out: &mut Vec<u8>, t: &str)
    ensures
        final(out)@ == old(out)@ + t.spec_bytes(),
{
    push_all(out, t.as_bytes());
}

} // verus!
