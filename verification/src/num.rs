//! Primitive value parsers: unsigned integers in decimal, hexadecimal or
//! binary spelling, and booleans in their several textual spellings.

use crate::text::{eq_ignore_case, lower_seq};
use vstd::prelude::*;

verus! {

/// Value of one digit character under `base`, or `-1` when the character is
/// no digit of that base. Letter digits are accepted in both cases.
pub open spec fn digit_val(c: char, base: nat) -> int {
    let u = c as u32;
    let d: int = if 48 <= u <= 57 {
        u - 48
    } else if 97 <= u <= 102 {
        u - 97 + 10
    } else if 65 <= u <= 70 {
        u - 65 + 10
    } else {
        -1
    };
    if 0 <= d < base {
        d
    } else {
        -1
    }
}

/// Whether `c` is a digit of `base`.
pub open spec fn is_digit(c: char, base: nat) -> bool {
    digit_val(c, base) >= 0
}

/// Whether every character of `s` is a digit of `base`.
pub open spec fn all_digits(s: Seq<char>, base: nat) -> bool {
    forall|i: int| 0 <= i < s.len() ==> is_digit(#[trigger] s[i], base)
}

/// Numeric value of a digit string under `base`, most significant digit
/// first. Meaningful when `all_digits(s, base)` holds.
pub open spec fn num_val(s: Seq<char>, base: nat) -> int
    decreases s.len(),
{
    if s.len() == 0 {
        0
    } else {
        num_val(s.drop_last(), base) * base + digit_val(s.last(), base)
    }
}

/// The base and digit run of a numeral: a `0x`/`0X` prefix selects
/// hexadecimal, a `0b`/`0B` prefix binary, anything else is plain decimal.
pub ghost struct NumeralParts {
    pub base: nat,
    pub digits: Seq<char>,
}

/// Split a numeral into its base and its digit run.
pub open spec fn numeral_parts(s: Seq<char>) -> NumeralParts {
    if s.len() >= 2 && s[0] == '0' && (s[1] == 'x' || s[1] == 'X') {
        NumeralParts { base: 16, digits: s.subrange(2, s.len() as int) }
    } else if s.len() >= 2 && s[0] == '0' && (s[1] == 'b' || s[1] == 'B') {
        NumeralParts { base: 2, digits: s.subrange(2, s.len() as int) }
    } else {
        NumeralParts { base: 10, digits: s }
    }
}

/// A well-formed numeral whose value fits an unsigned 64-bit integer: at
/// least one digit, every character a digit of the selected base, value in
/// range.
pub open spec fn valid_numeral(s: Seq<char>) -> bool {
    let p = numeral_parts(s);
    p.digits.len() > 0 && all_digits(p.digits, p.base) && num_val(p.digits, p.base) <= u64::MAX
}

/// The value a well-formed numeral denotes.
pub open spec fn numeral_val(s: Seq<char>) -> int {
    let p = numeral_parts(s);
    num_val(p.digits, p.base)
}

/// A digit string's value is never negative.
pub proof fn lemma_num_val_nonneg(s: Seq<char>, base: nat)
    requires
        all_digits(s, base),
    ensures
        num_val(s, base) >= 0,
    decreases s.len(),
{
    if s.len() > 0 {
        assert(all_digits(s.drop_last(), base)) by {
            assert(forall|i: int|
                0 <= i < s.len() - 1 ==> #[trigger] s.drop_last()[i] == s[i]);
        }
        lemma_num_val_nonneg(s.drop_last(), base);
        assert(num_val(s.drop_last(), base) * base >= 0) by (nonlinear_arith)
            requires
                num_val(s.drop_last(), base) >= 0,
                base >= 0,
        ;
    }
}

/// Extending a digit string on the right never lowers its value.
pub proof fn lemma_num_val_prefix(s: Seq<char>, k: int, base: nat)
    requires
        0 <= k <= s.len(),
        base >= 2,
        all_digits(s, base),
    ensures
        num_val(s.subrange(0, k), base) <= num_val(s, base),
    decreases s.len() - k,
{
    if k < s.len() {
        let a = s.subrange(0, k);
        let b = s.subrange(0, k + 1);
        assert(b.drop_last() =~= a);
        assert(all_digits(a, base));
        lemma_num_val_nonneg(a, base);
        assert(num_val(a, base) * base >= num_val(a, base)) by (nonlinear_arith)
            requires
                num_val(a, base) >= 0,
                base >= 2,
        ;
        assert(is_digit(s[k], base));
        assert(num_val(b, base) >= num_val(a, base));
        lemma_num_val_prefix(s, k + 1, base);
        assert(s.subrange(0, s.len() as int) =~= s);
    } else {
        assert(s.subrange(0, k) =~= s);
    }
}

/// Every character of a decimal rendering is a decimal digit, none is
/// whitespace, and the leading character is `0` only for zero itself.
pub proof fn lemma_dec_str_chars(n: nat)
    ensures
        all_digits(crate::text::dec_str(n), 10),
        forall|i: int|
            0 <= i < crate::text::dec_str(n).len() ==> !crate::text::is_ws(
                #[trigger] crate::text::dec_str(n)[i],
            ),
        crate::text::dec_str(n)[0] == '0' ==> n == 0,
    decreases n,
{
    let s = crate::text::dec_str(n);
    if n < 10 {
        assert(s == seq![crate::text::dec_digit(n)]);
    } else {
        let t = crate::text::dec_str(n / 10);
        lemma_dec_str_chars(n / 10);
        crate::text::lemma_dec_str_len(n / 10);
        assert(s == t.push(crate::text::dec_digit(n % 10)));
        assert(s[0] == t[0]);
        assert forall|i: int| 0 <= i < s.len() implies is_digit(#[trigger] s[i], 10)
            && !crate::text::is_ws(s[i]) by {
            if i < t.len() {
                assert(s[i] == t[i]);
            } else {
                assert(s[i] == crate::text::dec_digit(n % 10));
            }
        }
    }
}

/// Reading a decimal rendering back gives the value it came from.
pub proof fn lemma_dec_num_val(n: nat)
    ensures
        num_val(crate::text::dec_str(n), 10) == n,
    decreases n,
{
    let s = crate::text::dec_str(n);
    if n < 10 {
        assert(digit_val(crate::text::dec_digit(n), 10) == n);
        assert(s.drop_last() =~= Seq::<char>::empty());
        assert(num_val(Seq::<char>::empty(), 10) == 0);
        assert(s.last() == crate::text::dec_digit(n));
        assert(num_val(s, 10) == num_val(s.drop_last(), 10) * 10 + digit_val(s.last(), 10));
    } else {
        let t = crate::text::dec_str(n / 10);
        lemma_dec_num_val(n / 10);
        assert(digit_val(crate::text::dec_digit(n % 10), 10) == n % 10);
        assert(s.drop_last() =~= t);
        assert(s.last() == crate::text::dec_digit(n % 10));
        assert(num_val(s, 10) == num_val(t, 10) * 10 + digit_val(s.last(), 10));
    }
}

/// A decimal rendering is a well-formed numeral that trims to itself and
/// denotes the value it came from.
pub proof fn lemma_dec_str_numeral(x: u64)
    ensures
        crate::text::trim_spec(crate::text::dec_str(x as nat)) == crate::text::dec_str(x as nat),
        valid_numeral(crate::text::dec_str(x as nat)),
        numeral_val(crate::text::dec_str(x as nat)) == x,
{
    let s = crate::text::dec_str(x as nat);
    crate::text::lemma_dec_str_len(x as nat);
    lemma_dec_str_chars(x as nat);
    crate::text::lemma_trim_no_ws(s);
    // A multi-character rendering never starts with `0`, so the numeral has
    // no base prefix and reads as plain decimal.
    if s.len() >= 2 {
        assert(s[0] != '0');
    }
    assert(numeral_parts(s).base == 10 && numeral_parts(s).digits == s);
    lemma_dec_num_val(x as nat);
}

/// Value of one digit character under `base`, when it is one.
fn digit_of(c: char, base: u64) -> (r: Option<u64>)
    requires
        base == 2 || base == 10 || base == 16,
    ensures
        match r {
            Some(d) => digit_val(c, base as nat) == d as int && d < base,
            None => digit_val(c, base as nat) == -1,
        },
{
    let u = c as u32;
    let d: u64 = if 48 <= u && u <= 57 {
        (u - 48) as u64
    } else if 97 <= u && u <= 102 {
        (u - 97) as u64 + 10
    } else if 65 <= u && u <= 70 {
        (u - 65) as u64 + 10
    } else {
        return None;
    };
    if d < base {
        Some(d)
    } else {
        None
    }
}

/// Parse an unsigned 64-bit integer in decimal, `0x` hexadecimal or `0b`
/// binary spelling. Yields a value exactly for well-formed numerals that fit.
pub fn parse_u64(text: &str) -> (r: Option<u64>)
    ensures
        r is Some <==> valid_numeral(text@),
        r matches Some(v) ==> v == numeral_val(text@),
{
    let n = text.unicode_len();
    let ghost parts = numeral_parts(text@);
    let mut base: u64 = 10;
    let mut start: usize = 0;
    if n >= 2 && text.get_char(0) == '0' {
        let c1 = text.get_char(1);
        if c1 == 'x' || c1 == 'X' {
            base = 16;
            start = 2;
        } else if c1 == 'b' || c1 == 'B' {
            base = 2;
            start = 2;
        }
    }
    assert(parts.base == base as nat);
    assert(parts.digits =~= text@.subrange(start as int, n as int));
    if start == n {
        return None;
    }
    let mut acc: u64 = 0;
    let mut i: usize = start;
    while i < n
        invariant
            n == text@.len(),
            start <= i <= n,
            start < n,
            base == 2 || base == 10 || base == 16,
            parts == numeral_parts(text@),
            parts.base == base as nat,
            parts.digits == text@.subrange(start as int, n as int),
            all_digits(text@.subrange(start as int, i as int), base as nat),
            acc as int == num_val(text@.subrange(start as int, i as int), base as nat),
        decreases n - i,
    {
        let c = text.get_char(i);
        let ghost done = text@.subrange(start as int, i as int);
        let ghost next = text@.subrange(start as int, i + 1);
        assert(next.drop_last() =~= done);
        assert(next.last() == text@[i as int]);
        let d = match digit_of(c, base) {
            Some(d) => d,
            None => {
                // The character at `i` is no digit of the base, so the
                // numeral is malformed.
                assert(parts.digits[i - start] == text@[i as int]);
                assert(!valid_numeral(text@));
                return None;
            },
        };
        let m = match acc.checked_mul(base) {
            Some(m) => m,
            None => {
                proof {
                    overflow_means_invalid(text@, parts, start as int, i as int, base as nat);
                }
                return None;
            },
        };
        let a = match m.checked_add(d) {
            Some(a) => a,
            None => {
                proof {
                    overflow_means_invalid(text@, parts, start as int, i as int, base as nat);
                }
                return None;
            },
        };
        acc = a;
        i += 1;
    }
    assert(parts.digits =~= text@.subrange(start as int, i as int));
    Some(acc)
}

/// When the running value exceeds the 64-bit range at some position, the
/// whole numeral cannot be well formed: either a later character is no digit,
/// or the full value is out of range as well.
proof fn overflow_means_invalid(s: Seq<char>, parts: NumeralParts, start: int, i: int, base: nat)
    requires
        parts == numeral_parts(s),
        parts.base == base,
        base >= 2,
        0 <= start <= i < s.len(),
        parts.digits == s.subrange(start, s.len() as int),
        is_digit(s[i], base),
        all_digits(s.subrange(start, i), base),
        num_val(s.subrange(start, i), base) * base + digit_val(s[i], base) > u64::MAX,
    ensures
        !valid_numeral(s),
{
    if valid_numeral(s) {
        let digits = parts.digits;
        assert(all_digits(digits, base));
        let b = s.subrange(start, i + 1);
        assert(b.drop_last() =~= s.subrange(start, i));
        assert(b.last() == s[i]);
        assert(num_val(b, base) > u64::MAX);
        assert(b =~= digits.subrange(0, i + 1 - start));
        lemma_num_val_prefix(digits, i + 1 - start, base);
        assert(num_val(digits, base) > u64::MAX);
    }
}

/// Parse an unsigned 32-bit integer: a well-formed numeral whose value also
/// fits 32 bits.
pub fn parse_u32(text: &str) -> (r: Option<u32>)
    ensures
        r is Some <==> valid_numeral(text@) && numeral_val(text@) <= u32::MAX,
        r matches Some(v) ==> v == numeral_val(text@),
{
    match parse_u64(text) {
        Some(v) => {
            if v <= 0xFFFF_FFFF {
                Some(v as u32)
            } else {
                None
            }
        },
        None => None,
    }
}

/// Whether `c` may stand in a binary "don't care" pattern: a binary digit or
/// the `x`/`X` wildcard.
pub open spec fn is_bin_or_x(c: char) -> bool {
    c == '0' || c == '1' || c == 'x' || c == 'X'
}

/// Whether every character of `s` may stand in a binary "don't care" pattern.
pub open spec fn all_bin_or_x(s: Seq<char>) -> bool {
    forall|i: int| 0 <= i < s.len() ==> is_bin_or_x(#[trigger] s[i])
}

/// Value of a binary pattern with every wildcard read as `subst`.
pub open spec fn bin_val(s: Seq<char>, subst: nat) -> int
    decreases s.len(),
{
    if s.len() == 0 {
        0
    } else {
        bin_val(s.drop_last(), subst) * 2 + (if s.last() == '1' {
            1int
        } else if s.last() == '0' {
            0int
        } else {
            subst as int
        })
    }
}

/// A well-formed binary "don't care" pattern whose largest reading fits an
/// unsigned 64-bit integer: `0b` prefix, at least one digit or wildcard, and
/// the all-ones reading in range.
pub open spec fn valid_dont_care(s: Seq<char>) -> bool {
    &&& s.len() >= 3
    &&& s[0] == '0'
    &&& (s[1] == 'b' || s[1] == 'B')
    &&& all_bin_or_x(s.subrange(2, s.len() as int))
    &&& bin_val(s.subrange(2, s.len() as int), 1) <= u64::MAX
}

/// A pattern's value is never negative.
proof fn lemma_bin_val_nonneg(s: Seq<char>, subst: nat)
    requires
        subst <= 1,
    ensures
        bin_val(s, subst) >= 0,
    decreases s.len(),
{
    if s.len() > 0 {
        lemma_bin_val_nonneg(s.drop_last(), subst);
    }
}

/// Extending a pattern on the right never lowers its value.
proof fn lemma_bin_val_prefix(s: Seq<char>, k: int, subst: nat)
    requires
        0 <= k <= s.len(),
        subst <= 1,
    ensures
        bin_val(s.subrange(0, k), subst) <= bin_val(s, subst),
    decreases s.len() - k,
{
    if k < s.len() {
        let a = s.subrange(0, k);
        let b = s.subrange(0, k + 1);
        assert(b.drop_last() =~= a);
        lemma_bin_val_nonneg(a, subst);
        lemma_bin_val_prefix(s, k + 1, subst);
        assert(s.subrange(0, s.len() as int) =~= s);
    } else {
        assert(s.subrange(0, k) =~= s);
    }
}

/// Parse a binary "don't care" bit pattern: each `x`/`X` wildcard reads as
/// `0` in the first result and as `1` in the second, so the pair bounds the
/// inclusive range the pattern denotes.
pub fn parse_u64_dont_care(text: &str) -> (r: Option<(u64, u64)>)
    ensures
        r is Some <==> valid_dont_care(text@),
        r matches Some((lo, hi)) ==> {
            let digits = text@.subrange(2, text@.len() as int);
            lo == bin_val(digits, 0) && hi == bin_val(digits, 1)
        },
{
    let n = text.unicode_len();
    if n < 3 {
        return None;
    }
    if text.get_char(0) != '0' {
        return None;
    }
    let c1 = text.get_char(1);
    if !(c1 == 'b' || c1 == 'B') {
        return None;
    }
    let ghost digits = text@.subrange(2, n as int);
    let mut lo: u64 = 0;
    let mut hi: u64 = 0;
    let mut i: usize = 2;
    while i < n
        invariant
            n == text@.len(),
            n >= 3,
            2 <= i <= n,
            digits == text@.subrange(2, n as int),
            all_bin_or_x(text@.subrange(2, i as int)),
            lo as int == bin_val(text@.subrange(2, i as int), 0),
            hi as int == bin_val(text@.subrange(2, i as int), 1),
            lo <= hi,
        decreases n - i,
    {
        let c = text.get_char(i);
        let ghost done = text@.subrange(2, i as int);
        let ghost next = text@.subrange(2, i + 1);
        assert(next.drop_last() =~= done);
        assert(next.last() == text@[i as int]);
        let (dl, dh): (u64, u64) = if c == '0' {
            (0, 0)
        } else if c == '1' {
            (1, 1)
        } else if c == 'x' || c == 'X' {
            (0, 1)
        } else {
            assert(digits[i - 2] == text@[i as int]);
            assert(!valid_dont_care(text@));
            return None;
        };
        let h2 = match hi.checked_mul(2) {
            Some(m) => m,
            None => {
                proof {
                    dont_care_overflow(text@, i as int);
                }
                return None;
            },
        };
        let h3 = match h2.checked_add(dh) {
            Some(a) => a,
            None => {
                proof {
                    dont_care_overflow(text@, i as int);
                }
                return None;
            },
        };
        lo = lo * 2 + dl;
        hi = h3;
        i += 1;
    }
    assert(digits =~= text@.subrange(2, i as int));
    Some((lo, hi))
}

/// When the all-ones reading exceeds the 64-bit range at some position, the
/// whole pattern is malformed or out of range as well.
proof fn dont_care_overflow(s: Seq<char>, i: int)
    requires
        2 <= i < s.len(),
        is_bin_or_x(s[i]),
        all_bin_or_x(s.subrange(2, i)),
        bin_val(s.subrange(2, i), 1) * 2 + (if s[i] == '1' {
            1int
        } else if s[i] == '0' {
            0int
        } else {
            1int
        }) > u64::MAX,
    ensures
        !valid_dont_care(s),
{
    if valid_dont_care(s) {
        let digits = s.subrange(2, s.len() as int);
        let b = s.subrange(2, i + 1);
        assert(b.drop_last() =~= s.subrange(2, i));
        assert(b.last() == s[i]);
        assert(bin_val(b, 1) > u64::MAX);
        assert(b =~= digits.subrange(0, i + 1 - 2));
        lemma_bin_val_prefix(digits, i + 1 - 2, 1);
        assert(bin_val(digits, 1) > u64::MAX);
    }
}

/// The boolean a token denotes: case-insensitively, `true`, `1` and
/// `enabled` mean true; `false`, `0` and `disabled` mean false; anything
/// else is no boolean.
pub open spec fn bool_token(s: Seq<char>) -> Option<bool> {
    let l = lower_seq(s);
    if l == "true"@ || l == "1"@ || l == "enabled"@ {
        Some(true)
    } else if l == "false"@ || l == "0"@ || l == "disabled"@ {
        Some(false)
    } else {
        None
    }
}

/// Parse a boolean token.
pub fn parse_bool(text: &str) -> (r: Option<bool>)
    ensures
        r == bool_token(text@),
{
    proof {
        reveal_strlit("true");
        reveal_strlit("1");
        reveal_strlit("enabled");
        reveal_strlit("false");
        reveal_strlit("0");
        reveal_strlit("disabled");
        assert(lower_seq("true"@) =~= "true"@);
        assert(lower_seq("1"@) =~= "1"@);
        assert(lower_seq("enabled"@) =~= "enabled"@);
        assert(lower_seq("false"@) =~= "false"@);
        assert(lower_seq("0"@) =~= "0"@);
        assert(lower_seq("disabled"@) =~= "disabled"@);
    }
    if eq_ignore_case(text, "true") || eq_ignore_case(text, "1") || eq_ignore_case(
        text,
        "enabled",
    ) {
        Some(true)
    } else if eq_ignore_case(text, "false") || eq_ignore_case(text, "0") || eq_ignore_case(
        text,
        "disabled",
    ) {
        Some(false)
    } else {
        None
    }
}

} // verus!
