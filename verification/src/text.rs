//! Text utilities shared by the primitive parsers, the name checker and the
//! dimension expander: ASCII case folding, whitespace trimming and decimal
//! rendering of unsigned integers.

use vstd::prelude::*;

verus! {

/// Case-folded form of a single character: ASCII upper-case letters map to
/// their lower-case counterpart, everything else is unchanged.
pub open spec fn to_lower_spec(c: char) -> char {
    match c {
        'A' => 'a',
        'B' => 'b',
        'C' => 'c',
        'D' => 'd',
        'E' => 'e',
        'F' => 'f',
        'G' => 'g',
        'H' => 'h',
        'I' => 'i',
        'J' => 'j',
        'K' => 'k',
        'L' => 'l',
        'M' => 'm',
        'N' => 'n',
        'O' => 'o',
        'P' => 'p',
        'Q' => 'q',
        'R' => 'r',
        'S' => 's',
        'T' => 't',
        'U' => 'u',
        'V' => 'v',
        'W' => 'w',
        'X' => 'x',
        'Y' => 'y',
        'Z' => 'z',
        _ => c,
    }
}

/// Case-folded form of a whole character sequence.
pub open spec fn lower_seq(s: Seq<char>) -> Seq<char> {
    Seq::new(s.len(), |i: int| to_lower_spec(s[i]))
}

/// Case-fold one character.
pub fn to_lower(c: char) -> (r: char)
    ensures
        r == to_lower_spec(c),
{
    match c {
        'A' => 'a',
        'B' => 'b',
        'C' => 'c',
        'D' => 'd',
        'E' => 'e',
        'F' => 'f',
        'G' => 'g',
        'H' => 'h',
        'I' => 'i',
        'J' => 'j',
        'K' => 'k',
        'L' => 'l',
        'M' => 'm',
        'N' => 'n',
        'O' => 'o',
        'P' => 'p',
        'Q' => 'q',
        'R' => 'r',
        'S' => 's',
        'T' => 't',
        'U' => 'u',
        'V' => 'v',
        'W' => 'w',
        'X' => 'x',
        'Y' => 'y',
        'Z' => 'z',
        _ => c,
    }
}

/// Whether two strings are equal once both are case-folded.
pub fn eq_ignore_case(a: &str, b: &str) -> (r: bool)
    ensures
        r == (lower_seq(a@) == lower_seq(b@)),
{
    let na = a.unicode_len();
    let nb = b.unicode_len();
    if na != nb {
        assert(lower_seq(a@).len() != lower_seq(b@).len());
        return false;
    }
    let mut i: usize = 0;
    while i < na
        invariant
            na == a@.len(),
            na == b@.len(),
            i <= na,
            forall|k: int| 0 <= k < i ==> to_lower_spec(a@[k]) == to_lower_spec(b@[k]),
        decreases na - i,
    {
        let ca = a.get_char(i);
        let cb = b.get_char(i);
        if to_lower(ca) != to_lower(cb) {
            assert(lower_seq(a@)[i as int] != lower_seq(b@)[i as int]);
            return false;
        }
        i += 1;
    }
    assert(lower_seq(a@) =~= lower_seq(b@));
    true
}

/// Whether two strings hold the same characters.
pub fn str_eq(a: &str, b: &str) -> (r: bool)
    ensures
        r == (a@ == b@),
{
    let na = a.unicode_len();
    let nb = b.unicode_len();
    if na != nb {
        return false;
    }
    let mut i: usize = 0;
    while i < na
        invariant
            na == a@.len(),
            na == b@.len(),
            i <= na,
            forall|k: int| 0 <= k < i ==> a@[k] == b@[k],
        decreases na - i,
    {
        if a.get_char(i) != b.get_char(i) {
            return false;
        }
        i += 1;
    }
    assert(a@ =~= b@);
    true
}

/// Whitespace as the trimming rule understands it.
pub open spec fn is_ws(c: char) -> bool {
    c == ' ' || c == '\t' || c == '\n' || c == '\r'
}

/// Length of the longest all-whitespace prefix.
pub open spec fn ws_pre(s: Seq<char>) -> nat
    decreases s.len(),
{
    if s.len() == 0 || !is_ws(s[0]) {
        0
    } else {
        1 + ws_pre(s.subrange(1, s.len() as int))
    }
}

/// Length of the longest all-whitespace suffix.
pub open spec fn ws_suf(s: Seq<char>) -> nat
    decreases s.len(),
{
    if s.len() == 0 || !is_ws(s[s.len() - 1]) {
        0
    } else {
        1 + ws_suf(s.subrange(0, s.len() - 1))
    }
}

/// The sequence with leading and trailing whitespace removed.
pub open spec fn trim_spec(s: Seq<char>) -> Seq<char> {
    if ws_pre(s) == s.len() {
        Seq::empty()
    } else {
        s.subrange(ws_pre(s) as int, s.len() - ws_suf(s))
    }
}

/// `ws_pre` is exactly the first index holding a non-whitespace character.
pub proof fn lemma_ws_pre(s: Seq<char>)
    ensures
        ws_pre(s) <= s.len(),
        forall|k: int| 0 <= k < ws_pre(s) ==> is_ws(#[trigger] s[k]),
        ws_pre(s) < s.len() ==> !is_ws(s[ws_pre(s) as int]),
    decreases s.len(),
{
    if s.len() > 0 && is_ws(s[0]) {
        let t = s.subrange(1, s.len() as int);
        lemma_ws_pre(t);
        assert forall|k: int| 0 <= k < ws_pre(s) implies is_ws(#[trigger] s[k]) by {
            if k > 0 {
                assert(s[k] == t[k - 1]);
            }
        }
    }
}

/// A prefix of whitespace of length `p`, bounded by a non-whitespace character
/// or the end, pins `ws_pre` down to `p`.
pub proof fn lemma_ws_pre_exact(s: Seq<char>, p: int)
    requires
        0 <= p <= s.len(),
        forall|k: int| 0 <= k < p ==> is_ws(#[trigger] s[k]),
        p < s.len() ==> !is_ws(s[p]),
    ensures
        ws_pre(s) == p,
    decreases s.len(),
{
    if s.len() == 0 {
    } else if p == 0 {
    } else {
        let t = s.subrange(1, s.len() as int);
        lemma_ws_pre_exact(t, p - 1);
    }
}

/// `ws_suf` is exactly the count of trailing whitespace characters.
pub proof fn lemma_ws_suf(s: Seq<char>)
    ensures
        ws_suf(s) <= s.len(),
        forall|k: int| s.len() - ws_suf(s) <= k < s.len() ==> is_ws(#[trigger] s[k]),
        ws_suf(s) < s.len() ==> !is_ws(s[s.len() - ws_suf(s) - 1]),
    decreases s.len(),
{
    if s.len() > 0 && is_ws(s[s.len() - 1]) {
        let t = s.subrange(0, s.len() - 1);
        lemma_ws_suf(t);
        assert forall|k: int| s.len() - ws_suf(s) <= k < s.len() implies is_ws(
            #[trigger] s[k],
        ) by {
            if k < s.len() - 1 {
                assert(s[k] == t[k]);
            }
        }
    }
}

/// A suffix of whitespace of length `q`, bounded on the left by a
/// non-whitespace character or the start, pins `ws_suf` down to `q`.
pub proof fn lemma_ws_suf_exact(s: Seq<char>, q: int)
    requires
        0 <= q <= s.len(),
        forall|k: int| s.len() - q <= k < s.len() ==> is_ws(#[trigger] s[k]),
        q < s.len() ==> !is_ws(s[s.len() - q - 1]),
    ensures
        ws_suf(s) == q,
    decreases s.len(),
{
    if s.len() == 0 {
    } else if q == 0 {
    } else {
        let t = s.subrange(0, s.len() - 1);
        lemma_ws_suf_exact(t, q - 1);
    }
}

/// A trimmed sequence starts and ends with non-whitespace, so trimming it
/// again changes nothing.
pub proof fn lemma_trim_idempotent(s: Seq<char>)
    ensures
        trim_spec(trim_spec(s)) == trim_spec(s),
{
    let t = trim_spec(s);
    lemma_ws_pre(s);
    lemma_ws_suf(s);
    if ws_pre(s) == s.len() {
        assert(t.len() == 0);
        lemma_ws_pre_exact(t, 0);
        assert(trim_spec(t) =~= t);
    } else {
        // The character at `ws_pre(s)` is not whitespace, so the suffix count
        // leaves it alone and `t` is nonempty.
        assert(!is_ws(s[ws_pre(s) as int]));
        assert(ws_suf(s) < s.len() - ws_pre(s)) by {
            if ws_suf(s) >= s.len() - ws_pre(s) {
                assert(is_ws(s[ws_pre(s) as int]));
            }
        }
        assert(t.len() > 0);
        assert(t[0] == s[ws_pre(s) as int]);
        assert(t[t.len() - 1] == s[s.len() - ws_suf(s) - 1]);
        lemma_ws_pre_exact(t, 0);
        lemma_ws_suf_exact(t, 0);
        assert(trim_spec(t) =~= t);
    }
}

/// Whether the character at position `i` is whitespace.
fn ws_at(s: &str, i: usize) -> (r: bool)
    requires
        i < s@.len(),
    ensures
        r == is_ws(s@[i as int]),
{
    let c = s.get_char(i);
    c == ' ' || c == '\t' || c == '\n' || c == '\r'
}

/// Remove leading and trailing whitespace.
pub fn trim(s: &str) -> (r: String)
    ensures
        r@ == trim_spec(s@),
{
    let n = s.unicode_len();
    let mut i: usize = 0;
    while i < n && ws_at(s, i)
        invariant
            n == s@.len(),
            i <= n,
            forall|k: int| 0 <= k < i ==> is_ws(#[trigger] s@[k]),
        decreases n - i,
    {
        i += 1;
    }
    if i == n {
        proof {
            lemma_ws_pre_exact(s@, n as int);
        }
        return String::new();
    }
    proof {
        lemma_ws_pre_exact(s@, i as int);
    }
    let mut j: usize = n;
    while ws_at(s, j - 1)
        invariant
            n == s@.len(),
            i < j <= n,
            !is_ws(s@[i as int]),
            forall|k: int| j <= k < n ==> is_ws(#[trigger] s@[k]),
        decreases j,
    {
        // The character at `i` is not whitespace, so the scan stops before it.
        assert(j - 1 > i);
        j -= 1;
    }
    proof {
        lemma_ws_suf_exact(s@, n - j);
    }
    let piece = s.substring_char(i, j);
    String::from_str(piece)
}

/// A nonempty sequence without whitespace trims to itself.
pub proof fn lemma_trim_no_ws(s: Seq<char>)
    requires
        s.len() > 0,
        forall|i: int| 0 <= i < s.len() ==> !is_ws(#[trigger] s[i]),
    ensures
        trim_spec(s) == s,
{
    lemma_ws_pre_exact(s, 0);
    lemma_ws_suf_exact(s, 0);
    assert(trim_spec(s) =~= s);
}

/// Decimal digit character for a value below ten.
pub open spec fn dec_digit(d: nat) -> char {
    if d == 0 {
        '0'
    } else if d == 1 {
        '1'
    } else if d == 2 {
        '2'
    } else if d == 3 {
        '3'
    } else if d == 4 {
        '4'
    } else if d == 5 {
        '5'
    } else if d == 6 {
        '6'
    } else if d == 7 {
        '7'
    } else if d == 8 {
        '8'
    } else {
        '9'
    }
}

/// Decimal rendering of `n`, most significant digit first, no leading zeros
/// except for `n == 0` itself.
pub open spec fn dec_str(n: nat) -> Seq<char>
    decreases n,
{
    if n < 10 {
        seq![dec_digit(n)]
    } else {
        dec_str(n / 10).push(dec_digit(n % 10))
    }
}

/// Render `n` in decimal.
pub fn u64_to_dec(n: u64) -> (r: String)
    ensures
        r@ == dec_str(n as nat),
    decreases n,
{
    proof {
        reveal_strlit("0");
        reveal_strlit("1");
        reveal_strlit("2");
        reveal_strlit("3");
        reveal_strlit("4");
        reveal_strlit("5");
        reveal_strlit("6");
        reveal_strlit("7");
        reveal_strlit("8");
        reveal_strlit("9");
    }
    let rem = n % 10;
    let d: &str = if rem == 0 {
        "0"
    } else if rem == 1 {
        "1"
    } else if rem == 2 {
        "2"
    } else if rem == 3 {
        "3"
    } else if rem == 4 {
        "4"
    } else if rem == 5 {
        "5"
    } else if rem == 6 {
        "6"
    } else if rem == 7 {
        "7"
    } else if rem == 8 {
        "8"
    } else {
        "9"
    };
    assert(d@ =~= seq![dec_digit((n % 10) as nat)]);
    if n < 10 {
        d.to_owned()
    } else {
        let s = u64_to_dec(n / 10);
        let r = s.concat(d);
        assert(r@ =~= dec_str(n as nat));
        r
    }
}

/// A decimal rendering always has at least one character, and has exactly one
/// character only for values below ten.
pub proof fn lemma_dec_str_len(n: nat)
    ensures
        dec_str(n).len() >= 1,
        (dec_str(n).len() == 1) == (n < 10),
    decreases n,
{
    if n >= 10 {
        lemma_dec_str_len(n / 10);
    }
}

/// Distinct values render to distinct decimal strings.
pub proof fn lemma_dec_str_injective(a: nat, b: nat)
    requires
        dec_str(a) == dec_str(b),
    ensures
        a == b,
    decreases a,
{
    lemma_dec_str_len(a);
    lemma_dec_str_len(b);
    if a < 10 && b < 10 {
        assert(dec_str(a)[0] == dec_digit(a));
        assert(dec_str(b)[0] == dec_digit(b));
    } else if a >= 10 && b >= 10 {
        let sa = dec_str(a / 10);
        let sb = dec_str(b / 10);
        assert(dec_str(a).last() == dec_digit(a % 10));
        assert(dec_str(b).last() == dec_digit(b % 10));
        assert(a % 10 == b % 10);
        assert(sa =~= dec_str(a).subrange(0, dec_str(a).len() - 1));
        assert(sb =~= dec_str(b).subrange(0, dec_str(b).len() - 1));
        lemma_dec_str_injective(a / 10, b / 10);
    }
}

} // verus!
