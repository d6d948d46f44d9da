//! Character-level text helpers used by the scene file parser: string equality,
//! Unicode whitespace, trimming, and the decimal number literal syntax.
use vstd::prelude::*;
use vstd::string::*;
use vstd::utf8::*;

verus! {

broadcast use vstd::utf8::encode_utf8_decode_utf8;

/// Whether two strings hold the same characters.
pub fn str_eq(a: &str, b: &str) -> (r: bool)
    ensures
        r == (a@ == b@),
{
    let ab = a.as_bytes();
    let bb = b.as_bytes();
    let n = ab.len();
    if n != bb.len() {
        proof {
            if a@ == b@ {
                assert(a.spec_bytes() == b.spec_bytes());
            }
        }
        return false;
    }
    let mut i: usize = 0;
    while i < n
        invariant
            n == ab@.len(),
            n == bb@.len(),
            ab@ == a.spec_bytes(),
            bb@ == b.spec_bytes(),
            i <= n,
            forall|j: int| 0 <= j < i ==> ab@[j] == bb@[j],
        decreases n - i,
    {
        if ab[i] != bb[i] {
            proof {
                if a@ == b@ {
                    assert(a.spec_bytes() == b.spec_bytes());
                    assert(false);
                }
            }
            return false;
        }
        i = i + 1;
    }
    proof {
        assert(ab@ =~= bb@);
        assert(decode_utf8(a.spec_bytes()) == a@);
        assert(decode_utf8(b.spec_bytes()) == b@);
    }
    true
}

/// The Unicode `White_Space` property (the characters that `char::is_whitespace` accepts).
pub open spec fn unicode_white_space(c: char) -> bool {
    let u = c as u32;
    ||| 0x9 <= u <= 0xd
    ||| u == 0x20
    ||| u == 0x85
    ||| u == 0xa0
    ||| u == 0x1680
    ||| 0x2000 <= u <= 0x200a
    ||| u == 0x2028
    ||| u == 0x2029
    ||| u == 0x202f
    ||| u == 0x205f
    ||| u == 0x3000
}

/// Whether `c` has the Unicode `White_Space` property.
pub fn is_unicode_white_space(c: char) -> (r: bool)
    ensures
        r == unicode_white_space(c),
{
    let u = c as u32;
    (0x9 <= u && u <= 0xd) || u == 0x20 || u == 0x85 || u == 0xa0 || u == 0x1680 || (0x2000 <= u
        && u <= 0x200a) || u == 0x2028 || u == 0x2029 || u == 0x202f || u == 0x205f || u == 0x3000
}

/// The number of leading whitespace characters of `s`.
pub open spec fn leading_white_space(s: Seq<char>) -> nat
    decreases s.len(),
{
    if s.len() > 0 && unicode_white_space(s[0]) {
        1 + leading_white_space(s.drop_first())
    } else {
        0
    }
}

/// The number of trailing whitespace characters of `s`.
pub open spec fn trailing_white_space(s: Seq<char>) -> nat
    decreases s.len(),
{
    if s.len() > 0 && unicode_white_space(s.last()) {
        1 + trailing_white_space(s.drop_last())
    } else {
        0
    }
}

/// `s` without its leading whitespace.
pub open spec fn trimmed_start(s: Seq<char>) -> Seq<char> {
    s.skip(leading_white_space(s) as int)
}

/// `s` without its leading and trailing whitespace.
pub open spec fn trimmed(s: Seq<char>) -> Seq<char> {
    let t = trimmed_start(s);
    t.take(t.len() - trailing_white_space(t))
}

proof fn lemma_leading_white_space(s: Seq<char>, i: int)
    requires
        0 <= i <= s.len(),
        forall|j: int| 0 <= j < i ==> unicode_white_space(#[trigger] s[j]),
        i == s.len() || !unicode_white_space(s[i]),
    ensures
        leading_white_space(s) == i,
    decreases i,
{
    if i > 0 {
        let t = s.drop_first();
        assert forall|j: int| 0 <= j < i - 1 implies unicode_white_space(#[trigger] t[j]) by {
            assert(t[j] == s[j + 1]);
        }
        if i < s.len() {
            assert(t[i - 1] == s[i]);
        }
        lemma_leading_white_space(t, i - 1);
    }
}

proof fn lemma_trailing_white_space(s: Seq<char>, i: int)
    requires
        0 <= i <= s.len(),
        forall|j: int| i <= j < s.len() ==> unicode_white_space(#[trigger] s[j]),
        i == 0 || !unicode_white_space(s[i - 1]),
    ensures
        trailing_white_space(s) == s.len() - i,
    decreases s.len() - i,
{
    if i < s.len() {
        let t = s.drop_last();
        assert forall|j: int| i <= j < t.len() implies unicode_white_space(#[trigger] t[j]) by {
            assert(t[j] == s[j]);
        }
        if i > 0 {
            assert(t[i - 1] == s[i - 1]);
        }
        lemma_trailing_white_space(t, i);
    }
}

/// Returns `s` with leading whitespace removed.
pub fn trim_start(s: &str) -> (r: &str)
    ensures
        r@ == trimmed_start(s@),
{
    let n = s.unicode_len();
    let mut i: usize = 0;
    while i < n && is_unicode_white_space(s.get_char(i))
        invariant
            n == s@.len(),
            i <= n,
            forall|j: int| 0 <= j < i ==> unicode_white_space(#[trigger] s@[j]),
        decreases n - i,
    {
        i = i + 1;
    }
    proof {
        lemma_leading_white_space(s@, i as int);
    }
    s.substring_char(i, n)
}

/// Returns `s` with leading and trailing whitespace removed.
pub fn trim(s: &str) -> (r: &str)
    ensures
        r@ == trimmed(s@),
{
    let t = trim_start(s);
    let n = t.unicode_len();
    let mut e: usize = n;
    while e > 0 && is_unicode_white_space(t.get_char(e - 1))
        invariant
            n == t@.len(),
            e <= n,
            forall|j: int| e <= j < n ==> unicode_white_space(#[trigger] t@[j]),
        decreases e,
    {
        e = e - 1;
    }
    proof {
        lemma_trailing_white_space(t@, e as int);
    }
    t.substring_char(0, e)
}

/// Index of the first space or tab in `s`, if any.
pub open spec fn first_blank(s: Seq<char>) -> Option<int> {
    if exists|i: int| 0 <= i < s.len() && (s[i] == ' ' || s[i] == '\t') {
        Some(
            choose|i: int|
                0 <= i < s.len() && (s[i] == ' ' || s[i] == '\t') && forall|j: int|
                    0 <= j < i ==> s[j] != ' ' && s[j] != '\t',
        )
    } else {
        None
    }
}

/// Returns the index of the first space or tab in `s`.
pub fn find_blank(s: &str) -> (r: Option<usize>)
    ensures
        r matches Some(i) ==> i < s@.len() && first_blank(s@) == Some(i as int),
        r is None ==> first_blank(s@) is None,
{
    let n = s.unicode_len();
    let mut i: usize = 0;
    while i < n
        invariant
            n == s@.len(),
            i <= n,
            forall|j: int| 0 <= j < i ==> s@[j] != ' ' && s@[j] != '\t',
        decreases n - i,
    {
        let c = s.get_char(i);
        if c == ' ' || c == '\t' {
            proof {
                let k = choose|k: int|
                    0 <= k < s@.len() && (s@[k] == ' ' || s@[k] == '\t') && forall|j: int|
                        0 <= j < k ==> s@[j] != ' ' && s@[j] != '\t';
                assert(k == i as int) by {
                    if k < i as int {
                    } else if k > i as int {
                        assert(s@[i as int] == ' ' || s@[i as int] == '\t');
                    }
                }
            }
            return Some(i);
        }
        i = i + 1;
    }
    None
}

// ---------------------------------------------------------------------------
// Decimal number literals, as accepted by Rust's `f32`/`f64` `FromStr`:
//
//   Float  ::= Sign? ( 'inf' | 'infinity' | 'nan' | Number )
//   Number ::= ( Digit+ | Digit+ '.' Digit* | Digit* '.' Digit+ ) Exp?
//   Exp    ::= 'e' Sign? Digit+
//   Sign   ::= [+-]
//   Digit  ::= [0-9]
//
// where the letters are matched case-insensitively.
// ---------------------------------------------------------------------------

/// Whether `c` is an ASCII decimal digit.
pub open spec fn is_digit(c: char) -> bool {
    '0' <= c <= '9'
}

/// Whether every character of `s` is a decimal digit.
pub open spec fn all_digits(s: Seq<char>) -> bool {
    forall|i: int| 0 <= i < s.len() ==> is_digit(#[trigger] s[i])
}

/// `Digit+ | Digit+ '.' Digit* | Digit* '.' Digit+`.
pub open spec fn is_mantissa(s: Seq<char>) -> bool {
    ||| (s.len() > 0 && all_digits(s))
    ||| exists|d: int|
        0 <= d < s.len() && s[d] == '.' && all_digits(s.take(d)) && all_digits(s.skip(d + 1))
            && s.len() >= 2
}

/// `'e' Sign? Digit+` (with `'E'` too).
pub open spec fn is_exponent(s: Seq<char>) -> bool {
    &&& s.len() >= 2
    &&& (s[0] == 'e' || s[0] == 'E')
    &&& if s[1] == '+' || s[1] == '-' {
        s.len() >= 3 && all_digits(s.skip(2))
    } else {
        all_digits(s.skip(1))
    }
}

/// `Number`: a mantissa, optionally followed by an exponent.
pub open spec fn is_number(s: Seq<char>) -> bool {
    ||| is_mantissa(s)
    ||| exists|e: int| 0 < e < s.len() && is_mantissa(s.take(e)) && is_exponent(s.skip(e))
}

/// ASCII lower-casing of a character.
pub open spec fn ascii_lower(c: char) -> char {
    if 'A' <= c <= 'Z' {
        ((c as u32) + 32) as char
    } else {
        c
    }
}

/// Whether `s` spells `word` (a lower-case ASCII word) ignoring ASCII case.
pub open spec fn spells_ignoring_case(s: Seq<char>, word: Seq<char>) -> bool {
    s.len() == word.len() && forall|i: int| 0 <= i < s.len() ==> ascii_lower(#[trigger] s[i]) == word[i]
}

/// `Float` after an optional sign has been removed.
pub open spec fn is_unsigned_float(s: Seq<char>) -> bool {
    ||| spells_ignoring_case(s, seq!['i', 'n', 'f'])
    ||| spells_ignoring_case(s, seq!['i', 'n', 'f', 'i', 'n', 'i', 't', 'y'])
    ||| spells_ignoring_case(s, seq!['n', 'a', 'n'])
    ||| is_number(s)
}

/// Whether `s` is a floating-point literal in the syntax of Rust's `f32`/`f64` parsing.
pub open spec fn float_literal(s: Seq<char>) -> bool {
    if s.len() > 0 && (s[0] == '+' || s[0] == '-') {
        is_unsigned_float(s.drop_first())
    } else {
        is_unsigned_float(s)
    }
}

/// The index of the first non-digit at or after `i` (or `s.len()`).
pub open spec fn digits_end(s: Seq<char>, i: int) -> int
    decreases s.len() - i,
{
    if 0 <= i < s.len() && is_digit(s[i]) {
        digits_end(s, i + 1)
    } else {
        i
    }
}

proof fn lemma_digits_end(s: Seq<char>, i: int)
    requires
        0 <= i <= s.len(),
    ensures
        i <= digits_end(s, i) <= s.len(),
        forall|j: int| i <= j < digits_end(s, i) ==> is_digit(#[trigger] s[j]),
        digits_end(s, i) < s.len() ==> !is_digit(s[digits_end(s, i)]),
    decreases s.len() - i,
{
    if i < s.len() && is_digit(s[i]) {
        lemma_digits_end(s, i + 1);
    }
}

/// A run of digits from `i` up to a non-digit at `k` ends at `k`.
proof fn lemma_digits_end_at(s: Seq<char>, i: int, k: int)
    requires
        0 <= i <= k <= s.len(),
        forall|j: int| i <= j < k ==> is_digit(#[trigger] s[j]),
        k == s.len() || !is_digit(s[k]),
    ensures
        digits_end(s, i) == k,
    decreases k - i,
{
    if i < k {
        lemma_digits_end_at(s, i + 1, k);
    }
}

/// The mantissa scanner: where a leading mantissa of `s` ends, and whether it is well formed.
pub open spec fn mantissa_scan(s: Seq<char>) -> (int, bool) {
    let a = digits_end(s, 0);
    if a < s.len() && s[a] == '.' {
        let b = digits_end(s, a + 1);
        (b, a > 0 || b > a + 1)
    } else {
        (a, a > 0)
    }
}

/// The number scanner: a well-formed mantissa that is followed by nothing or by an exponent.
pub open spec fn number_scan(s: Seq<char>) -> bool {
    let (m, ok) = mantissa_scan(s);
    ok && (m == s.len() || is_exponent(s.skip(m)))
}

proof fn lemma_mantissa_scan_bounds(s: Seq<char>)
    ensures
        0 <= mantissa_scan(s).0 <= s.len(),
        forall|j: int| 0 <= j < mantissa_scan(s).0 ==> is_digit(#[trigger] s[j]) || s[j] == '.',
        mantissa_scan(s).0 < s.len() ==> !is_digit(s[mantissa_scan(s).0]) && (s[mantissa_scan(s).0] == '.' ==> exists|j: int| 0 <= j < mantissa_scan(s).0 && s[j] == '.'),
{
    lemma_digits_end(s, 0);
    let a = digits_end(s, 0);
    if a < s.len() && s[a] == '.' {
        lemma_digits_end(s, a + 1);
    }
}

/// The scanner accepts exactly the whole-string mantissas.
proof fn lemma_mantissa_scan_complete(s: Seq<char>)
    ensures
        is_mantissa(s) <==> (mantissa_scan(s).1 && mantissa_scan(s).0 == s.len()),
{
    lemma_digits_end(s, 0);
    let a = digits_end(s, 0);
    if a < s.len() && s[a] == '.' {
        lemma_digits_end(s, a + 1);
        let b = digits_end(s, a + 1);
        if mantissa_scan(s).1 && b == s.len() {
            assert(all_digits(s.take(a)));
            assert(all_digits(s.skip(a + 1)));
        }
    } else if a == s.len() && a > 0 {
        assert(all_digits(s));
    }
    if is_mantissa(s) {
        if s.len() > 0 && all_digits(s) {
            lemma_digits_end_at(s, 0, s.len() as int);
        } else {
            let d = choose|d: int|
                0 <= d < s.len() && s[d] == '.' && all_digits(s.take(d)) && all_digits(s.skip(d + 1))
                    && s.len() >= 2;
            assert forall|j: int| 0 <= j < d implies is_digit(#[trigger] s[j]) by {
                assert(s.take(d)[j] == s[j]);
            }
            lemma_digits_end_at(s, 0, d);
            assert forall|j: int| d + 1 <= j < s.len() implies is_digit(#[trigger] s[j]) by {
                assert(s.skip(d + 1)[j - d - 1] == s[j]);
            }
            lemma_digits_end_at(s, d + 1, s.len() as int);
        }
    }
}

/// Scanning a prefix `s.take(e)` gives the same result as scanning `s` when the character at
/// `e` is neither a digit nor a dot.
proof fn lemma_mantissa_scan_prefix(s: Seq<char>, e: int)
    requires
        0 <= e < s.len(),
        !is_digit(s[e]),
        s[e] != '.',
        is_mantissa(s.take(e)),
    ensures
        mantissa_scan(s) == (e, true),
{
    let t = s.take(e);
    lemma_mantissa_scan_complete(t);
    lemma_digits_end(t, 0);
    let a = digits_end(t, 0);
    assert forall|j: int| 0 <= j < a implies is_digit(#[trigger] s[j]) by {
        assert(t[j] == s[j]);
    }
    if a < t.len() {
        assert(t[a] == s[a]);
        lemma_digits_end_at(s, 0, a);
        if t[a] == '.' {
            lemma_digits_end(t, a + 1);
            let b = digits_end(t, a + 1);
            assert forall|j: int| a + 1 <= j < b implies is_digit(#[trigger] s[j]) by {
                assert(t[j] == s[j]);
            }
            lemma_digits_end_at(s, a + 1, b);
        }
    } else {
        lemma_digits_end_at(s, 0, e);
    }
}

/// The number scanner decides `is_number`.
pub proof fn lemma_number_scan(s: Seq<char>)
    ensures
        number_scan(s) == is_number(s),
{
    lemma_mantissa_scan_complete(s);
    lemma_mantissa_scan_bounds(s);
    let (m, ok) = mantissa_scan(s);
    if number_scan(s) && m < s.len() {
        // the prefix up to m is a mantissa
        let t = s.take(m);
        lemma_mantissa_scan_bounds(s);
        assert(is_exponent(s.skip(m)));
        assert(s[m] == 'e' || s[m] == 'E') by {
            assert(s.skip(m)[0] == s[m]);
        }
        lemma_digits_end(s, 0);
        let a = digits_end(s, 0);
        lemma_digits_end(t, 0);
        assert forall|j: int| 0 <= j < a && j < m implies is_digit(#[trigger] t[j]) by {
            assert(t[j] == s[j]);
        }
        if a < s.len() && s[a] == '.' {
            lemma_digits_end(s, a + 1);
            lemma_digits_end_at(t, 0, a);
            assert(t[a] == s[a]);
            assert forall|j: int| a + 1 <= j < m implies is_digit(#[trigger] t[j]) by {
                assert(t[j] == s[j]);
            }
            lemma_digits_end_at(t, a + 1, m);
        } else {
            lemma_digits_end_at(t, 0, m);
        }
        lemma_mantissa_scan_complete(t);
        assert(0 < m);
        assert(is_mantissa(s.take(m)) && is_exponent(s.skip(m)));
    }
    if is_number(s) && !is_mantissa(s) {
        let e = choose|e: int| 0 < e < s.len() && is_mantissa(s.take(e)) && is_exponent(s.skip(e));
        assert(s[e] == 'e' || s[e] == 'E') by {
            assert(s.skip(e)[0] == s[e]);
        }
        lemma_mantissa_scan_prefix(s, e);
    }
}

/// Whether `s` is a floating-point literal in the syntax of Rust's `f32`/`f64` parsing.
pub fn is_float_literal(s: &str) -> (r: bool)
    ensures
        r == float_literal(s@),
{
    let n = s.unicode_len();
    let mut start: usize = 0;
    if n > 0 {
        let c = s.get_char(0);
        if c == '+' || c == '-' {
            start = 1;
        }
    }
    let t = s.substring_char(start, n);
    proof {
        if start == 1 {
            assert(t@ =~= s@.drop_first());
        } else {
            assert(t@ =~= s@);
        }
    }
    let special = spells_word(t, "inf") || spells_word(t, "infinity") || spells_word(t, "nan");
    proof {
        reveal_strlit("inf");
        reveal_strlit("infinity");
        reveal_strlit("nan");
        assert("inf"@ =~= seq!['i', 'n', 'f']);
        assert("infinity"@ =~= seq!['i', 'n', 'f', 'i', 'n', 'i', 't', 'y']);
        assert("nan"@ =~= seq!['n', 'a', 'n']);
    }
    if special {
        return true;
    }
    let r = scan_number(t);
    proof {
        lemma_number_scan(t@);
    }
    r
}

/// Whether `s` spells the lower-case ASCII `word` ignoring ASCII case.
fn spells_word(s: &str, word: &str) -> (r: bool)
    ensures
        r == spells_ignoring_case(s@, word@),
{
    let n = s.unicode_len();
    if n != word.unicode_len() {
        return false;
    }
    let mut i: usize = 0;
    while i < n
        invariant
            n == s@.len(),
            n == word@.len(),
            i <= n,
            forall|j: int| 0 <= j < i ==> ascii_lower(#[trigger] s@[j]) == word@[j],
        decreases n - i,
    {
        let c = s.get_char(i) as u32;
        let lower = if 0x41 <= c && c <= 0x5a {
            c + 32
        } else {
            c
        };
        if lower != word.get_char(i) as u32 {
            return false;
        }
        i = i + 1;
    }
    true
}

/// Runs the number scanner over `s`.
fn scan_number(s: &str) -> (r: bool)
    ensures
        r == number_scan(s@),
{
    let n = s.unicode_len();
    let a = scan_digits(s, 0);
    proof {
        lemma_digits_end(s@, 0);
    }
    let mut m = a;
    let mut ok = a > 0;
    if a < n && s.get_char(a) == '.' {
        let b = scan_digits(s, a + 1);
        proof {
            lemma_digits_end(s@, a + 1);
        }
        m = b;
        ok = a > 0 || b > a + 1;
    }
    if !ok {
        return false;
    }
    if m == n {
        return true;
    }
    // exponent
    let c = s.get_char(m);
    if !(c == 'e' || c == 'E') || m + 1 >= n {
        proof {
            assert(s@.skip(m as int)[0] == s@[m as int]);
        }
        return false;
    }
    let c1 = s.get_char(m + 1);
    let digits_from = if c1 == '+' || c1 == '-' { m + 2 } else { m + 1 };
    if digits_from >= n {
        proof {
            assert(s@.skip(m as int)[1] == s@[m + 1]);
        }
        return false;
    }
    let e = scan_digits(s, digits_from);
    proof {
        let x = s@.skip(m as int);
        assert(x[0] == s@[m as int]);
        assert(x[1] == s@[m + 1]);
        lemma_digits_end(s@, digits_from as int);
        let k = (digits_from - m) as int;
        if e == n {
            assert forall|j: int| 0 <= j < x.skip(k).len() implies is_digit(#[trigger] x.skip(k)[j]) by {
                assert(x.skip(k)[j] == s@[digits_from + j]);
            }
        } else {
            assert(x.skip(k)[e - digits_from] == s@[e as int]);
        }
    }
    e == n
}

/// Index of the first non-digit of `s` at or after `i`.
fn scan_digits(s: &str, i: usize) -> (r: usize)
    requires
        i <= s@.len(),
    ensures
        r == digits_end(s@, i as int),
{
    let n = s.unicode_len();
    let mut k = i;
    proof {
        lemma_digits_end(s@, i as int);
    }
    while k < n && ('0' <= s.get_char(k) && s.get_char(k) <= '9')
        invariant
            n == s@.len(),
            i <= k <= n,
            digits_end(s@, k as int) == digits_end(s@, i as int),
        decreases n - k,
    {
        k = k + 1;
    }
    k
}

} // verus!
