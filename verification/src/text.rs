//! Character-level text utilities shared by the parsers and formatters.
//!
//! Strings are handled as sequences of `char`s: a `&str` is copied into a
//! `Vec<char>`, processed by index, and the result is assembled again with
//! [`chars_to_string`].

use vstd::prelude::*;

verus! {

/// The text of an optional string.
pub open spec fn opt_view(o: Option<String>) -> Option<Seq<char>> {
    match o {
        Some(s) => Some(s@),
        None => None,
    }
}

/// An ASCII decimal digit.
pub open spec fn is_digit(c: char) -> bool {
    '0' <= c && c <= '9'
}

/// A character with the Unicode `White_Space` property, as `char::is_whitespace` defines it.
pub open spec fn is_ws(c: char) -> bool {
    ||| ('\u{9}' <= c && c <= '\u{d}')
    ||| c == ' '
    ||| c == '\u{85}'
    ||| c == '\u{a0}'
    ||| c == '\u{1680}'
    ||| ('\u{2000}' <= c && c <= '\u{200a}')
    ||| c == '\u{2028}'
    ||| c == '\u{2029}'
    ||| c == '\u{202f}'
    ||| c == '\u{205f}'
    ||| c == '\u{3000}'
}

/// ASCII upper-case letters mapped to lower case, every other character unchanged.
pub open spec fn lower_ascii(c: char) -> char {
    if 'A' <= c && c <= 'Z' {
        ((c as u32) + 32) as char
    } else {
        c
    }
}

/// The sequence without its leading white space.
pub open spec fn trim_start(s: Seq<char>) -> Seq<char>
    decreases s.len(),
{
    if s.len() > 0 && is_ws(s[0]) {
        trim_start(s.drop_first())
    } else {
        s
    }
}

/// The sequence without its trailing white space.
pub open spec fn trim_end(s: Seq<char>) -> Seq<char>
    decreases s.len(),
{
    if s.len() > 0 && is_ws(s.last()) {
        trim_end(s.drop_last())
    } else {
        s
    }
}

/// The sequence without leading and trailing white space (`str::trim`).
pub open spec fn trim(s: Seq<char>) -> Seq<char> {
    trim_end(trim_start(s))
}

proof fn lemma_trim_start_head(s: Seq<char>)
    ensures
        trim_start(s).len() == 0 || !is_ws(trim_start(s)[0]),
    decreases s.len(),
{
    if s.len() > 0 && is_ws(s[0]) {
        lemma_trim_start_head(s.drop_first());
    }
}

proof fn lemma_trim_end_prefix(t: Seq<char>)
    ensures
        trim_end(t).len() <= t.len(),
        trim_end(t) == t.subrange(0, trim_end(t).len() as int),
        trim_end(t).len() == 0 || !is_ws(trim_end(t).last()),
    decreases t.len(),
{
    if t.len() > 0 && is_ws(t.last()) {
        lemma_trim_end_prefix(t.drop_last());
        assert(t.drop_last().subrange(0, trim_end(t).len() as int) =~= t.subrange(0, trim_end(t).len() as int));
    } else {
        assert(t.subrange(0, t.len() as int) =~= t);
    }
}

/// Trimming twice is trimming once.
pub proof fn lemma_trim_idempotent(s: Seq<char>)
    ensures
        trim(trim(s)) == trim(s),
{
    let t = trim_start(s);
    let u = trim_end(t);
    lemma_trim_start_head(s);
    lemma_trim_end_prefix(t);
    if u.len() > 0 {
        assert(u[0] == t[0]);
        assert(trim_start(u) == u);
    } else {
        assert(trim_start(u) == u);
    }
}

/// Every character is an ASCII digit.
pub open spec fn all_digits(s: Seq<char>) -> bool {
    forall|i: int| 0 <= i < s.len() ==> is_digit(#[trigger] s[i])
}

/// The value of a digit character.
pub open spec fn digit_value(c: char) -> int {
    (c as int) - ('0' as int)
}

/// The decimal value of a sequence of digits.
pub open spec fn digits_value(s: Seq<char>) -> int
    decreases s.len(),
{
    if s.len() == 0 {
        0
    } else {
        10 * digits_value(s.drop_last()) + digit_value(s.last())
    }
}

/// The integer that a decimal literal with an optional sign denotes, as `str::parse`
/// reads it before its range check: an optional `+` or `-`, then at least one digit.
pub open spec fn parse_int(s: Seq<char>) -> Option<int> {
    if s.len() > 0 && (s[0] == '+' || s[0] == '-') {
        let rest = s.drop_first();
        if rest.len() > 0 && all_digits(rest) {
            if s[0] == '-' {
                Some(-digits_value(rest))
            } else {
                Some(digits_value(rest))
            }
        } else {
            None
        }
    } else if s.len() > 0 && all_digits(s) {
        Some(digits_value(s))
    } else {
        None
    }
}

/// What `str::parse::<i64>` returns, as an option.
pub open spec fn parse_i64_spec(s: Seq<char>) -> Option<i64> {
    match parse_int(s) {
        Some(v) => if i64::MIN <= v <= i64::MAX {
            Some(v as i64)
        } else {
            None
        },
        None => None,
    }
}

/// What `str::parse::<i32>` returns, as an option.
pub open spec fn parse_i32_spec(s: Seq<char>) -> Option<i32> {
    match parse_int(s) {
        Some(v) => if i32::MIN <= v <= i32::MAX {
            Some(v as i32)
        } else {
            None
        },
        None => None,
    }
}

/// The digit character for a value below ten.
pub open spec fn digit_char(d: nat) -> char {
    ((d + ('0' as nat)) as u32) as char
}

/// The decimal representation of a natural number, without leading zeros.
pub open spec fn decimal(n: nat) -> Seq<char>
    decreases n,
{
    if n < 10 {
        seq![digit_char(n)]
    } else {
        decimal(n / 10).push(digit_char(n % 10))
    }
}

/// The decimal representation of an integer, with a `-` in front of negative values.
pub open spec fn int_text(n: int) -> Seq<char> {
    if n < 0 {
        seq!['-'] + decimal((-n) as nat)
    } else {
        decimal(n as nat)
    }
}

/// Copies the characters of a string slice into a vector.
pub fn str_to_chars(s: &str) -> (v: Vec<char>)
    ensures
        v@ == s@,
{
    let mut v: Vec<char> = Vec::new();
    for c in it: s.chars()
        invariant
            v@ == it.seq().take(it.index()),
            it.seq() == s@,
    {
        v.push(c);
    }
    v
}

/// `String::push`: appends one character.
#[verifier::external_body]
pub(crate) fn string_push(s: &mut String, c: char)
    ensures
        final(s)@ == old(s)@.push(c),
{
    s.push(c);
}

/// Builds a string from the characters `v[lo..hi]`.
pub fn chars_to_string(v: &Vec<char>, lo: usize, hi: usize) -> (s: String)
    requires
        lo <= hi <= v.len(),
    ensures
        s@ == v@.subrange(lo as int, hi as int),
{
    let mut s = String::new();
    let mut i = lo;
    while i < hi
        invariant
            lo <= i <= hi <= v.len(),
            s@ == v@.subrange(lo as int, i as int),
        decreases hi - i,
    {
        string_push(&mut s, v[i]);
        i = i + 1;
    }
    s
}

/// Builds a string from all characters of `v`.
pub fn seq_to_string(v: &Vec<char>) -> (s: String)
    ensures
        s@ == v@,
{
    let s = chars_to_string(v, 0, v.len());
    assert(v@.subrange(0, v@.len() as int) =~= v@);
    s
}

/// Appends the characters of `t` to `v`.
pub fn push_str(v: &mut Vec<char>, t: &str)
    ensures
        final(v)@ == old(v)@ + t@,
{
    let cs = str_to_chars(t);
    let mut i: usize = 0;
    while i < cs.len()
        invariant
            0 <= i <= cs.len(),
            cs@ == t@,
            v@ == old(v)@ + cs@.take(i as int),
        decreases cs.len() - i,
    {
        v.push(cs[i]);
        i = i + 1;
        assert(cs@.take(i as int) =~= cs@.take(i - 1).push(cs@[i - 1]));
    }
    assert(cs@.take(cs@.len() as int) =~= cs@);
}

/// Appends `t[lo..hi]` to `v`.
pub fn push_range(v: &mut Vec<char>, t: &Vec<char>, lo: usize, hi: usize)
    requires
        lo <= hi <= t.len(),
    ensures
        final(v)@ == old(v)@ + t@.subrange(lo as int, hi as int),
{
    let mut i = lo;
    while i < hi
        invariant
            lo <= i <= hi <= t.len(),
            v@ == old(v)@ + t@.subrange(lo as int, i as int),
        decreases hi - i,
    {
        v.push(t[i]);
        i = i + 1;
        assert(t@.subrange(lo as int, i as int) =~= t@.subrange(lo as int, i - 1).push(t@[i - 1]));
    }
}

/// Whether a character is white space (`char::is_whitespace`).
pub fn is_whitespace(c: char) -> (b: bool)
    ensures
        b == is_ws(c),
{
    ('\u{9}' <= c && c <= '\u{d}') || c == ' ' || c == '\u{85}' || c == '\u{a0}' || c
        == '\u{1680}' || ('\u{2000}' <= c && c <= '\u{200a}') || c == '\u{2028}' || c
        == '\u{2029}' || c == '\u{202f}' || c == '\u{205f}' || c == '\u{3000}'
}

/// Whether a character is an ASCII digit (`char::is_ascii_digit`).
pub fn is_ascii_digit(c: char) -> (b: bool)
    ensures
        b == is_digit(c),
{
    '0' <= c && c <= '9'
}

/// `char::to_ascii_lowercase`.
pub fn to_ascii_lowercase(c: char) -> (r: char)
    ensures
        r == lower_ascii(c),
{
    if 'A' <= c && c <= 'Z' {
        let code: u8 = c as u8;
        let lowered: u8 = code + 32;
        lowered as char
    } else {
        c
    }
}

/// The bounds of `v[lo..hi]` with leading and trailing white space removed.
pub fn trim_bounds(v: &Vec<char>, lo: usize, hi: usize) -> (r: (usize, usize))
    requires
        lo <= hi <= v.len(),
    ensures
        lo <= r.0 <= r.1 <= hi,
        v@.subrange(r.0 as int, r.1 as int) == trim(v@.subrange(lo as int, hi as int)),
{
    let mut a = lo;
    while a < hi && is_whitespace(v[a])
        invariant
            lo <= a <= hi <= v.len(),
            trim_start(v@.subrange(lo as int, hi as int)) == trim_start(
                v@.subrange(a as int, hi as int),
            ),
        decreases hi - a,
    {
        assert(v@.subrange(a as int, hi as int).drop_first() =~= v@.subrange(a + 1, hi as int));
        a = a + 1;
    }
    let mut b = hi;
    while b > a && is_whitespace(v[b - 1])
        invariant
            lo <= a <= b <= hi <= v.len(),
            trim_end(v@.subrange(a as int, hi as int)) == trim_end(v@.subrange(a as int, b as int)),
        decreases b - a,
    {
        assert(v@.subrange(a as int, b as int).drop_last() =~= v@.subrange(a as int, b - 1));
        b = b - 1;
    }
    (a, b)
}

/// The value of a digit sequence does not decrease when a digit is appended.
pub proof fn lemma_digits_value_push(s: Seq<char>, c: char)
    requires
        all_digits(s),
        is_digit(c),
    ensures
        digits_value(s.push(c)) == 10 * digits_value(s) + digit_value(c),
        digits_value(s) >= 0,
        digits_value(s.push(c)) >= digits_value(s),
    decreases s.len(),
{
    assert(s.push(c).drop_last() =~= s);
    if s.len() > 0 {
        lemma_digits_value_push(s.drop_last(), s.last());
        assert(s.drop_last().push(s.last()) =~= s);
    }
}

/// Appends the decimal representation of `n` to `v`.
pub fn push_decimal(v: &mut Vec<char>, n: u64)
    ensures
        final(v)@ == old(v)@ + decimal(n as nat),
    decreases n,
{
    if n >= 10 {
        push_decimal(v, n / 10);
    }
    let d: u8 = (n % 10) as u8;
    let c: char = (d + 48u8) as char;
    assert(c == digit_char((n % 10) as nat));
    v.push(c);
    if n >= 10 {
        assert(decimal(n as nat) == decimal((n / 10) as nat).push(digit_char((n % 10) as nat)));
        assert(old(v)@ + decimal(n as nat) =~= old(v)@ + decimal((n / 10) as nat) + seq![c]);
    } else {
        assert(old(v)@ + decimal(n as nat) =~= old(v)@.push(c));
    }
}

/// Appends the decimal representation of a signed integer to `v`.
pub fn push_int(v: &mut Vec<char>, n: i64)
    ensures
        final(v)@ == old(v)@ + int_text(n as int),
{
    if n < 0 {
        v.push('-');
        let m: u64 = if n == i64::MIN {
            9223372036854775808u64
        } else {
            (-n) as u64
        };
        push_decimal(v, m);
        assert(old(v)@ + int_text(n as int) =~= old(v)@.push('-') + decimal(m as nat));
    } else {
        push_decimal(v, n as u64);
    }
}

/// The decimal representation of an unsigned number as a string.
pub fn usize_to_string(n: usize) -> (s: String)
    ensures
        s@ == decimal(n as nat),
{
    let mut v: Vec<char> = Vec::new();
    push_decimal(&mut v, n as u64);
    assert(v@ =~= decimal(n as nat));
    seq_to_string(&v)
}

/// The decimal representation of a signed number as a string.
pub fn i64_to_string(n: i64) -> (s: String)
    ensures
        s@ == int_text(n as int),
{
    let mut v: Vec<char> = Vec::new();
    push_int(&mut v, n);
    assert(v@ =~= int_text(n as int));
    seq_to_string(&v)
}

/// Reads the digits `v[lo..hi]`; `None` where one is not a digit, or where the value
/// exceeds 2^63.
fn read_digits_bounded(v: &Vec<char>, lo: usize, hi: usize) -> (r: Option<u64>)
    requires
        lo <= hi <= v.len(),
    ensures
        r is Some <==> all_digits(v@.subrange(lo as int, hi as int)) && digits_value(
            v@.subrange(lo as int, hi as int),
        ) <= 9223372036854775808,
        r matches Some(x) ==> x as int == digits_value(v@.subrange(lo as int, hi as int)),
{
    let mut acc: u64 = 0;
    let mut big = false;
    let mut i = lo;
    while i < hi
        invariant
            lo <= i <= hi <= v.len(),
            all_digits(v@.subrange(lo as int, i as int)),
            !big ==> acc as int == digits_value(v@.subrange(lo as int, i as int)) && acc <= 9223372036854775808u64,
            big ==> digits_value(v@.subrange(lo as int, i as int)) > 9223372036854775808,
        decreases hi - i,
    {
        let c = v[i];
        if !is_ascii_digit(c) {
            assert(v@.subrange(lo as int, hi as int)[i - lo] == c);
            return None;
        }
        let ghost pre = v@.subrange(lo as int, i as int);
        proof {
            lemma_digits_value_push(pre, c);
            assert(v@.subrange(lo as int, i + 1) =~= pre.push(c));
        }
        if !big {
            let d: u64 = ((c as u32) - 48u32) as u64;
            assert(d as int == digit_value(c));
            let next: u128 = (acc as u128) * 10 + (d as u128);
            assert(next as int == 10 * digits_value(pre) + digit_value(c));
            if next > 9223372036854775808u128 {
                big = true;
            } else {
                acc = next as u64;
            }
        }
        i = i + 1;
        assert(v@.subrange(lo as int, i as int) == pre.push(c));
        assert(digits_value(v@.subrange(lo as int, i as int)) >= digits_value(pre));
    }
    if big {
        None
    } else {
        Some(acc)
    }
}

/// `str::parse::<i64>` on `v[lo..hi]`.
pub fn parse_i64(v: &Vec<char>, lo: usize, hi: usize) -> (r: Option<i64>)
    requires
        lo <= hi <= v.len(),
    ensures
        r == parse_i64_spec(v@.subrange(lo as int, hi as int)),
{
    let ghost s = v@.subrange(lo as int, hi as int);
    if lo < hi && (v[lo] == '+' || v[lo] == '-') {
        assert(s.drop_first() =~= v@.subrange(lo + 1, hi as int));
        if lo + 1 == hi {
            return None;
        }
        match read_digits_bounded(v, lo + 1, hi) {
            Some(x) => {
                if v[lo] == '-' {
                    if x == 9223372036854775808u64 {
                        Some(i64::MIN)
                    } else {
                        Some(-(x as i64))
                    }
                } else if x <= 9223372036854775807u64 {
                    Some(x as i64)
                } else {
                    None
                }
            },
            None => None,
        }
    } else {
        if lo == hi {
            return None;
        }
        match read_digits_bounded(v, lo, hi) {
            Some(x) => {
                if x <= 9223372036854775807u64 {
                    Some(x as i64)
                } else {
                    None
                }
            },
            None => None,
        }
    }
}

/// `str::parse::<i32>` on `v[lo..hi]`.
pub fn parse_i32(v: &Vec<char>, lo: usize, hi: usize) -> (r: Option<i32>)
    requires
        lo <= hi <= v.len(),
    ensures
        r == parse_i32_spec(v@.subrange(lo as int, hi as int)),
{
    match parse_i64(v, lo, hi) {
        Some(x) => {
            if -2147483648i64 <= x && x <= 2147483647i64 {
                Some(x as i32)
            } else {
                None
            }
        },
        None => {
            None
        },
    }
}

/// Whether `v[lo..hi]` equals the characters of `t`.
pub fn range_eq_str(v: &Vec<char>, lo: usize, hi: usize, t: &str) -> (b: bool)
    requires
        lo <= hi <= v.len(),
    ensures
        b == (v@.subrange(lo as int, hi as int) == t@),
{
    let tc = str_to_chars(t);
    assert(tc@.subrange(0, tc@.len() as int) =~= tc@);
    range_eq(v, lo, hi, &tc, 0, tc.len())
}

/// Whether `a[alo..ahi]` equals `b[blo..bhi]`.
pub fn range_eq(a: &Vec<char>, alo: usize, ahi: usize, b: &Vec<char>, blo: usize, bhi: usize) -> (r: bool)
    requires
        alo <= ahi <= a.len(),
        blo <= bhi <= b.len(),
    ensures
        r == (a@.subrange(alo as int, ahi as int) == b@.subrange(blo as int, bhi as int)),
{
    if ahi - alo != bhi - blo {
        assert(a@.subrange(alo as int, ahi as int).len() != b@.subrange(blo as int, bhi as int).len());
        return false;
    }
    let n = ahi - alo;
    let mut i: usize = 0;
    while i < n
        invariant
            alo + n == ahi <= a.len(),
            blo + n == bhi <= b.len(),
            0 <= i <= n,
            forall|j: int| 0 <= j < i ==> #[trigger] a@[alo + j] == b@[blo + j],
        decreases n - i,
    {
        if a[alo + i] != b[blo + i] {
            assert(a@.subrange(alo as int, ahi as int)[i as int] != b@.subrange(blo as int, bhi as int)[i as int]);
            return false;
        }
        i = i + 1;
    }
    assert forall|j: int| 0 <= j < n implies #[trigger] a@.subrange(alo as int, ahi as int)[j]
        == b@.subrange(blo as int, bhi as int)[j] by {
        assert(a@[alo + j] == b@[blo + j]);
    }
    assert(a@.subrange(alo as int, ahi as int) =~= b@.subrange(blo as int, bhi as int));
    true
}

/// Whether two strings are equal.
pub fn str_eq(a: &str, b: &str) -> (r: bool)
    ensures
        r == (a@ == b@),
{
    let av = str_to_chars(a);
    let bv = str_to_chars(b);
    let r = range_eq(&av, 0, av.len(), &bv, 0, bv.len());
    assert(av@.subrange(0, av@.len() as int) =~= av@);
    assert(bv@.subrange(0, bv@.len() as int) =~= bv@);
    r
}

/// `str::parse::<i64>` on a whole character vector.
pub fn parse_i64_all(v: &Vec<char>) -> (r: Option<i64>)
    ensures
        r == parse_i64_spec(v@),
{
    assert(v@.subrange(0, v@.len() as int) =~= v@);
    parse_i64(v, 0, v.len())
}

/// `str::parse::<i32>` on a whole character vector.
pub fn parse_i32_all(v: &Vec<char>) -> (r: Option<i32>)
    ensures
        r == parse_i32_spec(v@),
{
    assert(v@.subrange(0, v@.len() as int) =~= v@);
    parse_i32(v, 0, v.len())
}

/// `str::trim` as a string.
pub fn trim_string(s: &str) -> (r: String)
    ensures
        r@ == trim(s@),
{
    let v = str_to_chars(s);
    let (a, b) = trim_bounds(&v, 0, v.len());
    assert(v@.subrange(0, v@.len() as int) =~= v@);
    chars_to_string(&v, a, b)
}

/// The characters of `s` with leading and trailing white space removed.
pub fn trimmed_chars(s: &str) -> (r: Vec<char>)
    ensures
        r@ == trim(s@),
{
    let v = str_to_chars(s);
    let (a, b) = trim_bounds(&v, 0, v.len());
    assert(v@.subrange(0, v@.len() as int) =~= v@);
    let mut out: Vec<char> = Vec::new();
    push_range(&mut out, &v, a, b);
    assert(out@ =~= v@.subrange(a as int, b as int));
    out
}

/// Whether the whole vector equals the characters of `t`.
pub fn vec_eq_str(v: &Vec<char>, t: &str) -> (b: bool)
    ensures
        b == (v@ == t@),
{
    assert(v@.subrange(0, v@.len() as int) =~= v@);
    range_eq_str(v, 0, v.len(), t)
}

/// Separator classes for splitting text into tokens: white space (`0`), white space and
/// parentheses (`1`), space, tab, line breaks and commas (`2`), or white space, braces,
/// colons, commas and semicolons (any other class).
pub open spec fn is_sep(kind: u8, c: char) -> bool {
    if kind == 0 {
        is_ws(c)
    } else if kind == 1 {
        c == '(' || c == ')' || is_ws(c)
    } else if kind == 2 {
        c == ' ' || c == '\t' || c == '\n' || c == '\r' || c == ','
    } else {
        c == '{' || c == '}' || c == ':' || c == ',' || c == ';' || is_ws(c)
    }
}

/// End of the token that starts at `i`.
pub open spec fn token_end(s: Seq<char>, i: int, kind: u8) -> int
    decreases s.len() - i,
{
    if 0 <= i < s.len() && !is_sep(kind, s[i]) {
        token_end(s, i + 1, kind)
    } else {
        i
    }
}

pub proof fn lemma_token_end(s: Seq<char>, i: int, kind: u8)
    requires
        0 <= i <= s.len(),
    ensures
        i <= token_end(s, i, kind) <= s.len(),
        i < s.len() && !is_sep(kind, s[i]) ==> i < token_end(s, i, kind),
    decreases s.len() - i,
{
    if 0 <= i < s.len() && !is_sep(kind, s[i]) {
        lemma_token_end(s, i + 1, kind);
    }
}

/// The non-empty runs of non-separators from position `i` on, after the tokens `acc`
/// (`str::split` by the separator class with empty pieces dropped).
pub open spec fn tokens_from(s: Seq<char>, i: int, kind: u8, acc: Seq<Seq<char>>) -> Seq<Seq<char>>
    decreases s.len() - i,
{
    if i < 0 || i >= s.len() {
        acc
    } else if is_sep(kind, s[i]) {
        tokens_from(s, i + 1, kind, acc)
    } else {
        let e = token_end(s, i, kind);
        proof {
            lemma_token_end(s, i, kind);
        }
        tokens_from(s, e, kind, acc.push(s.subrange(i, e)))
    }
}

/// The tokens of a whole text.
pub open spec fn tokens(s: Seq<char>, kind: u8) -> Seq<Seq<char>> {
    tokens_from(s, 0, kind, Seq::empty())
}

/// Whether `c` is in separator class `kind`.
pub fn is_separator(kind: u8, c: char) -> (b: bool)
    ensures
        b == is_sep(kind, c),
{
    if kind == 0 {
        is_whitespace(c)
    } else if kind == 1 {
        c == '(' || c == ')' || is_whitespace(c)
    } else if kind == 2 {
        c == ' ' || c == '\t' || c == '\n' || c == '\r' || c == ','
    } else {
        c == '{' || c == '}' || c == ':' || c == ',' || c == ';' || is_whitespace(c)
    }
}

/// Splits `v[lo..hi]` into its tokens.
pub fn split_tokens(v: &Vec<char>, lo: usize, hi: usize, kind: u8) -> (r: Vec<Vec<char>>)
    requires
        lo <= hi <= v.len(),
    ensures
        r.deep_view() == tokens(v@.subrange(lo as int, hi as int), kind),
{
    let ghost s = v@.subrange(lo as int, hi as int);
    let mut out: Vec<Vec<char>> = Vec::new();
    let mut i = lo;
    assert(out.deep_view() =~= Seq::<Seq<char>>::empty());
    while i < hi
        invariant
            lo <= i <= hi <= v.len(),
            s == v@.subrange(lo as int, hi as int),
            tokens_from(s, i - lo, kind, out.deep_view()) == tokens(s, kind),
        decreases hi - i,
    {
        assert(s[i - lo] == v@[i as int]);
        if is_separator(kind, v[i]) {
            i = i + 1;
        } else {
            let mut e = i;
            while e < hi && !is_separator(kind, v[e])
                invariant
                    lo <= i <= e <= hi <= v.len(),
                    s == v@.subrange(lo as int, hi as int),
                    token_end(s, i - lo, kind) == token_end(s, e - lo, kind),
                decreases hi - e,
            {
                assert(s[e - lo] == v@[e as int]);
                e = e + 1;
            }
            proof {
                lemma_token_end(s, i - lo, kind);
            }
            let mut tok: Vec<char> = Vec::new();
            push_range(&mut tok, v, i, e);
            assert(tok@ =~= s.subrange(i - lo, e - lo));
            assert(tok.deep_view() =~= tok@);
            let ghost before = out.deep_view();
            out.push(tok);
            assert(out.deep_view() =~= before.push(s.subrange(i - lo, e - lo)));
            i = e;
        }
    }
    out
}

/// The sequence without leading `c`s.
pub open spec fn trim_start_char(s: Seq<char>, c: char) -> Seq<char>
    decreases s.len(),
{
    if s.len() > 0 && s[0] == c {
        trim_start_char(s.drop_first(), c)
    } else {
        s
    }
}

/// The sequence without trailing `c`s.
pub open spec fn trim_end_char(s: Seq<char>, c: char) -> Seq<char>
    decreases s.len(),
{
    if s.len() > 0 && s.last() == c {
        trim_end_char(s.drop_last(), c)
    } else {
        s
    }
}

/// `str::trim_matches` with one character.
pub open spec fn trim_char(s: Seq<char>, c: char) -> Seq<char> {
    trim_end_char(trim_start_char(s, c), c)
}

/// Bounds of `v[lo..hi]` with leading and trailing `c`s removed.
pub fn trim_char_bounds(v: &Vec<char>, lo: usize, hi: usize, c: char) -> (r: (usize, usize))
    requires
        lo <= hi <= v.len(),
    ensures
        lo <= r.0 <= r.1 <= hi,
        v@.subrange(r.0 as int, r.1 as int) == trim_char(v@.subrange(lo as int, hi as int), c),
{
    let mut a = lo;
    while a < hi && v[a] == c
        invariant
            lo <= a <= hi <= v.len(),
            trim_start_char(v@.subrange(lo as int, hi as int), c) == trim_start_char(
                v@.subrange(a as int, hi as int),
                c,
            ),
        decreases hi - a,
    {
        assert(v@.subrange(a as int, hi as int).drop_first() =~= v@.subrange(a + 1, hi as int));
        a = a + 1;
    }
    let mut b = hi;
    while b > a && v[b - 1] == c
        invariant
            lo <= a <= b <= hi <= v.len(),
            trim_end_char(v@.subrange(a as int, hi as int), c) == trim_end_char(
                v@.subrange(a as int, b as int),
                c,
            ),
        decreases b - a,
    {
        assert(v@.subrange(a as int, b as int).drop_last() =~= v@.subrange(a as int, b - 1));
        b = b - 1;
    }
    (a, b)
}

/// Index of the first `c` at or after `i`, or the length where there is none.
pub open spec fn index_of_from(s: Seq<char>, c: char, i: int) -> int
    decreases s.len() - i,
{
    if 0 <= i < s.len() && s[i] != c {
        index_of_from(s, c, i + 1)
    } else {
        i
    }
}

pub proof fn lemma_index_of_from(s: Seq<char>, c: char, i: int)
    requires
        0 <= i <= s.len(),
    ensures
        i <= index_of_from(s, c, i) <= s.len(),
        index_of_from(s, c, i) < s.len() ==> s[index_of_from(s, c, i)] == c,
        forall|k: int| i <= k < index_of_from(s, c, i) ==> #[trigger] s[k] != c,
    decreases s.len() - i,
{
    if 0 <= i < s.len() && s[i] != c {
        lemma_index_of_from(s, c, i + 1);
    }
}

/// Index of the first `c` in `v[lo..hi]` (counted from `lo`), or `hi - lo`.
pub fn find_char(v: &Vec<char>, lo: usize, hi: usize, c: char) -> (r: usize)
    requires
        lo <= hi <= v.len(),
    ensures
        r == index_of_from(v@.subrange(lo as int, hi as int), c, 0),
        r <= hi - lo,
{
    let ghost s = v@.subrange(lo as int, hi as int);
    let mut i = lo;
    while i < hi && v[i] != c
        invariant
            lo <= i <= hi <= v.len(),
            s == v@.subrange(lo as int, hi as int),
            index_of_from(s, c, 0) == index_of_from(s, c, i - lo),
        decreases hi - i,
    {
        i = i + 1;
    }
    i - lo
}

/// The characters of `s` in a new vector.
pub fn string_chars(s: &String) -> (v: Vec<char>)
    ensures
        v@ == s@,
{
    str_to_chars(s.as_str())
}

/// The pieces between occurrences of `c`, from position `i` on, after the pieces `acc`
/// (`str::split` with one character; empty pieces kept).
pub open spec fn split_from(s: Seq<char>, c: char, i: int, acc: Seq<Seq<char>>) -> Seq<Seq<char>>
    decreases s.len() - i,
{
    if i < 0 || i > s.len() {
        acc
    } else {
        let k = index_of_from(s, c, i);
        proof {
            lemma_index_of_from(s, c, i);
        }
        if k >= s.len() {
            acc.push(s.subrange(i, s.len() as int))
        } else {
            split_from(s, c, k + 1, acc.push(s.subrange(i, k)))
        }
    }
}

/// Splits `v[lo..hi]` at every `c`, keeping empty pieces.
pub fn split_on_char(v: &Vec<char>, lo: usize, hi: usize, c: char) -> (r: Vec<Vec<char>>)
    requires
        lo <= hi <= v.len(),
    ensures
        r.deep_view() == split_from(v@.subrange(lo as int, hi as int), c, 0, Seq::empty()),
{
    let ghost s = v@.subrange(lo as int, hi as int);
    let mut out: Vec<Vec<char>> = Vec::new();
    let mut i = lo;
    assert(out.deep_view() =~= Seq::<Seq<char>>::empty());
    loop
        invariant
            lo <= i <= hi <= v.len(),
            s == v@.subrange(lo as int, hi as int),
            split_from(s, c, i - lo, out.deep_view()) == split_from(s, c, 0, Seq::empty()),
        decreases hi - i,
    {
        let k = find_char(v, i, hi, c);
        proof {
            lemma_index_of_from(s, c, i - lo);
            assert(v@.subrange(i as int, hi as int) =~= s.subrange(i - lo, s.len() as int));
            lemma_index_shift(s, c, i - lo);
        }
        let mut piece: Vec<char> = Vec::new();
        push_range(&mut piece, v, i, i + k);
        assert(piece@ =~= s.subrange(i - lo, i - lo + k));
        assert(piece.deep_view() =~= piece@);
        let ghost before = out.deep_view();
        out.push(piece);
        assert(out.deep_view() =~= before.push(s.subrange(i - lo, i - lo + k)));
        if i + k >= hi {
            return out;
        }
        i = i + k + 1;
    }
}

/// Searching from `i` is searching the suffix from `i`, shifted by `i`.
pub proof fn lemma_index_shift(s: Seq<char>, c: char, i: int)
    requires
        0 <= i <= s.len(),
    ensures
        index_of_from(s, c, i) == i + index_of_from(s.subrange(i, s.len() as int), c, 0),
    decreases s.len() - i,
{
    let t = s.subrange(i, s.len() as int);
    if i < s.len() && s[i] != c {
        lemma_index_shift(s, c, i + 1);
        lemma_index_shift_tail(t, c, 0);
        assert(t.subrange(1, t.len() as int) =~= s.subrange(i + 1, s.len() as int));
    }
}

proof fn lemma_index_shift_tail(t: Seq<char>, c: char, j: int)
    requires
        0 <= j <= t.len(),
        j == 0,
    ensures
        t.len() > 0 && t[0] != c ==> index_of_from(t, c, 0) == 1 + index_of_from(t.subrange(1, t.len() as int), c, 0),
    decreases t.len() - j,
{
    if t.len() > 0 && t[0] != c {
        lemma_index_of_suffix(t, c, 1);
    }
}

/// Searching from `k` in `t` agrees with searching from `k - 1` in `t` without its head.
proof fn lemma_index_of_suffix(t: Seq<char>, c: char, k: int)
    requires
        1 <= k <= t.len(),
    ensures
        index_of_from(t, c, k) == 1 + index_of_from(t.subrange(1, t.len() as int), c, k - 1),
    decreases t.len() - k,
{
    let u = t.subrange(1, t.len() as int);
    if k < t.len() && t[k] != c {
        assert(u[k - 1] == t[k]);
        lemma_index_of_suffix(t, c, k + 1);
    } else if k < t.len() {
        assert(u[k - 1] == t[k]);
    }
}

/// `str::replace` from position `i` on: the occurrences of a non-empty `pat`, taken
/// left to right without overlap, replaced by `rep`.
pub open spec fn replace_from(s: Seq<char>, pat: Seq<char>, rep: Seq<char>, i: int) -> Seq<char>
    decreases s.len() - i,
{
    if i < 0 || i >= s.len() {
        Seq::empty()
    } else if pat.len() > 0 && i + pat.len() <= s.len() && s.subrange(i, i + pat.len()) == pat {
        rep + replace_from(s, pat, rep, i + pat.len())
    } else {
        seq![s[i]] + replace_from(s, pat, rep, i + 1)
    }
}

/// `str::replace` on a whole text.
pub open spec fn replace_all(s: Seq<char>, pat: Seq<char>, rep: Seq<char>) -> Seq<char> {
    replace_from(s, pat, rep, 0)
}

/// Replaces every occurrence of a non-empty pattern, left to right.
pub fn replace_str(s: &str, pat: &str, rep: &str) -> (r: String)
    requires
        pat@.len() > 0,
    ensures
        r@ == replace_all(s@, pat@, rep@),
{
    let v = str_to_chars(s);
    let p = str_to_chars(pat);
    let mut out: Vec<char> = Vec::new();
    let mut i: usize = 0;
    while i < v.len()
        invariant
            0 <= i <= v.len(),
            v@ == s@,
            p@ == pat@,
            p@.len() > 0,
            out@ + replace_from(v@, p@, rep@, i as int) == replace_all(v@, p@, rep@),
        decreases v.len() - i,
    {
        let ghost before = out@;
        if p.len() <= v.len() - i && range_eq(&v, i, i + p.len(), &p, 0, p.len()) {
            assert(p@.subrange(0, p@.len() as int) =~= p@);
            push_str(&mut out, rep);
            assert(before + replace_from(v@, p@, rep@, i as int) =~= out@ + replace_from(
                v@,
                p@,
                rep@,
                i + p@.len(),
            ));
            i = i + p.len();
        } else {
            assert(p@.subrange(0, p@.len() as int) =~= p@);
            out.push(v[i]);
            assert(before + replace_from(v@, p@, rep@, i as int) =~= out@ + replace_from(
                v@,
                p@,
                rep@,
                i + 1,
            ));
            i = i + 1;
        }
    }
    assert(out@ + replace_from(v@, p@, rep@, i as int) =~= out@);
    seq_to_string(&out)
}

/// The texts joined with `sep` between neighbours.
pub open spec fn join_with(items: Seq<Seq<char>>, sep: Seq<char>) -> Seq<char>
    decreases items.len(),
{
    if items.len() == 0 {
        Seq::empty()
    } else if items.len() == 1 {
        items[0]
    } else {
        join_with(items.drop_last(), sep) + sep + items.last()
    }
}

/// Joins strings with a separator (`[String]::join`).
pub fn join_strings(items: &Vec<String>, sep: &str) -> (r: String)
    ensures
        r@ == join_with(items.deep_view(), sep@),
{
    let ghost iv = items.deep_view();
    let mut out: Vec<char> = Vec::new();
    let mut i: usize = 0;
    while i < items.len()
        invariant
            0 <= i <= items.len(),
            iv == items.deep_view(),
            out@ == join_with(iv.take(i as int), sep@),
        decreases items.len() - i,
    {
        let ghost before = out@;
        if i > 0 {
            push_str(&mut out, sep);
        }
        push_str(&mut out, items[i].as_str());
        assert(iv.take(i + 1).drop_last() =~= iv.take(i as int));
        assert(iv[i as int] == items@[i as int]@);
        if i == 0 {
            assert(out@ =~= join_with(iv.take(1), sep@));
        } else {
            assert(out@ =~= before + sep@ + iv[i as int]);
        }
        i = i + 1;
    }
    assert(iv.take(items.len() as int) =~= iv);
    seq_to_string(&out)
}

} // verus!
