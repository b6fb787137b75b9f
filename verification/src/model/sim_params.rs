//! Reading the `Sim.Params` and `Sim.Pins` field syntax, and normalizing the
//! SI-suffixed numbers that appear in it.
//!
//! A parameter list is a run of `name=value` items separated by white space;
//! a value is either a bare token or a double-quoted string in which a
//! backslash escapes the next character. A name without `=` stands for the
//! flag value `1`.

use crate::text::{
    all_digits, chars_to_string, is_ascii_digit, is_digit, is_whitespace, is_ws, lower_ascii,
    seq_to_string, str_to_chars, to_ascii_lowercase, trim, trim_bounds,
};
use vstd::prelude::*;

verus! {

/// Position of the first character at or after `i` that is not white space.
pub open spec fn skip_ws_from(s: Seq<char>, i: int) -> int
    decreases s.len() - i,
{
    if 0 <= i < s.len() && is_ws(s[i]) {
        skip_ws_from(s, i + 1)
    } else {
        i
    }
}

/// A bare token stops at white space or `=`.
pub open spec fn ends_bare(c: char) -> bool {
    is_ws(c) || c == '='
}

/// Position at which the bare token that starts at `i` ends.
pub open spec fn bare_end(s: Seq<char>, i: int) -> int
    decreases s.len() - i,
{
    if 0 <= i < s.len() && !ends_bare(s[i]) {
        bare_end(s, i + 1)
    } else {
        i
    }
}

/// Reads the rest of a quoted token from `i` (just after the opening quote), after
/// the characters `acc` that were read already; gives the token and the position
/// after the closing quote (or the end of the input).
pub open spec fn quoted_from(s: Seq<char>, i: int, acc: Seq<char>) -> (Seq<char>, int)
    decreases s.len() - i,
{
    if i < 0 || i >= s.len() {
        (acc, i)
    } else if s[i] == '"' {
        (acc, i + 1)
    } else if s[i] == '\\' {
        if i + 1 < s.len() {
            quoted_from(s, i + 2, acc.push(s[i + 1]))
        } else {
            (acc, i + 1)
        }
    } else {
        quoted_from(s, i + 1, acc.push(s[i]))
    }
}

pub proof fn lemma_skip_ws_from(s: Seq<char>, i: int)
    requires
        0 <= i,
    ensures
        i <= skip_ws_from(s, i),
        i <= s.len() ==> skip_ws_from(s, i) <= s.len(),
        forall|j: int| i <= j < skip_ws_from(s, i) ==> is_ws(#[trigger] s[j]),
        skip_ws_from(s, i) < s.len() ==> !is_ws(s[skip_ws_from(s, i)]),
    decreases s.len() - i,
{
    if 0 <= i < s.len() && is_ws(s[i]) {
        lemma_skip_ws_from(s, i + 1);
    }
}

pub proof fn lemma_bare_end(s: Seq<char>, i: int)
    requires
        0 <= i,
    ensures
        i <= bare_end(s, i),
        i <= s.len() ==> bare_end(s, i) <= s.len(),
        forall|j: int| i <= j < bare_end(s, i) ==> !ends_bare(#[trigger] s[j]),
        bare_end(s, i) < s.len() ==> ends_bare(s[bare_end(s, i)]),
    decreases s.len() - i,
{
    if 0 <= i < s.len() && !ends_bare(s[i]) {
        lemma_bare_end(s, i + 1);
    }
}

pub proof fn lemma_quoted_from(s: Seq<char>, i: int, acc: Seq<char>)
    requires
        0 <= i,
    ensures
        i <= quoted_from(s, i, acc).1,
        i <= s.len() ==> quoted_from(s, i, acc).1 <= s.len(),
    decreases s.len() - i,
{
    if i < 0 || i >= s.len() {
    } else if s[i] == '"' {
    } else if s[i] == '\\' {
        if i + 1 < s.len() {
            lemma_quoted_from(s, i + 2, acc.push(s[i + 1]));
        }
    } else {
        lemma_quoted_from(s, i + 1, acc.push(s[i]));
    }
}

/// The value token after `=` at position `m`: quoted or bare, and where it ends.
pub open spec fn value_token(s: Seq<char>, m: int) -> (Seq<char>, int) {
    if 0 <= m < s.len() && s[m] == '"' {
        quoted_from(s, m + 1, Seq::empty())
    } else {
        (s.subrange(m, bare_end(s, m)), bare_end(s, m))
    }
}

pub proof fn lemma_value_token(s: Seq<char>, m: int)
    requires
        0 <= m <= s.len(),
    ensures
        m <= value_token(s, m).1 <= s.len(),
{
    if 0 <= m < s.len() && s[m] == '"' {
        lemma_quoted_from(s, m + 1, Seq::empty());
    } else {
        lemma_bare_end(s, m);
    }
}

/// Characters that can stand in the number part of an SI value.
pub open spec fn is_mantissa_char(c: char) -> bool {
    is_digit(c) || c == '.' || c == ',' || c == ' '
}

/// Position of the first character at or after `i` that cannot stand in a number.
pub open spec fn mantissa_end(s: Seq<char>, i: int) -> int
    decreases s.len() - i,
{
    if 0 <= i < s.len() && is_mantissa_char(s[i]) {
        mantissa_end(s, i + 1)
    } else {
        i
    }
}

/// The sequence without any occurrence of `c`.
pub open spec fn remove_char(s: Seq<char>, c: char) -> Seq<char>
    decreases s.len(),
{
    if s.len() == 0 {
        s
    } else if s.last() == c {
        remove_char(s.drop_last(), c)
    } else {
        remove_char(s.drop_last(), c).push(s.last())
    }
}

/// The sequence with every `from` replaced by `to`.
pub open spec fn replace_char(s: Seq<char>, from: char, to: char) -> Seq<char> {
    s.map_values(|c: char| if c == from { to } else { c })
}

/// Equality up to ASCII case (`str::eq_ignore_ascii_case`).
pub open spec fn eq_ignore_ascii_case(a: Seq<char>, b: Seq<char>) -> bool {
    a.len() == b.len() && forall|i: int| 0 <= i < a.len() ==> #[trigger] lower_ascii(a[i]) == lower_ascii(b[i])
}

/// Unit and multiplier letters accepted after a number, with both micro signs and both
/// ohm signs.
pub open spec fn is_si_suffix_char(c: char) -> bool {
    ||| c == 'f' || c == 'F' || c == 'p' || c == 'P' || c == 'n' || c == 'N'
    ||| c == 'u' || c == 'U' || c == 'm' || c == 'M' || c == 'k' || c == 'K'
    ||| c == 'g' || c == 'G' || c == 't' || c == 'T' || c == 'r' || c == 'R'
    ||| c == 'h' || c == 'H' || c == 'o' || c == 'O' || c == 'v' || c == 'V'
    ||| c == 'a' || c == 'A'
    ||| c == '\u{2126}' || c == '\u{3a9}' || c == '\u{b5}' || c == '\u{3bc}'
}

/// Micro signs become `u`.
pub open spec fn micro_to_u(c: char) -> char {
    if c == '\u{b5}' || c == '\u{3bc}' {
        'u'
    } else {
        c
    }
}

/// The normalized form of an SI suffix, if it is one.
pub open spec fn si_suffix(s: Seq<char>) -> Option<Seq<char>> {
    if s.len() == 0 {
        Some(Seq::empty())
    } else if s == seq!['\u{b5}'] || s == seq!['\u{3bc}'] {
        Some(seq!['u'])
    } else if eq_ignore_ascii_case(s, seq!['M', 'e', 'g']) {
        Some(seq!['M'])
    } else if !(forall|i: int| 0 <= i < s.len() ==> is_si_suffix_char(#[trigger] s[i])) {
        None
    } else {
        Some(s.map_values(|c: char| micro_to_u(c)))
    }
}

/// Separator-reading state while a number is scanned from its right end:
/// ambiguous separator, thousands separator, whether a thousands separator was seen,
/// decimal separator, whether a decimal separator was seen, and the digits seen since
/// the last separator.
pub type SepState = (Option<char>, Option<char>, bool, Option<char>, bool, int);

/// The other of the two separator characters.
pub open spec fn other_sep(c: char) -> char {
    if c == '.' {
        ','
    } else {
        '.'
    }
}

/// One step of the right-to-left scan, at `index`.
pub open spec fn sep_step(c: Seq<char>, index: int, st: SepState) -> Option<SepState> {
    let ch = c[index];
    if is_digit(ch) {
        Some((st.0, st.1, st.2, st.3, st.4, st.5 + 1))
    } else if ch != '.' && ch != ',' {
        None
    } else {
        let r: Option<SepState> = if st.3 is Some && st.1 is Some {
            if ch == st.3->0 {
                if st.2 || st.4 {
                    None
                } else {
                    Some((st.0, st.1, st.2, st.3, true, st.5))
                }
            } else if ch == st.1->0 {
                if st.5 != 3 {
                    None
                } else {
                    Some((st.0, st.1, true, st.3, st.4, st.5))
                }
            } else {
                None
            }
        } else if st.3 is None && st.1 is None && st.0 is Some {
            if ch == st.0->0 {
                Some((st.0, Some(ch), true, Some(other_sep(ch)), st.4, st.5))
            } else {
                Some((st.0, Some(ch), true, st.0, true, st.5))
            }
        } else if (index == 1 && c[0] == '0') || st.5 != 3 {
            Some((st.0, Some(other_sep(ch)), st.2, Some(ch), true, st.5))
        } else {
            Some((Some(ch), st.1, st.2, st.3, st.4, st.5))
        };
        match r {
            Some(x) => Some((x.0, x.1, x.2, x.3, x.4, 0)),
            None => None,
        }
    }
}

/// The scan over the indices `n - 1` down to `0`, from state `st`.
pub open spec fn sep_scan(c: Seq<char>, n: int, st: SepState) -> Option<SepState>
    decreases n,
{
    if n <= 0 {
        Some(st)
    } else {
        match sep_step(c, n - 1, st) {
            Some(next) => sep_scan(c, n - 1, next),
            None => None,
        }
    }
}

/// The normalized number: spaces dropped, thousands separators dropped, the decimal
/// separator written as `.`; `None` where the separators are inconsistent.
pub open spec fn si_mantissa(m: Seq<char>) -> Option<Seq<char>> {
    let compact = remove_char(m, ' ');
    if compact.len() == 0 {
        None
    } else {
        match sep_scan(compact, compact.len() as int, (None, None, false, None, false, 0)) {
            None => None,
            Some(st) => {
                let dec = if st.3 is None && st.1 is None {
                    Some('.')
                } else {
                    st.3
                };
                let thou = if st.3 is None && st.1 is None {
                    Some(',')
                } else {
                    st.1
                };
                let without = match thou {
                    Some(t) => remove_char(compact, t),
                    None => compact,
                };
                Some(
                    match dec {
                        Some(d) => replace_char(without, d, '.'),
                        None => without,
                    },
                )
            },
        }
    }
}

/// The normalized form of a number with an SI suffix, if the text is one.
pub open spec fn si_value(v: Seq<char>) -> Option<Seq<char>> {
    let t = trim(v);
    let split = mantissa_end(t, 0);
    if t.len() == 0 || split == 0 {
        None
    } else {
        match (si_mantissa(t.subrange(0, split)), si_suffix(trim(t.subrange(split, t.len() as int)))) {
            (Some(a), Some(b)) => Some(a + b),
            _ => None,
        }
    }
}

/// A parameter value as it is stored: normalized where it is an SI number, else as written.
pub open spec fn sim_param_value(v: Seq<char>) -> Seq<char> {
    match si_value(v) {
        Some(x) => x,
        None => v,
    }
}

/// The pairs that a parameter list yields from position `i` on, after the pairs `acc`.
pub open spec fn param_pairs_from(s: Seq<char>, i: int, acc: Seq<(Seq<char>, Seq<char>)>) -> Seq<
    (Seq<char>, Seq<char>),
>
    decreases s.len() - i,
{
    if i < 0 || i >= s.len() {
        acc
    } else {
        let j = skip_ws_from(s, i);
        let k = bare_end(s, j);
        proof {
            lemma_skip_ws_from(s, i);
            lemma_bare_end(s, j);
        }
        if k == j {
            acc
        } else if k < s.len() && s[k] == '=' {
            let t = value_token(s, k + 1);
            proof {
                lemma_value_token(s, k + 1);
            }
            param_pairs_from(s, t.1, acc.push((s.subrange(j, k), sim_param_value(t.0))))
        } else {
            param_pairs_from(s, k, acc.push((s.subrange(j, k), "1"@)))
        }
    }
}

/// The pin pairs that a pin list yields from position `i` on, after the pairs `acc`;
/// a symbol pin without `=` is skipped.
pub open spec fn pin_pairs_from(s: Seq<char>, i: int, acc: Seq<(Seq<char>, Seq<char>)>) -> Seq<
    (Seq<char>, Seq<char>),
>
    decreases s.len() - i,
{
    if i < 0 || i >= s.len() {
        acc
    } else {
        let j = skip_ws_from(s, i);
        let k = bare_end(s, j);
        proof {
            lemma_skip_ws_from(s, i);
            lemma_bare_end(s, j);
        }
        if k == j {
            acc
        } else if k < s.len() && s[k] == '=' {
            let t = value_token(s, k + 1);
            proof {
                lemma_value_token(s, k + 1);
            }
            pin_pairs_from(s, t.1, acc.push((s.subrange(j, k), t.0)))
        } else {
            pin_pairs_from(s, k, acc)
        }
    }
}

/// Skips white space from `pos`; gives the position of the next other character.
pub fn skip_sim_whitespace(chars: &Vec<char>, pos: usize) -> (r: usize)
    requires
        pos <= chars.len(),
    ensures
        r == skip_ws_from(chars@, pos as int),
        pos <= r <= chars.len(),
{
    let mut i = pos;
    while i < chars.len() && is_whitespace(chars[i])
        invariant
            pos <= i <= chars.len(),
            skip_ws_from(chars@, pos as int) == skip_ws_from(chars@, i as int),
        decreases chars.len() - i,
    {
        i = i + 1;
    }
    i
}

/// End of the bare token that starts at `pos`.
fn bare_token_end(chars: &Vec<char>, pos: usize) -> (r: usize)
    requires
        pos <= chars.len(),
    ensures
        r == bare_end(chars@, pos as int),
        pos <= r <= chars.len(),
{
    let mut i = pos;
    while i < chars.len() && !(is_whitespace(chars[i]) || chars[i] == '=')
        invariant
            pos <= i <= chars.len(),
            bare_end(chars@, pos as int) == bare_end(chars@, i as int),
        decreases chars.len() - i,
    {
        i = i + 1;
    }
    i
}

/// Reads a bare token from `pos`: the token and the position after it.
pub fn parse_sim_bare_token(chars: &Vec<char>, pos: usize) -> (r: (String, usize))
    requires
        pos <= chars.len(),
    ensures
        r.1 == bare_end(chars@, pos as int),
        pos <= r.1 <= chars.len(),
        r.0@ == chars@.subrange(pos as int, r.1 as int),
{
    let end = bare_token_end(chars, pos);
    (chars_to_string(chars, pos, end), end)
}

/// Reads a quoted token from `pos`, just after its opening quote: the token with
/// escapes resolved and the position after the closing quote.
pub fn parse_sim_quoted_token(chars: &Vec<char>, pos: usize) -> (r: (Vec<char>, usize))
    requires
        pos <= chars.len(),
    ensures
        (r.0@, r.1 as int) == quoted_from(chars@, pos as int, Seq::empty()),
        pos <= r.1 <= chars.len(),
{
    let mut token: Vec<char> = Vec::new();
    let mut i = pos;
    proof {
        lemma_quoted_from(chars@, pos as int, Seq::empty());
    }
    while i < chars.len()
        invariant
            pos <= i <= chars.len(),
            quoted_from(chars@, i as int, token@) == quoted_from(chars@, pos as int, Seq::empty()),
        decreases chars.len() - i,
    {
        let ch = chars[i];
        if ch == '"' {
            return (token, i + 1);
        }
        if ch == '\\' {
            if i + 1 < chars.len() {
                token.push(chars[i + 1]);
                i = i + 2;
            } else {
                return (token, i + 1);
            }
        } else {
            token.push(ch);
            i = i + 1;
        }
    }
    (token, i)
}

/// Reads the value after `=` at `pos`: quoted or bare.
fn parse_value_token(chars: &Vec<char>, pos: usize) -> (r: (Vec<char>, usize))
    requires
        pos <= chars.len(),
    ensures
        (r.0@, r.1 as int) == value_token(chars@, pos as int),
        pos <= r.1 <= chars.len(),
{
    if pos < chars.len() && chars[pos] == '"' {
        parse_sim_quoted_token(chars, pos + 1)
    } else {
        let end = bare_token_end(chars, pos);
        let mut token: Vec<char> = Vec::new();
        crate::text::push_range(&mut token, chars, pos, end);
        assert(token@ =~= chars@.subrange(pos as int, end as int));
        (token, end)
    }
}

/// The characters of `v` without any `c`.
fn remove_char_vec(v: &Vec<char>, c: char) -> (r: Vec<char>)
    ensures
        r@ == remove_char(v@, c),
{
    let mut out: Vec<char> = Vec::new();
    let mut i: usize = 0;
    while i < v.len()
        invariant
            0 <= i <= v.len(),
            out@ == remove_char(v@.take(i as int), c),
        decreases v.len() - i,
    {
        assert(v@.take(i + 1).drop_last() =~= v@.take(i as int));
        if v[i] != c {
            out.push(v[i]);
        }
        i = i + 1;
    }
    assert(v@.take(v@.len() as int) =~= v@);
    out
}

/// The characters of `v` with every `from` replaced by `to`.
pub(crate) fn replace_char_vec(v: &Vec<char>, from: char, to: char) -> (r: Vec<char>)
    ensures
        r@ == replace_char(v@, from, to),
{
    let mut out: Vec<char> = Vec::new();
    let mut i: usize = 0;
    while i < v.len()
        invariant
            0 <= i <= v.len(),
            out@ =~= replace_char(v@.take(i as int), from, to),
        decreases v.len() - i,
    {
        if v[i] == from {
            out.push(to);
        } else {
            out.push(v[i]);
        }
        i = i + 1;
        assert(replace_char(v@.take(i as int), from, to) =~= replace_char(v@.take(i - 1), from, to).push(
            if v@[i - 1] == from { to } else { v@[i - 1] },
        ));
    }
    assert(v@.take(v@.len() as int) =~= v@);
    out
}

/// Whether `c` is accepted in an SI suffix.
fn si_suffix_char(c: char) -> (b: bool)
    ensures
        b == is_si_suffix_char(c),
{
    c == 'f' || c == 'F' || c == 'p' || c == 'P' || c == 'n' || c == 'N' || c == 'u' || c == 'U'
        || c == 'm' || c == 'M' || c == 'k' || c == 'K' || c == 'g' || c == 'G' || c == 't' || c
        == 'T' || c == 'r' || c == 'R' || c == 'h' || c == 'H' || c == 'o' || c == 'O' || c == 'v'
        || c == 'V' || c == 'a' || c == 'A' || c == '\u{2126}' || c == '\u{3a9}' || c == '\u{b5}'
        || c == '\u{3bc}'
}

/// Normalized SI suffix of `s`, if it is one.
fn si_suffix_vec(s: &Vec<char>) -> (r: Option<Vec<char>>)
    ensures
        match r {
            Some(x) => si_suffix(s@) == Some(x@),
            None => si_suffix(s@) is None,
        },
{
    let mut out: Vec<char> = Vec::new();
    if s.len() == 0 {
        assert(out@ =~= Seq::<char>::empty());
        return Some(out);
    }
    if s.len() == 1 && (s[0] == '\u{b5}' || s[0] == '\u{3bc}') {
        out.push('u');
        assert(s@ =~= seq![s@[0]]);
        assert(out@ =~= seq!['u']);
        return Some(out);
    }
    assert(!(s@ == seq!['\u{b5}'] || s@ == seq!['\u{3bc}']));
    if s.len() == 3 && to_ascii_lowercase(s[0]) == 'm' && to_ascii_lowercase(s[1]) == 'e'
        && to_ascii_lowercase(s[2]) == 'g' {
        out.push('M');
        assert(eq_ignore_ascii_case(s@, seq!['M', 'e', 'g']));
        assert(out@ =~= seq!['M']);
        return Some(out);
    }
    assert(!eq_ignore_ascii_case(s@, seq!['M', 'e', 'g'])) by {
        if s@.len() == 3 {
            if eq_ignore_ascii_case(s@, seq!['M', 'e', 'g']) {
                assert(lower_ascii(s@[0]) == lower_ascii('M'));
                assert(lower_ascii(s@[1]) == lower_ascii('e'));
                assert(lower_ascii(s@[2]) == lower_ascii('g'));
            }
        }
    }
    let mut i: usize = 0;
    while i < s.len()
        invariant
            0 <= i <= s.len(),
            s@.len() != 0,
            !(s@ == seq!['\u{b5}'] || s@ == seq!['\u{3bc}']),
            !eq_ignore_ascii_case(s@, seq!['M', 'e', 'g']),
            forall|j: int| 0 <= j < i ==> is_si_suffix_char(#[trigger] s@[j]),
            out@ =~= s@.take(i as int).map_values(|c: char| micro_to_u(c)),
        decreases s.len() - i,
    {
        let c = s[i];
        if !si_suffix_char(c) {
            assert(!is_si_suffix_char(s@[i as int]));
            return None;
        }
        if c == '\u{b5}' || c == '\u{3bc}' {
            out.push('u');
        } else {
            out.push(c);
        }
        i = i + 1;
        assert(s@.take(i as int).map_values(|c: char| micro_to_u(c)) =~= s@.take(i - 1).map_values(
            |c: char| micro_to_u(c),
        ).push(micro_to_u(c)));
    }
    assert(s@.take(s@.len() as int) =~= s@);
    Some(out)
}

/// One step of the right-to-left separator scan.
fn sep_step_exec(
    c: &Vec<char>,
    index: usize,
    st: (Option<char>, Option<char>, bool, Option<char>, bool, usize),
) -> (r: Option<(Option<char>, Option<char>, bool, Option<char>, bool, usize)>)
    requires
        index < c.len(),
        st.5 < usize::MAX,
    ensures
        match r {
            Some(x) => sep_step(c@, index as int, (st.0, st.1, st.2, st.3, st.4, st.5 as int))
                == Some((x.0, x.1, x.2, x.3, x.4, x.5 as int)) && x.5 <= st.5 + 1,
            None => sep_step(c@, index as int, (st.0, st.1, st.2, st.3, st.4, st.5 as int)) is None,
        },
{
    let ch = c[index];
    let (amb, thou, thou_found, dec, dec_found, digits) = st;
    if is_ascii_digit(ch) {
        return Some((amb, thou, thou_found, dec, dec_found, digits + 1));
    }
    if ch != '.' && ch != ',' {
        return None;
    }
    let other: char = if ch == '.' {
        ','
    } else {
        '.'
    };
    match (dec, thou, amb) {
        (Some(d), Some(t), _) => {
            if ch == d {
                if thou_found || dec_found {
                    None
                } else {
                    Some((amb, thou, thou_found, dec, true, 0))
                }
            } else if ch == t {
                if digits != 3 {
                    None
                } else {
                    Some((amb, thou, true, dec, dec_found, 0))
                }
            } else {
                None
            }
        },
        (None, None, Some(a)) => {
            if ch == a {
                Some((amb, Some(a), true, Some(other), dec_found, 0))
            } else {
                Some((amb, Some(ch), true, Some(a), true, 0))
            }
        },
        _ => {
            if (index == 1 && c[0] == '0') || digits != 3 {
                Some((amb, Some(other), thou_found, Some(ch), true, 0))
            } else {
                Some((Some(ch), thou, thou_found, dec, dec_found, 0))
            }
        },
    }
}

/// Normalized number of `m`, if its separators are consistent.
fn si_mantissa_vec(m: &Vec<char>) -> (r: Option<Vec<char>>)
    ensures
        match r {
            Some(x) => si_mantissa(m@) == Some(x@),
            None => si_mantissa(m@) is None,
        },
{
    let compact = remove_char_vec(m, ' ');
    if compact.len() == 0 {
        return None;
    }
    let mut st: (Option<char>, Option<char>, bool, Option<char>, bool, usize) = (
        None,
        None,
        false,
        None,
        false,
        0,
    );
    let mut idx = compact.len();
    let ghost init: SepState = (None, None, false, None, false, 0);
    while idx > 0
        invariant
            idx <= compact.len(),
            compact@ == remove_char(m@, ' '),
            compact@.len() > 0,
            st.5 <= compact.len() - idx,
            sep_scan(compact@, compact@.len() as int, (None, None, false, None, false, 0))
                == sep_scan(compact@, idx as int, (st.0, st.1, st.2, st.3, st.4, st.5 as int)),
        decreases idx,
    {
        match sep_step_exec(&compact, idx - 1, st) {
            Some(next) => {
                st = next;
            },
            None => {
                return None;
            },
        }
        idx = idx - 1;
    }
    let (_, thou, _, dec, _, _) = st;
    let (dec, thou) = if dec.is_none() && thou.is_none() {
        (Some('.'), Some(','))
    } else {
        (dec, thou)
    };
    let without = match thou {
        Some(t) => remove_char_vec(&compact, t),
        None => compact,
    };
    match dec {
        Some(d) => Some(replace_char_vec(&without, d, '.')),
        None => Some(without),
    }
}

/// End of the number part that starts at `pos`.
fn mantissa_end_exec(v: &Vec<char>, lo: usize, hi: usize) -> (r: usize)
    requires
        lo <= hi <= v.len(),
    ensures
        lo <= r <= hi,
        r - lo == mantissa_end(v@.subrange(lo as int, hi as int), 0),
{
    let ghost t = v@.subrange(lo as int, hi as int);
    let mut i = lo;
    while i < hi && (is_ascii_digit(v[i]) || v[i] == '.' || v[i] == ',' || v[i] == ' ')
        invariant
            lo <= i <= hi <= v.len(),
            t == v@.subrange(lo as int, hi as int),
            mantissa_end(t, 0) == mantissa_end(t, i - lo),
        decreases hi - i,
    {
        i = i + 1;
    }
    i
}

/// Normalized SI value of `v[lo..hi]`.
fn si_value_vec(v: &Vec<char>, lo: usize, hi: usize) -> (r: Option<Vec<char>>)
    requires
        lo <= hi <= v.len(),
    ensures
        match r {
            Some(x) => si_value(v@.subrange(lo as int, hi as int)) == Some(x@),
            None => si_value(v@.subrange(lo as int, hi as int)) is None,
        },
{
    let (a, b) = trim_bounds(v, lo, hi);
    let ghost t = v@.subrange(a as int, b as int);
    let split = mantissa_end_exec(v, a, b);
    if a == b || split == a {
        return None;
    }
    let mut mant: Vec<char> = Vec::new();
    crate::text::push_range(&mut mant, v, a, split);
    assert(mant@ =~= t.subrange(0, split - a));
    let (sa, sb) = trim_bounds(v, split, b);
    let mut suf: Vec<char> = Vec::new();
    crate::text::push_range(&mut suf, v, sa, sb);
    assert(v@.subrange(split as int, b as int) =~= t.subrange(split - a, t.len() as int));
    assert(suf@ =~= v@.subrange(sa as int, sb as int));
    match si_mantissa_vec(&mant) {
        Some(nm) => {
            match si_suffix_vec(&suf) {
                Some(ns) => {
                    let mut out = nm;
                    let mut k: usize = 0;
                    let ghost base = out@;
                    while k < ns.len()
                        invariant
                            0 <= k <= ns.len(),
                            out@ == base + ns@.take(k as int),
                        decreases ns.len() - k,
                    {
                        out.push(ns[k]);
                        k = k + 1;
                        assert(ns@.take(k as int) =~= ns@.take(k - 1).push(ns@[k - 1]));
                    }
                    assert(ns@.take(ns@.len() as int) =~= ns@);
                    Some(out)
                },
                None => None,
            }
        },
        None => None,
    }
}

/// The normalized form of an SI-suffixed number, such as `3,300u` to `3300u` or `1Meg`
/// to `1M`; `None` where the text is not such a number.
pub fn normalize_sim_si_value(value: &str) -> (r: Option<String>)
    ensures
        match r {
            Some(x) => si_value(value@) == Some(x@),
            None => si_value(value@) is None,
        },
{
    let v = str_to_chars(value);
    assert(v@.subrange(0, v@.len() as int) =~= v@);
    match si_value_vec(&v, 0, v.len()) {
        Some(x) => Some(seq_to_string(&x)),
        None => None,
    }
}

/// The normalized form of an SI suffix, if the text is one.
pub fn normalize_sim_si_suffix(suffix: &str) -> (r: Option<String>)
    ensures
        match r {
            Some(x) => si_suffix(suffix@) == Some(x@),
            None => si_suffix(suffix@) is None,
        },
{
    let v = str_to_chars(suffix);
    match si_suffix_vec(&v) {
        Some(x) => Some(seq_to_string(&x)),
        None => None,
    }
}

/// The normalized number part of an SI value, if its separators are consistent.
pub fn normalize_sim_si_mantissa(mantissa: &str) -> (r: Option<String>)
    ensures
        match r {
            Some(x) => si_mantissa(mantissa@) == Some(x@),
            None => si_mantissa(mantissa@) is None,
        },
{
    let v = str_to_chars(mantissa);
    match si_mantissa_vec(&v) {
        Some(x) => Some(seq_to_string(&x)),
        None => None,
    }
}

/// A parameter value as it is stored: normalized where it is an SI number.
pub fn normalize_sim_param_value(value: &str) -> (r: String)
    ensures
        r@ == sim_param_value(value@),
{
    match normalize_sim_si_value(value) {
        Some(x) => x,
        None => value.to_owned(),
    }
}

fn param_value_vec(v: &Vec<char>) -> (r: Vec<char>)
    ensures
        r@ == sim_param_value(v@),
{
    assert(v@.subrange(0, v@.len() as int) =~= v@);
    match si_value_vec(v, 0, v.len()) {
        Some(x) => x,
        None => v.clone(),
    }
}

/// The name-value pairs of a `Sim.Params` field, in order, duplicates kept.
pub fn parse_sim_param_pairs(params: &str) -> (r: Vec<(String, String)>)
    ensures
        r.deep_view() == param_pairs_from(params@, 0, Seq::empty()),
{
    let s = str_to_chars(params);
    let mut out: Vec<(String, String)> = Vec::new();
    let mut i: usize = 0;
    proof {
        reveal_strlit("1");
    }
    assert(out.deep_view() =~= Seq::<(Seq<char>, Seq<char>)>::empty());
    while i < s.len()
        invariant
            0 <= i <= s.len(),
            s@ == params@,
            param_pairs_from(s@, i as int, out.deep_view()) == param_pairs_from(
                s@,
                0,
                Seq::empty(),
            ),
        decreases s.len() - i,
    {
        let j = skip_sim_whitespace(&s, i);
        let (key, k) = parse_sim_bare_token(&s, j);
        if k == j {
            return out;
        }
        if k < s.len() && s[k] == '=' {
            let (tok, e) = parse_value_token(&s, k + 1);
            let value = seq_to_string(&param_value_vec(&tok));
            let ghost before = out.deep_view();
            out.push((key, value));
            assert(out.deep_view() =~= before.push((s@.subrange(j as int, k as int), sim_param_value(tok@))));
            i = e;
        } else {
            let ghost before = out.deep_view();
            out.push((key, "1".to_owned()));
            assert(out.deep_view() =~= before.push((s@.subrange(j as int, k as int), "1"@)));
            i = k;
        }
    }
    out
}

/// The symbol-pin to model-pin pairs of a `Sim.Pins` field, in order.
pub fn parse_sim_pin_pairs(pins: &str) -> (r: Vec<(String, String)>)
    ensures
        r.deep_view() == pin_pairs_from(pins@, 0, Seq::empty()),
{
    let s = str_to_chars(pins);
    let mut out: Vec<(String, String)> = Vec::new();
    let mut i: usize = 0;
    assert(out.deep_view() =~= Seq::<(Seq<char>, Seq<char>)>::empty());
    while i < s.len()
        invariant
            0 <= i <= s.len(),
            s@ == pins@,
            pin_pairs_from(s@, i as int, out.deep_view()) == pin_pairs_from(s@, 0, Seq::empty()),
        decreases s.len() - i,
    {
        let j = skip_sim_whitespace(&s, i);
        let (symbol_pin, k) = parse_sim_bare_token(&s, j);
        if k == j {
            return out;
        }
        if k < s.len() && s[k] == '=' {
            let (tok, e) = parse_value_token(&s, k + 1);
            let model_pin = seq_to_string(&tok);
            let ghost before = out.deep_view();
            out.push((symbol_pin, model_pin));
            assert(out.deep_view() =~= before.push((s@.subrange(j as int, k as int), tok@)));
            i = e;
        } else {
            i = k;
        }
    }
    out
}

/// `str::eq_ignore_ascii_case` of a character vector and a string.
pub fn eq_ignore_case_str(v: &Vec<char>, t: &str) -> (b: bool)
    ensures
        b == eq_ignore_ascii_case(v@, t@),
{
    let tv = str_to_chars(t);
    if v.len() != tv.len() {
        return false;
    }
    let mut i: usize = 0;
    while i < v.len()
        invariant
            0 <= i <= v.len(),
            v.len() == tv.len(),
            tv@ == t@,
            forall|k: int| 0 <= k < i ==> #[trigger] lower_ascii(v@[k]) == lower_ascii(tv@[k]),
        decreases v.len() - i,
    {
        if to_ascii_lowercase(v[i]) != to_ascii_lowercase(tv[i]) {
            return false;
        }
        i = i + 1;
    }
    true
}

/// How often `x` occurs in `s`.
pub open spec fn count_char(s: Seq<char>, x: char) -> nat
    decreases s.len(),
{
    if s.len() == 0 {
        0
    } else {
        count_char(s.drop_last(), x) + if s.last() == x {
            1nat
        } else {
            0nat
        }
    }
}

/// The digits of `s`, in order.
pub open spec fn digits_of(s: Seq<char>) -> Seq<char>
    decreases s.len(),
{
    if s.len() == 0 {
        s
    } else if is_digit(s.last()) {
        digits_of(s.drop_last()).push(s.last())
    } else {
        digits_of(s.drop_last())
    }
}

/// A character that may stand in a number once spaces are gone: a digit, `.` or `,`.
pub open spec fn is_number_char(c: char) -> bool {
    is_digit(c) || c == '.' || c == ','
}

proof fn lemma_count_prepend(a: char, s: Seq<char>, x: char)
    ensures
        count_char(seq![a] + s, x) == count_char(s, x) + if a == x {
            1nat
        } else {
            0nat
        },
    decreases s.len(),
{
    if s.len() > 0 {
        lemma_count_prepend(a, s.drop_last(), x);
        assert((seq![a] + s).drop_last() =~= seq![a] + s.drop_last());
    } else {
        assert((seq![a] + s).drop_last() =~= s);
    }
}

proof fn lemma_remove_char_facts(s: Seq<char>, y: char, x: char)
    ensures
        count_char(remove_char(s, y), x) == if x == y {
            0nat
        } else {
            count_char(s, x)
        },
        !is_digit(y) ==> digits_of(remove_char(s, y)) == digits_of(s),
        (forall|k: int| 0 <= k < s.len() ==> is_number_char(#[trigger] s[k])) ==> forall|k: int|
            0 <= k < remove_char(s, y).len() ==> is_number_char(#[trigger] remove_char(s, y)[k])
                && remove_char(s, y)[k] != y,
    decreases s.len(),
{
    if s.len() > 0 {
        lemma_remove_char_facts(s.drop_last(), y, x);
        let w = remove_char(s.drop_last(), y);
        if s.last() != y {
            assert(remove_char(s, y).drop_last() =~= w);
            if forall|k: int| 0 <= k < s.len() ==> is_number_char(#[trigger] s[k]) {
                assert(is_number_char(s[s.len() - 1]));
                assert forall|k: int| 0 <= k < remove_char(s, y).len() implies is_number_char(
                    #[trigger] remove_char(s, y)[k],
                ) && remove_char(s, y)[k] != y by {
                    if k < w.len() {
                        assert(remove_char(s, y)[k] == w[k]);
                        assert(forall|m: int| 0 <= m < s.drop_last().len() ==> is_number_char(#[trigger] s.drop_last()[m])) by {
                            assert forall|m: int| 0 <= m < s.drop_last().len() implies is_number_char(#[trigger] s.drop_last()[m]) by {
                                assert(s.drop_last()[m] == s[m]);
                            }
                        }
                    }
                }
            }
        } else {
            if forall|k: int| 0 <= k < s.len() ==> is_number_char(#[trigger] s[k]) {
                assert forall|m: int| 0 <= m < s.drop_last().len() implies is_number_char(#[trigger] s.drop_last()[m]) by {
                    assert(s.drop_last()[m] == s[m]);
                }
            }
        }
    }
}

proof fn lemma_replace_char_facts(s: Seq<char>, d: char)
    ensures
        d != '.' ==> count_char(replace_char(s, d, '.'), '.') == count_char(s, '.') + count_char(s, d),
        d == '.' ==> replace_char(s, d, '.') == s,
        !is_digit(d) ==> digits_of(replace_char(s, d, '.')) == digits_of(s),
    decreases s.len(),
{
    if d == '.' {
        assert(replace_char(s, d, '.') =~= s);
    }
    if s.len() > 0 {
        lemma_replace_char_facts(s.drop_last(), d);
        assert(replace_char(s, d, '.').drop_last() =~= replace_char(s.drop_last(), d, '.'));
        assert(replace_char(s, d, '.').last() == if s.last() == d {
            '.'
        } else {
            s.last()
        });
    }
}

/// What the right-to-left scan has seen of the number from `n` on, in its state: only
/// digits and separators; the decimal separator, once fixed, at most once (and not yet,
/// while none was met); an ambiguous separator alone among the separators.
pub open spec fn scan_seen(c: Seq<char>, n: int, st: SepState) -> bool {
    let tail = c.subrange(n, c.len() as int);
    &&& 0 <= n <= c.len()
    &&& forall|k: int| n <= k < c.len() ==> is_number_char(#[trigger] c[k])
    &&& (st.1 is Some) == (st.3 is Some)
    &&& st.3 is None ==> !st.4
    &&& st.3 matches Some(d) ==> {
        &&& (st.1->0 == '.' || st.1->0 == ',')
        &&& d == other_sep(st.1->0)
        &&& count_char(tail, d) <= 1
        &&& !st.4 ==> count_char(tail, d) == 0
    }
    &&& (st.3 is None && st.0 is Some) ==> {
        let a = st.0->0;
        &&& (a == '.' || a == ',')
        &&& count_char(tail, a) <= 1
        &&& count_char(tail, other_sep(a)) == 0
    }
    &&& (st.3 is None && st.0 is None) ==> count_char(tail, '.') == 0 && count_char(tail, ',') == 0
}

proof fn lemma_sep_scan_seen(c: Seq<char>, n: int, st: SepState)
    requires
        scan_seen(c, n, st),
    ensures
        sep_scan(c, n, st) matches Some(fin) ==> scan_seen(c, 0, fin),
    decreases n,
{
    if n > 0 {
        let ch = c[n - 1];
        let old_tail = c.subrange(n, c.len() as int);
        let new_tail = c.subrange(n - 1, c.len() as int);
        assert(new_tail =~= seq![ch] + old_tail);
        lemma_count_prepend(ch, old_tail, '.');
        lemma_count_prepend(ch, old_tail, ',');
        match sep_step(c, n - 1, st) {
            Some(next) => {
                assert(is_number_char(ch));
                assert forall|k: int| n - 1 <= k < c.len() implies is_number_char(#[trigger] c[k]) by {
                    if k >= n {
                        assert(is_number_char(c[k]));
                    }
                }
                assert(scan_seen(c, n - 1, next));
                lemma_sep_scan_seen(c, n - 1, next);
            },
            None => {},
        }
    }
}

proof fn lemma_sep_scan_rejects(c: Seq<char>, n: int, st: SepState, k: int)
    requires
        0 <= k < n <= c.len(),
        !is_number_char(c[k]),
    ensures
        sep_scan(c, n, st) is None,
    decreases n,
{
    if n - 1 > k {
        match sep_step(c, n - 1, st) {
            Some(next) => lemma_sep_scan_rejects(c, n - 1, next, k),
            None => {},
        }
    }
}

/// The number part of an SI value: with its spaces gone, an empty text or one that holds
/// anything but digits, `.` and `,` is refused; what is accepted comes back as digits
/// with at most one `.`, its digits those of the input, in order.
pub proof fn law_si_mantissa_shape(m: Seq<char>)
    ensures
        remove_char(m, ' ').len() == 0 ==> si_mantissa(m) is None,
        (exists|k: int| 0 <= k < remove_char(m, ' ').len() && !is_number_char(#[trigger] remove_char(m, ' ')[k]))
            ==> si_mantissa(m) is None,
        si_mantissa(m) matches Some(r) ==> {
            &&& forall|k: int| 0 <= k < r.len() ==> is_digit(#[trigger] r[k]) || r[k] == '.'
            &&& count_char(r, '.') <= 1
            &&& digits_of(r) == digits_of(m)
        },
{
    let c = remove_char(m, ' ');
    lemma_remove_char_facts(m, ' ', '.');
    let init: SepState = (None, None, false, None, false, 0);
    if exists|k: int| 0 <= k < c.len() && !is_number_char(#[trigger] c[k]) {
        let k = choose|k: int| 0 <= k < c.len() && !is_number_char(#[trigger] c[k]);
        lemma_sep_scan_rejects(c, c.len() as int, init, k);
    }
    if c.len() > 0 {
        assert(c.subrange(c.len() as int, c.len() as int) =~= Seq::<char>::empty());
        assert(scan_seen(c, c.len() as int, init));
        lemma_sep_scan_seen(c, c.len() as int, init);
        match sep_scan(c, c.len() as int, init) {
            Some(st) => {
                assert(c.subrange(0, c.len() as int) =~= c);
                let dec = if st.3 is None && st.1 is None {
                    '.'
                } else {
                    st.3->0
                };
                let thou = if st.3 is None && st.1 is None {
                    ','
                } else {
                    st.1->0
                };
                assert(dec == other_sep(thou));
                assert(thou == '.' || thou == ',');
                let w = remove_char(c, thou);
                lemma_remove_char_facts(c, thou, '.');
                lemma_remove_char_facts(c, thou, ',');
                lemma_remove_char_facts(c, thou, dec);
                lemma_replace_char_facts(w, dec);
                lemma_remove_char_facts(c, thou, thou);
                let r = replace_char(w, dec, '.');
                assert(si_mantissa(m) == Some(r));
                assert(count_char(c, dec) <= 1);
                assert forall|k: int| 0 <= k < r.len() implies is_digit(#[trigger] r[k]) || r[k] == '.' by {
                    assert(is_number_char(w[k]) && w[k] != thou);
                }
            },
            None => {},
        }
    }
}

/// A parameter name as a parse gives it: not empty, and holding no white space and no `=`.
pub open spec fn plain_param_name(k: Seq<char>) -> bool {
    k.len() > 0 && forall|c: int| 0 <= c < k.len() ==> !is_ws(#[trigger] k[c]) && k[c] != '='
}

proof fn lemma_param_pairs_names(s: Seq<char>, i: int, acc: Seq<(Seq<char>, Seq<char>)>)
    requires
        forall|m: int| 0 <= m < acc.len() ==> plain_param_name(#[trigger] acc[m].0),
    ensures
        forall|m: int| 0 <= m < param_pairs_from(s, i, acc).len() ==> plain_param_name(
            #[trigger] param_pairs_from(s, i, acc)[m].0,
        ),
        acc.len() <= param_pairs_from(s, i, acc).len(),
        forall|m: int| 0 <= m < acc.len() ==> #[trigger] param_pairs_from(s, i, acc)[m] == acc[m],
    decreases s.len() - i,
{
    if 0 <= i < s.len() {
        let j = skip_ws_from(s, i);
        lemma_skip_ws_from(s, i);
        lemma_bare_end(s, j);
        let k = bare_end(s, j);
        if k != j {
            let key = s.subrange(j, k);
            assert forall|c: int| 0 <= c < key.len() implies !is_ws(#[trigger] key[c]) && key[c] != '=' by {
                assert(key[c] == s[j + c]);
                assert(!ends_bare(s[j + c]));
            }
            if k < s.len() && s[k] == '=' {
                let t = value_token(s, k + 1);
                lemma_value_token(s, k + 1);
                let acc2 = acc.push((key, sim_param_value(t.0)));
                assert forall|m: int| 0 <= m < acc2.len() implies plain_param_name(#[trigger] acc2[m].0) by {
                    if m < acc.len() {
                        assert(acc2[m] == acc[m]);
                    }
                }
                lemma_param_pairs_names(s, t.1, acc2);
                assert forall|m: int| 0 <= m < acc.len() implies #[trigger] param_pairs_from(s, i, acc)[m] == acc[m] by {
                    assert(param_pairs_from(s, t.1, acc2)[m] == acc2[m]);
                }
            } else {
                let acc2 = acc.push((key, "1"@));
                assert forall|m: int| 0 <= m < acc2.len() implies plain_param_name(#[trigger] acc2[m].0) by {
                    if m < acc.len() {
                        assert(acc2[m] == acc[m]);
                    }
                }
                lemma_param_pairs_names(s, k, acc2);
                assert forall|m: int| 0 <= m < acc.len() implies #[trigger] param_pairs_from(s, i, acc)[m] == acc[m] by {
                    assert(param_pairs_from(s, k, acc2)[m] == acc2[m]);
                }
            }
        }
    }
}

/// Every name that parsing `Sim.Params` gives is a plain word: not empty, with no white
/// space and no `=`.
pub proof fn law_param_names_are_plain_words(s: Seq<char>)
    ensures
        forall|m: int| 0 <= m < param_pairs_from(s, 0, Seq::empty()).len() ==> plain_param_name(
            #[trigger] param_pairs_from(s, 0, Seq::empty())[m].0,
        ),
{
    lemma_param_pairs_names(s, 0, Seq::empty());
}

} // verus!
