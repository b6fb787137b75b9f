//! Natural ("human") ordering of text that contains numbers: runs of digits
//! compare by their value, other characters one by one.

use crate::text::{is_ascii_digit, is_digit, lower_ascii, to_ascii_lowercase};
use vstd::prelude::*;

verus! {

/// The outcome of comparing two values: less, equal or greater.
#[derive(Debug, Clone, Copy, PartialEq, Eq, Structural)]
pub enum TextOrder {
    Less,
    Equal,
    Greater,
}

/// The opposite ordering.
pub open spec fn flip(o: TextOrder) -> TextOrder {
    match o {
        TextOrder::Less => TextOrder::Greater,
        TextOrder::Equal => TextOrder::Equal,
        TextOrder::Greater => TextOrder::Less,
    }
}

/// Order of two integers.
pub open spec fn int_order(x: int, y: int) -> TextOrder {
    if x < y {
        TextOrder::Less
    } else if x > y {
        TextOrder::Greater
    } else {
        TextOrder::Equal
    }
}

/// Order of two characters by code point.
pub open spec fn char_order(x: char, y: char) -> TextOrder {
    if x < y {
        TextOrder::Less
    } else if x > y {
        TextOrder::Greater
    } else {
        TextOrder::Equal
    }
}

/// Lexicographic ordering of two character sequences (the ordering of `str` and `String`).
pub open spec fn lex_order(x: Seq<char>, y: Seq<char>) -> TextOrder
    decreases x.len(),
{
    if x.len() == 0 && y.len() == 0 {
        TextOrder::Equal
    } else if x.len() == 0 {
        TextOrder::Less
    } else if y.len() == 0 {
        TextOrder::Greater
    } else if x[0] != y[0] {
        char_order(x[0], y[0])
    } else {
        lex_order(x.drop_first(), y.drop_first())
    }
}

/// Position at which the run of digits that starts at `i` ends.
pub open spec fn digit_run_end(s: Seq<char>, i: int) -> int
    decreases s.len() - i,
{
    if 0 <= i < s.len() && is_digit(s[i]) {
        digit_run_end(s, i + 1)
    } else {
        i
    }
}

/// The digits without leading zeros.
pub open spec fn strip_zeros(s: Seq<char>) -> Seq<char>
    decreases s.len(),
{
    if s.len() > 0 && s[0] == '0' {
        strip_zeros(s.drop_first())
    } else {
        s
    }
}

/// The digits without leading zeros, `0` where nothing else is left.
pub open spec fn norm_digits(s: Seq<char>) -> Seq<char> {
    if strip_zeros(s).len() == 0 {
        seq!['0']
    } else {
        strip_zeros(s)
    }
}

/// Order of two digit runs: by value, then (where `tie_len` holds) the shorter run first.
pub open spec fn run_order(x: Seq<char>, y: Seq<char>, tie_len: bool) -> TextOrder {
    let nx = norm_digits(x);
    let ny = norm_digits(y);
    if nx.len() != ny.len() {
        int_order(nx.len() as int, ny.len() as int)
    } else if lex_order(nx, ny) != TextOrder::Equal {
        lex_order(nx, ny)
    } else if tie_len {
        int_order(x.len() as int, y.len() as int)
    } else {
        TextOrder::Equal
    }
}

/// A character as compared: folded to lower case where `fold` holds.
pub open spec fn fold_char(c: char, fold: bool) -> char {
    if fold {
        lower_ascii(c)
    } else {
        c
    }
}

pub proof fn lemma_digit_run_end(s: Seq<char>, i: int)
    requires
        0 <= i <= s.len(),
    ensures
        i <= digit_run_end(s, i) <= s.len(),
        i < s.len() && is_digit(s[i]) ==> i < digit_run_end(s, i),
        forall|k: int| i <= k < digit_run_end(s, i) ==> is_digit(#[trigger] s[k]),
        digit_run_end(s, i) < s.len() ==> !is_digit(s[digit_run_end(s, i)]),
    decreases s.len() - i,
{
    if 0 <= i < s.len() && is_digit(s[i]) {
        lemma_digit_run_end(s, i + 1);
    }
}

/// Natural ordering of `a[i..]` and `b[j..]`.
pub open spec fn natural_order_from(
    a: Seq<char>,
    b: Seq<char>,
    i: int,
    j: int,
    fold: bool,
    tie_len: bool,
) -> TextOrder
    decreases (a.len() - i) + (b.len() - j),
{
    if i < 0 || j < 0 || (i >= a.len() && j >= b.len()) {
        TextOrder::Equal
    } else if i >= a.len() {
        TextOrder::Less
    } else if j >= b.len() {
        TextOrder::Greater
    } else if is_digit(a[i]) && is_digit(b[j]) {
        let ea = digit_run_end(a, i);
        let eb = digit_run_end(b, j);
        proof {
            lemma_digit_run_end(a, i);
            lemma_digit_run_end(b, j);
        }
        let c = run_order(a.subrange(i, ea), b.subrange(j, eb), tie_len);
        if c != TextOrder::Equal {
            c
        } else {
            natural_order_from(a, b, ea, eb, fold, tie_len)
        }
    } else if fold_char(a[i], fold) != fold_char(b[j], fold) {
        char_order(fold_char(a[i], fold), fold_char(b[j], fold))
    } else {
        natural_order_from(a, b, i + 1, j + 1, fold, tie_len)
    }
}

/// Natural ordering of two whole sequences.
pub open spec fn natural_order(a: Seq<char>, b: Seq<char>, fold: bool, tie_len: bool) -> TextOrder {
    natural_order_from(a, b, 0, 0, fold, tie_len)
}

pub proof fn lemma_int_order_flip(x: int, y: int)
    ensures
        int_order(x, y) == flip(int_order(y, x)),
{
}

pub proof fn lemma_lex_order_flip(x: Seq<char>, y: Seq<char>)
    ensures
        lex_order(x, y) == flip(lex_order(y, x)),
        lex_order(x, y) == TextOrder::Equal <==> x == y,
    decreases x.len(),
{
    if x.len() == 0 && y.len() == 0 {
        assert(x =~= y);
    } else if x.len() == 0 || y.len() == 0 {
        assert(x.len() != y.len());
    } else if x[0] != y[0] {
        assert(x != y);
    } else {
        lemma_lex_order_flip(x.drop_first(), y.drop_first());
        assert(x =~= seq![x[0]] + x.drop_first());
        assert(y =~= seq![y[0]] + y.drop_first());
        if x == y {
            assert(x.drop_first() == y.drop_first());
        }
    }
}

/// Lexicographic order is transitive: a text before a second, itself before a third, is
/// before the third.
pub proof fn lemma_lex_order_transitive(x: Seq<char>, y: Seq<char>, z: Seq<char>)
    requires
        lex_order(x, y) == TextOrder::Less,
        lex_order(y, z) == TextOrder::Less,
    ensures
        lex_order(x, z) == TextOrder::Less,
    decreases x.len(),
{
    if x.len() > 0 && y.len() > 0 && z.len() > 0 && x[0] == y[0] && y[0] == z[0] {
        lemma_lex_order_transitive(x.drop_first(), y.drop_first(), z.drop_first());
    }
}


pub proof fn lemma_run_order_flip(x: Seq<char>, y: Seq<char>, tie_len: bool)
    ensures
        run_order(x, y, tie_len) == flip(run_order(y, x, tie_len)),
{
    lemma_lex_order_flip(norm_digits(x), norm_digits(y));
}

/// Swapping the two sides reverses the natural ordering.
pub proof fn lemma_natural_order_from_flip(
    a: Seq<char>,
    b: Seq<char>,
    i: int,
    j: int,
    fold: bool,
    tie_len: bool,
)
    ensures
        natural_order_from(a, b, i, j, fold, tie_len) == flip(
            natural_order_from(b, a, j, i, fold, tie_len),
        ),
    decreases (a.len() - i) + (b.len() - j),
{
    if i < 0 || j < 0 || (i >= a.len() && j >= b.len()) {
    } else if i >= a.len() {
    } else if j >= b.len() {
    } else if is_digit(a[i]) && is_digit(b[j]) {
        lemma_digit_run_end(a, i);
        lemma_digit_run_end(b, j);
        lemma_run_order_flip(
            a.subrange(i, digit_run_end(a, i)),
            b.subrange(j, digit_run_end(b, j)),
            tie_len,
        );
        lemma_natural_order_from_flip(a, b, digit_run_end(a, i), digit_run_end(b, j), fold, tie_len);
    } else if fold_char(a[i], fold) != fold_char(b[j], fold) {
    } else {
        lemma_natural_order_from_flip(a, b, i + 1, j + 1, fold, tie_len);
    }
}

/// A text compares equal to itself.
pub proof fn lemma_natural_order_from_refl(a: Seq<char>, i: int, fold: bool, tie_len: bool)
    ensures
        natural_order_from(a, a, i, i, fold, tie_len) == TextOrder::Equal,
    decreases a.len() - i,
{
    if i < 0 || i >= a.len() {
    } else if is_digit(a[i]) {
        lemma_digit_run_end(a, i);
        lemma_lex_order_flip(
            norm_digits(a.subrange(i, digit_run_end(a, i))),
            norm_digits(a.subrange(i, digit_run_end(a, i))),
        );
        lemma_natural_order_from_refl(a, digit_run_end(a, i), fold, tie_len);
    } else {
        lemma_natural_order_from_refl(a, i + 1, fold, tie_len);
    }
}

/// The text with every character as compared: folded to lower case where `fold` holds.
pub open spec fn fold_seq(s: Seq<char>, fold: bool) -> Seq<char> {
    Seq::new(s.len(), |k: int| fold_char(s[k], fold))
}

/// The folded text of `a` from position `i` on.
pub open spec fn folded_tail(a: Seq<char>, i: int, fold: bool) -> Seq<char> {
    fold_seq(a.subrange(i, a.len() as int), fold)
}

proof fn lemma_fold_keeps_digits(c: char, fold: bool)
    ensures
        is_digit(fold_char(c, fold)) == is_digit(c),
        is_digit(c) ==> fold_char(c, fold) == c,
{
    if fold && 'A' <= c && c <= 'Z' {
        assert((c as u32) + 32 >= 'a' as u32);
        assert(((c as u32) + 32) as char == lower_ascii(c));
        assert(lower_ascii(c) as u32 >= 97);
    }
}

proof fn lemma_strip_zeros(s: Seq<char>)
    ensures
        strip_zeros(s).len() <= s.len(),
        strip_zeros(s) =~= s.subrange(s.len() - strip_zeros(s).len(), s.len() as int),
        forall|k: int| 0 <= k < s.len() - strip_zeros(s).len() ==> s[k] == '0',
        strip_zeros(s).len() > 0 ==> strip_zeros(s)[0] != '0',
    decreases s.len(),
{
    if s.len() > 0 && s[0] == '0' {
        lemma_strip_zeros(s.drop_first());
        assert forall|k: int| 0 <= k < s.len() - strip_zeros(s).len() implies s[k] == '0' by {
            if k > 0 {
                assert(s[k] == s.drop_first()[k - 1]);
            }
        }
    } else {
        assert(s.subrange(0, s.len() as int) =~= s);
    }
}

/// Two digit runs are equal in order, lengths counted, exactly where they are the same.
proof fn lemma_run_order_equal(x: Seq<char>, y: Seq<char>)
    ensures
        run_order(x, y, true) == TextOrder::Equal <==> x == y,
{
    lemma_lex_order_flip(norm_digits(x), norm_digits(y));
    lemma_strip_zeros(x);
    lemma_strip_zeros(y);
    if run_order(x, y, true) == TextOrder::Equal {
        let sx = strip_zeros(x);
        let sy = strip_zeros(y);
        assert(norm_digits(x) == norm_digits(y));
        if sx.len() == 0 && sy.len() > 0 {
            assert(sy == seq!['0']);
            assert(sy[0] == '0');
        }
        if sy.len() == 0 && sx.len() > 0 {
            assert(sx == seq!['0']);
            assert(sx[0] == '0');
        }
        assert(sx == sy);
        assert(x.len() == y.len());
        let z = x.len() - sx.len();
        assert forall|k: int| 0 <= k < x.len() implies x[k] == y[k] by {
            if k >= z {
                assert(sx[k - z] == x[k]);
                assert(sy[k - z] == y[k]);
            }
        }
        assert(x =~= y);
    }
}

proof fn lemma_run_end_folded(a: Seq<char>, b: Seq<char>, i: int, j: int, fold: bool)
    requires
        0 <= i <= a.len(),
        0 <= j <= b.len(),
        folded_tail(a, i, fold) == folded_tail(b, j, fold),
    ensures
        digit_run_end(a, i) - i == digit_run_end(b, j) - j,
        a.subrange(i, digit_run_end(a, i)) == b.subrange(j, digit_run_end(b, j)),
    decreases a.len() - i,
{
    lemma_digit_run_end(a, i);
    lemma_digit_run_end(b, j);
    let ta = folded_tail(a, i, fold);
    let tb = folded_tail(b, j, fold);
    assert(ta.len() == tb.len());
    if i < a.len() {
        assert(ta[0] == tb[0]);
        assert(ta[0] == fold_char(a[i], fold));
        assert(tb[0] == fold_char(b[j], fold));
        lemma_fold_keeps_digits(a[i], fold);
        lemma_fold_keeps_digits(b[j], fold);
        if is_digit(a[i]) {
            assert(folded_tail(a, i + 1, fold) =~= ta.drop_first());
            assert(folded_tail(b, j + 1, fold) =~= tb.drop_first());
            lemma_run_end_folded(a, b, i + 1, j + 1, fold);
            assert(a.subrange(i, digit_run_end(a, i)) =~= seq![a[i]] + a.subrange(i + 1, digit_run_end(a, i + 1)));
            assert(b.subrange(j, digit_run_end(b, j)) =~= seq![b[j]] + b.subrange(j + 1, digit_run_end(b, j + 1)));
        } else {
            assert(a.subrange(i, i) =~= b.subrange(j, j));
        }
    } else {
        assert(a.subrange(i, i) =~= b.subrange(j, j));
    }
}

/// With digit runs told apart by their length, two tails compare equal exactly where they
/// are the same text once folded.
pub proof fn lemma_natural_order_from_equal(a: Seq<char>, b: Seq<char>, i: int, j: int, fold: bool)
    requires
        0 <= i <= a.len(),
        0 <= j <= b.len(),
    ensures
        natural_order_from(a, b, i, j, fold, true) == TextOrder::Equal <==> folded_tail(a, i, fold)
            == folded_tail(b, j, fold),
    decreases (a.len() - i) + (b.len() - j),
{
    let ta = folded_tail(a, i, fold);
    let tb = folded_tail(b, j, fold);
    if i >= a.len() && j >= b.len() {
        assert(ta =~= tb);
    } else if i >= a.len() || j >= b.len() {
        assert(ta.len() != tb.len());
    } else if is_digit(a[i]) && is_digit(b[j]) {
        lemma_digit_run_end(a, i);
        lemma_digit_run_end(b, j);
        let ea = digit_run_end(a, i);
        let eb = digit_run_end(b, j);
        let x = a.subrange(i, ea);
        let y = b.subrange(j, eb);
        lemma_run_order_equal(x, y);
        lemma_natural_order_from_equal(a, b, ea, eb, fold);
        assert(ta =~= fold_seq(x, fold) + folded_tail(a, ea, fold));
        assert(tb =~= fold_seq(y, fold) + folded_tail(b, eb, fold));
        if ta == tb {
            lemma_run_end_folded(a, b, i, j, fold);
            assert(folded_tail(a, ea, fold) =~= ta.subrange(ea - i, ta.len() as int));
            assert(folded_tail(b, eb, fold) =~= tb.subrange(eb - j, tb.len() as int));
        }
    } else {
        lemma_fold_keeps_digits(a[i], fold);
        lemma_fold_keeps_digits(b[j], fold);
        assert(ta[0] == fold_char(a[i], fold));
        assert(tb[0] == fold_char(b[j], fold));
        if fold_char(a[i], fold) == fold_char(b[j], fold) {
            lemma_natural_order_from_equal(a, b, i + 1, j + 1, fold);
            assert(folded_tail(a, i + 1, fold) =~= ta.drop_first());
            assert(folded_tail(b, j + 1, fold) =~= tb.drop_first());
            if folded_tail(a, i + 1, fold) == folded_tail(b, j + 1, fold) {
                assert(ta.len() == tb.len());
                assert forall|k: int| 0 <= k < ta.len() implies ta[k] == tb[k] by {
                    if k > 0 {
                        assert(ta[k] == ta.drop_first()[k - 1]);
                        assert(tb[k] == tb.drop_first()[k - 1]);
                    }
                }
                assert(ta =~= tb);
            }
        }
    }
}

/// Order of two integers.
pub fn order_i64(x: i64, y: i64) -> (r: TextOrder)
    ensures
        r == int_order(x as int, y as int),
{
    if x < y {
        TextOrder::Less
    } else if x > y {
        TextOrder::Greater
    } else {
        TextOrder::Equal
    }
}

/// Order of two sizes.
pub fn order_usize(x: usize, y: usize) -> (r: TextOrder)
    ensures
        r == int_order(x as int, y as int),
{
    if x < y {
        TextOrder::Less
    } else if x > y {
        TextOrder::Greater
    } else {
        TextOrder::Equal
    }
}

/// Lexicographic ordering of `a[alo..ahi]` and `b[blo..bhi]`.
pub fn lex_order_range(a: &Vec<char>, alo: usize, ahi: usize, b: &Vec<char>, blo: usize, bhi: usize) -> (r:
    TextOrder)
    requires
        alo <= ahi <= a.len(),
        blo <= bhi <= b.len(),
    ensures
        r == lex_order(a@.subrange(alo as int, ahi as int), b@.subrange(blo as int, bhi as int)),
{
    let mut i = alo;
    let mut j = blo;
    while i < ahi && j < bhi
        invariant
            alo <= i <= ahi <= a.len(),
            blo <= j <= bhi <= b.len(),
            i - alo == j - blo,
            lex_order(a@.subrange(alo as int, ahi as int), b@.subrange(blo as int, bhi as int))
                == lex_order(a@.subrange(i as int, ahi as int), b@.subrange(j as int, bhi as int)),
        decreases ahi - i,
    {
        let ghost x = a@.subrange(i as int, ahi as int);
        let ghost y = b@.subrange(j as int, bhi as int);
        assert(x[0] == a@[i as int] && y[0] == b@[j as int]);
        if a[i] < b[j] {
            return TextOrder::Less;
        } else if a[i] > b[j] {
            return TextOrder::Greater;
        }
        assert(x.drop_first() =~= a@.subrange(i + 1, ahi as int));
        assert(y.drop_first() =~= b@.subrange(j + 1, bhi as int));
        i = i + 1;
        j = j + 1;
    }
    if i == ahi && j == bhi {
        TextOrder::Equal
    } else if i == ahi {
        TextOrder::Less
    } else {
        TextOrder::Greater
    }
}

/// End of the run of digits that starts at `i`.
pub fn digit_run_end_exec(s: &Vec<char>, i: usize) -> (r: usize)
    requires
        i <= s.len(),
    ensures
        r == digit_run_end(s@, i as int),
        i <= r <= s.len(),
{
    let mut k = i;
    while k < s.len() && is_ascii_digit(s[k])
        invariant
            i <= k <= s.len(),
            digit_run_end(s@, i as int) == digit_run_end(s@, k as int),
        decreases s.len() - k,
    {
        k = k + 1;
    }
    k
}

/// Bounds of the normalized digits of `s[lo..hi]` (leading zeros dropped); `None` where
/// only zeros (or nothing) stand there, whose normal form is `0`.
fn strip_zeros_bounds(s: &Vec<char>, lo: usize, hi: usize) -> (r: usize)
    requires
        lo <= hi <= s.len(),
    ensures
        lo <= r <= hi,
        s@.subrange(r as int, hi as int) == strip_zeros(s@.subrange(lo as int, hi as int)),
{
    let mut k = lo;
    while k < hi && s[k] == '0'
        invariant
            lo <= k <= hi <= s.len(),
            strip_zeros(s@.subrange(lo as int, hi as int)) == strip_zeros(s@.subrange(k as int, hi as int)),
        decreases hi - k,
    {
        assert(s@.subrange(k as int, hi as int).drop_first() =~= s@.subrange(k + 1, hi as int));
        k = k + 1;
    }
    k
}

/// Order of the digit runs `a[alo..ahi]` and `b[blo..bhi]`.
pub fn run_order_exec(
    a: &Vec<char>,
    alo: usize,
    ahi: usize,
    b: &Vec<char>,
    blo: usize,
    bhi: usize,
    tie_len: bool,
) -> (r: TextOrder)
    requires
        alo <= ahi <= a.len(),
        blo <= bhi <= b.len(),
    ensures
        r == run_order(a@.subrange(alo as int, ahi as int), b@.subrange(blo as int, bhi as int), tie_len),
{
    let ghost x = a@.subrange(alo as int, ahi as int);
    let ghost y = b@.subrange(blo as int, bhi as int);
    let sa = strip_zeros_bounds(a, alo, ahi);
    let sb = strip_zeros_bounds(b, blo, bhi);
    let zero: Vec<char> = vec!['0'];
    assert(zero@ =~= seq!['0']);
    assert(zero@.subrange(0, 1) =~= zero@);
    let (na, na_lo, na_hi) = if sa == ahi {
        (&zero, 0usize, 1usize)
    } else {
        (a, sa, ahi)
    };
    let (nb, nb_lo, nb_hi) = if sb == bhi {
        (&zero, 0usize, 1usize)
    } else {
        (b, sb, bhi)
    };
    assert(na@.subrange(na_lo as int, na_hi as int) == norm_digits(x));
    assert(nb@.subrange(nb_lo as int, nb_hi as int) == norm_digits(y));
    let la = na_hi - na_lo;
    let lb = nb_hi - nb_lo;
    if la != lb {
        return order_usize(la, lb);
    }
    let c = lex_order_range(na, na_lo, na_hi, nb, nb_lo, nb_hi);
    match c {
        TextOrder::Equal => {
            if tie_len {
                order_usize(ahi - alo, bhi - blo)
            } else {
                TextOrder::Equal
            }
        },
        _ => c,
    }
}

/// Natural ordering of two character vectors; `fold` compares letters without regard to
/// ASCII case, `tie_len` orders equal-valued digit runs by length.
pub fn natural_order_exec(a: &Vec<char>, b: &Vec<char>, fold: bool, tie_len: bool) -> (r: TextOrder)
    ensures
        r == natural_order(a@, b@, fold, tie_len),
{
    let mut i: usize = 0;
    let mut j: usize = 0;
    loop
        invariant
            0 <= i <= a.len(),
            0 <= j <= b.len(),
            natural_order(a@, b@, fold, tie_len) == natural_order_from(a@, b@, i as int, j as int, fold, tie_len),
        decreases (a.len() - i) + (b.len() - j),
    {
        if i >= a.len() && j >= b.len() {
            return TextOrder::Equal;
        }
        if i >= a.len() {
            return TextOrder::Less;
        }
        if j >= b.len() {
            return TextOrder::Greater;
        }
        if is_ascii_digit(a[i]) && is_ascii_digit(b[j]) {
            let ea = digit_run_end_exec(a, i);
            let eb = digit_run_end_exec(b, j);
            proof {
                lemma_digit_run_end(a@, i as int);
                lemma_digit_run_end(b@, j as int);
            }
            let c = run_order_exec(a, i, ea, b, j, eb, tie_len);
            match c {
                TextOrder::Equal => {},
                _ => {
                    return c;
                },
            }
            i = ea;
            j = eb;
        } else {
            let ca = if fold {
                to_ascii_lowercase(a[i])
            } else {
                a[i]
            };
            let cb = if fold {
                to_ascii_lowercase(b[j])
            } else {
                b[j]
            };
            if ca < cb {
                return TextOrder::Less;
            } else if ca > cb {
                return TextOrder::Greater;
            }
            i = i + 1;
            j = j + 1;
        }
    }
}

/// The standard-library ordering that a comparison outcome stands for.
pub open spec fn to_ordering(o: TextOrder) -> std::cmp::Ordering {
    match o {
        TextOrder::Less => std::cmp::Ordering::Less,
        TextOrder::Equal => std::cmp::Ordering::Equal,
        TextOrder::Greater => std::cmp::Ordering::Greater,
    }
}

/// Converts a comparison outcome to the standard-library ordering.
pub fn into_ordering(o: TextOrder) -> (r: std::cmp::Ordering)
    ensures
        r == to_ordering(o),
{
    match o {
        TextOrder::Less => std::cmp::Ordering::Less,
        TextOrder::Equal => std::cmp::Ordering::Equal,
        TextOrder::Greater => std::cmp::Ordering::Greater,
    }
}

} // verus!
