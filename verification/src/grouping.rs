//! Grouping items by a text key: one group per key that occurs, keys in increasing text
//! order, each group the positions of its items in their original order. Reports and rule
//! checks list their items this way.

use crate::natural::{lemma_lex_order_flip, lemma_lex_order_transitive, lex_order, TextOrder};
use vstd::prelude::*;

verus! {

/// The positions below `n` whose key is `key`, in order.
pub open spec fn positions_of(keys: Seq<Seq<char>>, key: Seq<char>, n: int) -> Seq<usize>
    decreases n,
{
    if n <= 0 {
        Seq::empty()
    } else {
        let r = positions_of(keys, key, n - 1);
        if keys[n - 1] == key {
            r.push((n - 1) as usize)
        } else {
            r
        }
    }
}

/// Texts in strictly increasing lexicographic order.
pub open spec fn strictly_sorted(s: Seq<Seq<char>>) -> bool {
    forall|i: int, j: int| 0 <= i < j < s.len() ==> lex_order(#[trigger] s[i], #[trigger] s[j]) == TextOrder::Less
}

/// Some group is listed under the key.
pub open spec fn key_listed(g: Seq<(Seq<char>, Seq<usize>)>, key: Seq<char>) -> bool {
    exists|k: int| 0 <= k < g.len() && (#[trigger] g[k]).0 == key
}

/// `g` groups the positions of `keys` by key: one group per key that occurs, keys in
/// increasing text order, each group the positions with its key in order.
pub open spec fn is_key_grouping(keys: Seq<Seq<char>>, g: Seq<(Seq<char>, Seq<usize>)>) -> bool {
    &&& forall|i: int, j: int| 0 <= i < j < g.len() ==> lex_order(#[trigger] g[i].0, #[trigger] g[j].0) == TextOrder::Less
    &&& forall|k: int| 0 <= k < g.len() ==> (#[trigger] g[k]).1 == positions_of(keys, g[k].0, keys.len() as int)
    &&& forall|k: int| 0 <= k < g.len() ==> (#[trigger] g[k]).1.len() > 0
    &&& forall|i: int| 0 <= i < keys.len() ==> key_listed(g, #[trigger] keys[i])
}

/// The keys of a grouping.
pub open spec fn group_keys(g: Seq<(Seq<char>, Seq<usize>)>) -> Seq<Seq<char>> {
    g.map_values(|e: (Seq<char>, Seq<usize>)| e.0)
}

proof fn lemma_positions_nonempty(keys: Seq<Seq<char>>, key: Seq<char>, n: int, j: int)
    requires
        0 <= j < n <= keys.len(),
        keys[j] == key,
    ensures
        positions_of(keys, key, n).len() > 0,
    decreases n,
{
    if j < n - 1 {
        lemma_positions_nonempty(keys, key, n - 1, j);
    }
}

/// Every position in a group is below `n` and has the group's key.
pub proof fn lemma_positions_bounded(keys: Seq<Seq<char>>, key: Seq<char>, n: int)
    requires
        0 <= n <= usize::MAX,
        n <= keys.len(),
    ensures
        forall|m: int| 0 <= m < positions_of(keys, key, n).len() ==> #[trigger] positions_of(keys, key, n)[m] < n
            && keys[positions_of(keys, key, n)[m] as int] == key,
    decreases n,
{
    if n > 0 {
        lemma_positions_bounded(keys, key, n - 1);
        let r = positions_of(keys, key, n - 1);
        let p = positions_of(keys, key, n);
        assert forall|m: int| 0 <= m < p.len() implies #[trigger] p[m] < n && keys[p[m] as int] == key by {
            if m < r.len() {
                assert(p[m] == r[m]);
            } else {
                assert(p[m] == (n - 1) as usize);
            }
        }
    }
}

/// A nonempty list of positions has some position with the key.
proof fn lemma_positions_witness(keys: Seq<Seq<char>>, key: Seq<char>, n: int)
    requires
        0 <= n <= usize::MAX,
        n <= keys.len(),
        positions_of(keys, key, n).len() > 0,
    ensures
        exists|i: int| 0 <= i < keys.len() && #[trigger] keys[i] == key,
{
    lemma_positions_bounded(keys, key, n);
    let p = positions_of(keys, key, n);
    assert(keys[p[0] as int] == key);
}

fn string_lex_order(a: &String, b: &String) -> (r: TextOrder)
    ensures
        r == lex_order(a@, b@),
{
    let av = crate::text::str_to_chars(a.as_str());
    let bv = crate::text::str_to_chars(b.as_str());
    assert(av@.subrange(0, av@.len() as int) =~= av@);
    assert(bv@.subrange(0, bv@.len() as int) =~= bv@);
    crate::natural::lex_order_range(&av, 0, av.len(), &bv, 0, bv.len())
}

fn insert_sorted_key(keys: &mut Vec<String>, key: String)
    requires
        strictly_sorted(old(keys).deep_view()),
    ensures
        strictly_sorted(final(keys).deep_view()),
        forall|x: Seq<char>| final(keys).deep_view().contains(x) <==> (old(keys).deep_view().contains(x) || x == key@),
{
    let ghost kv = keys.deep_view();
    let mut p: usize = 0;
    while p < keys.len() && string_lex_order(&keys[p], &key) == TextOrder::Less
        invariant
            0 <= p <= keys.len(),
            kv == keys.deep_view(),
            forall|q: int| 0 <= q < p ==> lex_order(#[trigger] kv[q], key@) == TextOrder::Less,
        decreases keys.len() - p,
    {
        assert(keys@[p as int]@ == kv[p as int]);
        p = p + 1;
    }
    if p < keys.len() && keys[p] == key {
        assert(kv[p as int] == key@);
        return;
    }
    proof {
        if p < keys.len() {
            assert(keys@[p as int]@ == kv[p as int]);
            lemma_lex_order_flip(kv[p as int], key@);
            assert(lex_order(key@, kv[p as int]) == TextOrder::Less);
            assert forall|q: int| p < q < kv.len() implies lex_order(key@, #[trigger] kv[q]) == TextOrder::Less by {
                lemma_lex_order_transitive(key@, kv[p as int], kv[q]);
            }
        }
    }
    let ghost kval = key@;
    keys.insert(p, key);
    let ghost nv = keys.deep_view();
    assert(nv =~= kv.insert(p as int, kval));
    assert forall|a: int, b: int| 0 <= a < b < nv.len() implies lex_order(#[trigger] nv[a], #[trigger] nv[b])
        == TextOrder::Less by {
        if b < p {
            assert(nv[a] == kv[a] && nv[b] == kv[b]);
        } else if b == p {
            assert(nv[a] == kv[a]);
        } else if a == p {
            assert(nv[b] == kv[b - 1]);
        } else if a < p {
            assert(nv[a] == kv[a] && nv[b] == kv[b - 1]);
        } else {
            assert(nv[a] == kv[a - 1] && nv[b] == kv[b - 1]);
        }
    }
    assert forall|x: Seq<char>| nv.contains(x) <==> (kv.contains(x) || x == kval) by {
        if nv.contains(x) {
            let k = choose|k: int| 0 <= k < nv.len() && nv[k] == x;
            if k < p {
                assert(kv[k] == x);
            } else if k > p {
                assert(kv[k - 1] == x);
            }
        }
        if kv.contains(x) {
            let k = choose|k: int| 0 <= k < kv.len() && kv[k] == x;
            if k < p {
                assert(nv[k] == x);
            } else {
                assert(nv[k + 1] == x);
            }
        }
        if x == kval {
            assert(nv[p as int] == x);
        }
    }
}

fn sorted_distinct_keys(keys: &Vec<String>) -> (out: Vec<String>)
    ensures
        strictly_sorted(out.deep_view()),
        forall|i: int| 0 <= i < keys.len() ==> out.deep_view().contains(#[trigger] keys.deep_view()[i]),
        forall|x: Seq<char>| out.deep_view().contains(x) ==> exists|i: int| 0 <= i < keys.len() && x == #[trigger] keys.deep_view()[i],
{
    let ghost kv = keys.deep_view();
    let mut out: Vec<String> = Vec::new();
    let mut i: usize = 0;
    while i < keys.len()
        invariant
            0 <= i <= keys.len(),
            kv == keys.deep_view(),
            strictly_sorted(out.deep_view()),
            forall|j: int| 0 <= j < i ==> out.deep_view().contains(#[trigger] kv[j]),
            forall|x: Seq<char>| out.deep_view().contains(x) ==> exists|j: int| 0 <= j < i && x == #[trigger] kv[j],
        decreases keys.len() - i,
    {
        let key = keys[i].clone();
        assert(key@ == kv[i as int]);
        let ghost before = out.deep_view();
        insert_sorted_key(&mut out, key);
        assert forall|x: Seq<char>| out.deep_view().contains(x) implies exists|j: int| 0 <= j < i + 1 && x == #[trigger] kv[j] by {
            if before.contains(x) {
                let j = choose|j: int| 0 <= j < i && x == #[trigger] kv[j];
                assert(0 <= j < i + 1 && x == kv[j]);
            } else {
                assert(x == kv[i as int]);
            }
        }
        i = i + 1;
    }
    out
}

fn positions_exec(keys: &Vec<String>, key: &String) -> (r: Vec<usize>)
    ensures
        r@ == positions_of(keys.deep_view(), key@, keys.len() as int),
{
    let ghost kv = keys.deep_view();
    let mut out: Vec<usize> = Vec::new();
    let mut i: usize = 0;
    while i < keys.len()
        invariant
            0 <= i <= keys.len(),
            kv == keys.deep_view(),
            out@ == positions_of(kv, key@, i as int),
        decreases keys.len() - i,
    {
        assert(keys@[i as int]@ == kv[i as int]);
        if keys[i] == *key {
            out.push(i);
        }
        i = i + 1;
    }
    out
}

/// Groups positions by their keys, keys in increasing text order; each group holds the
/// positions with its key, in order.
pub fn group_by_key(keys: &Vec<String>) -> (r: Vec<(String, Vec<usize>)>)
    ensures
        is_key_grouping(keys.deep_view(), r.deep_view()),
{
    let ghost kv = keys.deep_view();
    let sorted = sorted_distinct_keys(keys);
    let ghost sv = sorted.deep_view();
    let mut groups: Vec<(String, Vec<usize>)> = Vec::new();
    let mut k: usize = 0;
    while k < sorted.len()
        invariant
            0 <= k <= sorted.len(),
            kv == keys.deep_view(),
            sv == sorted.deep_view(),
            groups.len() == k,
            forall|q: int| 0 <= q < k ==> (#[trigger] groups.deep_view()[q]).0 == sv[q],
            forall|q: int| 0 <= q < k ==> (#[trigger] groups.deep_view()[q]).1 == positions_of(kv, sv[q], kv.len() as int),
        decreases sorted.len() - k,
    {
        let pos = positions_exec(keys, &sorted[k]);
        assert(pos.deep_view() =~= pos@);
        assert(sorted@[k as int]@ == sv[k as int]);
        let ghost before = groups.deep_view();
        groups.push((sorted[k].clone(), pos));
        assert(groups.deep_view() =~= before.push((sv[k as int], positions_of(kv, sv[k as int], kv.len() as int))));
        k = k + 1;
    }
    let ghost g = groups.deep_view();
    assert forall|q: int| 0 <= q < g.len() implies (#[trigger] g[q]).1.len() > 0 by {
        assert(sv.contains(sv[q]));
        let j = choose|j: int| 0 <= j < keys.len() && sv[q] == #[trigger] kv[j];
        lemma_positions_nonempty(kv, sv[q], kv.len() as int, j);
    }
    assert forall|i: int| 0 <= i < kv.len() implies key_listed(g, #[trigger] kv[i]) by {
        assert(sv.contains(kv[i]));
        let q = choose|q: int| 0 <= q < sv.len() && sv[q] == kv[i];
        assert(g[q].0 == sv[q]);
    }
    assert forall|a: int, b: int| 0 <= a < b < g.len() implies lex_order(#[trigger] g[a].0, #[trigger] g[b].0) == TextOrder::Less by {
        assert(g[a].0 == sv[a] && g[b].0 == sv[b]);
    }
    groups
}

/// Two strictly sorted lists of texts with the same members are the same list.
proof fn lemma_sorted_same_members(a: Seq<Seq<char>>, b: Seq<Seq<char>>)
    requires
        strictly_sorted(a),
        strictly_sorted(b),
        forall|x: Seq<char>| a.contains(x) <==> b.contains(x),
    ensures
        a == b,
    decreases a.len(),
{
    if a.len() == 0 {
        if b.len() > 0 {
            assert(b.contains(b[0]));
        }
        assert(a =~= b);
    } else {
        assert(a.contains(a[0]));
        let j = choose|j: int| 0 <= j < b.len() && b[j] == a[0];
        assert(b.contains(b[0]));
        let i = choose|i: int| 0 <= i < a.len() && a[i] == b[0];
        if j > 0 && i > 0 {
            assert(lex_order(b[0], b[j]) == TextOrder::Less);
            assert(lex_order(a[0], a[i]) == TextOrder::Less);
            lemma_lex_order_flip(a[0], b[0]);
        } else if j > 0 {
            assert(lex_order(b[0], b[j]) == TextOrder::Less);
            lemma_lex_order_flip(b[0], b[0]);
        } else if i > 0 {
            assert(lex_order(a[0], a[i]) == TextOrder::Less);
            lemma_lex_order_flip(a[0], a[0]);
        }
        assert(a[0] == b[0]);
        let at = a.drop_first();
        let bt = b.drop_first();
        assert forall|x: Seq<char>| at.contains(x) <==> bt.contains(x) by {
            if at.contains(x) {
                let k = choose|k: int| 0 <= k < at.len() && at[k] == x;
                assert(a[k + 1] == x);
                assert(lex_order(a[0], x) == TextOrder::Less);
                lemma_lex_order_flip(a[0], x);
                assert(b.contains(x));
                let m = choose|m: int| 0 <= m < b.len() && b[m] == x;
                assert(m != 0);
                assert(bt[m - 1] == x);
            }
            if bt.contains(x) {
                let k = choose|k: int| 0 <= k < bt.len() && bt[k] == x;
                assert(b[k + 1] == x);
                assert(lex_order(b[0], x) == TextOrder::Less);
                lemma_lex_order_flip(b[0], x);
                assert(a.contains(x));
                let m = choose|m: int| 0 <= m < a.len() && a[m] == x;
                assert(m != 0);
                assert(at[m - 1] == x);
            }
        }
        assert(strictly_sorted(at)) by {
            assert forall|p: int, q: int| 0 <= p < q < at.len() implies lex_order(#[trigger] at[p], #[trigger] at[q]) == TextOrder::Less by {
                assert(at[p] == a[p + 1] && at[q] == a[q + 1]);
            }
        }
        assert(strictly_sorted(bt)) by {
            assert forall|p: int, q: int| 0 <= p < q < bt.len() implies lex_order(#[trigger] bt[p], #[trigger] bt[q]) == TextOrder::Less by {
                assert(bt[p] == b[p + 1] && bt[q] == b[q + 1]);
            }
        }
        lemma_sorted_same_members(at, bt);
        assert(a =~= seq![a[0]] + at);
        assert(b =~= seq![b[0]] + bt);
    }
}

/// A grouping's keys are exactly the keys that occur.
proof fn lemma_grouping_members(keys: Seq<Seq<char>>, g: Seq<(Seq<char>, Seq<usize>)>)
    requires
        is_key_grouping(keys, g),
        keys.len() <= usize::MAX,
    ensures
        strictly_sorted(group_keys(g)),
        forall|x: Seq<char>| #[trigger] group_keys(g).contains(x) <==> keys.contains(x),
{
    let gk = group_keys(g);
    assert forall|p: int, q: int| 0 <= p < q < gk.len() implies lex_order(#[trigger] gk[p], #[trigger] gk[q]) == TextOrder::Less by {
        assert(gk[p] == g[p].0 && gk[q] == g[q].0);
    }
    assert forall|x: Seq<char>| gk.contains(x) <==> keys.contains(x) by {
        if gk.contains(x) {
            let k = choose|k: int| 0 <= k < gk.len() && gk[k] == x;
            assert(g[k].0 == x);
            assert(g[k].1.len() > 0);
            lemma_positions_witness(keys, x, keys.len() as int);
        }
        if keys.contains(x) {
            let i = choose|i: int| 0 <= i < keys.len() && keys[i] == x;
            assert(key_listed(g, keys[i]));
            let k = choose|k: int| 0 <= k < g.len() && (#[trigger] g[k]).0 == keys[i];
            assert(gk[k] == x);
        }
    }
}

/// Items have exactly one grouping by key: a list of groups that meets the description
/// is the one [`group_by_key`] returns.
pub proof fn law_grouping_unique(keys: Seq<Seq<char>>, g1: Seq<(Seq<char>, Seq<usize>)>, g2: Seq<(Seq<char>, Seq<usize>)>)
    requires
        is_key_grouping(keys, g1),
        is_key_grouping(keys, g2),
        keys.len() <= usize::MAX,
    ensures
        g1 == g2,
{
    lemma_grouping_members(keys, g1);
    lemma_grouping_members(keys, g2);
    let k1 = group_keys(g1);
    let k2 = group_keys(g2);
    assert forall|x: Seq<char>| k1.contains(x) <==> k2.contains(x) by {
        assert(k1.contains(x) <==> keys.contains(x));
        assert(k2.contains(x) <==> keys.contains(x));
    }
    lemma_sorted_same_members(k1, k2);
    assert(g1.len() == k1.len() && g2.len() == k2.len());
    assert forall|k: int| 0 <= k < g1.len() implies g1[k] == g2[k] by {
        assert(k1[k] == g1[k].0 && k2[k] == g2[k].0);
    }
    assert(g1 =~= g2);
}

} // verus!
