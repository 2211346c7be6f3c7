//! Stable sorting by character-sequence keys.
use vstd::prelude::*;

use crate::text::{
    chars_less, chars_of, lemma_seq_lt_irreflexive, lemma_seq_lt_total, lemma_seq_lt_transitive,
    seq_lt, views,
};

verus! {

/// Item `i` goes before item `j`: its key is smaller, or the keys are equal
/// and it came first.
pub open spec fn key_before(keys: Seq<Seq<char>>, i: int, j: int) -> bool {
    seq_lt(keys[i], keys[j]) || (keys[i] == keys[j] && i < j)
}

/// `order` lists every index of `keys` once, in the order of a stable sort
/// by key.
pub open spec fn is_stable_order(keys: Seq<Seq<char>>, order: Seq<usize>) -> bool {
    &&& order.len() == keys.len()
    &&& forall|k: int| 0 <= k < order.len() ==> #[trigger] order[k] < keys.len()
    &&& forall|j: usize| j < keys.len() ==> #[trigger] order.contains(j)
    &&& forall|k: int, l: int|
        0 <= k < l < order.len() ==> key_before(keys, #[trigger] order[k] as int, #[trigger] order[l] as int)
}

/// `key_before` is a strict total order on the indices.
pub proof fn lemma_key_before_order(keys: Seq<Seq<char>>, a: int, b: int, c: int)
    ensures
        !key_before(keys, a, a),
        a != b ==> (key_before(keys, a, b) || key_before(keys, b, a)),
        !(key_before(keys, a, b) && key_before(keys, b, a)),
        key_before(keys, a, b) && key_before(keys, b, c) ==> key_before(keys, a, c),
{
    lemma_seq_lt_irreflexive(keys[a]);
    lemma_seq_lt_total(keys[a], keys[b]);
    lemma_seq_lt_total(keys[b], keys[c]);
    lemma_seq_lt_total(keys[a], keys[c]);
    if seq_lt(keys[a], keys[b]) && seq_lt(keys[b], keys[c]) {
        lemma_seq_lt_transitive(keys[a], keys[b], keys[c]);
    }
    lemma_seq_lt_irreflexive(keys[b]);
}

/// The positions of a stable sort of items by their keys: the result lists
/// every index once, ordered by key, items with equal keys in their given
/// order.
pub fn stable_order(keys: &Vec<Vec<char>>) -> (order: Vec<usize>)
    ensures
        is_stable_order(keys@.map_values(|k: Vec<char>| k@), order@),
{
    let ghost ks = keys@.map_values(|k: Vec<char>| k@);
    let n = keys.len();
    let mut res: Vec<usize> = Vec::new();
    let mut i: usize = 0;
    while i < n
        invariant
            n == keys.len(),
            ks.len() == n,
            forall|t: int| 0 <= t < n ==> #[trigger] ks[t] == keys@[t]@,
            i <= n,
            res.len() == i,
            forall|k: int| 0 <= k < res.len() ==> #[trigger] res@[k] < i,
            forall|j: usize| j < i ==> #[trigger] res@.contains(j),
            forall|k: int, l: int|
                0 <= k < l < res.len() ==> key_before(ks, #[trigger] res@[k] as int, #[trigger] res@[l] as int),
        decreases n - i,
    {
        let mut pos: usize = 0;
        while pos < res.len() && !chars_less(&keys[i], &keys[res[pos]])
            invariant
                n == keys.len(),
                ks.len() == n,
                forall|t: int| 0 <= t < n ==> #[trigger] ks[t] == keys@[t]@,
                i < n,
                pos <= res.len(),
                res.len() == i,
                forall|k: int| 0 <= k < res.len() ==> #[trigger] res@[k] < i,
                forall|q: int| 0 <= q < pos ==> key_before(ks, #[trigger] res@[q] as int, i as int),
            decreases res.len() - pos,
        {
            proof {
                let r = res@[pos as int] as int;
                lemma_seq_lt_total(ks[i as int], ks[r]);
                assert(key_before(ks, r, i as int));
            }
            pos = pos + 1;
        }
        proof {
            if pos < res.len() {
                let r = res@[pos as int] as int;
                assert(key_before(ks, i as int, r));
                assert forall|q: int| pos <= q < res.len() implies key_before(
                    ks,
                    i as int,
                    #[trigger] res@[q] as int,
                ) by {
                    if q > pos {
                        lemma_key_before_order(ks, i as int, r, res@[q] as int);
                    }
                }
            }
        }
        let ghost old_res = res@;
        res.insert(pos, i);
        proof {
            assert forall|k: int| 0 <= k < res.len() implies #[trigger] res@[k] < i + 1 by {
                if k < pos {
                    assert(res@[k] == old_res[k]);
                } else if k > pos {
                    assert(res@[k] == old_res[k - 1]);
                }
            }
            assert forall|j: usize| j < i + 1 implies #[trigger] res@.contains(j) by {
                if j == i {
                    assert(res@[pos as int] == i);
                } else {
                    assert(old_res.contains(j));
                    let w = choose|w: int| 0 <= w < old_res.len() && old_res[w] == j;
                    if w < pos {
                        assert(res@[w] == j);
                    } else {
                        assert(res@[w + 1] == j);
                    }
                }
            }
            assert forall|k: int, l: int| 0 <= k < l < res.len() implies key_before(
                ks,
                #[trigger] res@[k] as int,
                #[trigger] res@[l] as int,
            ) by {
                if k < pos && l < pos {
                    assert(res@[k] == old_res[k] && res@[l] == old_res[l]);
                } else if k < pos && l == pos {
                    assert(res@[k] == old_res[k]);
                } else if k < pos && l > pos {
                    assert(res@[k] == old_res[k] && res@[l] == old_res[l - 1]);
                } else if k == pos {
                    assert(res@[l] == old_res[l - 1]);
                } else {
                    assert(res@[k] == old_res[k - 1] && res@[l] == old_res[l - 1]);
                }
            }
        }
        i = i + 1;
    }
    res
}

/// Every element comes strictly before the next one: sorted, without repeats.
pub open spec fn strictly_sorted(s: Seq<Seq<char>>) -> bool {
    forall|i: int, j: int| 0 <= i < j < s.len() ==> seq_lt(#[trigger] s[i], #[trigger] s[j])
}

/// Two strictly sorted sequences with the same elements are equal.
pub proof fn lemma_strictly_sorted_unique(s: Seq<Seq<char>>, t: Seq<Seq<char>>)
    requires
        strictly_sorted(s),
        strictly_sorted(t),
        s.to_set() == t.to_set(),
    ensures
        s == t,
    decreases s.len(),
{
    if s.len() == 0 {
        if t.len() > 0 {
            assert(t.to_set().contains(t[0]));
        }
        assert(s =~= t);
    } else {
        assert(s.to_set().contains(s[0]));
        assert(t.len() > 0);
        assert(t.to_set().contains(t[0]));
        if s[0] != t[0] {
            let i = choose|i: int| 0 <= i < s.len() && s[i] == t[0];
            let j = choose|j: int| 0 <= j < t.len() && t[j] == s[0];
            assert(i > 0 && j > 0);
            assert(seq_lt(s[0], s[i]));
            assert(seq_lt(t[0], t[j]));
            lemma_seq_lt_total(s[0], t[0]);
            assert(false);
        }
        let s1 = s.drop_first();
        let t1 = t.drop_first();
        assert forall|x: Seq<char>| s1.to_set().contains(x) implies t1.to_set().contains(x) by {
            let i = choose|i: int| 0 <= i < s1.len() && s1[i] == x;
            assert(s.to_set().contains(x));
            let j = choose|j: int| 0 <= j < t.len() && t[j] == x;
            assert(seq_lt(s[0], s[i + 1]));
            if j == 0 {
                lemma_seq_lt_irreflexive(x);
            }
            assert(t1[j - 1] == x);
        }
        assert forall|x: Seq<char>| t1.to_set().contains(x) implies s1.to_set().contains(x) by {
            let j = choose|j: int| 0 <= j < t1.len() && t1[j] == x;
            assert(t.to_set().contains(x));
            let i = choose|i: int| 0 <= i < s.len() && s[i] == x;
            assert(seq_lt(t[0], t[j + 1]));
            if i == 0 {
                lemma_seq_lt_irreflexive(x);
            }
            assert(s1[i - 1] == x);
        }
        assert(s1.to_set() =~= t1.to_set());
        lemma_strictly_sorted_unique(s1, t1);
        assert(s =~= seq![s[0]] + s1);
        assert(t =~= seq![t[0]] + t1);
    }
}

/// The strings of `v`, which are all different, sorted in code-point order.
pub fn sort_distinct(v: &Vec<String>) -> (r: Vec<String>)
    requires
        views(v@).no_duplicates(),
    ensures
        strictly_sorted(views(r@)),
        views(r@).to_set() == views(v@).to_set(),
        r.len() == v.len(),
{
    let mut keys: Vec<Vec<char>> = Vec::new();
    let mut i: usize = 0;
    while i < v.len()
        invariant
            i <= v.len(),
            keys.len() == i,
            forall|t: int| 0 <= t < i ==> #[trigger] keys@[t]@ == v@[t]@,
        decreases v.len() - i,
    {
        keys.push(chars_of(v[i].as_str()));
        i = i + 1;
    }
    let order = stable_order(&keys);
    let ghost ks = keys@.map_values(|k: Vec<char>| k@);
    assert(ks =~= views(v@));
    let mut r: Vec<String> = Vec::new();
    let mut k: usize = 0;
    while k < order.len()
        invariant
            is_stable_order(ks, order@),
            ks == views(v@),
            k <= order.len(),
            r.len() == k,
            forall|t: int| 0 <= t < k ==> #[trigger] r@[t]@ == v@[order@[t] as int]@,
        decreases order.len() - k,
    {
        r.push(v[order[k]].clone());
        k = k + 1;
    }
    proof {
        let rv = views(r@);
        let vv = views(v@);
        assert forall|a: int, b: int| 0 <= a < b < rv.len() implies seq_lt(#[trigger] rv[a], #[trigger] rv[b]) by {
            assert(key_before(ks, order@[a] as int, order@[b] as int));
            if order@[a] == order@[b] {
                lemma_key_before_order(ks, order@[a] as int, order@[a] as int, order@[a] as int);
            }
        }
        assert forall|x: Seq<char>| rv.to_set().contains(x) implies vv.to_set().contains(x) by {
            let a = choose|a: int| 0 <= a < rv.len() && rv[a] == x;
            assert(vv[order@[a] as int] == x);
        }
        assert forall|x: Seq<char>| vv.to_set().contains(x) implies rv.to_set().contains(x) by {
            let j = choose|j: int| 0 <= j < vv.len() && vv[j] == x;
            assert(order@.contains(j as usize));
            let a = choose|a: int| 0 <= a < order@.len() && order@[a] == j as usize;
            assert(rv[a] == x);
        }
        assert(rv.to_set() =~= vv.to_set());
    }
    r
}

/// `x` put into the sorted sequence `t` before the first element it precedes.
pub open spec fn insert_sorted(t: Seq<Seq<char>>, x: Seq<char>) -> Seq<Seq<char>>
    decreases t.len(),
{
    if t.len() == 0 {
        seq![x]
    } else if seq_lt(x, t[0]) {
        seq![x] + t
    } else {
        seq![t[0]] + insert_sorted(t.drop_first(), x)
    }
}

proof fn lemma_insert_sorted(t: Seq<Seq<char>>, x: Seq<char>)
    requires
        strictly_sorted(t),
        !t.contains(x),
    ensures
        strictly_sorted(insert_sorted(t, x)),
        insert_sorted(t, x).to_set() == t.to_set().insert(x),
    decreases t.len(),
{
    if t.len() == 0 {
        assert(seq![x].to_set() =~= t.to_set().insert(x)) by {
            assert(seq![x][0] == x);
        }
    } else if seq_lt(x, t[0]) {
        let u = seq![x] + t;
        assert forall|i: int, j: int| 0 <= i < j < u.len() implies seq_lt(#[trigger] u[i], #[trigger] u[j]) by {
            if i == 0 {
                if j > 1 {
                    lemma_seq_lt_transitive(x, t[0], t[j - 1]);
                }
            } else {
                assert(u[i] == t[i - 1] && u[j] == t[j - 1]);
            }
        }
        assert forall|y: Seq<char>| u.to_set().contains(y) <==> t.to_set().insert(x).contains(y) by {
            if u.to_set().contains(y) {
                let k = choose|k: int| 0 <= k < u.len() && u[k] == y;
                if k > 0 {
                    assert(t[k - 1] == y);
                }
            }
            if t.to_set().contains(y) {
                let k = choose|k: int| 0 <= k < t.len() && t[k] == y;
                assert(u[k + 1] == y);
            }
            if y == x {
                assert(u[0] == x);
            }
        }
        assert(u.to_set() =~= t.to_set().insert(x));
    } else {
        let t1 = t.drop_first();
        assert(!t1.contains(x)) by {
            if t1.contains(x) {
                let k = choose|k: int| 0 <= k < t1.len() && t1[k] == x;
                assert(t[k + 1] == x);
            }
        }
        assert(strictly_sorted(t1)) by {
            assert forall|i: int, j: int| 0 <= i < j < t1.len() implies seq_lt(#[trigger] t1[i], #[trigger] t1[j]) by {
                assert(t1[i] == t[i + 1] && t1[j] == t[j + 1]);
            }
        }
        lemma_insert_sorted(t1, x);
        let r = insert_sorted(t1, x);
        let u = seq![t[0]] + r;
        assert(x != t[0]) by {
            assert(t[0] == t[0]);
        }
        lemma_seq_lt_total(x, t[0]);
        assert forall|y: Seq<char>| r.to_set().contains(y) implies seq_lt(t[0], y) by {
            assert(t1.to_set().insert(x).contains(y));
            if y != x {
                let k = choose|k: int| 0 <= k < t1.len() && t1[k] == y;
                assert(t[k + 1] == y);
            }
        }
        assert forall|i: int, j: int| 0 <= i < j < u.len() implies seq_lt(#[trigger] u[i], #[trigger] u[j]) by {
            if i == 0 {
                assert(r.to_set().contains(r[j - 1]));
            } else {
                assert(u[i] == r[i - 1] && u[j] == r[j - 1]);
            }
        }
        assert forall|y: Seq<char>| u.to_set().contains(y) <==> t.to_set().insert(x).contains(y) by {
            if u.to_set().contains(y) {
                let k = choose|k: int| 0 <= k < u.len() && u[k] == y;
                if k > 0 {
                    assert(r[k - 1] == y);
                    assert(t1.to_set().insert(x).contains(y));
                    if y != x {
                        let m = choose|m: int| 0 <= m < t1.len() && t1[m] == y;
                        assert(t[m + 1] == y);
                    }
                }
            }
            if t.to_set().contains(y) {
                let k = choose|k: int| 0 <= k < t.len() && t[k] == y;
                if k == 0 {
                    assert(u[0] == y);
                } else {
                    assert(t1[k - 1] == y);
                    assert(r.to_set().contains(y));
                    let m = choose|m: int| 0 <= m < r.len() && r[m] == y;
                    assert(u[m + 1] == y);
                }
            }
            if y == x {
                assert(r.to_set().contains(x));
                let m = choose|m: int| 0 <= m < r.len() && r[m] == x;
                assert(u[m + 1] == x);
            }
        }
        assert(u.to_set() =~= t.to_set().insert(x));
    }
}

/// Every finite set of character sequences has a strictly sorted listing.
pub proof fn lemma_sorted_listing_exists(s: Set<Seq<char>>)
    requires
        s.finite(),
    ensures
        exists|t: Seq<Seq<char>>| strictly_sorted(t) && t.to_set() == s,
    decreases s.len(),
{
    if s.len() == 0 {
        let t = Seq::<Seq<char>>::empty();
        assert(s =~= Set::empty());
        assert(t.to_set() =~= s);
        assert(strictly_sorted(t) && t.to_set() == s);
    } else {
        let x = s.choose();
        lemma_sorted_listing_exists(s.remove(x));
        let t = choose|t: Seq<Seq<char>>| strictly_sorted(t) && t.to_set() == s.remove(x);
        assert(!t.contains(x)) by {
            if t.contains(x) {
                assert(t.to_set().contains(x));
            }
        }
        lemma_insert_sorted(t, x);
        assert(s.remove(x).insert(x) =~= s);
        let u = insert_sorted(t, x);
        assert(strictly_sorted(u) && u.to_set() == s);
    }
}

/// Two index sequences sorted by `key_before`, with the same elements, are
/// equal.
proof fn lemma_sorted_by_key_unique(keys: Seq<Seq<char>>, s: Seq<usize>, t: Seq<usize>)
    requires
        forall|i: int, j: int|
            0 <= i < j < s.len() ==> key_before(keys, #[trigger] s[i] as int, #[trigger] s[j] as int),
        forall|i: int, j: int|
            0 <= i < j < t.len() ==> key_before(keys, #[trigger] t[i] as int, #[trigger] t[j] as int),
        s.to_set() == t.to_set(),
    ensures
        s == t,
    decreases s.len(),
{
    if s.len() == 0 {
        if t.len() > 0 {
            assert(t.to_set().contains(t[0]));
        }
        assert(s =~= t);
    } else {
        assert(s.to_set().contains(s[0]));
        assert(t.len() > 0);
        assert(t.to_set().contains(t[0]));
        if s[0] != t[0] {
            let i = choose|i: int| 0 <= i < s.len() && s[i] == t[0];
            let j = choose|j: int| 0 <= j < t.len() && t[j] == s[0];
            assert(i > 0 && j > 0);
            assert(key_before(keys, s[0] as int, s[i] as int));
            assert(key_before(keys, t[0] as int, t[j] as int));
            lemma_key_before_order(keys, s[0] as int, t[0] as int, s[0] as int);
            assert(false);
        }
        let s1 = s.drop_first();
        let t1 = t.drop_first();
        assert forall|x: usize| s1.to_set().contains(x) implies t1.to_set().contains(x) by {
            let i = choose|i: int| 0 <= i < s1.len() && s1[i] == x;
            assert(s.to_set().contains(x));
            let j = choose|j: int| 0 <= j < t.len() && t[j] == x;
            assert(key_before(keys, s[0] as int, s[i + 1] as int));
            if j == 0 {
                lemma_key_before_order(keys, x as int, x as int, x as int);
            }
            assert(t1[j - 1] == x);
        }
        assert forall|x: usize| t1.to_set().contains(x) implies s1.to_set().contains(x) by {
            let j = choose|j: int| 0 <= j < t1.len() && t1[j] == x;
            assert(t.to_set().contains(x));
            let i = choose|i: int| 0 <= i < s.len() && s[i] == x;
            assert(key_before(keys, t[0] as int, t[j + 1] as int));
            if i == 0 {
                lemma_key_before_order(keys, x as int, x as int, x as int);
            }
            assert(s1[i - 1] == x);
        }
        assert(s1.to_set() =~= t1.to_set());
        assert forall|i: int, j: int| 0 <= i < j < s1.len() implies key_before(
            keys,
            #[trigger] s1[i] as int,
            #[trigger] s1[j] as int,
        ) by {
            assert(s1[i] == s[i + 1] && s1[j] == s[j + 1]);
        }
        assert forall|i: int, j: int| 0 <= i < j < t1.len() implies key_before(
            keys,
            #[trigger] t1[i] as int,
            #[trigger] t1[j] as int,
        ) by {
            assert(t1[i] == t[i + 1] && t1[j] == t[j + 1]);
        }
        lemma_sorted_by_key_unique(keys, s1, t1);
        assert(s =~= seq![s[0]] + s1);
        assert(t =~= seq![t[0]] + t1);
    }
}

/// A stable sort order is unique: two orders that both sort `keys` stably
/// are the same.
pub proof fn lemma_stable_order_unique(keys: Seq<Seq<char>>, o1: Seq<usize>, o2: Seq<usize>)
    requires
        is_stable_order(keys, o1),
        is_stable_order(keys, o2),
    ensures
        o1 == o2,
{
    assert forall|x: usize| o1.to_set().contains(x) <==> o2.to_set().contains(x) by {
        if o1.to_set().contains(x) {
            let k = choose|k: int| 0 <= k < o1.len() && o1[k] == x;
            assert(o1[k] < keys.len());
            assert(o2.contains(x));
        }
        if o2.to_set().contains(x) {
            let k = choose|k: int| 0 <= k < o2.len() && o2[k] == x;
            assert(o2[k] < keys.len());
            assert(o1.contains(x));
        }
    }
    assert(o1.to_set() =~= o2.to_set());
    lemma_sorted_by_key_unique(keys, o1, o2);
}

} // verus!
