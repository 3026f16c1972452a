use vstd::prelude::*;

verus! {

/// `x` inserted into `s` after every element whose key is at most its own, counting from
/// the end: into a sorted `s`, after all elements with an equal or smaller key.
pub open spec fn insert_sorted<R>(s: Seq<(u64, R)>, x: (u64, R)) -> Seq<(u64, R)>
    decreases s.len(),
{
    if s.len() == 0 {
        seq![x]
    } else if s.last().0 <= x.0 {
        s.push(x)
    } else {
        insert_sorted(s.drop_last(), x).push(s.last())
    }
}

/// `s` sorted by key, elements with equal keys in their order in `s` (insertion sort).
pub open spec fn stable_sort<R>(s: Seq<(u64, R)>) -> Seq<(u64, R)>
    decreases s.len(),
{
    if s.len() == 0 {
        Seq::empty()
    } else {
        insert_sorted(stable_sort(s.drop_last()), s.last())
    }
}

/// The keys never decrease along `s`.
pub open spec fn sorted_by_key<R>(s: Seq<(u64, R)>) -> bool {
    forall|i: int, j: int| 0 <= i < j < s.len() ==> #[trigger] s[i].0 <= #[trigger] s[j].0
}

/// The values of `s`, without their keys.
pub open spec fn values_of<R>(s: Seq<(u64, R)>) -> Seq<R> {
    s.map_values(|p: (u64, R)| p.1)
}

/// The last `n` elements of `s` where `n` is set (above zero) and `s` is longer; else all.
pub open spec fn keep_last<R>(s: Seq<R>, n: usize) -> Seq<R> {
    if n > 0 && s.len() > n {
        s.subrange(s.len() - n, s.len() as int)
    } else {
        s
    }
}

proof fn lemma_insert_at<R>(s: Seq<(u64, R)>, x: (u64, R), j: int)
    requires
        0 <= j <= s.len(),
        forall|k: int| j <= k < s.len() ==> #[trigger] s[k].0 > x.0,
        j == 0 || s[j - 1].0 <= x.0,
    ensures
        insert_sorted(s, x) == s.insert(j, x),
    decreases s.len(),
{
    if s.len() == 0 {
        assert(s.insert(j, x) =~= seq![x]);
    } else if s.last().0 <= x.0 {
        assert(j == s.len());
        assert(s.insert(j, x) =~= s.push(x));
    } else {
        let t = s.drop_last();
        lemma_insert_at(t, x, j);
        assert(t.insert(j, x).push(s.last()) =~= s.insert(j, x));
    }
}

/// Insertion keeps a sorted sequence sorted and adds the element once.
pub proof fn lemma_insert_sorted<R>(s: Seq<(u64, R)>, x: (u64, R))
    requires
        sorted_by_key(s),
    ensures
        sorted_by_key(insert_sorted(s, x)),
        insert_sorted(s, x).to_multiset() == s.to_multiset().insert(x),
        insert_sorted(s, x).len() == s.len() + 1,
    decreases s.len(),
{
    broadcast use vstd::seq_lib::group_to_multiset_ensures;
    if s.len() == 0 {
        assert(seq![x] =~= Seq::<(u64, R)>::empty().push(x));
    } else if s.last().0 <= x.0 {
    } else {
        let t = s.drop_last();
        lemma_insert_sorted(t, x);
        let u = insert_sorted(t, x);
        assert(s =~= t.push(s.last()));
        assert forall|i: int, j: int| 0 <= i < j < u.push(s.last()).len() implies #[trigger] u.push(
            s.last(),
        )[i].0 <= #[trigger] u.push(s.last())[j].0 by {
            if j == u.len() {
                let w = u[i];
                assert(u.to_multiset().count(w) > 0);
                assert(t.to_multiset().insert(x).count(w) > 0);
                if w != x {
                    assert(t.to_multiset().count(w) > 0);
                    assert(t.contains(w));
                    let k = choose|k: int| 0 <= k < t.len() && t[k] == w;
                    assert(s[k] == w);
                    assert(s[k].0 <= s[s.len() - 1].0);
                }
            }
        }
    }
}

/// The stable sort is sorted, and holds the same elements as its input.
pub proof fn lemma_stable_sort<R>(s: Seq<(u64, R)>)
    ensures
        sorted_by_key(stable_sort(s)),
        stable_sort(s).to_multiset() == s.to_multiset(),
        stable_sort(s).len() == s.len(),
    decreases s.len(),
{
    broadcast use vstd::seq_lib::group_to_multiset_ensures;
    if s.len() > 0 {
        lemma_stable_sort(s.drop_last());
        lemma_insert_sorted(stable_sort(s.drop_last()), s.last());
        assert(s =~= s.drop_last().push(s.last()));
    }
}

/// Sorts by key; elements with equal keys keep their order.
pub fn sort_by_key<R>(v: Vec<(u64, R)>) -> (r: Vec<(u64, R)>)
    ensures
        r@ == stable_sort(v@),
{
    let ghost v0 = v@;
    let mut v = v;
    let mut out: Vec<(u64, R)> = Vec::new();
    let ghost mut i: int = 0;
    proof {
        assert(v0.take(0) =~= Seq::<(u64, R)>::empty());
        assert(v0.subrange(0, v0.len() as int) =~= v0);
    }
    while v.len() > 0
        invariant
            0 <= i <= v0.len(),
            v@ == v0.subrange(i, v0.len() as int),
            out@ == stable_sort(v0.take(i)),
        decreases v@.len(),
    {
        let x = v.remove(0);
        proof {
            assert(x == v0[i]);
            assert(v@ =~= v0.subrange(i + 1, v0.len() as int));
        }
        let mut j: usize = out.len();
        while j > 0 && out[j - 1].0 > x.0
            invariant
                j <= out@.len(),
                forall|k: int| j <= k < out@.len() ==> #[trigger] out@[k].0 > x.0,
            decreases j,
        {
            j = j - 1;
        }
        proof {
            lemma_insert_at(out@, x, j as int);
            assert(v0.take(i + 1).drop_last() =~= v0.take(i));
            assert(v0.take(i + 1).last() == x);
        }
        out.insert(j, x);
        proof {
            i = i + 1;
        }
    }
    proof {
        assert(v0.take(i) =~= v0);
    }
    out
}

/// The last `n` elements (all where `n` is zero or no smaller than the length).
pub fn take_last<R>(v: Vec<R>, n: usize) -> (r: Vec<R>)
    ensures
        r@ == keep_last(v@, n),
{
    if n > 0 && v.len() > n {
        let mut v = v;
        let ghost v0 = v@;
        let drop = v.len() - n;
        let mut k: usize = 0;
        while k < drop
            invariant
                k <= drop,
                drop == v0.len() - n,
                v@ == v0.subrange(k as int, v0.len() as int),
            decreases drop - k,
        {
            v.remove(0);
            proof {
                assert(v@ =~= v0.subrange(k + 1, v0.len() as int));
            }
            k = k + 1;
        }
        v
    } else {
        v
    }
}

/// The values, in order, without their keys.
pub fn into_values<R>(v: Vec<(u64, R)>) -> (r: Vec<R>)
    ensures
        r@ == values_of(v@),
{
    let ghost v0 = v@;
    let mut v = v;
    let mut out: Vec<R> = Vec::new();
    let ghost mut i: int = 0;
    while v.len() > 0
        invariant
            0 <= i <= v0.len(),
            v@ == v0.subrange(i, v0.len() as int),
            out@ == values_of(v0.take(i)),
        decreases v@.len(),
    {
        let (_, x) = v.remove(0);
        out.push(x);
        proof {
            assert(v@ =~= v0.subrange(i + 1, v0.len() as int));
            assert(out@ =~= values_of(v0.take(i + 1)));
            i = i + 1;
        }
    }
    proof {
        assert(v0.take(i) =~= v0);
    }
    out
}


/// `a` comes strictly before `b` in lexicographic order.
pub open spec fn lex_lt(a: Seq<u64>, b: Seq<u64>) -> bool
    decreases a.len(),
{
    if b.len() == 0 {
        false
    } else if a.len() == 0 {
        true
    } else if a[0] != b[0] {
        a[0] < b[0]
    } else {
        lex_lt(a.drop_first(), b.drop_first())
    }
}

/// An element keyed `x` may stay after one keyed `last`: the keys are in order, upwards or,
/// where `desc`, downwards.
pub open spec fn may_follow(last: Seq<u64>, x: Seq<u64>, desc: bool) -> bool {
    if desc {
        !lex_lt(last, x)
    } else {
        !lex_lt(x, last)
    }
}

/// The keys of keyed rows as sequences.
pub open spec fn key_views<R>(s: Seq<(Vec<u64>, R)>) -> Seq<(Seq<u64>, R)> {
    s.map_values(|p: (Vec<u64>, R)| (p.0@, p.1))
}

/// `x` inserted into `s` after the elements that it may follow, counting from the end.
pub open spec fn insert_lex<R>(s: Seq<(Seq<u64>, R)>, x: (Seq<u64>, R), desc: bool) -> Seq<
    (Seq<u64>, R),
>
    decreases s.len(),
{
    if s.len() == 0 {
        seq![x]
    } else if may_follow(s.last().0, x.0, desc) {
        s.push(x)
    } else {
        insert_lex(s.drop_last(), x, desc).push(s.last())
    }
}

/// `s` sorted by key in lexicographic order (downwards where `desc`); elements with equal
/// keys keep their order (insertion sort).
pub open spec fn sort_lex<R>(s: Seq<(Seq<u64>, R)>, desc: bool) -> Seq<(Seq<u64>, R)>
    decreases s.len(),
{
    if s.len() == 0 {
        Seq::empty()
    } else {
        insert_lex(sort_lex(s.drop_last(), desc), s.last(), desc)
    }
}

/// Whether `a` comes strictly before `b` in lexicographic order.
pub fn lex_less(a: &Vec<u64>, b: &Vec<u64>) -> (r: bool)
    ensures
        r == lex_lt(a@, b@),
{
    let mut i: usize = 0;
    proof {
        assert(a@.subrange(0, a@.len() as int) =~= a@);
        assert(b@.subrange(0, b@.len() as int) =~= b@);
    }
    while i < a.len() && i < b.len()
        invariant
            i <= a@.len(),
            i <= b@.len(),
            lex_lt(a@, b@) == lex_lt(
                a@.subrange(i as int, a@.len() as int),
                b@.subrange(i as int, b@.len() as int),
            ),
        decreases a@.len() - i,
    {
        proof {
            let sa = a@.subrange(i as int, a@.len() as int);
            let sb = b@.subrange(i as int, b@.len() as int);
            assert(sa.drop_first() =~= a@.subrange(i + 1, a@.len() as int));
            assert(sb.drop_first() =~= b@.subrange(i + 1, b@.len() as int));
            assert(sa[0] == a@[i as int]);
            assert(sb[0] == b@[i as int]);
        }
        if a[i] != b[i] {
            return a[i] < b[i];
        }
        i = i + 1;
    }
    i == a.len() && i < b.len()
}

fn follows(last: &Vec<u64>, x: &Vec<u64>, desc: bool) -> (r: bool)
    ensures
        r == may_follow(last@, x@, desc),
{
    if desc {
        !lex_less(last, x)
    } else {
        !lex_less(x, last)
    }
}

proof fn lemma_insert_lex_at<R>(s: Seq<(Seq<u64>, R)>, x: (Seq<u64>, R), desc: bool, j: int)
    requires
        0 <= j <= s.len(),
        forall|k: int| j <= k < s.len() ==> !may_follow(#[trigger] s[k].0, x.0, desc),
        j == 0 || may_follow(s[j - 1].0, x.0, desc),
    ensures
        insert_lex(s, x, desc) == s.insert(j, x),
    decreases s.len(),
{
    if s.len() == 0 {
        assert(s.insert(j, x) =~= seq![x]);
    } else if may_follow(s.last().0, x.0, desc) {
        assert(j == s.len());
        assert(s.insert(j, x) =~= s.push(x));
    } else {
        let t = s.drop_last();
        lemma_insert_lex_at(t, x, desc, j);
        assert(t.insert(j, x).push(s.last()) =~= s.insert(j, x));
    }
}

/// Sorts by key in lexicographic order, downwards where `desc`; elements with equal keys
/// keep their order.
pub fn sort_by_lex_key<R>(v: Vec<(Vec<u64>, R)>, desc: bool) -> (r: Vec<(Vec<u64>, R)>)
    ensures
        key_views(r@) == sort_lex(key_views(v@), desc),
{
    let ghost v0 = v@;
    let mut v = v;
    let mut out: Vec<(Vec<u64>, R)> = Vec::new();
    let ghost mut i: int = 0;
    proof {
        assert(key_views(v0).take(0) =~= Seq::<(Seq<u64>, R)>::empty());
        assert(key_views(out@) =~= Seq::<(Seq<u64>, R)>::empty());
    }
    while v.len() > 0
        invariant
            0 <= i <= v0.len(),
            v@ == v0.subrange(i, v0.len() as int),
            key_views(out@) == sort_lex(key_views(v0).take(i), desc),
        decreases v@.len(),
    {
        let x = v.remove(0);
        proof {
            assert(x == v0[i]);
            assert(v@ =~= v0.subrange(i + 1, v0.len() as int));
        }
        let mut j: usize = out.len();
        while j > 0 && !follows(&out[j - 1].0, &x.0, desc)
            invariant
                j <= out@.len(),
                forall|k: int| j <= k < out@.len() ==> !may_follow(#[trigger] out@[k].0@, x.0@, desc),
            decreases j,
        {
            j = j - 1;
        }
        proof {
            let ko = key_views(out@);
            assert forall|k: int| j <= k < ko.len() implies !may_follow(#[trigger] ko[k].0, x.0@, desc) by {
                assert(ko[k].0 == out@[k].0@);
            }
            if j > 0 {
                assert(ko[j - 1].0 == out@[j - 1].0@);
            }
            lemma_insert_lex_at(ko, (x.0@, x.1), desc, j as int);
            assert(key_views(v0).take(i + 1).drop_last() =~= key_views(v0).take(i));
            assert(key_views(v0).take(i + 1).last() == (x.0@, x.1));
        }
        let ghost out_before = out@;
        out.insert(j, x);
        proof {
            assert(key_views(out@) =~= key_views(out_before).insert(j as int, (x.0@, x.1)));
            i = i + 1;
        }
    }
    proof {
        assert(key_views(v0).take(i) =~= key_views(v0));
    }
    out
}


/// Every element's key is the sort key of its value.
pub open spec fn keyed_by<R>(s: Seq<(u64, R)>, key: spec_fn(R) -> u64) -> bool {
    forall|i: int| 0 <= i < s.len() ==> (#[trigger] s[i]).0 == key(s[i].1)
}

/// Sorting keeps each element's key that of its value.
pub proof fn lemma_sort_keyed_by<R>(s: Seq<(u64, R)>, key: spec_fn(R) -> u64)
    requires
        keyed_by(s, key),
    ensures
        keyed_by(stable_sort(s), key),
{
    lemma_stable_sort(s);
    let t = stable_sort(s);
    assert forall|i: int| 0 <= i < t.len() implies (#[trigger] t[i]).0 == key(t[i].1) by {
        broadcast use vstd::seq_lib::group_to_multiset_ensures;
        assert(t.to_multiset().count(t[i]) > 0);
        assert(s.to_multiset().count(t[i]) > 0);
        assert(s.contains(t[i]));
    }
}

/// What is shown of keyed rows: the values in key order, only the last `limit` where a limit
/// is set, then sorted by another key: as many as the limit allows, in that key's order.
pub proof fn lemma_shown_rows<R>(rows: Seq<(u64, R)>, limit: usize, key: spec_fn(R) -> u64)
    ensures
        ({
            let kept = keep_last(values_of(stable_sort(rows)), limit);
            let shown = values_of(stable_sort(kept.map_values(|r: R| (key(r), r))));
            &&& shown.len() == (if limit > 0 && rows.len() > limit {
                limit as int
            } else {
                rows.len() as int
            })
            &&& forall|i: int, j: int| 0 <= i < j < shown.len() ==> key(shown[i]) <= key(shown[j])
        }),
{
    lemma_stable_sort(rows);
    let kept = keep_last(values_of(stable_sort(rows)), limit);
    let pairs = kept.map_values(|r: R| (key(r), r));
    assert(keyed_by(pairs, key));
    lemma_stable_sort(pairs);
    lemma_sort_keyed_by(pairs, key);
    let sorted = stable_sort(pairs);
    let shown = values_of(sorted);
    assert forall|i: int, j: int| 0 <= i < j < shown.len() implies key(shown[i]) <= key(shown[j]) by {
        assert(sorted[i].0 <= sorted[j].0);
        assert(shown[i] == sorted[i].1);
        assert(shown[j] == sorted[j].1);
    }
}


proof fn lemma_lex_irreflexive(a: Seq<u64>)
    ensures
        !lex_lt(a, a),
    decreases a.len(),
{
    if a.len() > 0 {
        lemma_lex_irreflexive(a.drop_first());
    }
}

proof fn lemma_lex_transitive(a: Seq<u64>, b: Seq<u64>, c: Seq<u64>)
    requires
        lex_lt(a, b),
        lex_lt(b, c),
    ensures
        lex_lt(a, c),
    decreases a.len(),
{
    if a.len() > 0 && b.len() > 0 && c.len() > 0 && a[0] == b[0] && b[0] == c[0] {
        lemma_lex_transitive(a.drop_first(), b.drop_first(), c.drop_first());
    }
}

proof fn lemma_lex_total(a: Seq<u64>, b: Seq<u64>)
    requires
        a != b,
    ensures
        lex_lt(a, b) || lex_lt(b, a),
    decreases a.len(),
{
    if a.len() == 0 {
        assert(b.len() > 0) by {
            if b.len() == 0 {
                assert(a =~= b);
            }
        }
    } else if b.len() > 0 && a[0] == b[0] {
        if a.drop_first() == b.drop_first() {
            assert(a =~= seq![a[0]] + a.drop_first());
            assert(b =~= seq![b[0]] + b.drop_first());
        }
        lemma_lex_total(a.drop_first(), b.drop_first());
    }
}

proof fn lemma_follow_transitive(x: Seq<u64>, y: Seq<u64>, z: Seq<u64>, desc: bool)
    requires
        may_follow(x, y, desc),
        may_follow(y, z, desc),
    ensures
        may_follow(x, z, desc),
{
    if desc {
        if lex_lt(x, z) {
            if x == y {
            } else {
                lemma_lex_total(x, y);
                lemma_lex_transitive(y, x, z);
            }
        }
    } else {
        if lex_lt(z, x) {
            if x == y {
            } else {
                lemma_lex_total(x, y);
                lemma_lex_transitive(z, x, y);
            }
        }
    }
}

proof fn lemma_not_follow_flips(last: Seq<u64>, x: Seq<u64>, desc: bool)
    requires
        !may_follow(last, x, desc),
    ensures
        may_follow(x, last, desc),
{
    if desc {
        if lex_lt(x, last) {
            lemma_lex_transitive(last, x, last);
            lemma_lex_irreflexive(last);
        }
    } else {
        if lex_lt(last, x) {
            lemma_lex_transitive(x, last, x);
            lemma_lex_irreflexive(x);
        }
    }
}

/// Every two keys are in order, upwards or, where `desc`, downwards.
pub open spec fn sorted_lex<R>(s: Seq<(Seq<u64>, R)>, desc: bool) -> bool {
    forall|i: int, j: int| 0 <= i < j < s.len() ==> may_follow(#[trigger] s[i].0, #[trigger] s[j].0, desc)
}

proof fn lemma_insert_lex_sorted<R>(s: Seq<(Seq<u64>, R)>, x: (Seq<u64>, R), desc: bool)
    requires
        sorted_lex(s, desc),
    ensures
        sorted_lex(insert_lex(s, x, desc), desc),
        insert_lex(s, x, desc).to_multiset() == s.to_multiset().insert(x),
        insert_lex(s, x, desc).len() == s.len() + 1,
    decreases s.len(),
{
    broadcast use vstd::seq_lib::group_to_multiset_ensures;
    if s.len() == 0 {
        assert(seq![x] =~= Seq::<(Seq<u64>, R)>::empty().push(x));
    } else if may_follow(s.last().0, x.0, desc) {
        let u = s.push(x);
        assert forall|i: int, j: int| 0 <= i < j < u.len() implies may_follow(#[trigger] u[i].0, #[trigger] u[j].0, desc) by {
            if j == s.len() && i < s.len() - 1 {
                lemma_follow_transitive(s[i].0, s.last().0, x.0, desc);
            }
        }
    } else {
        let t = s.drop_last();
        lemma_insert_lex_sorted(t, x, desc);
        let u = insert_lex(t, x, desc);
        assert(s =~= t.push(s.last()));
        lemma_not_follow_flips(s.last().0, x.0, desc);
        assert forall|i: int, j: int| 0 <= i < j < u.push(s.last()).len() implies may_follow(
            #[trigger] u.push(s.last())[i].0,
            #[trigger] u.push(s.last())[j].0,
            desc,
        ) by {
            if j == u.len() {
                let w = u[i];
                assert(u.to_multiset().count(w) > 0);
                assert(t.to_multiset().insert(x).count(w) > 0);
                if w != x {
                    assert(t.to_multiset().count(w) > 0);
                    assert(t.contains(w));
                    let k = choose|k: int| 0 <= k < t.len() && t[k] == w;
                    assert(s[k] == w);
                    assert(may_follow(s[k].0, s[s.len() - 1].0, desc));
                }
            }
        }
    }
}

/// The lexicographic sort is sorted (downwards where `desc`), and holds the same elements as
/// its input.
pub proof fn lemma_sort_lex<R>(s: Seq<(Seq<u64>, R)>, desc: bool)
    ensures
        sorted_lex(sort_lex(s, desc), desc),
        sort_lex(s, desc).to_multiset() == s.to_multiset(),
        sort_lex(s, desc).len() == s.len(),
    decreases s.len(),
{
    broadcast use vstd::seq_lib::group_to_multiset_ensures;
    if s.len() > 0 {
        lemma_sort_lex(s.drop_last(), desc);
        lemma_insert_lex_sorted(sort_lex(s.drop_last(), desc), s.last(), desc);
        assert(s =~= s.drop_last().push(s.last()));
    }
}

/// The elements whose key is `k`.
pub open spec fn key_is<R>(k: u64) -> spec_fn((u64, R)) -> bool {
    |p: (u64, R)| p.0 == k
}

/// The elements whose key is `k`, for sequence keys.
pub open spec fn lex_key_is<R>(k: Seq<u64>) -> spec_fn((Seq<u64>, R)) -> bool {
    |p: (Seq<u64>, R)| p.0 == k
}

proof fn lemma_insert_sorted_ties<R>(t: Seq<(u64, R)>, x: (u64, R), k: u64)
    ensures
        insert_sorted(t, x).filter(key_is::<R>(k)) == (if x.0 == k {
            t.filter(key_is::<R>(k)).push(x)
        } else {
            t.filter(key_is::<R>(k))
        }),
    decreases t.len(),
{
    let pred = key_is::<R>(k);
    if t.len() == 0 {
        assert(seq![x] =~= t.push(x));
        t.lemma_filter_push(x, pred);
    } else if t.last().0 <= x.0 {
        t.lemma_filter_push(x, pred);
    } else {
        let t1 = t.drop_last();
        lemma_insert_sorted_ties(t1, x, k);
        let u = insert_sorted(t1, x);
        u.lemma_filter_push(t.last(), pred);
        t1.lemma_filter_push(t.last(), pred);
        assert(t =~= t1.push(t.last()));
    }
}

/// Sorting by key keeps the order of the elements with equal keys: for every key, the
/// elements with that key come out in the order they came in.
pub proof fn lemma_stable_sort_keeps_ties<R>(s: Seq<(u64, R)>, k: u64)
    ensures
        stable_sort(s).filter(key_is::<R>(k)) == s.filter(key_is::<R>(k)),
    decreases s.len(),
{
    if s.len() > 0 {
        lemma_stable_sort_keeps_ties(s.drop_last(), k);
        lemma_insert_sorted_ties(stable_sort(s.drop_last()), s.last(), k);
        assert(s =~= s.drop_last().push(s.last()));
        s.drop_last().lemma_filter_push(s.last(), key_is::<R>(k));
    }
}

proof fn lemma_insert_lex_ties<R>(t: Seq<(Seq<u64>, R)>, x: (Seq<u64>, R), desc: bool, k: Seq<u64>)
    ensures
        insert_lex(t, x, desc).filter(lex_key_is::<R>(k)) == (if x.0 == k {
            t.filter(lex_key_is::<R>(k)).push(x)
        } else {
            t.filter(lex_key_is::<R>(k))
        }),
    decreases t.len(),
{
    let pred = lex_key_is::<R>(k);
    if t.len() == 0 {
        assert(seq![x] =~= t.push(x));
        t.lemma_filter_push(x, pred);
    } else if may_follow(t.last().0, x.0, desc) {
        t.lemma_filter_push(x, pred);
    } else {
        lemma_lex_irreflexive(x.0);
        let t1 = t.drop_last();
        lemma_insert_lex_ties(t1, x, desc, k);
        let u = insert_lex(t1, x, desc);
        u.lemma_filter_push(t.last(), pred);
        t1.lemma_filter_push(t.last(), pred);
        assert(t =~= t1.push(t.last()));
    }
}

/// Sorting lexicographically keeps the order of the elements with equal keys: for every key,
/// the elements with that key come out in the order they came in.
pub proof fn lemma_sort_lex_keeps_ties<R>(s: Seq<(Seq<u64>, R)>, desc: bool, k: Seq<u64>)
    ensures
        sort_lex(s, desc).filter(lex_key_is::<R>(k)) == s.filter(lex_key_is::<R>(k)),
    decreases s.len(),
{
    if s.len() > 0 {
        lemma_sort_lex_keeps_ties(s.drop_last(), desc, k);
        lemma_insert_lex_ties(sort_lex(s.drop_last(), desc), s.last(), desc, k);
        assert(s =~= s.drop_last().push(s.last()));
        s.drop_last().lemma_filter_push(s.last(), lex_key_is::<R>(k));
    }
}

/// How many keyed rows have a key above `k`.
pub open spec fn count_above<R>(rows: Seq<(u64, R)>, k: u64) -> nat {
    rows.filter(|p: (u64, R)| p.0 > k).len()
}

/// Two sequences with the same elements, counted with repetition, have as many elements
/// meeting a condition.
proof fn lemma_filter_len_permutation<A>(a: Seq<A>, b: Seq<A>, f: spec_fn(A) -> bool)
    requires
        a.to_multiset() == b.to_multiset(),
    ensures
        a.filter(f).len() == b.filter(f).len(),
    decreases a.len(),
{
    broadcast use vstd::seq_lib::group_to_multiset_ensures;
    broadcast use vstd::multiset::group_multiset_axioms;

    if a.len() == 0 {
        assert(b.to_multiset().len() == 0);
        assert(b.len() == 0);
        assert(a.filter(f) =~= Seq::<A>::empty()) by {
            reveal(Seq::filter);
        }
        assert(b.filter(f) =~= Seq::<A>::empty()) by {
            reveal(Seq::filter);
        }
    } else {
        let x = a.last();
        let a1 = a.drop_last();
        assert(a1.push(x) =~= a);
        assert(a.to_multiset() == a1.to_multiset().insert(x));
        assert(b.to_multiset().count(x) > 0);
        assert(b.contains(x));
        let j = choose|j: int| 0 <= j < b.len() && b[j] == x;
        let b1 = b.remove(j);
        assert(b1.to_multiset() == b.to_multiset().remove(x));
        assert(a1.to_multiset() =~= b1.to_multiset());
        lemma_filter_len_permutation(a1, b1, f);
        a1.lemma_filter_len_push(f, x);
        let l = b.take(j);
        let r = b.skip(j + 1);
        assert(b =~= l.push(x) + r);
        assert(b1 =~= l + r);
        Seq::filter_distributes_over_add(l.push(x), r, f);
        Seq::filter_distributes_over_add(l, r, f);
        l.lemma_filter_len_push(f, x);
    }
}

proof fn lemma_filter_all<A>(s: Seq<A>, f: spec_fn(A) -> bool)
    requires
        forall|i: int| 0 <= i < s.len() ==> f(#[trigger] s[i]),
    ensures
        s.filter(f).len() == s.len(),
    decreases s.len(),
{
    if s.len() > 0 {
        lemma_filter_all(s.drop_last(), f);
        assert(s.drop_last().push(s.last()) =~= s);
        s.drop_last().lemma_filter_len_push(f, s.last());
    } else {
        assert(s.filter(f) =~= Seq::<A>::empty()) by {
            reveal(Seq::filter);
        }
    }
}

proof fn lemma_filter_none<A>(s: Seq<A>, f: spec_fn(A) -> bool)
    requires
        forall|i: int| 0 <= i < s.len() ==> !f(#[trigger] s[i]),
    ensures
        s.filter(f).len() == 0,
    decreases s.len(),
{
    if s.len() > 0 {
        lemma_filter_none(s.drop_last(), f);
        assert(s.drop_last().push(s.last()) =~= s);
        s.drop_last().lemma_filter_len_push(f, s.last());
    } else {
        assert(s.filter(f) =~= Seq::<A>::empty()) by {
            reveal(Seq::filter);
        }
    }
}

proof fn lemma_sorted_is_row<R>(rows: Seq<(u64, R)>, p: int)
    requires
        0 <= p < rows.len(),
    ensures
        stable_sort(rows).len() == rows.len(),
        exists|q: int| 0 <= q < rows.len() && stable_sort(rows)[p] == rows[q],
{
    broadcast use vstd::seq_lib::group_to_multiset_ensures;

    let s = stable_sort(rows);
    lemma_stable_sort(rows);
    assert(s.to_multiset().count(s[p]) > 0);
    assert(rows.contains(s[p]));
}

proof fn lemma_row_is_sorted<R>(rows: Seq<(u64, R)>, q: int)
    requires
        0 <= q < rows.len(),
    ensures
        stable_sort(rows).len() == rows.len(),
        exists|p: int| 0 <= p < rows.len() && stable_sort(rows)[p] == rows[q],
{
    broadcast use vstd::seq_lib::group_to_multiset_ensures;

    let s = stable_sort(rows);
    lemma_stable_sort(rows);
    assert(rows.to_multiset().count(rows[q]) > 0);
    assert(s.contains(rows[q]));
}

proof fn lemma_sort_no_duplicates<R>(rows: Seq<(u64, R)>)
    requires
        crate::flows::keys_unique(rows),
    ensures
        stable_sort(rows).no_duplicates(),
{
    let n = rows.len() as int;
    assert forall|i: int, j: int| 0 <= i < n && 0 <= j < n && i != j implies rows[i] != rows[j] by {
        if i < j {
            assert(rows[i].0 != rows[j].0);
        } else {
            assert(rows[j].0 != rows[i].0);
        }
    }
    assert(rows.no_duplicates());
    rows.lemma_multiset_has_no_duplicates();
    lemma_stable_sort(rows);
    stable_sort(rows).lemma_multiset_has_no_duplicates_conv();
}

proof fn lemma_strict_keys<R>(s: Seq<(u64, R)>, rows: Seq<(u64, R)>)
    requires
        sorted_by_key(s),
        s.no_duplicates(),
        crate::flows::keys_unique(rows),
        forall|p: int| 0 <= p < s.len() ==> exists|q: int| 0 <= q < rows.len() && #[trigger] s[p] == rows[q],
    ensures
        forall|a: int, b: int| 0 <= a < b < s.len() ==> #[trigger] s[a].0 < #[trigger] s[b].0,
{
    assert forall|a: int, b: int| 0 <= a < b < s.len() implies #[trigger] s[a].0 < #[trigger] s[b].0 by {
        assert(s[a].0 <= s[b].0);
        if s[a].0 == s[b].0 {
            let qa = choose|q: int| 0 <= q < rows.len() && s[a] == rows[q];
            let qb = choose|q: int| 0 <= q < rows.len() && s[b] == rows[q];
            assert(s[a] != s[b]);
            if qa < qb {
                assert(rows[qa].0 != rows[qb].0);
            } else if qb < qa {
                assert(rows[qb].0 != rows[qa].0);
            }
        }
    }
}

proof fn lemma_sort_strict<R>(rows: Seq<(u64, R)>)
    requires
        crate::flows::keys_unique(rows),
    ensures
        forall|a: int, b: int|
            0 <= a < b < rows.len() ==> #[trigger] stable_sort(rows)[a].0 < #[trigger] stable_sort(rows)[b].0,
{
    lemma_stable_sort(rows);
    lemma_sort_no_duplicates(rows);
    assert forall|p: int| 0 <= p < stable_sort(rows).len() implies exists|q: int|
        0 <= q < rows.len() && #[trigger] stable_sort(rows)[p] == rows[q] by {
        lemma_sorted_is_row(rows, p);
    }
    lemma_strict_keys(stable_sort(rows), rows);
}

proof fn lemma_count_above_at<R>(rows: Seq<(u64, R)>, p: int)
    requires
        0 <= p < rows.len(),
        forall|a: int, b: int|
            0 <= a < b < rows.len() ==> #[trigger] stable_sort(rows)[a].0 < #[trigger] stable_sort(rows)[b].0,
    ensures
        count_above(rows, stable_sort(rows)[p].0) == rows.len() - 1 - p,
{
    let s = stable_sort(rows);
    lemma_stable_sort(rows);
    let k = s[p].0;
    let f = |x: (u64, R)| x.0 > k;
    lemma_filter_len_permutation(rows, s, f);
    let lo = s.take(p + 1);
    let hi = s.skip(p + 1);
    assert(s =~= lo + hi);
    Seq::filter_distributes_over_add(lo, hi, f);
    assert forall|i: int| 0 <= i < lo.len() implies !f(#[trigger] lo[i]) by {
        assert(lo[i] == s[i]);
        if i < p {
            assert(s[i].0 < s[p].0);
        }
    }
    lemma_filter_none(lo, f);
    assert forall|i: int| 0 <= i < hi.len() implies f(#[trigger] hi[i]) by {
        assert(hi[i] == s[p + 1 + i]);
        assert(s[p].0 < s[p + 1 + i].0);
    }
    lemma_filter_all(hi, f);
    assert(count_above(rows, k) == rows.filter(f).len());
}

/// `v` is the value of a row with fewer than `limit` rows keyed above it: one of the rows with
/// the `limit` largest keys, where keys are distinct.
pub open spec fn among_newest<R>(rows: Seq<(u64, R)>, limit: usize, v: R) -> bool {
    exists|q: int| 0 <= q < rows.len() && v == rows[q].1 && count_above(rows, rows[q].0) < limit
}

/// Where a limit is set and there are more rows than it, keeping the last `limit` rows in key
/// order keeps exactly the rows with the `limit` largest keys (keys being distinct), whatever
/// order the rows come in: each kept row is a row with fewer than `limit` rows keyed above
/// it, and every such row is kept.
#[verifier::rlimit(40)]
pub proof fn lemma_keep_last_newest<R>(rows: Seq<(u64, R)>, limit: usize)
    requires
        crate::flows::keys_unique(rows),
        limit > 0,
        rows.len() > limit,
    ensures
        keep_last(values_of(stable_sort(rows)), limit).len() == limit,
        forall|i: int|
            0 <= i < limit ==> among_newest(rows, limit, #[trigger] keep_last(values_of(stable_sort(rows)), limit)[i]),
        forall|q: int|
            0 <= q < rows.len() && count_above(rows, (#[trigger] rows[q]).0) < limit ==> keep_last(
                values_of(stable_sort(rows)),
                limit,
            ).contains(rows[q].1),
{
    let s = stable_sort(rows);
    let n = rows.len() as int;
    lemma_stable_sort(rows);
    lemma_sort_strict(rows);
    let kept = keep_last(values_of(s), limit);
    assert(kept =~= values_of(s).subrange(n - limit, n));
    assert forall|i: int| 0 <= i < limit implies among_newest(
        rows,
        limit,
        #[trigger] keep_last(values_of(stable_sort(rows)), limit)[i],
    ) by {
        let p = n - limit + i;
        assert(kept[i] == s[p].1);
        lemma_sorted_is_row(rows, p);
        let q = choose|q: int| 0 <= q < n && s[p] == rows[q];
        lemma_count_above_at(rows, p);
        assert(kept[i] == rows[q].1 && count_above(rows, rows[q].0) < limit);
    }
    assert forall|q: int| 0 <= q < rows.len() && count_above(rows, (#[trigger] rows[q]).0) < limit implies kept.contains(
        rows[q].1,
    ) by {
        lemma_row_is_sorted(rows, q);
        let p = choose|p: int| 0 <= p < n && s[p] == rows[q];
        lemma_count_above_at(rows, p);
        assert(kept[p - (n - limit)] == s[p].1);
    }
}

/// Sorting keyed values keeps the values: as many, each a value that was there, and each value
/// that was there among them.
proof fn lemma_sort_keeps_values<R>(ps: Seq<(u64, R)>)
    ensures
        values_of(stable_sort(ps)).len() == ps.len(),
        forall|i: int|
            0 <= i < ps.len() ==> values_of(ps).contains(#[trigger] values_of(stable_sort(ps))[i]),
        forall|j: int|
            0 <= j < ps.len() ==> values_of(stable_sort(ps)).contains(#[trigger] values_of(ps)[j]),
{
    broadcast use vstd::seq_lib::group_to_multiset_ensures;

    let s = stable_sort(ps);
    lemma_stable_sort(ps);
    assert forall|i: int| 0 <= i < ps.len() implies values_of(ps).contains(#[trigger] values_of(s)[i]) by {
        assert(s.to_multiset().count(s[i]) > 0);
        assert(ps.contains(s[i]));
        let j = choose|j: int| 0 <= j < ps.len() && ps[j] == s[i];
        assert(values_of(ps)[j] == values_of(s)[i]);
    }
    assert forall|j: int| 0 <= j < ps.len() implies values_of(s).contains(#[trigger] values_of(ps)[j]) by {
        assert(ps.to_multiset().count(ps[j]) > 0);
        assert(s.contains(ps[j]));
        let i = choose|i: int| 0 <= i < s.len() && s[i] == ps[j];
        assert(values_of(s)[i] == values_of(ps)[j]);
    }
}

/// What is shown of keyed rows with distinct keys, where a limit is set and there are more
/// rows than it (the values in key order, the last `limit` kept, then sorted by another key):
/// exactly the rows with the `limit` largest keys, whatever order the rows come in.
pub proof fn lemma_shown_newest<R>(rows: Seq<(u64, R)>, limit: usize, key: spec_fn(R) -> u64)
    requires
        crate::flows::keys_unique(rows),
        limit > 0,
        rows.len() > limit,
    ensures
        ({
            let shown = values_of(
                stable_sort(keep_last(values_of(stable_sort(rows)), limit).map_values(|r: R| (key(r), r))),
            );
            &&& shown.len() == limit
            &&& forall|i: int| 0 <= i < limit ==> among_newest(rows, limit, #[trigger] shown[i])
            &&& forall|q: int|
                0 <= q < rows.len() && count_above(rows, (#[trigger] rows[q]).0) < limit ==> shown.contains(
                    rows[q].1,
                )
        }),
{
    let kept = keep_last(values_of(stable_sort(rows)), limit);
    lemma_keep_last_newest(rows, limit);
    let ps = kept.map_values(|r: R| (key(r), r));
    assert(values_of(ps) =~= kept);
    lemma_sort_keeps_values(ps);
    let shown = values_of(stable_sort(ps));
    assert forall|i: int| 0 <= i < limit implies among_newest(rows, limit, #[trigger] shown[i]) by {
        assert(values_of(ps).contains(shown[i]));
        let j = choose|j: int| 0 <= j < kept.len() && kept[j] == shown[i];
        assert(among_newest(rows, limit, kept[j]));
    }
    assert forall|q: int|
        0 <= q < rows.len() && count_above(rows, (#[trigger] rows[q]).0) < limit implies shown.contains(
            rows[q].1,
        ) by {
        assert(kept.contains(rows[q].1));
        let j = choose|j: int| 0 <= j < kept.len() && kept[j] == rows[q].1;
        assert(values_of(ps)[j] == kept[j]);
        assert(shown.contains(values_of(ps)[j]));
    }
}

} // verus!
