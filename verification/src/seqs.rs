//! Searching and sorting over sequences.

use vstd::prelude::*;

verus! {

/// The least index at or after `k` whose element satisfies `p`.
pub open spec fn first_from<T>(s: Seq<T>, p: spec_fn(T) -> bool, k: int) -> Option<int>
    decreases s.len() - k,
{
    if k < 0 || k >= s.len() {
        None
    } else if p(s[k]) {
        Some(k)
    } else {
        first_from(s, p, k + 1)
    }
}

/// The least index whose element satisfies `p`.
pub open spec fn first_where<T>(s: Seq<T>, p: spec_fn(T) -> bool) -> Option<int> {
    first_from(s, p, 0)
}

/// What `first_from` finds.
pub proof fn lemma_first_from<T>(s: Seq<T>, p: spec_fn(T) -> bool, k: int)
    requires
        0 <= k,
    ensures
        match first_from(s, p, k) {
            Some(i) => k <= i < s.len() && p(s[i]) && forall|j: int| k <= j < i ==> !p(#[trigger] s[j]),
            None => forall|j: int| k <= j < s.len() ==> !p(#[trigger] s[j]),
        },
    decreases s.len() - k,
{
    if k < s.len() && !p(s[k]) {
        lemma_first_from(s, p, k + 1);
    }
}

/// What `first_where` finds: the least index with the property, or
/// nothing when no element has it.
pub proof fn lemma_first_where<T>(s: Seq<T>, p: spec_fn(T) -> bool)
    ensures
        match first_where(s, p) {
            Some(i) => 0 <= i < s.len() && p(s[i]) && forall|j: int| 0 <= j < i ==> !p(#[trigger] s[j]),
            None => forall|j: int| 0 <= j < s.len() ==> !p(#[trigger] s[j]),
        },
{
    lemma_first_from(s, p, 0);
}

/// The least number from `k` on and below `n` with the property `p`.
pub open spec fn first_number_from(p: spec_fn(int) -> bool, k: int, n: int) -> Option<int>
    decreases n - k,
{
    if k >= n {
        None
    } else if p(k) {
        Some(k)
    } else {
        first_number_from(p, k + 1, n)
    }
}

/// The least natural number below `n` with the property `p`.
pub open spec fn first_number(p: spec_fn(int) -> bool, n: int) -> Option<int> {
    first_number_from(p, 0, n)
}

/// What `first_number_from` finds.
pub proof fn lemma_first_number_from(p: spec_fn(int) -> bool, k: int, n: int)
    ensures
        match first_number_from(p, k, n) {
            Some(i) => k <= i < n && p(i) && forall|j: int| k <= j < i ==> !#[trigger] p(j),
            None => forall|j: int| k <= j < n ==> !#[trigger] p(j),
        },
    decreases n - k,
{
    if k < n && !p(k) {
        lemma_first_number_from(p, k + 1, n);
    }
}

/// What `first_number` finds.
pub proof fn lemma_first_number(p: spec_fn(int) -> bool, n: int)
    ensures
        match first_number(p, n) {
            Some(i) => 0 <= i < n && p(i) && forall|j: int| 0 <= j < i ==> !#[trigger] p(j),
            None => forall|j: int| 0 <= j < n ==> !#[trigger] p(j),
        },
{
    lemma_first_number_from(p, 0, n);
}

/// `s` without the elements that already occur before them.
pub open spec fn distinct<T>(s: Seq<T>) -> Seq<T>
    decreases s.len(),
{
    if s.len() == 0 {
        s
    } else {
        let rest = distinct(s.drop_last());
        if rest.contains(s.last()) {
            rest
        } else {
            rest.push(s.last())
        }
    }
}

/// `distinct` keeps every element and repeats none.
pub proof fn lemma_distinct<T>(s: Seq<T>)
    ensures
        distinct(s).no_duplicates(),
        distinct(s).len() <= s.len(),
        forall|x: T| s.contains(x) <==> #[trigger] distinct(s).contains(x),
    decreases s.len(),
{
    if s.len() > 0 {
        let rest = distinct(s.drop_last());
        lemma_distinct(s.drop_last());
        assert(s =~= s.drop_last().push(s.last()));
        assert forall|x: T| s.contains(x) <==> #[trigger] distinct(s).contains(x) by {
            if s.contains(x) {
                let i = choose|i: int| 0 <= i < s.len() && s[i] == x;
                if i < s.len() - 1 {
                    assert(s.drop_last()[i] == x);
                    assert(s.drop_last().contains(x));
                    assert(rest.contains(x));
                    let j = choose|j: int| 0 <= j < rest.len() && rest[j] == x;
                    assert(distinct(s)[j] == x);
                } else if !rest.contains(x) {
                    assert(distinct(s)[rest.len() as int] == x);
                }
            }
            if distinct(s).contains(x) {
                let j = choose|j: int| 0 <= j < distinct(s).len() && distinct(s)[j] == x;
                if j < rest.len() {
                    assert(rest[j] == x);
                    assert(rest.contains(x));
                    assert(s.drop_last().contains(x));
                    let i = choose|i: int|
                        0 <= i < s.drop_last().len() && s.drop_last()[i] == x;
                    assert(s[i] == x);
                } else {
                    assert(s[s.len() - 1] == x);
                }
            }
        }
    }
}

// ---------------------------------------------------------------------
// Stable insertion sort
// ---------------------------------------------------------------------
/// `x` put into `s` before the first element that must come after it.
pub open spec fn insert_sorted<T>(s: Seq<T>, x: T, lt: spec_fn(T, T) -> bool) -> Seq<T> {
    match first_where(s, |y: T| lt(x, y)) {
        Some(i) => s.insert(i, x),
        None => s.push(x),
    }
}

/// `s` in the order of `lt`, elements that `lt` does not order in the
/// order in which they came.
pub open spec fn sorted_by<T>(s: Seq<T>, lt: spec_fn(T, T) -> bool) -> Seq<T>
    decreases s.len(),
{
    if s.len() == 0 {
        s
    } else {
        insert_sorted(sorted_by(s.drop_last(), lt), s.last(), lt)
    }
}

/// No element of `s` must come after a later one.
pub open spec fn ordered<T>(s: Seq<T>, lt: spec_fn(T, T) -> bool) -> bool {
    forall|i: int, j: int| 0 <= i < j < s.len() ==> !#[trigger] lt(s[j], s[i])
}

/// `lt` is irreflexive and transitive, and so is its "neither before
/// nor after".
pub open spec fn weak_order<T>(lt: spec_fn(T, T) -> bool) -> bool {
    &&& forall|a: T| !#[trigger] lt(a, a)
    &&& forall|a: T, b: T, c: T| #[trigger] lt(a, b) && #[trigger] lt(b, c) ==> lt(a, c)
    &&& forall|a: T, b: T, c: T|
        !(#[trigger] lt(a, b)) && !(#[trigger] lt(b, c)) ==> !lt(a, c)
}

proof fn lemma_insert_sorted<T>(s: Seq<T>, x: T, lt: spec_fn(T, T) -> bool)
    requires
        weak_order(lt),
        ordered(s, lt),
    ensures
        ordered(insert_sorted(s, x, lt), lt),
        insert_sorted(s, x, lt).to_multiset() == s.to_multiset().insert(x),
        insert_sorted(s, x, lt).len() == s.len() + 1,
{
    let p = |y: T| lt(x, y);
    lemma_first_where(s, p);
    let r = insert_sorted(s, x, lt);
    broadcast use vstd::seq_lib::group_to_multiset_ensures;

    match first_where(s, p) {
        Some(i) => {
            assert(p(s[i]));
            assert forall|a: int, b: int| 0 <= a < b < r.len() implies !#[trigger] lt(
                r[b],
                r[a],
            ) by {
                if b < i {
                    assert(!lt(s[b], s[a]));
                } else if b == i {
                    assert(!p(s[a]));
                } else if a < i {
                    assert(!lt(s[b - 1], s[a]));
                } else if a == i {
                    // x against s[b - 1]: s[i] does not follow s[b - 1]
                    if i < b - 1 {
                        assert(!lt(s[b - 1], s[i]));
                    }
                    if lt(s[b - 1], x) {
                        assert(lt(x, s[i]));
                        assert(lt(s[b - 1], s[i]));
                    }
                } else {
                    assert(!lt(s[b - 1], s[a - 1]));
                }
            }
        },
        None => {
            assert forall|a: int, b: int| 0 <= a < b < r.len() implies !#[trigger] lt(
                r[b],
                r[a],
            ) by {
                if b < s.len() {
                    assert(!lt(s[b], s[a]));
                } else {
                    assert(!p(s[a]));
                }
            }
        },
    }
}

/// Sorting orders the elements and neither adds nor loses one.
pub proof fn lemma_sorted_by<T>(s: Seq<T>, lt: spec_fn(T, T) -> bool)
    requires
        weak_order(lt),
    ensures
        ordered(sorted_by(s, lt), lt),
        sorted_by(s, lt).to_multiset() == s.to_multiset(),
        sorted_by(s, lt).len() == s.len(),
    decreases s.len(),
{
    broadcast use vstd::seq_lib::group_to_multiset_ensures;

    if s.len() > 0 {
        lemma_sorted_by(s.drop_last(), lt);
        lemma_insert_sorted(sorted_by(s.drop_last(), lt), s.last(), lt);
        assert(s =~= s.drop_last().push(s.last()));
    }
}

proof fn lemma_insert_sorted_map<T, U>(
    s: Seq<T>,
    x: T,
    f: spec_fn(T) -> U,
    lt: spec_fn(T, T) -> bool,
    image: spec_fn(U, U) -> bool,
)
    requires
        forall|a: T, b: T| #[trigger] lt(a, b) == image(f(a), f(b)),
    ensures
        insert_sorted(s, x, lt).map_values(f) == insert_sorted(s.map_values(f), f(x), image),
{
    let p = |y: T| lt(x, y);
    let q = |y: U| image(f(x), y);
    let t = s.map_values(f);
    lemma_first_where(s, p);
    lemma_first_where(t, q);
    assert(forall|j: int| 0 <= j < s.len() ==> p(#[trigger] s[j]) == q(t[j])) by {
        assert forall|j: int| 0 <= j < s.len() implies p(#[trigger] s[j]) == q(t[j]) by {
            assert(lt(x, s[j]) == image(f(x), f(s[j])));
        }
    }
    match first_where(s, p) {
        Some(i) => {
            assert(q(t[i]));
            match first_where(t, q) {
                Some(k) => {
                    assert(p(s[k]));
                    assert(i == k);
                },
                None => {},
            }
            assert(s.insert(i, x).map_values(f) =~= t.insert(i, f(x)));
        },
        None => {
            match first_where(t, q) {
                Some(k) => {
                    assert(!p(s[k]));
                },
                None => {},
            }
            assert(s.push(x).map_values(f) =~= t.push(f(x)));
        },
    }
}

/// Sorting by an image is the same as taking the image after sorting.
pub proof fn lemma_sorted_map<T, U>(
    s: Seq<T>,
    f: spec_fn(T) -> U,
    lt: spec_fn(T, T) -> bool,
    image: spec_fn(U, U) -> bool,
)
    requires
        forall|a: T, b: T| #[trigger] lt(a, b) == image(f(a), f(b)),
    ensures
        sorted_by(s, lt).map_values(f) == sorted_by(s.map_values(f), image),
    decreases s.len(),
{
    let t = s.map_values(f);
    if s.len() == 0 {
        assert(t =~= Seq::empty());
        assert(s.map_values(f) =~= Seq::empty());
    } else {
        lemma_sorted_map(s.drop_last(), f, lt, image);
        assert(t.drop_last() =~= s.drop_last().map_values(f));
        lemma_insert_sorted_map(sorted_by(s.drop_last(), lt), s.last(), f, lt, image);
    }
}

/// The elements of `items` in the order of `before`, elements that it
/// does not order in the order in which they came.
pub(crate) fn sort_by<T: Copy, F: Fn(T, T) -> bool>(
    items: &Vec<T>,
    before: F,
    Ghost(lt): Ghost<spec_fn(T, T) -> bool>,
) -> (r: Vec<T>)
    requires
        forall|a: T, b: T| #[trigger] call_requires(before, (a, b)),
        forall|a: T, b: T, out: bool| #[trigger]
            call_ensures(before, (a, b), out) ==> out == lt(a, b),
    ensures
        r@ == sorted_by(items@, lt),
{
    let mut out: Vec<T> = Vec::new();
    let mut k: usize = 0;
    proof {
        assert(items@.take(0) =~= Seq::empty());
    }
    while k < items.len()
        invariant
            forall|a: T, b: T| #[trigger] call_requires(before, (a, b)),
            forall|a: T, b: T, o: bool| #[trigger]
                call_ensures(before, (a, b), o) ==> o == lt(a, b),
            k <= items@.len(),
            out@ == sorted_by(items@.take(k as int), lt),
        decreases items@.len() - k,
    {
        let x = items[k];
        let ghost so_far = out@;
        let ghost p = |y: T| lt(x, y);
        let mut at: usize = 0;
        let mut found = false;
        while at < out.len() && !found
            invariant
                forall|a: T, b: T| #[trigger] call_requires(before, (a, b)),
                forall|a: T, b: T, o: bool| #[trigger]
                    call_ensures(before, (a, b), o) ==> o == lt(a, b),
                out@ == so_far,
                p == (|y: T| lt(x, y)),
                at <= out@.len(),
                forall|j: int| 0 <= j < at ==> !p(#[trigger] so_far[j]),
                found ==> at < out@.len() && p(so_far[at as int]),
            decreases out@.len() - at, !found as int,
        {
            if before(x, out[at]) {
                found = true;
            } else {
                at = at + 1;
            }
        }
        proof {
            lemma_first_where(so_far, p);
            assert(items@.take(k + 1).drop_last() =~= items@.take(k as int));
            assert(items@.take(k + 1).last() == x);
            if let Some(i) = first_where(so_far, p) {
                assert(p(so_far[i]));
                assert(i == at);
            } else {
                assert(so_far.insert(at as int, x) =~= so_far.push(x));
            }
        }
        out.insert(at, x);
        k = k + 1;
    }
    proof {
        assert(items@.take(k as int) =~= items@);
    }
    out
}

// ---------------------------------------------------------------------
// Picking
// ---------------------------------------------------------------------
/// The elements of `s` with the property `p`, in their order.
pub open spec fn kept<T>(s: Seq<T>, p: spec_fn(T) -> bool) -> Seq<T>
    decreases s.len(),
{
    if s.len() == 0 {
        s
    } else if p(s.last()) {
        kept(s.drop_last(), p).push(s.last())
    } else {
        kept(s.drop_last(), p)
    }
}

/// What `kept` keeps: only elements of `s` with the property, and all
/// of them.
pub proof fn lemma_kept<T>(s: Seq<T>, p: spec_fn(T) -> bool)
    ensures
        kept(s, p).len() <= s.len(),
        forall|x: T| #[trigger] kept(s, p).contains(x) <==> s.contains(x) && p(x),
    decreases s.len(),
{
    if s.len() > 0 {
        let front = s.drop_last();
        lemma_kept(front, p);
        assert forall|x: T| #[trigger] kept(s, p).contains(x) <==> s.contains(x) && p(x) by {
            let rest = kept(front, p);
            assert(rest.contains(x) <==> front.contains(x) && p(x));
            if s.contains(x) && p(x) {
                let i = choose|i: int| 0 <= i < s.len() && s[i] == x;
                if i < front.len() {
                    assert(front[i] == x);
                    assert(rest.contains(x));
                    let k = choose|k: int| 0 <= k < rest.len() && rest[k] == x;
                    assert(kept(s, p)[k] == x);
                } else {
                    assert(kept(s, p)[rest.len() as int] == x);
                }
            }
            if kept(s, p).contains(x) {
                let k = choose|k: int| 0 <= k < kept(s, p).len() && kept(s, p)[k] == x;
                if k < rest.len() {
                    assert(rest[k] == x);
                    assert(front.contains(x));
                    let i = choose|i: int| 0 <= i < front.len() && front[i] == x;
                    assert(s[i] == x);
                } else {
                    assert(s[s.len() - 1] == x);
                }
            }
        }
    } else {
        assert(kept(s, p) =~= s);
    }
}

/// What a list of references refers to.
pub open spec fn referents<T>(refs: Seq<&T>) -> Seq<T> {
    refs.map_values(|r: &T| *r)
}

/// References to the elements of `items` that `keep` keeps.
pub(crate) fn pick<'a, T, F: Fn(&T) -> bool>(
    items: &'a Vec<T>,
    keep: F,
    Ghost(p): Ghost<spec_fn(T) -> bool>,
) -> (r: Vec<&'a T>)
    requires
        forall|x: &T| #[trigger] call_requires(keep, (x,)),
        forall|x: &T, out: bool| #[trigger] call_ensures(keep, (x,), out) ==> out == p(*x),
    ensures
        referents(r@) == kept(items@, p),
{
    let mut out: Vec<&'a T> = Vec::new();
    let mut i: usize = 0;
    proof {
        assert(items@.take(0) =~= Seq::empty());
        assert(referents(out@) =~= Seq::empty());
    }
    while i < items.len()
        invariant
            forall|x: &T| #[trigger] call_requires(keep, (x,)),
            forall|x: &T, o: bool| #[trigger] call_ensures(keep, (x,), o) ==> o == p(*x),
            i <= items@.len(),
            referents(out@) == kept(items@.take(i as int), p),
        decreases items@.len() - i,
    {
        let x: &'a T = &items[i];
        proof {
            assert(items@.take(i + 1).drop_last() =~= items@.take(i as int));
            assert(items@.take(i + 1).last() == *x);
        }
        if keep(x) {
            let ghost so_far = referents(out@);
            out.push(x);
            proof {
                assert(referents(out@) =~= so_far.push(*x));
            }
        }
        i = i + 1;
    }
    proof {
        assert(items@.take(i as int) =~= items@);
    }
    out
}

/// References in the order of what they refer to.
pub(crate) fn sort_refs<'a, T, F: Fn(&T, &T) -> bool>(
    items: &Vec<&'a T>,
    before: F,
    Ghost(lt): Ghost<spec_fn(T, T) -> bool>,
) -> (r: Vec<&'a T>)
    requires
        forall|a: &T, b: &T| #[trigger] call_requires(before, (a, b)),
        forall|a: &T, b: &T, out: bool| #[trigger]
            call_ensures(before, (a, b), out) ==> out == lt(*a, *b),
    ensures
        referents(r@) == sorted_by(referents(items@), lt),
{
    let ghost over = |a: &'a T, b: &'a T| lt(*a, *b);
    let over_refs = |a: &'a T, b: &'a T| -> (o: bool)
        ensures
            o == over(a, b),
        { before(a, b) };
    let r = sort_by(items, over_refs, Ghost(over));
    proof {
        lemma_sorted_map(items@, |r: &T| *r, over, lt);
    }
    r
}

/// What is kept of a list is its elements with the property, each as
/// often as it stands there and in their order.
pub proof fn law_kept_is_the_filter<T>(s: Seq<T>, p: spec_fn(T) -> bool)
    ensures
        kept(s, p) == s.filter(p),
    decreases s.len(),
{
    reveal(Seq::filter);
    if s.len() > 0 {
        law_kept_is_the_filter(s.drop_last(), p);
    }
}

/// The elements without repeats stand in the order in which each is first
/// seen: what comes first stays first.
pub proof fn law_first_seen_stays_first<T>(s: Seq<T>, i: int, j: int) -> (at: (int, int))
    requires
        0 <= i < j < s.len(),
        s[i] != s[j],
        forall|k: int| 0 <= k < i ==> #[trigger] s[k] != s[i],
        forall|k: int| 0 <= k < j ==> #[trigger] s[k] != s[j],
    ensures
        0 <= at.0 < at.1 < distinct(s).len(),
        distinct(s)[at.0] == s[i],
        distinct(s)[at.1] == s[j],
    decreases s.len(),
{
    let front = s.drop_last();
    lemma_distinct(front);
    if j < front.len() {
        assert(front[i] == s[i] && front[j] == s[j]);
        assert forall|k: int| 0 <= k < i implies #[trigger] front[k] != front[i] by {
            assert(s[k] != s[i]);
        }
        assert forall|k: int| 0 <= k < j implies #[trigger] front[k] != front[j] by {
            assert(s[k] != s[j]);
        }
        law_first_seen_stays_first(front, i, j)
    } else {
        assert(front[i] == s[i]);
        assert(front.contains(s[i]));
        assert(!front.contains(s[j])) by {
            if front.contains(s[j]) {
                let k = choose|k: int| 0 <= k < front.len() && front[k] == s[j];
                assert(s[k] != s[j]);
            }
        }
        assert(distinct(front).contains(s[i]));
        let a = choose|a: int| 0 <= a < distinct(front).len() && distinct(front)[a] == s[i];
        (a, distinct(front).len() as int)
    }
}

} // verus!
