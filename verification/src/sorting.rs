//! Stable insertion sort, as a specification shared by the executable sorts
//! of the library.
use vstd::prelude::*;

verus! {

/// `xs` with `x` put in behind the last element that `le` places at or before
/// it.
pub open spec fn insert_sorted<A>(xs: Seq<A>, x: A, le: spec_fn(A, A) -> bool) -> Seq<A>
    decreases xs.len(),
{
    if xs.len() == 0 {
        seq![x]
    } else if le(xs.last(), x) {
        xs.push(x)
    } else {
        insert_sorted(xs.drop_last(), x, le).push(xs.last())
    }
}

/// The first `n` elements of `xs`, sorted by `le`; elements that `le` places
/// equally keep their order.
pub open spec fn sorted_prefix<A>(xs: Seq<A>, n: nat, le: spec_fn(A, A) -> bool) -> Seq<A>
    decreases n,
{
    if n == 0 {
        Seq::empty()
    } else {
        insert_sorted(sorted_prefix(xs, (n - 1) as nat, le), xs[n - 1], le)
    }
}

/// The whole of `xs`, sorted by `le`.
pub open spec fn sorted<A>(xs: Seq<A>, le: spec_fn(A, A) -> bool) -> Seq<A> {
    sorted_prefix(xs, xs.len(), le)
}

/// Whether each element is placed at or before the next.
pub open spec fn is_sorted<A>(xs: Seq<A>, le: spec_fn(A, A) -> bool) -> bool {
    forall|i: int| 0 <= i < xs.len() - 1 ==> le(#[trigger] xs[i], xs[i + 1])
}

/// Where `insert_sorted` puts the new element: at `p`, when everything from
/// `p` on is placed after it and what stands before `p` is not.
pub proof fn lemma_insert_at<A>(xs: Seq<A>, x: A, le: spec_fn(A, A) -> bool, p: int)
    requires
        0 <= p <= xs.len(),
        forall|i: int| p <= i < xs.len() ==> !le(#[trigger] xs[i], x),
        p > 0 ==> le(xs[p - 1], x),
    ensures
        insert_sorted(xs, x, le) == xs.insert(p, x),
    decreases xs.len(),
{
    if xs.len() == 0 {
        assert(seq![x] =~= xs.insert(p, x));
    } else if p == xs.len() {
        assert(xs.push(x) =~= xs.insert(p, x));
    } else {
        lemma_insert_at(xs.drop_last(), x, le, p);
        assert(xs.drop_last().insert(p, x).push(xs.last()) =~= xs.insert(p, x));
    }
}

/// Inserting keeps the length growing by one.
pub proof fn lemma_insert_len<A>(xs: Seq<A>, x: A, le: spec_fn(A, A) -> bool)
    ensures
        insert_sorted(xs, x, le).len() == xs.len() + 1,
    decreases xs.len(),
{
    if xs.len() > 0 && !le(xs.last(), x) {
        lemma_insert_len(xs.drop_last(), x, le);
    }
}

/// Whether `le` places every two elements one way or the other.
pub open spec fn total<A>(le: spec_fn(A, A) -> bool) -> bool {
    forall|a: A, b: A| #[trigger] le(a, b) || le(b, a)
}

/// Inserting adds the new element and nothing else.
pub proof fn lemma_insert_contains<A>(xs: Seq<A>, x: A, le: spec_fn(A, A) -> bool, v: A)
    ensures
        insert_sorted(xs, x, le).contains(v) <==> (xs.contains(v) || v == x),
    decreases xs.len(),
{
    let r = insert_sorted(xs, x, le);
    if xs.len() == 0 {
        assert(r[0] == x);
        if r.contains(v) {
            let i = choose|i: int| 0 <= i < r.len() && r[i] == v;
            assert(i == 0);
        }
    } else if le(xs.last(), x) {
        assert(r[xs.len() as int] == x);
        if xs.contains(v) {
            let i = choose|i: int| 0 <= i < xs.len() && xs[i] == v;
            assert(r[i] == v);
        }
        if r.contains(v) {
            let i = choose|i: int| 0 <= i < r.len() && r[i] == v;
            if i < xs.len() {
                assert(xs[i] == v);
            }
        }
    } else {
        let front = xs.drop_last();
        lemma_insert_contains(front, x, le, v);
        lemma_insert_len(front, x, le);
        let inner = insert_sorted(front, x, le);
        assert(r == inner.push(xs.last()));
        if xs.contains(v) {
            let i = choose|i: int| 0 <= i < xs.len() && xs[i] == v;
            if i < xs.len() - 1 {
                assert(front[i] == v);
                assert(front.contains(v));
                let j = choose|j: int| 0 <= j < inner.len() && inner[j] == v;
                assert(r[j] == v);
            } else {
                assert(r[inner.len() as int] == v);
            }
        }
        if v == x {
            let j = choose|j: int| 0 <= j < inner.len() && inner[j] == v;
            assert(r[j] == v);
        }
        if r.contains(v) {
            let i = choose|i: int| 0 <= i < r.len() && r[i] == v;
            if i < inner.len() {
                assert(inner[i] == v);
                assert(inner.contains(v));
                if front.contains(v) {
                    let j = choose|j: int| 0 <= j < front.len() && front[j] == v;
                    assert(xs[j] == v);
                }
            } else {
                assert(xs[xs.len() - 1] == v);
            }
        }
    }
}

/// Sorting keeps the elements: what is among the sorted first `n` is among
/// the first `n`, and the other way round.
pub proof fn lemma_sorted_contains<A>(xs: Seq<A>, n: nat, le: spec_fn(A, A) -> bool, v: A)
    requires
        n <= xs.len(),
    ensures
        sorted_prefix(xs, n, le).contains(v) <==> xs.take(n as int).contains(v),
    decreases n,
{
    if n == 0 {
        assert(sorted_prefix(xs, 0, le).len() == 0);
        assert(xs.take(0).len() == 0);
    } else {
        lemma_sorted_contains(xs, (n - 1) as nat, le, v);
        lemma_insert_contains(sorted_prefix(xs, (n - 1) as nat, le), xs[n - 1], le, v);
        let now = xs.take(n as int);
        let before = xs.take(n - 1);
        if before.contains(v) {
            let i = choose|i: int| 0 <= i < before.len() && before[i] == v;
            assert(now[i] == v);
        }
        if v == xs[n - 1] {
            assert(now[n - 1] == v);
        }
        if now.contains(v) {
            let i = choose|i: int| 0 <= i < now.len() && now[i] == v;
            if i < n - 1 {
                assert(before[i] == v);
            }
        }
    }
}

/// Inserting into a sorted sequence gives a sorted sequence.
pub proof fn lemma_insert_is_sorted<A>(xs: Seq<A>, x: A, le: spec_fn(A, A) -> bool)
    requires
        is_sorted(xs, le),
        total(le),
    ensures
        is_sorted(insert_sorted(xs, x, le), le),
    decreases xs.len(),
{
    let r = insert_sorted(xs, x, le);
    if xs.len() == 0 {
    } else if le(xs.last(), x) {
        assert forall|i: int| 0 <= i < r.len() - 1 implies le(#[trigger] r[i], r[i + 1]) by {
            if i < xs.len() - 1 {
                assert(le(xs[i], xs[i + 1]));
            }
        }
    } else {
        let front = xs.drop_last();
        assert forall|i: int| 0 <= i < front.len() - 1 implies le(#[trigger] front[i], front[i + 1]) by {
            assert(le(xs[i], xs[i + 1]));
        }
        lemma_insert_is_sorted(front, x, le);
        lemma_insert_len(front, x, le);
        let inner = insert_sorted(front, x, le);
        lemma_insert_last(front, x, le);
        assert(le(x, xs.last()));
        if front.len() > 0 {
            assert(le(xs[xs.len() - 2], xs[xs.len() - 2 + 1]));
        }
        assert forall|i: int| 0 <= i < r.len() - 1 implies le(#[trigger] r[i], r[i + 1]) by {
            if i < inner.len() - 1 {
                assert(le(inner[i], inner[i + 1]));
            }
        }
    }
}

/// The last element after inserting is the new element or the old last
/// element.
pub proof fn lemma_insert_last<A>(xs: Seq<A>, x: A, le: spec_fn(A, A) -> bool)
    ensures
        insert_sorted(xs, x, le).len() == xs.len() + 1,
        insert_sorted(xs, x, le).last() == x || (xs.len() > 0 && insert_sorted(xs, x, le).last()
            == xs.last()),
    decreases xs.len(),
{
    lemma_insert_len(xs, x, le);
    if xs.len() > 0 && !le(xs.last(), x) {
        lemma_insert_len(xs.drop_last(), x, le);
    }
}

/// Sorting by a total order gives a sorted sequence.
pub proof fn lemma_sorted_is_sorted<A>(xs: Seq<A>, n: nat, le: spec_fn(A, A) -> bool)
    requires
        total(le),
    ensures
        is_sorted(sorted_prefix(xs, n, le), le),
    decreases n,
{
    if n > 0 {
        lemma_sorted_is_sorted(xs, (n - 1) as nat, le);
        lemma_insert_is_sorted(sorted_prefix(xs, (n - 1) as nat, le), xs[n - 1], le);
    }
}

/// Inserting an element that is not there yet brings no duplicate in.
pub proof fn lemma_insert_distinct<A>(xs: Seq<A>, x: A, le: spec_fn(A, A) -> bool)
    requires
        xs.no_duplicates(),
        !xs.contains(x),
    ensures
        insert_sorted(xs, x, le).no_duplicates(),
    decreases xs.len(),
{
    let r = insert_sorted(xs, x, le);
    if xs.len() == 0 {
    } else if le(xs.last(), x) {
        assert forall|i: int, j: int| 0 <= i < r.len() && 0 <= j < r.len() && i != j implies r[i]
            != r[j] by {
            if i < xs.len() && j < xs.len() {
                assert(xs[i] != xs[j]);
            } else if i < xs.len() {
                assert(xs.contains(xs[i]));
            } else {
                assert(xs.contains(xs[j]));
            }
        }
    } else {
        let front = xs.drop_last();
        assert(front.no_duplicates()) by {
            assert forall|i: int, j: int|
                0 <= i < front.len() && 0 <= j < front.len() && i != j implies front[i]
                != front[j] by {
                assert(xs[i] != xs[j]);
            }
        }
        if front.contains(x) {
            let i = choose|i: int| 0 <= i < front.len() && front[i] == x;
            assert(xs[i] == x);
        }
        lemma_insert_distinct(front, x, le);
        lemma_insert_len(front, x, le);
        let inner = insert_sorted(front, x, le);
        lemma_insert_contains(front, x, le, xs.last());
        if front.contains(xs.last()) {
            let i = choose|i: int| 0 <= i < front.len() && front[i] == xs.last();
            assert(xs[i] == xs[xs.len() - 1]);
        }
        assert(xs.contains(xs.last())) by {
            assert(xs[xs.len() - 1] == xs.last());
        }
        assert(!inner.contains(xs.last()));
        assert forall|i: int, j: int| 0 <= i < r.len() && 0 <= j < r.len() && i != j implies r[i]
            != r[j] by {
            if i < inner.len() && j < inner.len() {
                assert(inner[i] != inner[j]);
            } else if i < inner.len() {
                assert(inner.contains(inner[i]));
            } else {
                assert(inner.contains(inner[j]));
            }
        }
    }
}

/// Sorting a sequence without duplicates gives one without duplicates.
pub proof fn lemma_sorted_distinct<A>(xs: Seq<A>, n: nat, le: spec_fn(A, A) -> bool)
    requires
        n <= xs.len(),
        xs.no_duplicates(),
    ensures
        sorted_prefix(xs, n, le).no_duplicates(),
    decreases n,
{
    if n > 0 {
        lemma_sorted_distinct(xs, (n - 1) as nat, le);
        let before = sorted_prefix(xs, (n - 1) as nat, le);
        lemma_sorted_contains(xs, (n - 1) as nat, le, xs[n - 1]);
        let front = xs.take(n - 1);
        if front.contains(xs[n - 1]) {
            let i = choose|i: int| 0 <= i < front.len() && front[i] == xs[n - 1];
            assert(xs[i] == xs[n - 1]);
        }
        lemma_insert_distinct(before, xs[n - 1], le);
    }
}

} // verus!
