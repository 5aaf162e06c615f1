//! Stable sorting.

use vstd::prelude::*;

verus! {

/// The elements that stand level with `m`: each of the two may stand before the
/// other.
pub open spec fn level_with<M>(m: M, before: spec_fn(M, M) -> bool) -> spec_fn(M) -> bool {
    |x: M| before(m, x) && before(x, m)
}

/// Whether each element of `s` may stand before every later one.
pub open spec fn is_sorted<M>(s: Seq<M>, before: spec_fn(M, M) -> bool) -> bool {
    forall|i: int, j: int| #![trigger s[i], s[j]] 0 <= i < j < s.len() ==> before(s[i], s[j])
}

/// Whether `output` holds the elements of `input` in sorted order, elements that
/// stand level keeping the order they had.
pub open spec fn is_stable_sort<M>(
    input: Seq<M>,
    output: Seq<M>,
    before: spec_fn(M, M) -> bool,
) -> bool {
    &&& is_sorted(output, before)
    &&& forall|m: M| #[trigger]
        output.filter(level_with(m, before)) == input.filter(level_with(m, before))
}

/// Whether `before` orders any two elements, and does so consistently.
pub open spec fn is_total_preorder<M>(before: spec_fn(M, M) -> bool) -> bool {
    &&& forall|a: M, b: M| #[trigger] before(a, b) || before(b, a)
    &&& forall|a: M, b: M, c: M|
        #![trigger before(a, b), before(b, c)]
        before(a, b) && before(b, c) ==> before(a, c)
}

/// A type whose values can be sorted.
pub trait Ranked: Sized {
    /// Whether `self` may stand before `other`.
    spec fn before(self, other: Self) -> bool;

    proof fn before_is_total(a: Self, b: Self)
        ensures
            a.before(b) || b.before(a),
    ;

    proof fn before_is_transitive(a: Self, b: Self, c: Self)
        requires
            a.before(b),
            b.before(c),
        ensures
            a.before(c),
    ;

    fn may_stand_before(&self, other: &Self) -> (answer: bool)
        ensures
            answer == self.before(*other),
    ;
}

/// The order of a ranked type.
pub open spec fn rank<T: Ranked>() -> spec_fn(T, T) -> bool {
    |a: T, b: T| a.before(b)
}

/// Filtering commutes with mapping, where the predicates agree.
pub proof fn lemma_filter_map_commute<A, B>(
    s: Seq<A>,
    f: spec_fn(A) -> B,
    p: spec_fn(A) -> bool,
    q: spec_fn(B) -> bool,
)
    requires
        forall|a: A| #[trigger] p(a) == q(f(a)),
    ensures
        s.filter(p).map_values(f) == s.map_values(f).filter(q),
    decreases s.len(),
{
    reveal(Seq::filter);
    if s.len() > 0 {
        let rest = s.drop_last();
        lemma_filter_map_commute(rest, f, p, q);
        assert(s.map_values(f).drop_last() =~= rest.map_values(f));
        assert(s.filter(p).map_values(f) =~= s.map_values(f).filter(q));
    } else {
        assert(s.filter(p).map_values(f) =~= s.map_values(f).filter(q));
    }
}

/// What is sorted stays sorted when every element is replaced by its image, where
/// the two orders agree.
pub proof fn lemma_stable_sort_map<A, B>(
    input: Seq<A>,
    output: Seq<A>,
    f: spec_fn(A) -> B,
    before_a: spec_fn(A, A) -> bool,
    before_b: spec_fn(B, B) -> bool,
)
    requires
        is_stable_sort(input, output, before_a),
        forall|a: A, b: A| #[trigger] before_a(a, b) == before_b(f(a), f(b)),
        is_total_preorder(before_b),
    ensures
        is_stable_sort(input.map_values(f), output.map_values(f), before_b),
{
    let mapped_in = input.map_values(f);
    let mapped_out = output.map_values(f);
    assert forall|m: B| #[trigger]
        mapped_out.filter(level_with(m, before_b)) == mapped_in.filter(level_with(m, before_b)) by {
        let q = level_with(m, before_b);
        let p = |a: A| q(f(a));
        lemma_filter_map_commute(input, f, p, q);
        lemma_filter_map_commute(output, f, p, q);
        assert(output.filter(p) == input.filter(p)) by {
            if exists|a: A| q(#[trigger] f(a)) {
                let a = choose|a: A| q(#[trigger] f(a));
                let same = level_with(a, before_a);
                assert forall|x: A| #[trigger] same(x) == p(x) by {
                    assert(before_a(a, x) == before_b(f(a), f(x)));
                    assert(before_a(x, a) == before_b(f(x), f(a)));
                    assert(q(f(a)));
                    if same(x) {
                        assert(before_b(m, f(a)) && before_b(f(a), f(x)));
                        assert(before_b(f(x), f(a)) && before_b(f(a), m));
                    }
                    if p(x) {
                        assert(before_b(f(a), m) && before_b(m, f(x)));
                        assert(before_b(f(x), m) && before_b(m, f(a)));
                    }
                }
                assert(same =~= p);
                assert(output.filter(level_with(a, before_a)) == input.filter(
                    level_with(a, before_a),
                ));
            } else {
                output.lemma_all_neg_filter_empty(p);
                input.lemma_all_neg_filter_empty(p);
                assert(output.filter(p) =~= input.filter(p));
            }
        }
    }
}

/// How often `x` occurs, counted by filtering.
proof fn lemma_count_is_filter_len<M>(s: Seq<M>, m: M)
    ensures
        s.to_multiset().count(m) == s.filter(|x: M| x == m).len(),
    decreases s.len(),
{
    broadcast use vstd::seq_lib::group_to_multiset_ensures;

    reveal(Seq::filter);
    if s.len() > 0 {
        lemma_count_is_filter_len(s.drop_last(), m);
        assert(s =~= s.drop_last().push(s.last()));
        assert(s.to_multiset() =~= s.drop_last().to_multiset().insert(s.last()));
    } else {
        assert(s.to_multiset() =~= vstd::multiset::Multiset::empty());
    }
}

/// A filter within a wider filter is the filter itself.
pub proof fn lemma_filter_within<M>(s: Seq<M>, wide: spec_fn(M) -> bool, narrow: spec_fn(M) -> bool)
    requires
        forall|m: M| #[trigger] narrow(m) ==> wide(m),
    ensures
        s.filter(wide).filter(narrow) == s.filter(narrow),
    decreases s.len(),
{
    reveal(Seq::filter);
    if s.len() > 0 {
        lemma_filter_within(s.drop_last(), wide, narrow);
        if wide(s.last()) {
            let kept = s.drop_last().filter(wide);
            assert(kept.push(s.last()).drop_last() =~= kept);
        }
    }
}

/// A filter that everything passes.
pub proof fn lemma_filter_all<A>(s: Seq<A>, p: spec_fn(A) -> bool)
    requires
        forall|i: int| 0 <= i < s.len() ==> p(#[trigger] s[i]),
    ensures
        s.filter(p) == s,
    decreases s.len(),
{
    reveal(Seq::filter);
    if s.len() > 0 {
        assert(p(s[s.len() - 1]));
        assert forall|i: int| 0 <= i < s.drop_last().len() implies p(#[trigger] s.drop_last()[i]) by {
            assert(p(s[i]));
        }
        lemma_filter_all(s.drop_last(), p);
        assert(s.drop_last().push(s.last()) =~= s);
    }
}

/// Sorting neither drops nor adds anything.
pub proof fn sorting_keeps_every_element<M>(
    input: Seq<M>,
    output: Seq<M>,
    before: spec_fn(M, M) -> bool,
)
    requires
        is_total_preorder(before),
        is_stable_sort(input, output, before),
    ensures
        output.to_multiset() == input.to_multiset(),
        output.len() == input.len(),
{
    broadcast use vstd::seq_lib::group_to_multiset_ensures;

    assert forall|m: M| #[trigger] output.to_multiset().count(m) == input.to_multiset().count(
        m,
    ) by {
        let is_m = |x: M| x == m;
        let level = level_with(m, before);
        assert(before(m, m));
        assert forall|x: M| #[trigger] is_m(x) implies level(x) by {}
        lemma_count_is_filter_len(input, m);
        lemma_count_is_filter_len(output, m);
        lemma_filter_within(input, level, is_m);
        lemma_filter_within(output, level, is_m);
        assert(output.filter(level_with(m, before)) == input.filter(level_with(m, before)));
    }
    assert(output.to_multiset() =~= input.to_multiset());
    vstd::seq_lib::to_multiset_len(output);
    vstd::seq_lib::to_multiset_len(input);
}

/// What sorting yields holds what went in.
pub proof fn lemma_sorted_contains<M>(
    input: Seq<M>,
    output: Seq<M>,
    before: spec_fn(M, M) -> bool,
    m: M,
)
    requires
        is_total_preorder(before),
        is_stable_sort(input, output, before),
    ensures
        output.contains(m) <==> input.contains(m),
{
    sorting_keeps_every_element(input, output, before);
    vstd::seq_lib::to_multiset_contains(input, m);
    vstd::seq_lib::to_multiset_contains(output, m);
}

/// There is one way to sort: two stable sorts of the same elements are equal.
pub proof fn sorting_has_one_result<M>(
    input: Seq<M>,
    one: Seq<M>,
    other: Seq<M>,
    before: spec_fn(M, M) -> bool,
)
    requires
        is_total_preorder(before),
        is_stable_sort(input, one, before),
        is_stable_sort(input, other, before),
    ensures
        one == other,
{
    assert forall|m: M| #[trigger]
        one.filter(level_with(m, before)) == other.filter(level_with(m, before)) by {
        assert(one.filter(level_with(m, before)) == input.filter(level_with(m, before)));
        assert(other.filter(level_with(m, before)) == input.filter(level_with(m, before)));
    }
    lemma_same_levels_same_sequence(one, other, before);
}

proof fn lemma_same_levels_same_sequence<M>(
    one: Seq<M>,
    other: Seq<M>,
    before: spec_fn(M, M) -> bool,
)
    requires
        is_total_preorder(before),
        is_sorted(one, before),
        is_sorted(other, before),
        forall|m: M| #[trigger]
            one.filter(level_with(m, before)) == other.filter(level_with(m, before)),
    ensures
        one == other,
    decreases one.len(),
{
    reveal(Seq::filter);
    if one.len() == 0 || other.len() == 0 {
        if one.len() > 0 {
            lemma_last_is_among_its_level(one, before);
            assert(other.filter(level_with(one.last(), before)).len() == 0);
        }
        if other.len() > 0 {
            lemma_last_is_among_its_level(other, before);
            assert(one.filter(level_with(other.last(), before)).len() == 0);
        }
        assert(one =~= other);
    } else {
        let a = one.last();
        let b = other.last();
        lemma_last_is_among_its_level(one, before);
        lemma_last_is_among_its_level(other, before);
        lemma_last_stands_behind(other, a, before);
        lemma_last_stands_behind(one, b, before);
        assert(before(a, b) && before(b, a));
        assert forall|x: M| #[trigger]
            level_with(a, before)(x) == level_with(b, before)(x) by {
            if level_with(a, before)(x) {
                assert(before(b, a) && before(a, x));
                assert(before(x, a) && before(a, b));
            }
            if level_with(b, before)(x) {
                assert(before(a, b) && before(b, x));
                assert(before(x, b) && before(b, a));
            }
        }
        assert(level_with(a, before) =~= level_with(b, before));
        assert(a == b);
        assert forall|m: M| #[trigger]
            one.drop_last().filter(level_with(m, before)) == other.drop_last().filter(
                level_with(m, before),
            ) by {
            let p = level_with(m, before);
            assert(one.filter(p) == other.filter(p));
            if p(a) {
                assert(one.drop_last().filter(p) =~= one.filter(p).drop_last());
                assert(other.drop_last().filter(p) =~= other.filter(p).drop_last());
            }
        }
        assert forall|i: int, j: int|
            #![trigger one.drop_last()[i], one.drop_last()[j]]
            0 <= i < j < one.drop_last().len() implies before(
            one.drop_last()[i],
            one.drop_last()[j],
        ) by {
            assert(before(one[i], one[j]));
        }
        assert forall|i: int, j: int|
            #![trigger other.drop_last()[i], other.drop_last()[j]]
            0 <= i < j < other.drop_last().len() implies before(
            other.drop_last()[i],
            other.drop_last()[j],
        ) by {
            assert(before(other[i], other[j]));
        }
        lemma_same_levels_same_sequence(one.drop_last(), other.drop_last(), before);
        assert(one =~= one.drop_last().push(a));
        assert(other =~= other.drop_last().push(b));
    }
}

proof fn lemma_last_is_among_its_level<M>(s: Seq<M>, before: spec_fn(M, M) -> bool)
    requires
        is_total_preorder(before),
        s.len() > 0,
    ensures
        s.filter(level_with(s.last(), before)).len() > 0,
        s.filter(level_with(s.last(), before)).last() == s.last(),
{
    reveal(Seq::filter);
    assert(before(s.last(), s.last()));
}

/// Where `s` holds an element level with `m`, `m` may stand before the last of `s`.
proof fn lemma_last_stands_behind<M>(s: Seq<M>, m: M, before: spec_fn(M, M) -> bool)
    requires
        is_total_preorder(before),
        is_sorted(s, before),
        s.len() > 0,
        s.filter(level_with(m, before)).len() > 0,
    ensures
        before(m, s.last()),
{
    let p = level_with(m, before);
    let x = s.filter(p)[0];
    assert(s.filter(p).contains(x));
    s.lemma_filter_contains_rev(p, x);
    s.lemma_filter_pred(p, 0);
    let i = choose|i: int| 0 <= i < s.len() && s[i] == x;
    assert(p(x));
    if i < s.len() - 1 {
        assert(before(s[i], s[s.len() - 1]));
        assert(before(m, x) && before(x, s.last()));
    }
}

/// Merges two sorted runs, elements of `left` first among those that stand level.
fn merge<T: Ranked>(left: Vec<T>, right: Vec<T>) -> (merged: Vec<T>)
    requires
        is_sorted(left@, rank::<T>()),
        is_sorted(right@, rank::<T>()),
    ensures
        is_stable_sort(left@ + right@, merged@, rank::<T>()),
{
    let ghost all = left@ + right@;
    let ghost by_rank = rank::<T>();
    let mut left = left;
    let mut right = right;
    let mut backwards: Vec<T> = Vec::new();
    proof {
        assert forall|m: T| #[trigger]
            left@.filter(level_with(m, by_rank)) + right@.filter(level_with(m, by_rank))
                + backwards@.reverse().filter(level_with(m, by_rank)) == all.filter(
                level_with(m, by_rank),
            ) by {
            let p = level_with(m, by_rank);
            Seq::filter_distributes_over_add(left@, right@, p);
            assert(backwards@.reverse() =~= Seq::<T>::empty());
            reveal(Seq::filter);
            assert(left@.filter(p) + right@.filter(p) + backwards@.reverse().filter(p)
                =~= left@.filter(p) + right@.filter(p));
        }
    }
    while left.len() > 0 || right.len() > 0
        invariant
            by_rank == rank::<T>(),
            is_sorted(left@, by_rank),
            is_sorted(right@, by_rank),
            is_sorted(backwards@.reverse(), by_rank),
            forall|i: int, k: int|
                #![trigger left@[i], backwards@[k]]
                0 <= i < left@.len() && 0 <= k < backwards@.len() ==> left@[i].before(
                    backwards@[k],
                ),
            forall|i: int, k: int|
                #![trigger right@[i], backwards@[k]]
                0 <= i < right@.len() && 0 <= k < backwards@.len() ==> right@[i].before(
                    backwards@[k],
                ),
            forall|m: T| #[trigger]
                left@.filter(level_with(m, by_rank)) + right@.filter(level_with(m, by_rank))
                    + backwards@.reverse().filter(level_with(m, by_rank)) == all.filter(
                    level_with(m, by_rank),
                ),
        decreases left.len() + right.len(),
    {
        let ghost l = left@;
        let ghost r = right@;
        let ghost done = backwards@;
        let take_right: bool = if right.len() == 0 {
            false
        } else if left.len() == 0 {
            true
        } else {
            left[left.len() - 1].may_stand_before(&right[right.len() - 1])
        };
        let next: Option<T> = if take_right {
            right.pop()
        } else {
            left.pop()
        };
        match next {
            Some(element) => {
                backwards.push(element);
                proof {
                    lemma_merge_step(l, r, done, take_right);
                    assert(backwards@.reverse() =~= seq![element] + done.reverse());
                    assert forall|m: T| #[trigger]
                        left@.filter(level_with(m, by_rank)) + right@.filter(
                            level_with(m, by_rank),
                        ) + backwards@.reverse().filter(level_with(m, by_rank)) == all.filter(
                            level_with(m, by_rank),
                        ) by {
                        lemma_merge_step_level(l, r, done, take_right, m);
                        assert(l.filter(level_with(m, by_rank)) + r.filter(level_with(m, by_rank))
                            + done.reverse().filter(level_with(m, by_rank)) == all.filter(
                            level_with(m, by_rank),
                        ));
                    }
                }
            },
            None => {},
        }
    }
    let mut merged: Vec<T> = Vec::new();
    let ghost whole = backwards@;
    while backwards.len() > 0
        invariant
            backwards@ + merged@.reverse() == whole,
        decreases backwards.len(),
    {
        let ghost b = backwards@;
        let ghost m = merged@;
        match backwards.pop() {
            Some(element) => {
                merged.push(element);
                assert(backwards@ + merged@.reverse() =~= b + m.reverse());
            },
            None => {},
        }
    }
    proof {
        assert(merged@ =~= whole.reverse());
        assert forall|m: T| #[trigger]
            merged@.filter(level_with(m, by_rank)) == all.filter(level_with(m, by_rank)) by {
            let p = level_with(m, by_rank);
            reveal(Seq::filter);
            assert(left@.filter(p) + right@.filter(p) + merged@.filter(p) =~= merged@.filter(p));
        }
    }
    merged
}

/// What one step of `merge` keeps of the order.
proof fn lemma_merge_step<T: Ranked>(l: Seq<T>, r: Seq<T>, done: Seq<T>, take_right: bool)
    requires
        is_sorted(l, rank::<T>()),
        is_sorted(r, rank::<T>()),
        is_sorted(done.reverse(), rank::<T>()),
        forall|i: int, k: int|
            #![trigger l[i], done[k]]
            0 <= i < l.len() && 0 <= k < done.len() ==> l[i].before(done[k]),
        forall|i: int, k: int|
            #![trigger r[i], done[k]]
            0 <= i < r.len() && 0 <= k < done.len() ==> r[i].before(done[k]),
        take_right ==> r.len() > 0 && (l.len() > 0 ==> l.last().before(r.last())),
        !take_right ==> l.len() > 0 && (r.len() > 0 ==> !l.last().before(r.last())),
    ensures
        take_right ==> ({
            let rest = r.drop_last();
            let now = done.push(r.last());
            &&& is_sorted(rest, rank::<T>())
            &&& is_sorted(now.reverse(), rank::<T>())
            &&& forall|i: int, k: int|
                #![trigger l[i], now[k]]
                0 <= i < l.len() && 0 <= k < now.len() ==> l[i].before(now[k])
            &&& forall|i: int, k: int|
                #![trigger rest[i], now[k]]
                0 <= i < rest.len() && 0 <= k < now.len() ==> rest[i].before(now[k])
        }),
        !take_right ==> ({
            let rest = l.drop_last();
            let now = done.push(l.last());
            &&& is_sorted(rest, rank::<T>())
            &&& is_sorted(now.reverse(), rank::<T>())
            &&& forall|i: int, k: int|
                #![trigger rest[i], now[k]]
                0 <= i < rest.len() && 0 <= k < now.len() ==> rest[i].before(now[k])
            &&& forall|i: int, k: int|
                #![trigger r[i], now[k]]
                0 <= i < r.len() && 0 <= k < now.len() ==> r[i].before(now[k])
        }),
{
    let (source, other) = if take_right {
        (r, l)
    } else {
        (l, r)
    };
    let element = source.last();
    let rest = source.drop_last();
    let now = done.push(element);
    if other.len() > 0 {
        T::before_is_total(l.last(), r.last());
        assert(other.last().before(element));
    }
    assert forall|i: int, j: int| #![trigger rest[i], rest[j]] 0 <= i < j < rest.len() implies rank::<
        T,
    >()(rest[i], rest[j]) by {
        assert(rank::<T>()(source[i], source[j]));
    }
    assert forall|i: int, j: int|
        #![trigger now.reverse()[i], now.reverse()[j]]
        0 <= i < j < now.len() implies rank::<T>()(now.reverse()[i], now.reverse()[j]) by {
        if i == 0 {
            assert(now.reverse()[j] == done[now.len() - 1 - j]);
            assert(source[source.len() - 1].before(done[now.len() - 1 - j]));
        } else {
            assert(now.reverse()[i] == done.reverse()[i - 1]);
            assert(now.reverse()[j] == done.reverse()[j - 1]);
        }
    }
    assert forall|i: int, k: int|
        #![trigger rest[i], now[k]]
        0 <= i < rest.len() && 0 <= k < now.len() implies rest[i].before(now[k]) by {
        assert(rest[i] == source[i]);
        if k < done.len() {
            assert(source[i].before(done[k]));
        } else {
            assert(rank::<T>()(source[i], source[source.len() - 1]));
        }
    }
    assert forall|i: int, k: int|
        #![trigger other[i], now[k]]
        0 <= i < other.len() && 0 <= k < now.len() implies other[i].before(now[k]) by {
        if k < done.len() {
            assert(other[i].before(done[k]));
        } else if i < other.len() - 1 {
            assert(rank::<T>()(other[i], other[other.len() - 1]));
            T::before_is_transitive(other[i], other.last(), element);
        }
    }
}

/// What one step of `merge` keeps of the elements that stand level with `m`.
proof fn lemma_merge_step_level<T: Ranked>(
    l: Seq<T>,
    r: Seq<T>,
    done: Seq<T>,
    take_right: bool,
    m: T,
)
    requires
        is_sorted(r, rank::<T>()),
        take_right ==> r.len() > 0,
        !take_right ==> l.len() > 0 && (r.len() > 0 ==> !l.last().before(r.last())),
    ensures
        ({
            let p = level_with(m, rank::<T>());
            let (l2, r2, element) = if take_right {
                (l, r.drop_last(), r.last())
            } else {
                (l.drop_last(), r, l.last())
            };
            l2.filter(p) + r2.filter(p) + (seq![element] + done.reverse()).filter(p) == l.filter(p)
                + r.filter(p) + done.reverse().filter(p)
        }),
{
    let p = level_with(m, rank::<T>());
    let tail = done.reverse();
    reveal(Seq::filter);
    if take_right {
        let element = r.last();
        tail.lemma_filter_prepend(element, p);
        assert(l.filter(p) + r.drop_last().filter(p) + (seq![element] + tail).filter(p)
            =~= l.filter(p) + r.filter(p) + tail.filter(p));
    } else {
        let element = l.last();
        tail.lemma_filter_prepend(element, p);
        if p(element) {
            assert forall|i: int| 0 <= i < r.len() implies !p(#[trigger] r[i]) by {
                if p(r[i]) {
                    T::before_is_transitive(element, m, r[i]);
                    if i < r.len() - 1 {
                        assert(rank::<T>()(r[i], r[r.len() - 1]));
                        T::before_is_transitive(element, r[i], r.last());
                    }
                }
            }
            r.lemma_all_neg_filter_empty(p);
            assert(r.filter(p) =~= Seq::<T>::empty());
        }
        assert(l.drop_last().filter(p) + r.filter(p) + (seq![element] + tail).filter(p)
            =~= l.filter(p) + r.filter(p) + tail.filter(p));
    }
}

/// Sorts `v`; elements that stand level keep their order.
pub fn merge_sort<T: Ranked>(v: Vec<T>) -> (sorted: Vec<T>)
    ensures
        is_stable_sort(v@, sorted@, rank::<T>()),
    decreases v@.len(),
{
    let mut left = v;
    if left.len() <= 1 {
        return left;
    }
    let ghost all = left@;
    let half: usize = left.len() / 2;
    let right = left.split_off(half);
    let ghost first = left@;
    let ghost second = right@;
    let left = merge_sort(left);
    let right = merge_sort(right);
    let merged = merge(left, right);
    proof {
        assert(all =~= first + second);
        assert forall|m: T| #[trigger]
            merged@.filter(level_with(m, rank::<T>())) == all.filter(level_with(m, rank::<T>())) by {
            let p = level_with(m, rank::<T>());
            Seq::filter_distributes_over_add(first, second, p);
            Seq::filter_distributes_over_add(left@, right@, p);
            assert(left@.filter(p) == first.filter(p));
            assert(right@.filter(p) == second.filter(p));
            assert(merged@.filter(p) == (left@ + right@).filter(p));
        }
    }
    merged
}

} // verus!
