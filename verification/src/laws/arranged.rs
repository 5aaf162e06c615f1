//! What holds of the order of things.

use vstd::prelude::*;
use crate::model::GroupModel;
use crate::model::MatchedModel;
use crate::model::MediaModel;
use crate::selection::SelectionModel;

verus! {

/// What is chosen keeps its order.
proof fn lemma_filter_order<A>(s: Seq<A>, p: spec_fn(A) -> bool, i: int, j: int)
    requires
        0 <= i < j < s.filter(p).len(),
    ensures
        exists|a: int, b: int|
            #![trigger s[a], s[b]]
            0 <= a < b < s.len() && s[a] == s.filter(p)[i] && s[b] == s.filter(p)[j],
    decreases s.len(),
{
    reveal(Seq::filter);
    if s.len() > 0 {
        let rest = s.drop_last();
        let last = s.len() - 1;
        let chosen = rest.filter(p);
        if j < chosen.len() {
            lemma_filter_order(rest, p, i, j);
            let (a, b) = choose|a: int, b: int|
                #![trigger rest[a], rest[b]]
                0 <= a < b < rest.len() && rest[a] == chosen[i] && rest[b] == chosen[j];
            assert(s[a] == s.filter(p)[i] && s[b] == s.filter(p)[j]);
        } else {
            assert(chosen.contains(chosen[i]));
            rest.lemma_filter_contains_rev(p, chosen[i]);
            let a = choose|a: int| 0 <= a < rest.len() && rest[a] == chosen[i];
            assert(s[a] == s.filter(p)[i] && s[last] == s.filter(p)[j]);
        }
    }
}

/// Elements that are chosen keep their order.
proof fn lemma_chosen_order<A>(s: Seq<A>, p: spec_fn(A) -> bool, a: int, b: int)
    requires
        0 <= a < b < s.len(),
        p(s[a]),
        p(s[b]),
    ensures
        exists|i: int, j: int|
            #![trigger s.filter(p)[i], s.filter(p)[j]]
            0 <= i < j < s.filter(p).len() && s.filter(p)[i] == s[a] && s.filter(p)[j] == s[b],
    decreases s.len(),
{
    reveal(Seq::filter);
    let rest = s.drop_last();
    let chosen = rest.filter(p);
    if b < rest.len() {
        lemma_chosen_order(rest, p, a, b);
        let (i, j) = choose|i: int, j: int|
            #![trigger chosen[i], chosen[j]]
            0 <= i < j < chosen.len() && chosen[i] == rest[a] && chosen[j] == rest[b];
        assert(s.filter(p)[i] == s[a] && s.filter(p)[j] == s[b]);
    } else {
        rest.lemma_filter_contains(p, a);
        let i = choose|i: int| 0 <= i < chosen.len() && chosen[i] == rest[a];
        assert(s.filter(p)[i] == s[a] && s.filter(p)[chosen.len() as int] == s[b]);
    }
}

/// The first that is chosen comes before all others that could be.
proof fn lemma_filter_first<A>(s: Seq<A>, p: spec_fn(A) -> bool)
    requires
        s.filter(p).len() > 0,
    ensures
        exists|a: int|
            0 <= a < s.len() && #[trigger] s[a] == s.filter(p)[0] && forall|b: int|
                0 <= b < a ==> !p(#[trigger] s[b]),
    decreases s.len(),
{
    reveal(Seq::filter);
    if s.len() > 0 {
        let rest = s.drop_last();
        let last = s.len() - 1;
        if rest.filter(p).len() > 0 {
            lemma_filter_first(rest, p);
            let a = choose|a: int|
                0 <= a < rest.len() && #[trigger] rest[a] == rest.filter(p)[0] && forall|b: int|
                    0 <= b < a ==> !p(#[trigger] rest[b]);
            assert(s[a] == s.filter(p)[0]);
            assert forall|b: int| 0 <= b < a implies !p(#[trigger] s[b]) by {
                assert(rest[b] == s[b]);
            }
        } else {
            assert(s[last] == s.filter(p)[0]);
            assert forall|b: int| 0 <= b < last implies !p(#[trigger] s[b]) by {
                if p(s[b]) {
                    assert(rest[b] == s[b]);
                    rest.lemma_filter_contains(p, b);
                }
            }
        }
    }
}

/// Images keep the order of what they are images of.
proof fn lemma_filter_map_order<A, B>(s: Seq<A>, f: spec_fn(A) -> Option<B>, i: int, j: int)
    requires
        0 <= i < j < s.filter_map(f).len(),
    ensures
        exists|a: int, b: int|
            #![trigger s[a], s[b]]
            0 <= a < b < s.len() && f(s[a]) == Some(s.filter_map(f)[i]) && f(s[b]) == Some(
                s.filter_map(f)[j],
            ),
    decreases s.len(),
{
    if s.len() > 0 {
        let rest = s.drop_last();
        let last = s.len() - 1;
        let images = rest.filter_map(f);
        if j < images.len() {
            lemma_filter_map_order(rest, f, i, j);
            let (a, b) = choose|a: int, b: int|
                #![trigger rest[a], rest[b]]
                0 <= a < b < rest.len() && f(rest[a]) == Some(images[i]) && f(rest[b]) == Some(
                    images[j],
                );
            assert(f(s[a]) == Some(s.filter_map(f)[i]) && f(s[b]) == Some(s.filter_map(f)[j]));
        } else {
            crate::grouping::lemma_filter_map_mentions(rest, f, images[i]);
            assert(images.contains(images[i]));
            let a = choose|a: int| 0 <= a < rest.len() && f(#[trigger] rest[a]) == Some(images[i]);
            assert(f(s[a]) == Some(s.filter_map(f)[i]) && f(s[last]) == Some(s.filter_map(f)[j]));
        }
    }
}

/// Whether an element with the image `one` comes before all with the image `other`.
pub open spec fn starts_before<A, B>(
    s: Seq<A>,
    f: spec_fn(A) -> Option<B>,
    one: B,
    other: B,
) -> bool {
    exists|a: int|
        0 <= a < s.len() && f(#[trigger] s[a]) == Some(one) && forall|b: int|
            0 <= b < s.len() && f(#[trigger] s[b]) == Some(other) ==> a < b
}

/// Images without repeats stand in the order in which they first occur.
proof fn lemma_distinct_order<A, B>(s: Seq<A>, f: spec_fn(A) -> Option<B>, i: int, j: int)
    requires
        0 <= i < j < crate::grouping::distinct(s.filter_map(f)).len(),
    ensures
        starts_before(
            s,
            f,
            crate::grouping::distinct(s.filter_map(f))[i],
            crate::grouping::distinct(s.filter_map(f))[j],
        ),
    decreases s.len(),
{
    if s.len() > 0 {
        let rest = s.drop_last();
        let last = s.len() - 1;
        let images = rest.filter_map(f);
        let before = crate::grouping::distinct(images);
        let list = crate::grouping::distinct(s.filter_map(f));
        crate::grouping::lemma_distinct(images);
        match f(s.last()) {
            Some(image) => {
                assert(s.filter_map(f) =~= images.push(image));
                assert(images.push(image).drop_last() =~= images);
            },
            None => {
                assert(s.filter_map(f) =~= images);
            },
        }
        if j < before.len() {
            lemma_distinct_order(rest, f, i, j);
            let a = choose|a: int|
                0 <= a < rest.len() && f(#[trigger] rest[a]) == Some(before[i]) && forall|b: int|
                    0 <= b < rest.len() && f(#[trigger] rest[b]) == Some(before[j]) ==> a < b;
            assert(f(s[a]) == Some(list[i]));
            assert forall|b: int|
                0 <= b < s.len() && f(#[trigger] s[b]) == Some(list[j]) implies a < b by {
                if b < last {
                    assert(rest[b] == s[b]);
                }
            }
        } else {
            assert(before.contains(before[i]));
            assert(images.contains(before[i]));
            crate::grouping::lemma_filter_map_mentions(rest, f, before[i]);
            let a = choose|a: int| 0 <= a < rest.len() && f(#[trigger] rest[a]) == Some(before[i]);
            assert(f(s[a]) == Some(list[i]));
            assert forall|b: int|
                0 <= b < s.len() && f(#[trigger] s[b]) == Some(list[j]) implies a < b by {
                if b < last {
                    assert(rest[b] == s[b]);
                    crate::grouping::lemma_filter_map_mentions(rest, f, list[j]);
                    assert(images.contains(list[j]));
                    assert(before.contains(list[j]));
                }
            }
        }
    }
}

/// What is put together from images keeps the order of what they are images of.
proof fn lemma_flat_map_order<A, B>(s: Seq<A>, f: spec_fn(A) -> Seq<B>, p: int, q: int)
    requires
        0 <= p < q < s.flat_map(f).len(),
    ensures
        exists|a: int, b: int|
            #![trigger s[a], s[b]]
            0 <= a <= b < s.len() && f(s[a]).contains(s.flat_map(f)[p]) && f(s[b]).contains(
                s.flat_map(f)[q],
            ),
    decreases s.len(),
{
    if s.len() == 0 {
        crate::laws::grouped::lemma_flat_map_empty(s, f);
    } else {
        let rest = s.drop_last();
        let last = s.len() - 1;
        let head = rest.flat_map(f);
        crate::laws::grouped::lemma_flat_map_last(s, f);
        if q < head.len() {
            lemma_flat_map_order(rest, f, p, q);
            let (a, b) = choose|a: int, b: int|
                #![trigger rest[a], rest[b]]
                0 <= a <= b < rest.len() && f(rest[a]).contains(head[p]) && f(rest[b]).contains(
                    head[q],
                );
            assert(s[a] == rest[a] && s[b] == rest[b]);
        } else {
            assert(f(s[last])[q - head.len()] == s.flat_map(f)[q]);
            if p < head.len() {
                crate::laws::grouped::lemma_flat_map_mentions(rest, f, head[p]);
                assert(head.contains(head[p]));
                let a = choose|a: int| 0 <= a < rest.len() && f(#[trigger] rest[a]).contains(head[p]);
                assert(s[a] == rest[a] && f(s[last]).contains(s.flat_map(f)[q]));
            } else {
                assert(f(s[last])[p - head.len()] == s.flat_map(f)[p]);
                assert(f(s[last]).contains(s.flat_map(f)[p]));
            }
        }
    }
}

/// Of two elements of which each may stand before the other, sorting leaves first what
/// was first.
pub proof fn sorting_keeps_level_elements_in_order<M>(
    input: Seq<M>,
    output: Seq<M>,
    before: spec_fn(M, M) -> bool,
    i: int,
    j: int,
)
    requires
        crate::order::is_stable_sort(input, output, before),
        0 <= i < j < output.len(),
        before(output[i], output[i]),
        before(output[j], output[i]),
    ensures
        exists|a: int, b: int|
            #![trigger input[a], input[b]]
            0 <= a < b < input.len() && input[a] == output[i] && input[b] == output[j],
{
    let p = crate::order::level_with(output[i], before);
    assert(before(output[i], output[j]));
    assert(output.filter(p) == input.filter(p));
    lemma_chosen_order(output, p, i, j);
    let (u, v) = choose|u: int, v: int|
        #![trigger output.filter(p)[u], output.filter(p)[v]]
        0 <= u < v < output.filter(p).len() && output.filter(p)[u] == output[i] && output.filter(
            p,
        )[v] == output[j];
    lemma_filter_order(input, p, u, v);
}

/// Of items of the same size, what the library lists first is found first.
pub proof fn items_of_one_size_are_found_in_order(
    selection: SelectionModel,
    found: Seq<MatchedModel>,
    i: int,
    j: int,
)
    requires
        crate::laws::selected::is_found(selection, found),
        0 <= i < j < found.len(),
        found[i].size == found[j].size,
    ensures
        exists|a: int, b: int|
            #![trigger selection.items[a], selection.items[b]]
            0 <= a < b < selection.items.len() && selection.items[a].id == found[i].id
                && selection.items[b].id == found[j].id,
{
    let f = selection.matched();
    let input = selection.items.filter_map(f);
    sorting_keeps_level_elements_in_order(input, found, crate::model::larger_first(), i, j);
    let (u, v) = choose|u: int, v: int|
        #![trigger input[u], input[v]]
        0 <= u < v < input.len() && input[u] == found[i] && input[v] == found[j];
    lemma_filter_map_order(selection.items, f, u, v);
    let (a, b) = choose|a: int, b: int|
        #![trigger selection.items[a], selection.items[b]]
        0 <= a < b < selection.items.len() && f(selection.items[a]) == Some(input[u]) && f(
            selection.items[b],
        ) == Some(input[v]);
    assert(selection.items[a].id == found[i].id && selection.items[b].id == found[j].id);
}

/// Of groups of the same size, seasons come before series, both come before what stands
/// alone, and what stands alone keeps its order.
pub proof fn groups_of_one_size_are_in_order(
    all: Seq<MediaModel>,
    deletable: Seq<MatchedModel>,
    result: Seq<GroupModel>,
    i: int,
    j: int,
)
    requires
        crate::laws::grouped::is_grouped(all, deletable, result),
        0 <= i < j < result.len(),
        crate::model::total_size(result[i].items()) == crate::model::total_size(result[j].items()),
    ensures
        result[j] is Season ==> result[i] is Season,
        result[i] is Individual ==> result[j] is Individual && exists|a: int, b: int|
            #![trigger deletable[a], deletable[b]]
            0 <= a < b < deletable.len() && result[i] == GroupModel::Individual(deletable[a])
                && result[j] == GroupModel::Individual(deletable[b]),
{
    let groups = crate::grouping::groups(all, deletable);
    sorting_keeps_level_elements_in_order(
        groups,
        result,
        crate::model::larger_group_first(),
        i,
        j,
    );
    let (u, v) = choose|u: int, v: int|
        #![trigger groups[u], groups[v]]
        0 <= u < v < groups.len() && groups[u] == result[i] && groups[v] == result[j];
    let a = crate::grouping::seasons(deletable);
    let b = crate::grouping::all_series(deletable);
    let f = crate::grouping::season_grouped(all, deletable);
    let g = crate::grouping::series_grouped(all, deletable);
    let h = crate::grouping::alone(all, deletable);
    let x = a.filter_map(f);
    let y = b.filter_map(g);
    let z = deletable.filter_map(h);
    assert forall|k: int| 0 <= k < groups.len() implies (#[trigger] groups[k] is Season <==> k
        < x.len()) && (groups[k] is Individual <==> k >= x.len() + y.len()) by {
        let group = groups[k];
        if k < x.len() {
            crate::grouping::lemma_filter_map_mentions(a, f, group);
            assert(x[k] == group);
            assert(x.contains(group));
        } else if k < x.len() + y.len() {
            crate::grouping::lemma_filter_map_mentions(b, g, group);
            assert(y[k - x.len()] == group);
            assert(y.contains(group));
        } else {
            crate::grouping::lemma_filter_map_mentions(deletable, h, group);
            assert(z[k - x.len() - y.len()] == group);
            assert(z.contains(group));
        }
    }
    assert(groups[u] is Season <==> u < x.len());
    assert(groups[v] is Season <==> v < x.len());
    if result[i] is Individual {
        let n = x.len() + y.len();
        lemma_filter_map_order(deletable, h, u - n, v - n);
        assert(z[u - n] == groups[u] && z[v - n] == groups[v]);
    }
}

/// The season of an episode that names `series` as its series.
pub open spec fn season_in(series: Seq<char>) -> spec_fn(MatchedModel) -> Option<Seq<char>> {
    |item: MatchedModel|
        if item.item_type == "Episode"@ && item.series_id == Some(series) {
            item.season_id
        } else {
            None
        }
}

/// The series that an episode names whose season is known.
pub open spec fn series_named() -> spec_fn(MatchedModel) -> Option<Seq<char>> {
    |item: MatchedModel|
        if item.item_type == "Episode"@ && item.season_id is Some {
            item.series_id
        } else {
            None
        }
}

/// Whether a deletable episode names both `series` and `season`.
pub open spec fn is_named_with(
    deletable: Seq<MatchedModel>,
    series: Seq<char>,
    season: Seq<char>,
) -> bool {
    exists|n: int| 0 <= n < deletable.len() && season_in(series)(#[trigger] deletable[n]) == Some(season)
}

/// Whether `items` are what the group of `series` holds: the episodes of its seasons, season
/// by season in the order in which its episodes first name them. A season that the episodes
/// of several series name goes to the one that is named first.
pub open spec fn is_made_of(
    all: Seq<MediaModel>,
    deletable: Seq<MatchedModel>,
    series: Seq<char>,
    items: Seq<MatchedModel>,
) -> bool {
    &&& forall|k: int|
        0 <= k < items.len() ==> crate::laws::grouped::has_its_place(#[trigger] items[k])
            && is_named_with(deletable, series, items[k].season_id->0)
    &&& forall|k: int|
        0 <= k < items.len() ==> items.filter(
            |m: MatchedModel| m.season_id == (#[trigger] items[k]).season_id,
        ) == deletable.filter(
            |m: MatchedModel|
                crate::laws::grouped::has_its_place(m) && m.season_id == items[k].season_id,
        )
    &&& forall|p: int, q: int|
        #![trigger items[p], items[q]]
        0 <= p < q < items.len() && items[p].season_id != items[q].season_id ==> starts_before(
            deletable,
            season_in(series),
            items[p].season_id->0,
            items[q].season_id->0,
        )
    &&& forall|k: int, other: Seq<char>|
        0 <= k < items.len() && other != series && crate::laws::grouped::goes_as_series(
            all,
            deletable,
            other,
        ) && #[trigger] is_named_with(deletable, other, (#[trigger] items[k]).season_id->0)
            ==> starts_before(deletable, series_named(), series, other)
    &&& forall|n: int|
        0 <= n < deletable.len() && season_in(series)(#[trigger] deletable[n]) is Some
            && !items.contains(deletable[n]) ==> exists|other: Seq<char>|
            other != series && #[trigger] crate::laws::grouped::goes_as_series(
                all,
                deletable,
                other,
            ) && is_named_with(deletable, other, deletable[n].season_id->0) && starts_before(
                deletable,
                series_named(),
                other,
                series,
            )
}

/// The series that has a season is named before all others that could have it.
proof fn lemma_owner_is_first(
    all: Seq<MediaModel>,
    deletable: Seq<MatchedModel>,
    season: Seq<char>,
    series: Seq<char>,
    other: Seq<char>,
)
    requires
        crate::grouping::owner(all, deletable, season) == Some(series),
        crate::grouping::claims(all, deletable, season)(other),
        other != series,
    ensures
        starts_before(deletable, series_named(), series, other),
{
    let listed = crate::grouping::all_series(deletable);
    let p = crate::grouping::claims(all, deletable, season);
    lemma_filter_first(listed, p);
    let a = choose|a: int|
        0 <= a < listed.len() && #[trigger] listed[a] == listed.filter(p)[0] && forall|b: int|
            0 <= b < a ==> !p(#[trigger] listed[b]);
    crate::grouping::lemma_season_of_series(deletable, other, season);
    let b = choose|b: int| 0 <= b < listed.len() && listed[b] == other;
    assert(p(listed[b]));
    assert(a < b);
    lemma_distinct_order(deletable, crate::grouping::series_of(), a, b);
    assert(crate::grouping::series_of() =~= series_named());
}

/// Where none is chosen, nothing is left.
proof fn lemma_filter_none<A>(s: Seq<A>, p: spec_fn(A) -> bool)
    requires
        forall|k: int| 0 <= k < s.len() ==> !p(#[trigger] s[k]),
    ensures
        s.filter(p) == Seq::<A>::empty(),
    decreases s.len(),
{
    reveal(Seq::filter);
    if s.len() > 0 {
        let rest = s.drop_last();
        assert forall|k: int| 0 <= k < rest.len() implies !p(#[trigger] rest[k]) by {
            assert(rest[k] == s[k]);
        }
        lemma_filter_none(rest, p);
        assert(!p(s[s.len() - 1]));
    }
    assert(s.filter(p) =~= Seq::<A>::empty());
}

/// Of the episodes of several seasons, those of one season are the episodes of that season.
proof fn lemma_season_within_series(
    deletable: Seq<MatchedModel>,
    seasons: Seq<Seq<char>>,
    season: Seq<char>,
)
    requires
        seasons.no_duplicates(),
    ensures
        seasons.flat_map(|s: Seq<char>| crate::grouping::episodes_of(deletable, s)).filter(
            |m: MatchedModel| m.season_id == Some(season),
        ) == if seasons.contains(season) {
            crate::grouping::episodes_of(deletable, season)
        } else {
            Seq::empty()
        },
    decreases seasons.len(),
{
    let f = |s: Seq<char>| crate::grouping::episodes_of(deletable, s);
    let p = |m: MatchedModel| m.season_id == Some(season);
    if seasons.len() == 0 {
        crate::laws::grouped::lemma_flat_map_empty(seasons, f);
        lemma_filter_none(seasons.flat_map(f), p);
    } else {
        let rest = seasons.drop_last();
        let last = seasons.last();
        assert(rest.no_duplicates());
        lemma_season_within_series(deletable, rest, season);
        crate::laws::grouped::lemma_flat_map_last(seasons, f);
        Seq::filter_distributes_over_add(rest.flat_map(f), f(last), p);
        assert(seasons =~= rest.push(last));
        vstd::seq_lib::lemma_seq_contains_after_push(rest, last, season);
        assert forall|k: int| 0 <= k < f(last).len() implies (#[trigger] f(last)[k]).season_id
            == Some(last) by {
            deletable.lemma_filter_pred(crate::grouping::belongs_to(last), k);
        }
        if last == season {
            crate::order::lemma_filter_all(f(last), p);
            if rest.contains(season) {
                let k = choose|k: int| 0 <= k < rest.len() && rest[k] == season;
                assert(seasons[k] == seasons[seasons.len() - 1]);
            }
            assert(seasons.flat_map(f).filter(p) =~= f(season));
        } else {
            lemma_filter_none(f(last), p);
            assert(seasons.flat_map(f).filter(p) =~= rest.flat_map(f).filter(p));
        }
    }
}

/// A group of a series is made of the episodes of the seasons of a series that goes as a
/// whole, and lists the numbers of the seasons in the order in which they first occur.
pub proof fn a_series_group_is_made_of_its_seasons(
    all: Seq<MediaModel>,
    deletable: Seq<MatchedModel>,
    result: Seq<GroupModel>,
    j: int,
)
    requires
        crate::laws::grouped::is_grouped(all, deletable, result),
        crate::laws::lineage::ids_are_unique(all),
        0 <= j < result.len(),
    ensures
        result[j] matches GroupModel::Series { series_name, total_episodes, seasons, items } ==> {
            &&& exists|series: Seq<char>| #[trigger]
                crate::laws::grouped::goes_as_series(all, deletable, series)
                    && crate::laws::grouped::is_called(deletable, series, series_name)
                    && is_made_of(all, deletable, series, items)
            &&& items.len() > 1
            &&& forall|p: int, q: int|
                #![trigger seasons[p], seasons[q]]
                0 <= p < q < seasons.len() ==> starts_before(
                    items,
                    |item: MatchedModel| item.season_number,
                    seasons[p],
                    seasons[q],
                )
        },
{
    let group = result[j];
    if group is Series {
        assert(result.contains(group));
        crate::order::lemma_sorted_contains(
            crate::grouping::groups(all, deletable),
            result,
            crate::model::larger_group_first(),
            group,
        );
        lemma_series_group_origin(all, deletable, group);
        let series = choose|series: Seq<char>|
            crate::grouping::series_grouped(all, deletable)(series) == Some(group) && group
                == #[trigger] crate::grouping::series_group(all, deletable, series);
        lemma_several_items(all, deletable, series);
        crate::laws::grouped::lemma_goes_as_series(all, deletable, series);
        crate::laws::grouped::lemma_called(all, deletable, series);
        lemma_made_of(all, deletable, series);
        let items = group.items();
        let f = |item: MatchedModel| item.season_number;
        let numbers = crate::grouping::season_numbers(items);
        assert forall|p: int, q: int|
            #![trigger numbers[p], numbers[q]]
            0 <= p < q < numbers.len() implies starts_before(items, f, numbers[p], numbers[q]) by {
            lemma_distinct_order(items, f, p, q);
        }
    }
}

/// What a series that goes has is made of its seasons.
proof fn lemma_made_of(all: Seq<MediaModel>, deletable: Seq<MatchedModel>, series: Seq<char>)
    requires
        crate::laws::lineage::ids_are_unique(all),
        crate::grouping::forms_series(all, deletable, series),
    ensures
        is_made_of(
            all,
            deletable,
            series,
            crate::grouping::series_items(all, deletable, series),
        ),
{
    let items = crate::grouping::series_items(all, deletable, series);
    let own = crate::grouping::own_seasons(all, deletable, series);
    let its = crate::grouping::seasons_of(deletable, series);
    let owns = crate::grouping::owns(all, deletable, series);
    let f = |season: Seq<char>| crate::grouping::episodes_of(deletable, season);
    let within = crate::grouping::season_within(series);
    assert(within =~= season_in(series));
    crate::grouping::lemma_season_of_series(deletable, series, Seq::empty());
    crate::grouping::lemma_filter_no_duplicates(its, owns);
    assert forall|k: int| 0 <= k < items.len() implies crate::laws::grouped::has_its_place(
        #[trigger] items[k],
    ) && own.contains(items[k].season_id->0) && is_named_with(
        deletable,
        series,
        items[k].season_id->0,
    ) by {
        assert(items.contains(items[k]));
        crate::laws::grouped::lemma_flat_map_mentions(own, f, items[k]);
        let n = choose|n: int| 0 <= n < own.len() && f(#[trigger] own[n]).contains(items[k]);
        let season = own[n];
        let p = crate::grouping::belongs_to(season);
        let e = deletable.filter(p);
        let i = choose|i: int| 0 <= i < e.len() && e[i] == items[k];
        deletable.lemma_filter_pred(p, i);
        assert(own.contains(season));
        its.lemma_filter_contains_rev(owns, season);
        crate::grouping::lemma_season_of_series(deletable, series, season);
        let m = choose|m: int|
            0 <= m < deletable.len() && within(#[trigger] deletable[m]) == Some(season);
        assert(season_in(series)(deletable[m]) == Some(season));
    }
    assert forall|k: int| 0 <= k < items.len() implies items.filter(
        |m: MatchedModel| m.season_id == (#[trigger] items[k]).season_id,
    ) == deletable.filter(
        |m: MatchedModel|
            crate::laws::grouped::has_its_place(m) && m.season_id == items[k].season_id,
    ) by {
        let season = items[k].season_id->0;
        assert(crate::laws::grouped::has_its_place(items[k]));
        lemma_season_within_series(deletable, own, season);
        assert((|m: MatchedModel| m.season_id == items[k].season_id) =~= (
        |m: MatchedModel| m.season_id == Some(season)));
        assert((|m: MatchedModel|
            crate::laws::grouped::has_its_place(m) && m.season_id == items[k].season_id)
            =~= crate::grouping::belongs_to(season));
    }
    assert forall|p: int, q: int|
        #![trigger items[p], items[q]]
        0 <= p < q < items.len() && items[p].season_id != items[q].season_id implies starts_before(
        deletable,
        season_in(series),
        items[p].season_id->0,
        items[q].season_id->0,
    ) by {
        lemma_flat_map_order(own, f, p, q);
        let (a, b) = choose|a: int, b: int|
            #![trigger own[a], own[b]]
            0 <= a <= b < own.len() && f(own[a]).contains(items[p]) && f(own[b]).contains(items[q]);
        lemma_episode_season(deletable, own[a], items[p]);
        lemma_episode_season(deletable, own[b], items[q]);
        lemma_filter_order(its, owns, a, b);
        let (u, v) = choose|u: int, v: int|
            #![trigger its[u], its[v]]
            0 <= u < v < its.len() && its[u] == own[a] && its[v] == own[b];
        lemma_distinct_order(deletable, within, u, v);
    }
    assert forall|k: int, other: Seq<char>|
        0 <= k < items.len() && other != series && crate::laws::grouped::goes_as_series(
            all,
            deletable,
            other,
        ) && #[trigger] is_named_with(
            deletable,
            other,
            (#[trigger] items[k]).season_id->0,
        ) implies starts_before(deletable, series_named(), series, other) by {
        let season = items[k].season_id->0;
        assert(own.contains(season));
        crate::grouping::lemma_owner(all, deletable, season);
        crate::laws::grouped::lemma_goes_as_series(all, deletable, other);
        lemma_named_with(deletable, other, season);
        assert(crate::grouping::claims(all, deletable, season)(other));
        lemma_owner_is_first(all, deletable, season, series, other);
    }
    assert forall|n: int|
        0 <= n < deletable.len() && season_in(series)(#[trigger] deletable[n]) is Some
            && !items.contains(deletable[n]) implies exists|other: Seq<char>|
        other != series && #[trigger] crate::laws::grouped::goes_as_series(all, deletable, other)
            && is_named_with(deletable, other, deletable[n].season_id->0) && starts_before(
            deletable,
            series_named(),
            other,
            series,
        ) by {
        let season = deletable[n].season_id->0;
        assert(season_in(series)(deletable[n]) == Some(season));
        assert(is_named_with(deletable, series, season));
        lemma_named_with(deletable, series, season);
        assert(crate::grouping::claims(all, deletable, season)(series));
        crate::grouping::lemma_owner(all, deletable, season);
        let other = crate::grouping::owner(all, deletable, season)->0;
        if other == series {
            assert(own.contains(season));
            let k = choose|k: int| 0 <= k < own.len() && own[k] == season;
            assert(crate::grouping::belongs_to(season)(deletable[n]));
            deletable.lemma_filter_contains(crate::grouping::belongs_to(season), n);
            assert(f(own[k]).contains(deletable[n]));
            crate::laws::grouped::lemma_flat_map_mentions(own, f, deletable[n]);
        }
        assert(crate::grouping::claims(all, deletable, season)(other));
        crate::laws::grouped::lemma_goes_as_series(all, deletable, other);
        lemma_named_with(deletable, other, season);
        lemma_owner_is_first(all, deletable, season, other, series);
    }
}

/// A season belongs to a series just where an episode names both.
proof fn lemma_named_with(deletable: Seq<MatchedModel>, series: Seq<char>, season: Seq<char>)
    ensures
        crate::grouping::seasons_of(deletable, series).contains(season) <==> is_named_with(
            deletable,
            series,
            season,
        ),
{
    crate::grouping::lemma_season_of_series(deletable, series, season);
    assert(crate::grouping::season_within(series) =~= season_in(series));
}

/// An episode of a season names it.
proof fn lemma_episode_season(deletable: Seq<MatchedModel>, season: Seq<char>, item: MatchedModel)
    requires
        crate::grouping::episodes_of(deletable, season).contains(item),
    ensures
        crate::laws::grouped::has_its_place(item),
        item.season_id == Some(season),
{
    let p = crate::grouping::belongs_to(season);
    let e = deletable.filter(p);
    let i = choose|i: int| 0 <= i < e.len() && e[i] == item;
    deletable.lemma_filter_pred(p, i);
}

/// Where the group of a series comes from.
proof fn lemma_series_group_origin(
    all: Seq<MediaModel>,
    deletable: Seq<MatchedModel>,
    group: GroupModel,
)
    requires
        crate::grouping::groups(all, deletable).contains(group),
        group is Series,
    ensures
        exists|series: Seq<char>|
            crate::grouping::series_grouped(all, deletable)(series) == Some(group) && group
                == #[trigger] crate::grouping::series_group(all, deletable, series),
{
    let a = crate::grouping::seasons(deletable);
    let b = crate::grouping::all_series(deletable);
    let f = crate::grouping::season_grouped(all, deletable);
    let g = crate::grouping::series_grouped(all, deletable);
    let h = crate::grouping::alone(all, deletable);
    crate::grouping::lemma_filter_map_mentions(a, f, group);
    crate::grouping::lemma_filter_map_mentions(b, g, group);
    crate::grouping::lemma_filter_map_mentions(deletable, h, group);
    let whole = crate::grouping::groups(all, deletable);
    let j = choose|j: int| 0 <= j < whole.len() && whole[j] == group;
    let x = a.filter_map(f);
    let y = b.filter_map(g);
    let z = deletable.filter_map(h);
    if j < x.len() {
        assert(x[j] == group);
    } else if j < x.len() + y.len() {
        assert(y[j - x.len()] == group);
        let k = choose|k: int| 0 <= k < b.len() && g(#[trigger] b[k]) == Some(group);
        assert(group == crate::grouping::series_group(all, deletable, b[k]));
    } else {
        assert(z[j - x.len() - y.len()] == group);
    }
}

/// A series that has a season has several episodes.
proof fn lemma_several_items(all: Seq<MediaModel>, deletable: Seq<MatchedModel>, series: Seq<char>)
    requires
        crate::grouping::forms_series(all, deletable, series),
        crate::grouping::own_seasons(all, deletable, series).len() > 0,
    ensures
        crate::grouping::series_items(all, deletable, series).len() > 1,
{
    let own = crate::grouping::own_seasons(all, deletable, series);
    let its = crate::grouping::seasons_of(deletable, series);
    let f = |season: Seq<char>| crate::grouping::episodes_of(deletable, season);
    let season = own.last();
    assert(own[own.len() - 1] == season);
    assert(own.contains(season));
    its.lemma_filter_contains_rev(crate::grouping::owns(all, deletable, series), season);
    let k = choose|k: int| 0 <= k < its.len() && its[k] == season;
    assert(crate::grouping::forms_season(all, deletable, its[k]));
    crate::laws::grouped::lemma_flat_map_last(own, f);
}

} // verus!
