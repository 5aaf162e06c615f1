//! What holds of the groups.

use vstd::prelude::*;
use crate::model::GroupModel;
use crate::model::MatchedModel;
use crate::model::MediaModel;
use crate::selection::SelectionModel;

verus! {

/// The items of the groups, one after the other.
pub open spec fn items_in(groups: Seq<GroupModel>) -> Seq<MatchedModel> {
    groups.flat_map(|group: GroupModel| group.items())
}

/// What `flat_map` holds is held by the image of an element.
pub proof fn lemma_flat_map_mentions<A, B>(s: Seq<A>, f: spec_fn(A) -> Seq<B>, b: B)
    ensures
        s.flat_map(f).contains(b) <==> exists|k: int|
            0 <= k < s.len() && f(#[trigger] s[k]).contains(b),
    decreases s.len(),
{
    if s.len() == 0 {
        assert(s.map_values(f) =~= Seq::empty());
        assert(s.flat_map(f) =~= Seq::empty());
    } else {
        let rest = s.drop_last();
        lemma_flat_map_mentions(rest, f, b);
        s.lemma_flat_map_take_append(f, s.len() - 1);
        assert(s.take(s.len() - 1) =~= rest);
        assert(s.take(s.len() as int) =~= s);
        let head = rest.flat_map(f);
        let tail = f(s.last());
        assert(s.flat_map(f) == head + tail);
        if s.flat_map(f).contains(b) {
            let j = choose|j: int| 0 <= j < s.flat_map(f).len() && s.flat_map(f)[j] == b;
            if j < head.len() {
                assert(head[j] == b);
                let k = choose|k: int| 0 <= k < rest.len() && f(#[trigger] rest[k]).contains(b);
                assert(s[k] == rest[k]);
            } else {
                assert(tail[j - head.len()] == b);
                assert(f(s[s.len() - 1]).contains(b));
            }
        }
        if exists|k: int| 0 <= k < s.len() && f(#[trigger] s[k]).contains(b) {
            let k = choose|k: int| 0 <= k < s.len() && f(#[trigger] s[k]).contains(b);
            if k < rest.len() {
                assert(rest[k] == s[k]);
                let j = choose|j: int| 0 <= j < head.len() && head[j] == b;
                assert(s.flat_map(f)[j] == b);
            } else {
                let j = choose|j: int| 0 <= j < tail.len() && tail[j] == b;
                assert(s.flat_map(f)[head.len() + j] == b);
            }
        }
    }
}

/// `flat_map` takes the last element last.
pub proof fn lemma_flat_map_last<A, B>(s: Seq<A>, f: spec_fn(A) -> Seq<B>)
    requires
        s.len() > 0,
    ensures
        s.flat_map(f) == s.drop_last().flat_map(f) + f(s.last()),
{
    s.lemma_flat_map_take_append(f, s.len() - 1);
    assert(s.take(s.len() - 1) =~= s.drop_last());
    assert(s.take(s.len() as int) =~= s);
}

/// `flat_map` of nothing is nothing.
pub proof fn lemma_flat_map_empty<A, B>(s: Seq<A>, f: spec_fn(A) -> Seq<B>)
    requires
        s.len() == 0,
    ensures
        s.flat_map(f) == Seq::<B>::empty(),
{
    assert(s.map_values(f) =~= Seq::empty());
    assert(s.flat_map(f) =~= Seq::empty());
}

/// `flat_map` of two sequences in a row.
proof fn lemma_flat_map_add<A, B>(a: Seq<A>, b: Seq<A>, f: spec_fn(A) -> Seq<B>)
    ensures
        (a + b).flat_map(f) == a.flat_map(f) + b.flat_map(f),
    decreases b.len(),
{
    if b.len() == 0 {
        lemma_flat_map_empty(b, f);
        assert(a + b =~= a);
        assert((a + b).flat_map(f) =~= a.flat_map(f) + b.flat_map(f));
    } else {
        lemma_flat_map_add(a, b.drop_last(), f);
        lemma_flat_map_last(a + b, f);
        lemma_flat_map_last(b, f);
        assert((a + b).drop_last() =~= a + b.drop_last());
        assert((a + b).flat_map(f) =~= a.flat_map(f) + b.flat_map(f));
    }
}

/// How often `x` occurs in two sequences in a row.
proof fn lemma_count_add<A>(a: Seq<A>, b: Seq<A>, x: A)
    ensures
        (a + b).to_multiset().count(x) == a.to_multiset().count(x) + b.to_multiset().count(x),
{
    vstd::seq_lib::lemma_multiset_commutative(a, b);
}

/// How often `x` occurs after filtering.
proof fn lemma_count_filter<A>(s: Seq<A>, p: spec_fn(A) -> bool, x: A)
    ensures
        s.filter(p).to_multiset().count(x) == if p(x) {
            s.to_multiset().count(x)
        } else {
            0
        },
    decreases s.len(),
{
    broadcast use vstd::seq_lib::group_to_multiset_ensures;

    reveal(Seq::filter);
    if s.len() > 0 {
        lemma_count_filter(s.drop_last(), p, x);
        assert(s =~= s.drop_last().push(s.last()));
    }
}

/// Where only the image of `a` holds `x`, it counts as often as there.
proof fn lemma_count_flat_map<A, B>(s: Seq<A>, f: spec_fn(A) -> Seq<B>, a: A, x: B)
    requires
        s.no_duplicates(),
        forall|other: A| other != a ==> #[trigger] f(other).to_multiset().count(x) == 0,
    ensures
        s.flat_map(f).to_multiset().count(x) == if s.contains(a) {
            f(a).to_multiset().count(x)
        } else {
            0
        },
    decreases s.len(),
{
    broadcast use vstd::seq_lib::group_to_multiset_ensures;

    if s.len() == 0 {
        lemma_flat_map_empty(s, f);
    } else {
        let rest = s.drop_last();
        assert(rest.no_duplicates());
        lemma_count_flat_map(rest, f, a, x);
        lemma_flat_map_last(s, f);
        lemma_count_add(rest.flat_map(f), f(s.last()), x);
        assert(s =~= rest.push(s.last()));
        vstd::seq_lib::lemma_seq_contains_after_push(rest, s.last(), a);
        if rest.contains(a) {
            let k = choose|k: int| 0 <= k < rest.len() && rest[k] == a;
            assert(s[k] == a);
            assert(s[s.len() - 1] != a);
        }
    }
}

/// Choosing and then taking the images is one step.
proof fn lemma_filter_map_flat_map<A, B, C>(
    s: Seq<A>,
    f: spec_fn(A) -> Option<B>,
    g: spec_fn(B) -> Seq<C>,
    h: spec_fn(A) -> Seq<C>,
)
    requires
        forall|a: A|
            #[trigger] h(a) == match f(a) {
                Some(b) => g(b),
                None => Seq::empty(),
            },
    ensures
        s.filter_map(f).flat_map(g) == s.flat_map(h),
    decreases s.len(),
{
    if s.len() == 0 {
        lemma_flat_map_empty(s, h);
        lemma_flat_map_empty(s.filter_map(f), g);
    } else {
        let rest = s.drop_last();
        lemma_filter_map_flat_map(rest, f, g, h);
        lemma_flat_map_last(s, h);
        let mapped = rest.filter_map(f);
        assert(h(s.last()) == match f(s.last()) {
            Some(b) => g(b),
            None => Seq::empty(),
        });
        match f(s.last()) {
            Some(b) => {
                assert(s.filter_map(f) =~= mapped.push(b));
                lemma_flat_map_last(mapped.push(b), g);
                assert(mapped.push(b).drop_last() =~= mapped);
            },
            None => {
                assert(s.filter_map(f) =~= mapped);
                assert(s.flat_map(h) =~= rest.flat_map(h));
            },
        }
    }
}

/// Where two sequences hold the same, so do their images.
proof fn lemma_flat_map_permuted<A, B>(one: Seq<A>, other: Seq<A>, f: spec_fn(A) -> Seq<B>)
    requires
        one.to_multiset() == other.to_multiset(),
    ensures
        one.flat_map(f).to_multiset() == other.flat_map(f).to_multiset(),
    decreases one.len(),
{
    broadcast use vstd::seq_lib::group_to_multiset_ensures;

    vstd::seq_lib::to_multiset_len(one);
    vstd::seq_lib::to_multiset_len(other);
    if one.len() == 0 {
        lemma_flat_map_empty(one, f);
        lemma_flat_map_empty(other, f);
    } else {
        let a = one.last();
        let rest = one.drop_last();
        assert(one =~= rest.push(a));
        vstd::seq_lib::to_multiset_contains(one, a);
        vstd::seq_lib::to_multiset_contains(other, a);
        assert(one[one.len() - 1] == a);
        assert(one.contains(a));
        let i = choose|i: int| 0 <= i < other.len() && other[i] == a;
        let left = other.take(i);
        let right = other.skip(i + 1);
        assert(other =~= left + seq![a] + right);
        assert(other =~= left.push(a) + right);
        assert forall|x: A| #[trigger]
            rest.to_multiset().count(x) == (left + right).to_multiset().count(x) by {
            lemma_count_add(left.push(a), right, x);
            lemma_count_add(left, right, x);
            assert(one.to_multiset().count(x) == other.to_multiset().count(x));
        }
        assert(rest.to_multiset() =~= (left + right).to_multiset());
        lemma_flat_map_permuted(rest, left + right, f);
        lemma_flat_map_last(one, f);
        lemma_flat_map_add(left, right, f);
        lemma_flat_map_add(left.push(a), right, f);
        lemma_flat_map_last(left.push(a), f);
        assert(left.push(a).drop_last() =~= left);
        assert forall|x: B| #[trigger]
            one.flat_map(f).to_multiset().count(x) == other.flat_map(f).to_multiset().count(x) by {
            lemma_count_add(rest.flat_map(f), f(a), x);
            lemma_count_add(left.flat_map(f), right.flat_map(f), x);
            lemma_count_add(left.flat_map(f) + f(a), right.flat_map(f), x);
            lemma_count_add(left.flat_map(f), f(a), x);
            assert(rest.flat_map(f).to_multiset().count(x) == (left
                + right).flat_map(f).to_multiset().count(x));
        }
        assert(one.flat_map(f).to_multiset() =~= other.flat_map(f).to_multiset());
    }
}

/// An item occurs among the episodes of its season as often as among the deletable
/// items, and among those of no other.
proof fn lemma_count_episodes(deletable: Seq<MatchedModel>, item: MatchedModel)
    ensures
        forall|season: Seq<char>| #[trigger]
            crate::grouping::episodes_of(deletable, season).to_multiset().count(item)
                == if crate::grouping::is_groupable(item) && item.season_id == Some(season) {
                deletable.to_multiset().count(item)
            } else {
                0
            },
{
    assert forall|season: Seq<char>| #[trigger]
        crate::grouping::episodes_of(deletable, season).to_multiset().count(item)
            == if crate::grouping::is_groupable(item) && item.season_id == Some(season) {
            deletable.to_multiset().count(item)
        } else {
            0
        } by {
        lemma_count_filter(deletable, crate::grouping::belongs_to(season), item);
    }
}

/// How often an item occurs in the group of a series.
proof fn lemma_count_series_items(
    all: Seq<MediaModel>,
    deletable: Seq<MatchedModel>,
    series: Seq<char>,
    item: MatchedModel,
)
    ensures
        crate::grouping::series_items(all, deletable, series).to_multiset().count(item)
            == if crate::grouping::is_groupable(item) && crate::grouping::owner(
            all,
            deletable,
            item.season_id->0,
        ) == Some(series) {
            deletable.to_multiset().count(item)
        } else {
            0
        },
{
    let f = |season: Seq<char>| crate::grouping::episodes_of(deletable, season);
    let own = crate::grouping::own_seasons(all, deletable, series);
    lemma_count_episodes(deletable, item);
    crate::grouping::lemma_season_of_series(deletable, series, item.season_id->0);
    crate::grouping::lemma_filter_no_duplicates(
        crate::grouping::seasons_of(deletable, series),
        crate::grouping::owns(all, deletable, series),
    );
    crate::grouping::lemma_owner(all, deletable, item.season_id->0);
    assert forall|season: Seq<char>| season != item.season_id->0 implies #[trigger] f(
        season,
    ).to_multiset().count(item) == 0 by {
        assert(crate::grouping::episodes_of(deletable, season).to_multiset().count(item) == 0);
    }
    lemma_count_flat_map(own, f, item.season_id->0, item);
    assert(f(item.season_id->0) == crate::grouping::episodes_of(deletable, item.season_id->0));
    assert(own.contains(item.season_id->0) <==> crate::grouping::owner(
        all,
        deletable,
        item.season_id->0,
    ) == Some(series));
}

/// How often an item occurs in the groups of seasons.
proof fn lemma_count_season_groups(
    all: Seq<MediaModel>,
    deletable: Seq<MatchedModel>,
    item: MatchedModel,
)
    ensures
        items_in(
            crate::grouping::seasons(deletable).filter_map(
                crate::grouping::season_grouped(all, deletable),
            ),
        ).to_multiset().count(item) == if crate::grouping::is_groupable(item)
            && crate::grouping::seasons(deletable).contains(item.season_id->0)
            && crate::grouping::forms_season(all, deletable, item.season_id->0)
            && crate::grouping::owner(all, deletable, item.season_id->0) is None {
            deletable.to_multiset().count(item)
        } else {
            0
        },
{
    broadcast use vstd::seq_lib::group_to_multiset_ensures;

    let f = crate::grouping::season_grouped(all, deletable);
    let g = |group: GroupModel| group.items();
    let h = |season: Seq<char>|
        match f(season) {
            Some(group) => g(group),
            None => Seq::empty(),
        };
    let seasons = crate::grouping::seasons(deletable);
    lemma_filter_map_flat_map(seasons, f, g, h);
    lemma_count_episodes(deletable, item);
    crate::grouping::lemma_distinct(deletable.filter_map(crate::grouping::season_of()));
    assert forall|season: Seq<char>| season != item.season_id->0 implies #[trigger] h(
        season,
    ).to_multiset().count(item) == 0 by {
        assert(crate::grouping::episodes_of(deletable, season).to_multiset().count(item) == 0);
    }
    lemma_count_flat_map(seasons, h, item.season_id->0, item);
    assert(crate::grouping::episodes_of(deletable, item.season_id->0).to_multiset().count(item)
        >= 0);
}

/// How often an item occurs in the groups of series.
proof fn lemma_count_series_groups(
    all: Seq<MediaModel>,
    deletable: Seq<MatchedModel>,
    item: MatchedModel,
)
    ensures
        items_in(
            crate::grouping::all_series(deletable).filter_map(
                crate::grouping::series_grouped(all, deletable),
            ),
        ).to_multiset().count(item) == if crate::grouping::is_groupable(item)
            && crate::grouping::owner(all, deletable, item.season_id->0) is Some {
            deletable.to_multiset().count(item)
        } else {
            0
        },
{
    broadcast use vstd::seq_lib::group_to_multiset_ensures;

    let season = item.season_id->0;
    let owner = crate::grouping::owner(all, deletable, season);
    let f = crate::grouping::series_grouped(all, deletable);
    let g = |group: GroupModel| group.items();
    let h = |series: Seq<char>|
        match f(series) {
            Some(group) => g(group),
            None => Seq::empty(),
        };
    let listed = crate::grouping::all_series(deletable);
    lemma_filter_map_flat_map(listed, f, g, h);
    crate::grouping::lemma_distinct(deletable.filter_map(crate::grouping::series_of()));
    assert forall|series: Seq<char>| series != owner->0 implies #[trigger] h(
        series,
    ).to_multiset().count(item) == 0 by {
        lemma_count_series_items(all, deletable, series, item);
    }
    lemma_count_flat_map(listed, h, owner->0, item);
    lemma_count_series_items(all, deletable, owner->0, item);
    crate::grouping::lemma_owner(all, deletable, season);
    if owner is Some {
        assert(crate::grouping::own_seasons(all, deletable, owner->0).contains(season));
        assert(crate::grouping::claims(all, deletable, season)(owner->0));
    }
}

/// How often an item occurs among those that stand alone.
proof fn lemma_count_alone(all: Seq<MediaModel>, deletable: Seq<MatchedModel>, item: MatchedModel)
    ensures
        items_in(
            deletable.filter_map(crate::grouping::alone(all, deletable)),
        ).to_multiset().count(item) == if crate::grouping::is_left_to_groups(
            all,
            deletable,
            item,
        ) {
            0
        } else {
            deletable.to_multiset().count(item)
        },
{
    let p = |m: MatchedModel| !crate::grouping::is_left_to_groups(all, deletable, m);
    lemma_alone_is_filter(all, deletable, deletable);
    lemma_count_filter(deletable, p, item);
}

/// The items that stand alone are those not left to the groups.
proof fn lemma_alone_is_filter(
    all: Seq<MediaModel>,
    deletable: Seq<MatchedModel>,
    some: Seq<MatchedModel>,
)
    ensures
        items_in(some.filter_map(crate::grouping::alone(all, deletable))) == some.filter(
            |m: MatchedModel| !crate::grouping::is_left_to_groups(all, deletable, m),
        ),
    decreases some.len(),
{
    reveal(Seq::filter);
    let f = crate::grouping::alone(all, deletable);
    let g = |group: GroupModel| group.items();
    if some.len() == 0 {
        lemma_flat_map_empty(some.filter_map(f), g);
    } else {
        let rest = some.drop_last();
        lemma_alone_is_filter(all, deletable, rest);
        let mapped = rest.filter_map(f);
        match f(some.last()) {
            Some(group) => {
                assert(some.filter_map(f) =~= mapped.push(group));
                lemma_flat_map_last(mapped.push(group), g);
                assert(mapped.push(group).drop_last() =~= mapped);
                assert(group.items() =~= seq![some.last()]);
            },
            None => {
                assert(some.filter_map(f) =~= mapped);
            },
        }
    }
}

/// How many items groups hold.
proof fn lemma_item_count(groups: Seq<GroupModel>)
    ensures
        items_in(groups).len() == crate::display::item_count(groups),
    decreases groups.len(),
{
    let g = |group: GroupModel| group.items();
    if groups.len() == 0 {
        lemma_flat_map_empty(groups, g);
    } else {
        lemma_item_count(groups.drop_last());
        lemma_flat_map_last(groups, g);
    }
}

/// The groups divide the deletable items among them: taken one after the other, their
/// items are the deletable items in some order. None is lost, none is added, and none
/// comes twice.
pub proof fn the_groups_divide_the_items(
    all: Seq<MediaModel>,
    deletable: Seq<MatchedModel>,
    result: Seq<GroupModel>,
)
    requires
        crate::order::is_stable_sort(
            crate::grouping::groups(all, deletable),
            result,
            crate::model::larger_group_first(),
        ),
    ensures
        items_in(result).to_multiset() == deletable.to_multiset(),
        crate::display::item_count(result) == deletable.len(),
{
    let g = |group: GroupModel| group.items();
    let groups = crate::grouping::groups(all, deletable);
    let x = crate::grouping::seasons(deletable).filter_map(
        crate::grouping::season_grouped(all, deletable),
    );
    let y = crate::grouping::all_series(deletable).filter_map(
        crate::grouping::series_grouped(all, deletable),
    );
    let z = deletable.filter_map(crate::grouping::alone(all, deletable));
    crate::order::sorting_keeps_every_element(groups, result, crate::model::larger_group_first());
    lemma_flat_map_permuted(groups, result, g);
    lemma_flat_map_add(x + y, z, g);
    lemma_flat_map_add(x, y, g);
    assert forall|item: MatchedModel| #[trigger]
        items_in(groups).to_multiset().count(item) == deletable.to_multiset().count(item) by {
        lemma_count_add(items_in(x) + items_in(y), items_in(z), item);
        lemma_count_add(items_in(x), items_in(y), item);
        lemma_count_season_groups(all, deletable, item);
        lemma_count_series_groups(all, deletable, item);
        lemma_count_alone(all, deletable, item);
        if crate::grouping::is_groupable(item) && deletable.to_multiset().count(item) > 0 {
            let season = item.season_id->0;
            lemma_count_episodes(deletable, item);
            let episodes = crate::grouping::episodes_of(deletable, season);
            assert(episodes.to_multiset().count(item) > 0);
            vstd::seq_lib::to_multiset_contains(episodes, item);
            crate::grouping::lemma_season_with_episodes_listed(deletable, season);
            crate::grouping::lemma_owner(all, deletable, season);
            if crate::grouping::owner(all, deletable, season) is Some {
                let series = crate::grouping::owner(all, deletable, season)->0;
                assert(crate::grouping::claims(all, deletable, season)(series));
                let seasons = crate::grouping::seasons_of(deletable, series);
                let k = choose|k: int| 0 <= k < seasons.len() && seasons[k] == season;
                assert(crate::grouping::forms_season(all, deletable, seasons[k]));
            }
        }
    }
    assert(items_in(groups).to_multiset() =~= deletable.to_multiset());
    lemma_item_count(result);
    vstd::seq_lib::to_multiset_len(items_in(result));
    vstd::seq_lib::to_multiset_len(deletable);
}

/// Every item of a group is one of the deletable items.
pub proof fn groups_hold_deletable_items_only(
    all: Seq<MediaModel>,
    deletable: Seq<MatchedModel>,
    result: Seq<GroupModel>,
    j: int,
    item: MatchedModel,
)
    requires
        crate::order::is_stable_sort(
            crate::grouping::groups(all, deletable),
            result,
            crate::model::larger_group_first(),
        ),
        0 <= j < result.len(),
        result[j].items().contains(item),
    ensures
        deletable.contains(item),
{
    let g = |group: GroupModel| group.items();
    the_groups_divide_the_items(all, deletable, result);
    lemma_flat_map_mentions(result, g, item);
    assert(g(result[j]).contains(item));
    vstd::seq_lib::to_multiset_contains(items_in(result), item);
    vstd::seq_lib::to_multiset_contains(deletable, item);
}

/// Where no item is deletable twice, every deletable item is in exactly one group.
pub proof fn every_item_is_in_one_group(
    all: Seq<MediaModel>,
    deletable: Seq<MatchedModel>,
    result: Seq<GroupModel>,
    item: MatchedModel,
)
    requires
        crate::order::is_stable_sort(
            crate::grouping::groups(all, deletable),
            result,
            crate::model::larger_group_first(),
        ),
        deletable.no_duplicates(),
        deletable.contains(item),
    ensures
        exists|j: int|
            0 <= j < result.len() && (#[trigger] result[j]).items().contains(item) && forall|k: int|
                0 <= k < result.len() && k != j ==> !(#[trigger] result[k]).items().contains(item),
{
    let g = |group: GroupModel| group.items();
    the_groups_divide_the_items(all, deletable, result);
    deletable.lemma_multiset_has_no_duplicates();
    vstd::seq_lib::to_multiset_contains(deletable, item);
    vstd::seq_lib::to_multiset_contains(items_in(result), item);
    assert(deletable.to_multiset().count(item) == 1);
    lemma_flat_map_mentions(result, g, item);
    let j = choose|j: int| 0 <= j < result.len() && g(#[trigger] result[j]).contains(item);
    assert(result[j].items().contains(item));
    assert forall|k: int| 0 <= k < result.len() && k != j implies !(
    #[trigger] result[k]).items().contains(item) by {
        if result[k].items().contains(item) {
            if j < k {
                lemma_two_groups_count_twice(result, j, k, item);
            } else {
                lemma_two_groups_count_twice(result, k, j, item);
            }
        }
    }
}

/// An item of two groups counts at least twice.
proof fn lemma_two_groups_count_twice(
    groups: Seq<GroupModel>,
    j: int,
    k: int,
    item: MatchedModel,
)
    requires
        0 <= j < k < groups.len(),
        groups[j].items().contains(item),
        groups[k].items().contains(item),
    ensures
        items_in(groups).to_multiset().count(item) >= 2,
{
    let g = |group: GroupModel| group.items();
    let left = groups.take(k);
    let right = groups.skip(k + 1);
    let group = groups[k];
    assert(groups =~= left.push(group) + right);
    lemma_flat_map_add(left.push(group), right, g);
    lemma_flat_map_last(left.push(group), g);
    assert(left.push(group).drop_last() =~= left);
    lemma_count_add(items_in(left) + group.items(), items_in(right), item);
    lemma_count_add(items_in(left), group.items(), item);
    lemma_flat_map_mentions(left, g, item);
    assert(left[j] == groups[j]);
    assert(g(left[j]).contains(item));
    vstd::seq_lib::to_multiset_contains(items_in(left), item);
    vstd::seq_lib::to_multiset_contains(group.items(), item);
}

/// Where the group of a season or a series comes from.
proof fn lemma_group_origin(
    all: Seq<MediaModel>,
    deletable: Seq<MatchedModel>,
    group: GroupModel,
)
    requires
        crate::grouping::groups(all, deletable).contains(group),
    ensures
        group is Season ==> exists|season: Seq<char>|
            crate::grouping::forms_season(all, deletable, season) && group
                == #[trigger] crate::grouping::season_group(deletable, season),
        group is Series ==> exists|series: Seq<char>|
            crate::grouping::forms_series(all, deletable, series) && group
                == #[trigger] crate::grouping::series_group(all, deletable, series),
{
    let a = crate::grouping::seasons(deletable);
    let b = crate::grouping::all_series(deletable);
    let f = crate::grouping::season_grouped(all, deletable);
    let g = crate::grouping::series_grouped(all, deletable);
    let h = crate::grouping::alone(all, deletable);
    crate::grouping::lemma_filter_map_mentions(a, f, group);
    crate::grouping::lemma_filter_map_mentions(b, g, group);
    crate::grouping::lemma_filter_map_mentions(deletable, h, group);
    let whole = crate::grouping::groups(all, deletable);
    let j = choose|j: int| 0 <= j < whole.len() && whole[j] == group;
    let x = a.filter_map(f);
    let y = b.filter_map(g);
    let z = deletable.filter_map(h);
    assert(whole == x + y + z);
    if j < x.len() {
        assert(x[j] == group);
        let k = choose|k: int| 0 <= k < a.len() && f(#[trigger] a[k]) == Some(group);
        assert(group == crate::grouping::season_group(deletable, a[k]));
    } else if j < x.len() + y.len() {
        assert(y[j - x.len()] == group);
        let k = choose|k: int| 0 <= k < b.len() && g(#[trigger] b[k]) == Some(group);
        assert(group == crate::grouping::series_group(all, deletable, b[k]));
    } else {
        assert(z[j - x.len() - y.len()] == group);
    }
}

/// A season is a group only where it has several deletable episodes and every episode
/// right under it is deletable; a series, only where that holds of several seasons, of
/// all that have deletable episodes, and every episode of the series is deletable. The
/// group holds the deletable episodes of the season, or of those of these seasons that
/// the series has.
pub proof fn groups_are_whole(
    all: Seq<MediaModel>,
    deletable: Seq<MatchedModel>,
    result: Seq<GroupModel>,
    group: GroupModel,
)
    requires
        crate::order::is_stable_sort(
            crate::grouping::groups(all, deletable),
            result,
            crate::model::larger_group_first(),
        ),
        result.contains(group),
    ensures
        group is Season ==> group.items().len() > 1 && exists|season: Seq<char>|
            crate::grouping::is_whole(all, deletable, season) && group.items()
                == #[trigger] crate::grouping::episodes_of(deletable, season),
        group is Series ==> exists|series: Seq<char>|
            group.items() == #[trigger] crate::grouping::series_items(all, deletable, series)
                && crate::grouping::is_whole_series(all, deletable, series)
                && crate::grouping::seasons_of(deletable, series).len() > 1 && forall|k: int|
                0 <= k < crate::grouping::seasons_of(deletable, series).len()
                    ==> crate::grouping::is_whole(
                    all,
                    deletable,
                    #[trigger] crate::grouping::seasons_of(deletable, series)[k],
                ) && crate::grouping::episodes_of(
                    deletable,
                    crate::grouping::seasons_of(deletable, series)[k],
                ).len() > 1,
{
    crate::order::lemma_sorted_contains(
        crate::grouping::groups(all, deletable),
        result,
        crate::model::larger_group_first(),
        group,
    );
    lemma_group_origin(all, deletable, group);
    if group is Season {
        let season = choose|season: Seq<char>|
            crate::grouping::forms_season(all, deletable, season) && group
                == #[trigger] crate::grouping::season_group(deletable, season);
        assert(group.items() == crate::grouping::episodes_of(deletable, season));
    }
    if group is Series {
        let series = choose|series: Seq<char>|
            crate::grouping::forms_series(all, deletable, series) && group
                == #[trigger] crate::grouping::series_group(all, deletable, series);
        assert(group.items() == crate::grouping::series_items(all, deletable, series));
    }
}

/// Two episodes of the same season are of the same series.
proof fn lemma_season_determines_series(
    items: Seq<MediaModel>,
    one: Option<Seq<char>>,
    other: Option<Seq<char>>,
    season: Seq<char>,
    series: Seq<char>,
)
    requires
        ({
            let a = crate::ancestry::lineage(items, one);
            let b = crate::ancestry::lineage(items, other);
            &&& crate::ancestry::season_above(items, a) == Some(season)
            &&& crate::ancestry::series_above(items, a) == Some(series)
            &&& crate::ancestry::season_above(items, b) == Some(season)
        }),
    ensures
        crate::ancestry::series_above(items, crate::ancestry::lineage(items, other)) == Some(series),
{
    let a = crate::ancestry::lineage(items, one);
    let b = crate::ancestry::lineage(items, other);
    crate::ancestry::lemma_lineage_exists(items, one);
    crate::ancestry::lemma_lineage_exists(items, other);
    lemma_leading_seasons(items, a);
    lemma_leading_seasons(items, b);
    let m = crate::ancestry::leading_seasons(items, a) as int;
    let n = crate::ancestry::leading_seasons(items, b) as int;
    assert(a[m - 1] == season && b[n - 1] == season);
    assert(a[m] == series);
    assert(crate::ancestry::ancestor_at(items, one, m as nat) == Some(a[m]));
    assert(crate::ancestry::ancestor_at(items, one, (m - 1) as nat) == Some(a[m - 1]));
    assert(crate::ancestry::parent_of(items, season) == Some(series));
    assert(crate::ancestry::ancestor_at(items, other, (n - 1) as nat) == Some(b[n - 1]));
    assert(crate::ancestry::ancestor_at(items, other, n as nat) == Some(series));
    assert("Season"@ != "Series"@) by {
        reveal_strlit("Season");
        reveal_strlit("Series");
        assert("Season"@[2] != "Series"@[2]);
    }
    if n == b.len() {
        let k = choose|k: int| 0 <= k < b.len() && b[k] == series;
        assert((crate::ancestry::lookup(items, b[k])->0).is_season());
    } else {
        assert(b[n] == series);
    }
}

/// The ids counted as seasons are seasons.
proof fn lemma_leading_seasons(items: Seq<MediaModel>, ids: Seq<Seq<char>>)
    ensures
        crate::ancestry::leading_seasons(items, ids) <= ids.len(),
        forall|k: int|
            0 <= k < crate::ancestry::leading_seasons(items, ids) ==> (
            crate::ancestry::lookup(items, #[trigger] ids[k])->0).is_season(),
    decreases ids.len(),
{
    if ids.len() > 0 {
        let rest = ids.drop_first();
        lemma_leading_seasons(items, rest);
        assert forall|k: int| 0 <= k < crate::ancestry::leading_seasons(items, ids) implies (
        crate::ancestry::lookup(items, #[trigger] ids[k])->0).is_season() by {
            if k > 0 {
                assert(rest[k - 1] == ids[k]);
            }
        }
    }
}

/// Of what is found, the episodes of a season are all of one series.
pub proof fn a_season_is_of_one_series(
    selection: SelectionModel,
    found: Seq<MatchedModel>,
    one: MatchedModel,
    other: MatchedModel,
)
    requires
        crate::order::is_stable_sort(
            selection.items.filter_map(selection.matched()),
            found,
            crate::model::larger_first(),
        ),
        found.contains(one),
        found.contains(other),
        one.season_id is Some,
        one.season_id == other.season_id,
    ensures
        one.series_id == other.series_id,
{
    let all = selection.items;
    crate::laws::selected::exactly_the_deletable_items_are_found(selection, found, one);
    crate::laws::selected::exactly_the_deletable_items_are_found(selection, found, other);
    let i = choose|i: int|
        0 <= i < all.len() && selection.is_deletable(#[trigger] all[i]) && selection.describe(
            all[i],
        ) == one;
    let k = choose|k: int|
        0 <= k < all.len() && selection.is_deletable(#[trigger] all[k]) && selection.describe(
            all[k],
        ) == other;
    let season = one.season_id->0;
    if one.series_id is Some {
        lemma_season_determines_series(
            all,
            all[i].parent_id,
            all[k].parent_id,
            season,
            one.series_id->0,
        );
    }
    if other.series_id is Some {
        lemma_season_determines_series(
            all,
            all[k].parent_id,
            all[i].parent_id,
            season,
            other.series_id->0,
        );
    }
}

/// Where the episodes of each season are of one series, a grouped series has all of its
/// seasons, and its group holds all their episodes.
pub proof fn a_grouped_series_has_all_its_seasons(
    all: Seq<MediaModel>,
    deletable: Seq<MatchedModel>,
    series: Seq<char>,
)
    requires
        forall|i: int, j: int|
            #![trigger deletable[i], deletable[j]]
            0 <= i < deletable.len() && 0 <= j < deletable.len() && crate::grouping::is_groupable(
                deletable[i],
            ) && crate::grouping::is_groupable(deletable[j]) && deletable[i].season_id
                == deletable[j].season_id ==> deletable[i].series_id == deletable[j].series_id,
        crate::grouping::forms_series(all, deletable, series),
    ensures
        crate::grouping::own_seasons(all, deletable, series) == crate::grouping::seasons_of(
            deletable,
            series,
        ),
        crate::grouping::series_grouped(all, deletable)(series) is Some,
{
    let its = crate::grouping::seasons_of(deletable, series);
    let p = crate::grouping::owns(all, deletable, series);
    assert forall|k: int| 0 <= k < its.len() implies p(#[trigger] its[k]) by {
        let season = its[k];
        assert(its.contains(season));
        crate::grouping::lemma_owner(all, deletable, season);
        assert(crate::grouping::claims(all, deletable, season)(series));
        let owner = crate::grouping::owner(all, deletable, season)->0;
        assert(crate::grouping::claims(all, deletable, season)(owner));
        crate::grouping::lemma_season_of_series(deletable, series, season);
        crate::grouping::lemma_season_of_series(deletable, owner, season);
        let i = choose|i: int|
            0 <= i < deletable.len() && crate::grouping::season_within(series)(
                #[trigger] deletable[i],
            ) == Some(season);
        let j = choose|j: int|
            0 <= j < deletable.len() && crate::grouping::season_within(owner)(
                #[trigger] deletable[j],
            ) == Some(season);
        assert(deletable[i].series_id == deletable[j].series_id);
    }
    crate::order::lemma_filter_all(its, p);
}

/// Whether `result` is what grouping yields.
pub open spec fn is_grouped(
    all: Seq<MediaModel>,
    deletable: Seq<MatchedModel>,
    result: Seq<GroupModel>,
) -> bool {
    crate::order::is_stable_sort(
        crate::grouping::groups(all, deletable),
        result,
        crate::model::larger_group_first(),
    )
}

/// Whether `item` is an episode of which series and season are known.
pub open spec fn has_its_place(item: MatchedModel) -> bool {
    item.item_type == "Episode"@ && item.series_id is Some && item.season_id is Some
}

/// Whether some deletable item has the id `id`.
pub open spec fn goes(deletable: Seq<MatchedModel>, id: Seq<char>) -> bool {
    exists|n: int| 0 <= n < deletable.len() && (#[trigger] deletable[n]).id == id
}

/// Whether every episode of `all` that names `season` as its parent is deletable.
pub open spec fn season_goes(
    all: Seq<MediaModel>,
    deletable: Seq<MatchedModel>,
    season: Seq<char>,
) -> bool {
    forall|i: int|
        0 <= i < all.len() && (#[trigger] all[i]).item_type == "Episode"@ && all[i].parent_id
            == Some(season) ==> goes(deletable, all[i].id)
}

/// Whether every episode of `all` from which a way up through seasons leads to the series
/// `series` is deletable.
pub open spec fn series_goes(
    all: Seq<MediaModel>,
    deletable: Seq<MatchedModel>,
    series: Seq<char>,
) -> bool {
    forall|path: Seq<int>|
        #[trigger] crate::laws::lineage::is_way_up(all, path) && path.no_duplicates() && path.len()
            >= 2 && crate::laws::lineage::goes_through_seasons(all, path, path.len() - 2)
            && all[path[0]].item_type == "Episode"@ && all[path.last()].item_type == "Series"@
            && all[path.last()].id == series ==> goes(deletable, all[path[0]].id)
}

/// Whether `season` has two deletable episodes whose series is known.
pub open spec fn has_several_episodes(deletable: Seq<MatchedModel>, season: Seq<char>) -> bool {
    exists|m: int, n: int|
        #![trigger deletable[m], deletable[n]]
        0 <= m < n < deletable.len() && has_its_place(deletable[m]) && has_its_place(deletable[n])
            && deletable[m].season_id == Some(season) && deletable[n].season_id == Some(season)
}

/// The ids of the deletable items are the ids that they have.
proof fn lemma_ids(deletable: Seq<MatchedModel>, id: Seq<char>)
    ensures
        crate::grouping::ids_of(deletable).contains(id) <==> goes(deletable, id),
{
    let ids = deletable.map_values(|item: MatchedModel| item.id);
    if crate::grouping::ids_of(deletable).contains(id) {
        let n = choose|n: int| 0 <= n < ids.len() && ids[n] == id;
        assert(deletable[n].id == id);
    }
    if goes(deletable, id) {
        let n = choose|n: int| 0 <= n < deletable.len() && (#[trigger] deletable[n]).id == id;
        assert(ids[n] == id);
    }
}

/// A season is whole just where it goes.
proof fn lemma_season_goes(all: Seq<MediaModel>, deletable: Seq<MatchedModel>, season: Seq<char>)
    ensures
        crate::grouping::is_whole(all, deletable, season) <==> season_goes(all, deletable, season),
{
    assert forall|id: Seq<char>| #[trigger]
        crate::grouping::ids_of(deletable).contains(id) <==> goes(deletable, id) by {
        lemma_ids(deletable, id);
    }
    if season_goes(all, deletable, season) {
        assert forall|i: int|
            0 <= i < all.len() && (#[trigger] all[i]).is_episode() && all[i].parent_id == Some(
                season,
            ) implies crate::grouping::ids_of(deletable).contains(all[i].id) by {
            assert(goes(deletable, all[i].id));
        }
    }
    if crate::grouping::is_whole(all, deletable, season) {
        assert forall|i: int|
            0 <= i < all.len() && (#[trigger] all[i]).item_type == "Episode"@ && all[i].parent_id
                == Some(season) implies goes(deletable, all[i].id) by {
            assert(all[i].is_episode());
            assert(crate::grouping::ids_of(deletable).contains(all[i].id));
        }
    }
}

/// A season has several episodes just where there are two.
proof fn lemma_several_episodes(deletable: Seq<MatchedModel>, season: Seq<char>)
    ensures
        has_several_episodes(deletable, season) <==> crate::grouping::episodes_of(
            deletable,
            season,
        ).len() > 1,
    decreases deletable.len(),
{
    reveal(Seq::filter);
    let p = crate::grouping::belongs_to(season);
    if deletable.len() > 0 {
        let rest = deletable.drop_last();
        let last = deletable.len() - 1;
        lemma_several_episodes(rest, season);
        if has_several_episodes(rest, season) {
            let (m, n) = choose|m: int, n: int|
                #![trigger rest[m], rest[n]]
                0 <= m < n < rest.len() && has_its_place(rest[m]) && has_its_place(rest[n])
                    && rest[m].season_id == Some(season) && rest[n].season_id == Some(season);
            assert(deletable[m] == rest[m] && deletable[n] == rest[n]);
        }
        if p(deletable.last()) && rest.filter(p).len() > 0 {
            let first = rest.filter(p)[0];
            rest.lemma_filter_pred(p, 0);
            assert(rest.filter(p).contains(first));
            rest.lemma_filter_contains_rev(p, first);
            let m = choose|m: int| 0 <= m < rest.len() && rest[m] == first;
            assert(deletable[m] == first && deletable[last] == deletable.last());
        }
        if has_several_episodes(deletable, season) {
            let (m, n) = choose|m: int, n: int|
                #![trigger deletable[m], deletable[n]]
                0 <= m < n < deletable.len() && has_its_place(deletable[m]) && has_its_place(
                    deletable[n],
                ) && deletable[m].season_id == Some(season) && deletable[n].season_id == Some(
                    season,
                );
            assert(rest[m] == deletable[m]);
            if n < last {
                assert(rest[n] == deletable[n]);
                assert(has_several_episodes(rest, season));
            } else {
                assert(p(rest[m]));
                rest.lemma_filter_contains(p, m);
                assert(rest.filter(p).len() > 0);
            }
        }
    }
}

/// A group of a season holds the deletable episodes of one season whose series is known,
/// more than one, in order. It is called after the first. No episode that names the season
/// as its parent is left behind.
pub proof fn a_season_group_is_a_whole_season(
    all: Seq<MediaModel>,
    deletable: Seq<MatchedModel>,
    result: Seq<GroupModel>,
    j: int,
)
    requires
        is_grouped(all, deletable, result),
        0 <= j < result.len(),
    ensures
        result[j] matches GroupModel::Season { series_name, season_number, items } ==> {
            &&& items.len() > 1
            &&& items[0].season_id is Some
            &&& items == deletable.filter(
                |m: MatchedModel| has_its_place(m) && m.season_id == items[0].season_id,
            )
            &&& season_goes(all, deletable, items[0].season_id->0)
            &&& forall|i: int, k: int|
                #![trigger all[i], items[k]]
                0 <= k < items.len() && 0 <= i < all.len() && all[i].item_type == "Episode"@
                    && all[i].parent_id == items[k].season_id ==> goes(deletable, all[i].id)
            &&& items[0].series_name is Some ==> series_name == items[0].series_name->0
            &&& items[0].series_name is None ==> series_name.len() == 0
            &&& items[0].season_number is Some ==> season_number == items[0].season_number->0
            &&& items[0].season_number is None ==> season_number == 0
        },
{
    let group = result[j];
    if group is Season {
        assert(result.contains(group));
        crate::order::lemma_sorted_contains(
            crate::grouping::groups(all, deletable),
            result,
            crate::model::larger_group_first(),
            group,
        );
        lemma_group_origin(all, deletable, group);
        let season = choose|season: Seq<char>|
            crate::grouping::forms_season(all, deletable, season) && group
                == #[trigger] crate::grouping::season_group(deletable, season);
        let items = group.items();
        let p = crate::grouping::belongs_to(season);
        assert(items == deletable.filter(p));
        lemma_season_goes(all, deletable, season);
        assert forall|k: int| 0 <= k < items.len() implies (#[trigger] items[k]).season_id == Some(
            season,
        ) by {
            deletable.lemma_filter_pred(p, k);
            assert(p(items[k]));
        }
        let q = |m: MatchedModel| has_its_place(m) && m.season_id == items[0].season_id;
        assert(items[0].season_id == Some(season));
        assert(p =~= q);
    }
}

/// Where the season of an item goes whole and has several episodes, no item of it whose
/// series is known stands alone.
pub proof fn a_whole_season_is_grouped(
    all: Seq<MediaModel>,
    deletable: Seq<MatchedModel>,
    result: Seq<GroupModel>,
    j: int,
    season: Seq<char>,
)
    requires
        is_grouped(all, deletable, result),
        0 <= j < result.len(),
        season_goes(all, deletable, season),
        has_several_episodes(deletable, season),
    ensures
        result[j] matches GroupModel::Individual(item) ==> !(has_its_place(item) && item.season_id
            == Some(season)),
{
    lemma_season_goes(all, deletable, season);
    lemma_several_episodes(deletable, season);
    lemma_individual_is_alone(all, deletable, result, j);
}

/// What stands alone is not left to the groups.
proof fn lemma_individual_is_alone(
    all: Seq<MediaModel>,
    deletable: Seq<MatchedModel>,
    result: Seq<GroupModel>,
    j: int,
)
    requires
        is_grouped(all, deletable, result),
        0 <= j < result.len(),
    ensures
        result[j] matches GroupModel::Individual(item)
            ==> !crate::grouping::is_left_to_groups(all, deletable, item),
{
    let group = result[j];
    if group is Individual {
        assert(result.contains(group));
        let groups = crate::grouping::groups(all, deletable);
        crate::order::lemma_sorted_contains(
            groups,
            result,
            crate::model::larger_group_first(),
            group,
        );
        let a = crate::grouping::seasons(deletable);
        let b = crate::grouping::all_series(deletable);
        let f = crate::grouping::season_grouped(all, deletable);
        let g = crate::grouping::series_grouped(all, deletable);
        let h = crate::grouping::alone(all, deletable);
        crate::grouping::lemma_filter_map_mentions(a, f, group);
        crate::grouping::lemma_filter_map_mentions(b, g, group);
        crate::grouping::lemma_filter_map_mentions(deletable, h, group);
        let x = a.filter_map(f);
        let y = b.filter_map(g);
        let z = deletable.filter_map(h);
        let n = choose|n: int| 0 <= n < groups.len() && groups[n] == group;
        if n < x.len() {
            assert(x[n] == group);
        } else if n < x.len() + y.len() {
            assert(y[n - x.len()] == group);
        } else {
            assert(z[n - x.len() - y.len()] == group);
        }
    }
}

/// An item stands alone only where its series or season is not known, or its season has an
/// episode that stays or no other that goes: everything else is in the group of a season or
/// a series.
pub proof fn what_stands_alone_has_a_reason(
    all: Seq<MediaModel>,
    deletable: Seq<MatchedModel>,
    result: Seq<GroupModel>,
    j: int,
    n: int,
)
    requires
        is_grouped(all, deletable, result),
        0 <= j < result.len(),
        0 <= n < deletable.len(),
        result[j].items().contains(deletable[n]),
        !has_its_place(deletable[n]) || !season_goes(all, deletable, deletable[n].season_id->0)
            || !has_several_episodes(deletable, deletable[n].season_id->0),
    ensures
        result[j] == GroupModel::Individual(deletable[n]),
{
    let group = result[j];
    let item = deletable[n];
    assert(result.contains(group));
    crate::order::lemma_sorted_contains(
        crate::grouping::groups(all, deletable),
        result,
        crate::model::larger_group_first(),
        group,
    );
    lemma_group_origin(all, deletable, group);
    match group {
        GroupModel::Individual(only) => {
            assert(group.items() =~= seq![only]);
        },
        GroupModel::Season { .. } => {
            let season = choose|season: Seq<char>|
                crate::grouping::forms_season(all, deletable, season) && group
                    == #[trigger] crate::grouping::season_group(deletable, season);
            lemma_episode_is_of_complete_season(all, deletable, season, item);
        },
        GroupModel::Series { .. } => {
            let series = choose|series: Seq<char>|
                crate::grouping::forms_series(all, deletable, series) && group
                    == #[trigger] crate::grouping::series_group(all, deletable, series);
            let season = lemma_item_of_series(all, deletable, series, item);
            lemma_episode_is_of_complete_season(all, deletable, season, item);
        },
    }
}

/// An episode of a complete season names it, and the season goes.
proof fn lemma_episode_is_of_complete_season(
    all: Seq<MediaModel>,
    deletable: Seq<MatchedModel>,
    season: Seq<char>,
    item: MatchedModel,
)
    requires
        crate::grouping::forms_season(all, deletable, season),
        crate::grouping::episodes_of(deletable, season).contains(item),
    ensures
        has_its_place(item),
        item.season_id == Some(season),
        season_goes(all, deletable, season),
        has_several_episodes(deletable, season),
{
    let p = crate::grouping::belongs_to(season);
    let k = choose|k: int| 0 <= k < deletable.filter(p).len() && deletable.filter(p)[k] == item;
    deletable.lemma_filter_pred(p, k);
    lemma_season_goes(all, deletable, season);
    lemma_several_episodes(deletable, season);
}

/// An item of the group of a series is an episode of a complete season of the series.
proof fn lemma_item_of_series(
    all: Seq<MediaModel>,
    deletable: Seq<MatchedModel>,
    series: Seq<char>,
    item: MatchedModel,
) -> (season: Seq<char>)
    requires
        crate::grouping::forms_series(all, deletable, series),
        crate::grouping::series_items(all, deletable, series).contains(item),
    ensures
        crate::grouping::seasons_of(deletable, series).contains(season),
        crate::grouping::episodes_of(deletable, season).contains(item),
        crate::grouping::forms_season(all, deletable, season),
{
    let own = crate::grouping::own_seasons(all, deletable, series);
    let its = crate::grouping::seasons_of(deletable, series);
    let f = |season: Seq<char>| crate::grouping::episodes_of(deletable, season);
    lemma_flat_map_mentions(own, f, item);
    let k = choose|k: int| 0 <= k < own.len() && f(#[trigger] own[k]).contains(item);
    let season = own[k];
    assert(own.contains(season));
    its.lemma_filter_contains_rev(crate::grouping::owns(all, deletable, series), season);
    let n = choose|n: int| 0 <= n < its.len() && its[n] == season;
    assert(crate::grouping::forms_season(all, deletable, its[n]));
    season
}

/// Whether the seasons of `series` with deletable episodes are several, all go whole, and
/// all have several episodes, and no episode of the series stays.
pub open spec fn goes_as_series(
    all: Seq<MediaModel>,
    deletable: Seq<MatchedModel>,
    series: Seq<char>,
) -> bool {
    &&& series_goes(all, deletable, series)
    &&& exists|m: int, n: int|
        #![trigger deletable[m], deletable[n]]
        0 <= m < n < deletable.len() && has_its_place(deletable[m]) && has_its_place(deletable[n])
            && deletable[m].series_id == Some(series) && deletable[n].series_id == Some(series)
            && deletable[m].season_id != deletable[n].season_id
    &&& forall|n: int|
        0 <= n < deletable.len() && has_its_place(#[trigger] deletable[n]) && deletable[n].series_id
            == Some(series) ==> season_goes(all, deletable, deletable[n].season_id->0)
            && has_several_episodes(deletable, deletable[n].season_id->0)
}

/// A series is grouped just where it goes as a series.
pub proof fn lemma_goes_as_series(all: Seq<MediaModel>, deletable: Seq<MatchedModel>, series: Seq<char>)
    requires
        crate::laws::lineage::ids_are_unique(all),
    ensures
        crate::grouping::forms_series(all, deletable, series) <==> goes_as_series(
            all,
            deletable,
            series,
        ),
{
    let its = crate::grouping::seasons_of(deletable, series);
    let f = crate::grouping::season_within(series);
    if crate::grouping::forms_series(all, deletable, series) {
        assert forall|path: Seq<int>|
            #[trigger] crate::laws::lineage::is_way_up(all, path) && path.no_duplicates()
                && path.len() >= 2 && crate::laws::lineage::goes_through_seasons(
                all,
                path,
                path.len() - 2,
            ) && all[path[0]].item_type == "Episode"@ && all[path.last()].item_type == "Series"@
                && all[path.last()].id == series implies goes(deletable, all[path[0]].id) by {
            crate::laws::lineage::seasons_lead_to_a_series(all, path, path.len() - 2);
            let i = path[0];
            assert(crate::grouping::is_episode_of(all, all[i], series));
            lemma_ids(deletable, all[i].id);
        }
        crate::grouping::lemma_season_of_series(deletable, series, its[0]);
        crate::grouping::lemma_season_of_series(deletable, series, its[1]);
        assert(its.contains(its[0]) && its.contains(its[1]));
        let m = choose|m: int|
            0 <= m < deletable.len() && f(#[trigger] deletable[m]) == Some(its[0]);
        let n = choose|n: int|
            0 <= n < deletable.len() && f(#[trigger] deletable[n]) == Some(its[1]);
        assert(its[0] != its[1]);
        if m < n {
            assert(has_its_place(deletable[m]) && has_its_place(deletable[n]));
        } else {
            assert(has_its_place(deletable[n]) && has_its_place(deletable[m]));
            assert(m != n);
        }
        assert forall|k: int|
            0 <= k < deletable.len() && has_its_place(#[trigger] deletable[k])
                && deletable[k].series_id == Some(series) implies season_goes(
            all,
            deletable,
            deletable[k].season_id->0,
        ) && has_several_episodes(deletable, deletable[k].season_id->0) by {
            let season = deletable[k].season_id->0;
            assert(f(deletable[k]) == Some(season));
            crate::grouping::lemma_season_of_series(deletable, series, season);
            let q = choose|q: int| 0 <= q < its.len() && its[q] == season;
            assert(crate::grouping::forms_season(all, deletable, its[q]));
            lemma_season_goes(all, deletable, season);
            lemma_several_episodes(deletable, season);
        }
    }
    if goes_as_series(all, deletable, series) {
        let (m, n) = choose|m: int, n: int|
            #![trigger deletable[m], deletable[n]]
            0 <= m < n < deletable.len() && has_its_place(deletable[m]) && has_its_place(
                deletable[n],
            ) && deletable[m].series_id == Some(series) && deletable[n].series_id == Some(series)
                && deletable[m].season_id != deletable[n].season_id;
        let one = deletable[m].season_id->0;
        let other = deletable[n].season_id->0;
        assert(f(deletable[m]) == Some(one) && f(deletable[n]) == Some(other));
        crate::grouping::lemma_season_of_series(deletable, series, one);
        crate::grouping::lemma_season_of_series(deletable, series, other);
        let a = choose|a: int| 0 <= a < its.len() && its[a] == one;
        let b = choose|b: int| 0 <= b < its.len() && its[b] == other;
        assert(a != b);
        assert forall|k: int| 0 <= k < its.len() implies crate::grouping::forms_season(
            all,
            deletable,
            #[trigger] its[k],
        ) by {
            assert(its.contains(its[k]));
            crate::grouping::lemma_season_of_series(deletable, series, its[k]);
            let q = choose|q: int|
                0 <= q < deletable.len() && f(#[trigger] deletable[q]) == Some(its[k]);
            assert(has_its_place(deletable[q]));
            lemma_season_goes(all, deletable, its[k]);
            lemma_several_episodes(deletable, its[k]);
        }
        assert forall|i: int|
            0 <= i < all.len() && crate::grouping::is_episode_of(
                all,
                #[trigger] all[i],
                series,
            ) implies crate::grouping::ids_of(deletable).contains(all[i].id) by {
            crate::laws::lineage::a_series_is_led_to_through_seasons(all, i, series);
            let path = choose|path: Seq<int>|
                #[trigger] crate::laws::lineage::is_way_up(all, path) && path.no_duplicates()
                    && path.len() >= 2 && path[0] == i && crate::laws::lineage::goes_through_seasons(
                    all,
                    path,
                    path.len() - 2,
                ) && all[path.last()].item_type == "Series"@ && all[path.last()].id == series;
            assert(crate::laws::lineage::is_way_up(all, path));
            assert(goes(deletable, all[path[0]].id));
            lemma_ids(deletable, all[i].id);
        }
    }
}

/// A group of a series belongs to one series that goes as a whole, and holds episodes of
/// its seasons only: for each of its items some episode of the series has the same season.
/// It is called after the first of the episodes of the series that names it. It counts its
/// episodes, and lists their season numbers.
pub proof fn a_series_group_is_a_whole_series(
    all: Seq<MediaModel>,
    deletable: Seq<MatchedModel>,
    result: Seq<GroupModel>,
    j: int,
)
    requires
        is_grouped(all, deletable, result),
        crate::laws::lineage::ids_are_unique(all),
        0 <= j < result.len(),
    ensures
        result[j] matches GroupModel::Series { series_name, total_episodes, seasons, items } ==> {
            &&& exists|series: Seq<char>| #[trigger]
                goes_as_series(all, deletable, series) && is_called(deletable, series, series_name)
                    && forall|k: int|
                    0 <= k < items.len() ==> has_its_place(#[trigger] items[k]) && exists|n: int|
                        0 <= n < deletable.len() && has_its_place(#[trigger] deletable[n])
                            && deletable[n].series_id == Some(series) && deletable[n].season_id
                            == items[k].season_id
            &&& total_episodes == items.len() as u32
            &&& seasons.no_duplicates()
            &&& forall|number: u32| #[trigger]
                seasons.contains(number) <==> exists|k: int|
                    0 <= k < items.len() && (#[trigger] items[k]).season_number == Some(number)
        },
{
    let group = result[j];
    if group is Series {
        assert(result.contains(group));
        crate::order::lemma_sorted_contains(
            crate::grouping::groups(all, deletable),
            result,
            crate::model::larger_group_first(),
            group,
        );
        lemma_group_origin(all, deletable, group);
        let series = choose|series: Seq<char>|
            crate::grouping::forms_series(all, deletable, series) && group
                == #[trigger] crate::grouping::series_group(all, deletable, series);
        lemma_goes_as_series(all, deletable, series);
        let items = group.items();
        assert forall|k: int| 0 <= k < items.len() implies has_its_place(#[trigger] items[k])
            && exists|n: int|
            0 <= n < deletable.len() && has_its_place(#[trigger] deletable[n])
                && deletable[n].series_id == Some(series) && deletable[n].season_id
                == items[k].season_id by {
            assert(items.contains(items[k]));
            let season = lemma_item_of_series(all, deletable, series, items[k]);
            lemma_episode_is_of_complete_season(all, deletable, season, items[k]);
            crate::grouping::lemma_season_of_series(deletable, series, season);
            let n = choose|n: int|
                0 <= n < deletable.len() && crate::grouping::season_within(series)(
                    #[trigger] deletable[n],
                ) == Some(season);
            assert(has_its_place(deletable[n]));
        }
        lemma_called(all, deletable, series);
        let f = |item: MatchedModel| item.season_number;
        crate::grouping::lemma_distinct(items.filter_map(f));
        let numbers = crate::grouping::season_numbers(items);
        assert forall|number: u32| #[trigger]
            numbers.contains(number) <==> exists|k: int|
                0 <= k < items.len() && (#[trigger] items[k]).season_number == Some(number) by {
            crate::grouping::lemma_filter_map_mentions(items, f, number);
            if exists|k: int| 0 <= k < items.len() && f(#[trigger] items[k]) == Some(number) {
                let k = choose|k: int| 0 <= k < items.len() && f(#[trigger] items[k]) == Some(number);
                assert(items[k].season_number == Some(number));
            }
            if exists|k: int|
                0 <= k < items.len() && (#[trigger] items[k]).season_number == Some(number) {
                let k = choose|k: int|
                    0 <= k < items.len() && (#[trigger] items[k]).season_number == Some(number);
                assert(f(items[k]) == Some(number));
            }
        }
    }
}

/// Whether `name` is what the first deletable episode of `series` that names it calls it;
/// empty where none does.
pub open spec fn is_called(
    deletable: Seq<MatchedModel>,
    series: Seq<char>,
    name: Seq<char>,
) -> bool {
    ||| name.len() == 0 && forall|n: int|
        0 <= n < deletable.len() && has_its_place(#[trigger] deletable[n]) && deletable[n].series_id
            == Some(series) ==> deletable[n].series_name is None
    ||| exists|n: int|
        0 <= n < deletable.len() && has_its_place(#[trigger] deletable[n]) && deletable[n].series_id
            == Some(series) && deletable[n].series_name == Some(name) && forall|m: int|
            0 <= m < n && has_its_place(#[trigger] deletable[m]) && deletable[m].series_id == Some(
                series,
            ) ==> deletable[m].series_name is None
}

/// The group of a series is called after the first of its episodes that names it.
pub proof fn lemma_called(all: Seq<MediaModel>, deletable: Seq<MatchedModel>, series: Seq<char>)
    ensures
        crate::grouping::series_group(all, deletable, series) matches GroupModel::Series {
            series_name,
            ..
        } && is_called(deletable, series, series_name),
{
    let f = crate::grouping::name_within(series);
    let names = deletable.filter_map(f);
    if names.len() == 0 {
        assert forall|n: int|
            0 <= n < deletable.len() && has_its_place(#[trigger] deletable[n])
                && deletable[n].series_id == Some(series) implies deletable[n].series_name is None by {
            if deletable[n].series_name is Some {
                let name = deletable[n].series_name->0;
                assert(f(deletable[n]) == Some(name));
                crate::grouping::lemma_filter_map_mentions(deletable, f, name);
                assert(names.contains(name));
            }
        }
    } else {
        lemma_filter_map_first(deletable, f);
        let n = choose|n: int|
            0 <= n < deletable.len() && f(#[trigger] deletable[n]) == Some(names[0]) && forall|m: int|
                0 <= m < n ==> f(#[trigger] deletable[m]) is None;
        assert(has_its_place(deletable[n]));
        assert forall|m: int|
            0 <= m < n && has_its_place(#[trigger] deletable[m]) && deletable[m].series_id == Some(
                series,
            ) implies deletable[m].series_name is None by {
            assert(f(deletable[m]) is None);
        }
    }
}

/// What is found first is the image of the first element that has one.
proof fn lemma_filter_map_first<A, B>(s: Seq<A>, f: spec_fn(A) -> Option<B>)
    requires
        s.filter_map(f).len() > 0,
    ensures
        exists|n: int|
            0 <= n < s.len() && f(#[trigger] s[n]) == Some(s.filter_map(f)[0]) && forall|m: int|
                0 <= m < n ==> f(#[trigger] s[m]) is None,
    decreases s.len(),
{
    if s.len() > 0 {
        let rest = s.drop_last();
        let last = s.len() - 1;
        if rest.filter_map(f).len() > 0 {
            lemma_filter_map_first(rest, f);
            let n = choose|n: int|
                0 <= n < rest.len() && f(#[trigger] rest[n]) == Some(rest.filter_map(f)[0])
                    && forall|m: int| 0 <= m < n ==> f(#[trigger] rest[m]) is None;
            assert(s[n] == rest[n]);
            assert(s.filter_map(f)[0] == rest.filter_map(f)[0]);
            assert forall|m: int| 0 <= m < n implies f(#[trigger] s[m]) is None by {
                assert(f(rest[m]) is None);
            }
        } else {
            assert(f(s[last]) == Some(s.filter_map(f)[0]));
            assert forall|m: int| 0 <= m < last implies f(#[trigger] s[m]) is None by {
                if f(s[m]) is Some {
                    let b = f(s[m])->0;
                    assert(rest[m] == s[m]);
                    crate::grouping::lemma_filter_map_mentions(rest, f, b);
                    assert(f(rest[m]) == Some(b));
                    assert(rest.filter_map(f).contains(b));
                }
            }
        }
    }
}

/// Where a series goes as a whole, each of its episodes is in the group of a series: none
/// stands alone or in the group of a season.
pub proof fn a_whole_series_is_grouped(
    all: Seq<MediaModel>,
    deletable: Seq<MatchedModel>,
    result: Seq<GroupModel>,
    j: int,
    n: int,
    series: Seq<char>,
)
    requires
        is_grouped(all, deletable, result),
        crate::laws::lineage::ids_are_unique(all),
        goes_as_series(all, deletable, series),
        0 <= j < result.len(),
        0 <= n < deletable.len(),
        has_its_place(deletable[n]),
        deletable[n].series_id == Some(series),
        result[j].items().contains(deletable[n]),
    ensures
        result[j] is Series,
{
    let group = result[j];
    let item = deletable[n];
    let season = item.season_id->0;
    lemma_goes_as_series(all, deletable, series);
    assert(season_goes(all, deletable, season) && has_several_episodes(deletable, season));
    crate::grouping::lemma_season_of_series(deletable, series, season);
    assert(crate::grouping::season_within(series)(deletable[n]) == Some(season));
    assert(crate::grouping::claims(all, deletable, season)(series));
    crate::grouping::lemma_owner(all, deletable, season);
    assert(crate::grouping::owner(all, deletable, season) is Some);
    if group is Individual {
        a_whole_season_is_grouped(all, deletable, result, j, season);
        assert(group.items() =~= seq![group->Individual_0]);
    }
    if group is Season {
        assert(result.contains(group));
        crate::order::lemma_sorted_contains(
            crate::grouping::groups(all, deletable),
            result,
            crate::model::larger_group_first(),
            group,
        );
        lemma_season_group_origin(all, deletable, group);
        let own = choose|own: Seq<char>|
            crate::grouping::season_grouped(all, deletable)(own) == Some(group) && group
                == #[trigger] crate::grouping::season_group(deletable, own);
        lemma_episode_is_of_complete_season(all, deletable, own, item);
    }
}

/// Where the group of a season comes from.
proof fn lemma_season_group_origin(
    all: Seq<MediaModel>,
    deletable: Seq<MatchedModel>,
    group: GroupModel,
)
    requires
        crate::grouping::groups(all, deletable).contains(group),
        group is Season,
    ensures
        exists|season: Seq<char>|
            crate::grouping::season_grouped(all, deletable)(season) == Some(group) && group
                == #[trigger] crate::grouping::season_group(deletable, season),
{
    let a = crate::grouping::seasons(deletable);
    let b = crate::grouping::all_series(deletable);
    let f = crate::grouping::season_grouped(all, deletable);
    let g = crate::grouping::series_grouped(all, deletable);
    let h = crate::grouping::alone(all, deletable);
    crate::grouping::lemma_filter_map_mentions(a, f, group);
    crate::grouping::lemma_filter_map_mentions(b, g, group);
    crate::grouping::lemma_filter_map_mentions(deletable, h, group);
    let whole = crate::grouping::groups(all, deletable);
    let j = choose|j: int| 0 <= j < whole.len() && whole[j] == group;
    let x = a.filter_map(f);
    let y = b.filter_map(g);
    let z = deletable.filter_map(h);
    if j < x.len() {
        assert(x[j] == group);
        let k = choose|k: int| 0 <= k < a.len() && f(#[trigger] a[k]) == Some(group);
        assert(group == crate::grouping::season_group(deletable, a[k]));
    } else if j < x.len() + y.len() {
        assert(y[j - x.len()] == group);
    } else {
        assert(z[j - x.len() - y.len()] == group);
    }
}

/// The largest group comes first.
pub proof fn the_largest_group_comes_first(
    all: Seq<MediaModel>,
    deletable: Seq<MatchedModel>,
    result: Seq<GroupModel>,
    i: int,
    j: int,
)
    requires
        is_grouped(all, deletable, result),
        0 <= i < j < result.len(),
    ensures
        crate::model::total_size(result[i].items()) >= crate::model::total_size(result[j].items()),
{
}

} // verus!
