//! Grouping the items that may be deleted into seasons and series.

use vstd::prelude::*;
use vstd::hash_set::StringHashSet;
use crate::ancestry::ItemIndex;
use crate::model::GroupModel;
use crate::model::GroupedItem;
use crate::model::MatchedItem;
use crate::model::MatchedModel;
use crate::model::MediaItem;
use crate::model::MediaModel;
use crate::order::merge_sort;
use crate::text::is_same;

verus! {

/// The elements of `s`, each where it first occurs.
pub open spec fn distinct<A>(s: Seq<A>) -> Seq<A>
    decreases s.len(),
{
    if s.len() == 0 {
        s
    } else {
        let rest = distinct(s.drop_last());
        if rest.contains(s.last()) {
            rest
        } else {
            rest.push(s.last())
        }
    }
}

/// Whether the item is an episode of a known season and a known series.
pub open spec fn is_groupable(item: MatchedModel) -> bool {
    item.is_episode() && item.series_id is Some && item.season_id is Some
}

/// The season of an item that can be grouped.
pub open spec fn season_of() -> spec_fn(MatchedModel) -> Option<Seq<char>> {
    |item: MatchedModel|
        if is_groupable(item) {
            item.season_id
        } else {
            None
        }
}

/// The series of an item that can be grouped.
pub open spec fn series_of() -> spec_fn(MatchedModel) -> Option<Seq<char>> {
    |item: MatchedModel|
        if is_groupable(item) {
            item.series_id
        } else {
            None
        }
}

/// The season of an item that can be grouped and belongs to `series`.
pub open spec fn season_within(series: Seq<char>) -> spec_fn(MatchedModel) -> Option<Seq<char>> {
    |item: MatchedModel|
        if is_groupable(item) && item.series_id == Some(series) {
            item.season_id
        } else {
            None
        }
}

/// What an item that can be grouped and belongs to `series` calls it.
pub open spec fn name_within(series: Seq<char>) -> spec_fn(MatchedModel) -> Option<Seq<char>> {
    |item: MatchedModel|
        if is_groupable(item) && item.series_id == Some(series) {
            item.series_name
        } else {
            None
        }
}

/// Whether an item can be grouped and belongs to `season`.
pub open spec fn belongs_to(season: Seq<char>) -> spec_fn(MatchedModel) -> bool {
    |item: MatchedModel| is_groupable(item) && item.season_id == Some(season)
}

/// The deletable episodes of `season`.
pub open spec fn episodes_of(deletable: Seq<MatchedModel>, season: Seq<char>) -> Seq<MatchedModel> {
    deletable.filter(belongs_to(season))
}

/// The ids of the deletable items.
pub open spec fn ids_of(deletable: Seq<MatchedModel>) -> Set<Seq<char>> {
    deletable.map_values(|item: MatchedModel| item.id).to_set()
}

/// Whether all episodes right under `season` are deletable.
pub open spec fn is_whole(
    all: Seq<MediaModel>,
    deletable: Seq<MatchedModel>,
    season: Seq<char>,
) -> bool {
    forall|i: int|
        0 <= i < all.len() && (#[trigger] all[i]).is_episode() && all[i].parent_id == Some(season)
            ==> ids_of(deletable).contains(all[i].id)
}

/// Whether `season` is complete: it has several deletable episodes and no others.
pub open spec fn forms_season(
    all: Seq<MediaModel>,
    deletable: Seq<MatchedModel>,
    season: Seq<char>,
) -> bool {
    episodes_of(deletable, season).len() > 1 && is_whole(all, deletable, season)
}

/// The group of `season`, called after its first episode.
pub open spec fn season_group(deletable: Seq<MatchedModel>, season: Seq<char>) -> GroupModel {
    let items = episodes_of(deletable, season);
    GroupModel::Season {
        series_name: match items[0].series_name {
            Some(name) => name,
            None => Seq::empty(),
        },
        season_number: match items[0].season_number {
            Some(number) => number,
            None => 0,
        },
        items,
    }
}

/// The group of a complete season, unless a grouped series has it.
pub open spec fn season_grouped(
    all: Seq<MediaModel>,
    deletable: Seq<MatchedModel>,
) -> spec_fn(Seq<char>) -> Option<GroupModel> {
    |season: Seq<char>|
        if forms_season(all, deletable, season) && owner(all, deletable, season) is None {
            Some(season_group(deletable, season))
        } else {
            None
        }
}

/// The seasons with deletable episodes, in the order of these.
pub open spec fn seasons(deletable: Seq<MatchedModel>) -> Seq<Seq<char>> {
    distinct(deletable.filter_map(season_of()))
}

/// The series with deletable episodes, in the order of these.
pub open spec fn all_series(deletable: Seq<MatchedModel>) -> Seq<Seq<char>> {
    distinct(deletable.filter_map(series_of()))
}

/// The seasons of `series` with deletable episodes, in the order of these.
pub open spec fn seasons_of(deletable: Seq<MatchedModel>, series: Seq<char>) -> Seq<Seq<char>> {
    distinct(deletable.filter_map(season_within(series)))
}

/// Whether `item` is an episode of `series`.
pub open spec fn is_episode_of(all: Seq<MediaModel>, item: MediaModel, series: Seq<char>) -> bool {
    item.is_episode() && crate::ancestry::series_above(
        all,
        crate::ancestry::lineage(all, item.parent_id),
    ) == Some(series)
}

/// Whether all episodes of `series` are deletable.
pub open spec fn is_whole_series(
    all: Seq<MediaModel>,
    deletable: Seq<MatchedModel>,
    series: Seq<char>,
) -> bool {
    forall|i: int|
        0 <= i < all.len() && is_episode_of(all, #[trigger] all[i], series) ==> ids_of(
            deletable,
        ).contains(all[i].id)
}

/// Whether `series` is grouped: it has several seasons with deletable episodes, all of
/// them are complete, and no episode of it stays.
pub open spec fn forms_series(
    all: Seq<MediaModel>,
    deletable: Seq<MatchedModel>,
    series: Seq<char>,
) -> bool {
    &&& seasons_of(deletable, series).len() > 1
    &&& forall|k: int|
        0 <= k < seasons_of(deletable, series).len() ==> forms_season(
            all,
            deletable,
            #[trigger] seasons_of(deletable, series)[k],
        )
    &&& is_whole_series(all, deletable, series)
}

/// The grouped series that `season` is one of the seasons of.
pub open spec fn claims(
    all: Seq<MediaModel>,
    deletable: Seq<MatchedModel>,
    season: Seq<char>,
) -> spec_fn(Seq<char>) -> bool {
    |series: Seq<char>|
        forms_series(all, deletable, series) && seasons_of(deletable, series).contains(season)
}

/// The grouped series that has `season`; the first one where its episodes name several.
pub open spec fn owner(
    all: Seq<MediaModel>,
    deletable: Seq<MatchedModel>,
    season: Seq<char>,
) -> Option<Seq<char>> {
    let series = all_series(deletable).filter(claims(all, deletable, season));
    if series.len() > 0 {
        Some(series[0])
    } else {
        None
    }
}

/// Whether `series` has a season.
pub open spec fn owns(
    all: Seq<MediaModel>,
    deletable: Seq<MatchedModel>,
    series: Seq<char>,
) -> spec_fn(Seq<char>) -> bool {
    |season: Seq<char>| owner(all, deletable, season) == Some(series)
}

/// The seasons of `series` that no series before it has.
pub open spec fn own_seasons(
    all: Seq<MediaModel>,
    deletable: Seq<MatchedModel>,
    series: Seq<char>,
) -> Seq<Seq<char>> {
    seasons_of(deletable, series).filter(owns(all, deletable, series))
}

/// The deletable episodes of the seasons that `series` has, season by season.
pub open spec fn series_items(
    all: Seq<MediaModel>,
    deletable: Seq<MatchedModel>,
    series: Seq<char>,
) -> Seq<MatchedModel> {
    own_seasons(all, deletable, series).flat_map(
        |season: Seq<char>| episodes_of(deletable, season),
    )
}

/// The season numbers that occur among `items`.
pub open spec fn season_numbers(items: Seq<MatchedModel>) -> Seq<u32> {
    distinct(items.filter_map(|item: MatchedModel| item.season_number))
}

/// The group of `series`, called after the first of its episodes that names it.
pub open spec fn series_group(
    all: Seq<MediaModel>,
    deletable: Seq<MatchedModel>,
    series: Seq<char>,
) -> GroupModel {
    let names = deletable.filter_map(name_within(series));
    let items = series_items(all, deletable, series);
    GroupModel::Series {
        series_name: if names.len() > 0 {
            names[0]
        } else {
            Seq::empty()
        },
        total_episodes: items.len() as u32,
        seasons: season_numbers(items),
        items,
    }
}

/// The group of a series that is grouped, if series before it have left it a season.
pub open spec fn series_grouped(
    all: Seq<MediaModel>,
    deletable: Seq<MatchedModel>,
) -> spec_fn(Seq<char>) -> Option<GroupModel> {
    |series: Seq<char>|
        if forms_series(all, deletable, series) && own_seasons(all, deletable, series).len() > 0 {
            Some(series_group(all, deletable, series))
        } else {
            None
        }
}

/// Whether an item is left to the groups: its season is grouped, on its own or within
/// a series. The seasons of a grouped series are all complete.
pub open spec fn is_left_to_groups(
    all: Seq<MediaModel>,
    deletable: Seq<MatchedModel>,
    item: MatchedModel,
) -> bool {
    is_groupable(item) && forms_season(all, deletable, item.season_id->0)
}

/// An item that stands alone.
pub open spec fn alone(
    all: Seq<MediaModel>,
    deletable: Seq<MatchedModel>,
) -> spec_fn(MatchedModel) -> Option<GroupModel> {
    |item: MatchedModel|
        if is_left_to_groups(all, deletable, item) {
            None
        } else {
            Some(GroupModel::Individual(item))
        }
}

/// All groups: the seasons outside of grouped series, the series, and the items that
/// stand alone.
pub open spec fn groups(all: Seq<MediaModel>, deletable: Seq<MatchedModel>) -> Seq<GroupModel> {
    seasons(deletable).filter_map(season_grouped(all, deletable)) + all_series(
        deletable,
    ).filter_map(series_grouped(all, deletable)) + deletable.filter_map(alone(all, deletable))
}

/// `distinct` keeps what occurs, once.
pub proof fn lemma_distinct<A>(s: Seq<A>)
    ensures
        distinct(s).no_duplicates(),
        forall|a: A| #[trigger] distinct(s).contains(a) <==> s.contains(a),
    decreases s.len(),
{
    if s.len() > 0 {
        let rest = distinct(s.drop_last());
        lemma_distinct(s.drop_last());
        assert forall|a: A| #[trigger] distinct(s).contains(a) <==> s.contains(a) by {
            assert(s =~= s.drop_last().push(s.last()));
            if s.contains(a) {
                let i = choose|i: int| 0 <= i < s.len() && s[i] == a;
                if i < s.len() - 1 {
                    assert(s.drop_last()[i] == a);
                    assert(rest.contains(a));
                    let j = choose|j: int| 0 <= j < rest.len() && rest[j] == a;
                    assert(distinct(s)[j] == a);
                } else if !rest.contains(s.last()) {
                    assert(distinct(s)[rest.len() as int] == a);
                }
            }
            if distinct(s).contains(a) {
                let j = choose|j: int| 0 <= j < distinct(s).len() && distinct(s)[j] == a;
                if j < rest.len() {
                    assert(rest[j] == a);
                    assert(rest.contains(a));
                    assert(s.drop_last().contains(a));
                    let i = choose|i: int| 0 <= i < s.drop_last().len() && s.drop_last()[i] == a;
                    assert(s[i] == a);
                } else {
                    assert(s[s.len() - 1] == a);
                }
            }
        }
    }
}

/// A season with deletable episodes is among the seasons.
pub proof fn lemma_season_with_episodes_listed(deletable: Seq<MatchedModel>, season: Seq<char>)
    ensures
        seasons(deletable).contains(season) <==> episodes_of(deletable, season).len() > 0,
{
    lemma_distinct(deletable.filter_map(season_of()));
    lemma_filter_map_mentions(deletable, season_of(), season);
    let p = belongs_to(season);
    if episodes_of(deletable, season).len() > 0 {
        let item = deletable.filter(p)[0];
        deletable.lemma_filter_pred(p, 0);
        assert(deletable.filter(p).contains(item));
        deletable.lemma_filter_contains_rev(p, item);
        let i = choose|i: int| 0 <= i < deletable.len() && deletable[i] == item;
        assert(season_of()(deletable[i]) == Some(season));
    }
    if exists|i: int|
        0 <= i < deletable.len() && season_of()(#[trigger] deletable[i]) == Some(season) {
        let i = choose|i: int|
            0 <= i < deletable.len() && season_of()(#[trigger] deletable[i]) == Some(season);
        assert(p(deletable[i]));
        deletable.lemma_filter_contains(p, i);
    }
}

/// What `filter_map` holds is the image of an element.
pub proof fn lemma_filter_map_mentions<A, B>(s: Seq<A>, f: spec_fn(A) -> Option<B>, b: B)
    ensures
        s.filter_map(f).contains(b) <==> exists|i: int|
            0 <= i < s.len() && f(#[trigger] s[i]) == Some(b),
    decreases s.len(),
{
    if s.len() > 0 {
        let rest = s.drop_last();
        lemma_filter_map_mentions(rest, f, b);
        let mapped = rest.filter_map(f);
        assert(s =~= rest.push(s.last()));
        match f(s.last()) {
            Some(last) => {
                assert(s.filter_map(f) =~= mapped.push(last));
                if s.filter_map(f).contains(b) {
                    let j = choose|j: int|
                        0 <= j < s.filter_map(f).len() && s.filter_map(f)[j] == b;
                    if j < mapped.len() {
                        assert(mapped[j] == b);
                        let i = choose|i: int|
                            0 <= i < rest.len() && f(#[trigger] rest[i]) == Some(b);
                        assert(s[i] == rest[i]);
                    } else {
                        assert(f(s[s.len() - 1]) == Some(b));
                    }
                }
                if mapped.contains(b) {
                    let j = choose|j: int| 0 <= j < mapped.len() && mapped[j] == b;
                    assert(s.filter_map(f)[j] == b);
                }
                if last == b {
                    assert(s.filter_map(f)[mapped.len() as int] == b);
                }
            },
            None => {
                assert(s.filter_map(f) =~= mapped);
                if mapped.contains(b) {
                    let i = choose|i: int| 0 <= i < rest.len() && f(#[trigger] rest[i]) == Some(b);
                    assert(s[i] == rest[i]);
                }
            },
        }
        if exists|i: int| 0 <= i < s.len() && f(#[trigger] s[i]) == Some(b) {
            let i = choose|i: int| 0 <= i < s.len() && f(#[trigger] s[i]) == Some(b);
            if i < rest.len() {
                assert(f(rest[i]) == Some(b));
            }
        }
    } else {
        assert(s.filter_map(f) =~= Seq::empty());
    }
}

/// Adds `text` to `list` unless it is there; `seen` holds what is.
fn add_distinct(list: &mut Vec<String>, seen: &mut StringHashSet, text: &String)
    requires
        old(seen)@ == old(list).deep_view().to_set(),
    ensures
        final(seen)@ == final(list).deep_view().to_set(),
        final(list).deep_view() == if old(list).deep_view().contains(text@) {
            old(list).deep_view()
        } else {
            old(list).deep_view().push(text@)
        },
{
    if seen.insert(text.clone()) {
        list.push(text.clone());
        assert(list.deep_view() =~= old(list).deep_view().push(text@));
        proof {
            old(list).deep_view().lemma_push_to_set_commute(text@);
        }
    } else {
        assert(old(list).deep_view().contains(text@));
        assert(old(seen)@.insert(text@) =~= old(seen)@);
    }
}

fn is_episode(item: &MatchedItem) -> (answer: bool)
    ensures
        answer == item.deep_view().is_episode(),
{
    is_same(item.item_type.as_str(), "Episode")
}

/// The series and the season of an item that can be grouped.
fn place<'a>(item: &'a MatchedItem) -> (place: Option<(&'a String, &'a String)>)
    ensures
        place is Some <==> is_groupable(item.deep_view()),
        place matches Some((series, season)) ==> {
            &&& item.deep_view().series_id == Some(series@)
            &&& item.deep_view().season_id == Some(season@)
        },
{
    if is_episode(item) {
        match (&item.series_id, &item.season_id) {
            (Some(series), Some(season)) => Some((series, season)),
            _ => None,
        }
    } else {
        None
    }
}

/// An id that items are listed by.
enum Key<'a> {
    Season,
    Series,
    SeasonWithin(&'a String),
}

/// The id of an item that is listed by `key`.
spec fn key_of(key: Key) -> spec_fn(MatchedModel) -> Option<Seq<char>> {
    match key {
        Key::Season => season_of(),
        Key::Series => series_of(),
        Key::SeasonWithin(series) => season_within(series@),
    }
}

fn pick_key<'a>(item: &'a MatchedItem, key: &Key) -> (id: Option<&'a String>)
    ensures
        id.deep_view() == key_of(*key)(item.deep_view()),
{
    match place(item) {
        Some((series, season)) => match key {
            Key::Season => Some(season),
            Key::Series => Some(series),
            Key::SeasonWithin(wanted) => {
                if *series == **wanted {
                    Some(season)
                } else {
                    None
                }
            },
        },
        None => None,
    }
}

/// The ids by which items are listed, each where it first occurs.
fn list_keys(deletable: &Vec<MatchedItem>, key: Key) -> (list: Vec<String>)
    ensures
        list.deep_view() == distinct(deletable.deep_view().filter_map(key_of(key))),
{
    let ghost d = deletable.deep_view();
    let ghost f = key_of(key);
    let mut list: Vec<String> = Vec::new();
    let mut seen: StringHashSet = StringHashSet::new();
    let mut i: usize = 0;
    assert(list.deep_view() =~= distinct(d.take(0).filter_map(f)));
    assert(seen@ =~= list.deep_view().to_set());
    while i < deletable.len()
        invariant
            i <= deletable.len(),
            d == deletable.deep_view(),
            f == key_of(key),
            list.deep_view() == distinct(d.take(i as int).filter_map(f)),
            seen@ == list.deep_view().to_set(),
        decreases deletable.len() - i,
    {
        let ghost before = d.take(i as int).filter_map(f);
        proof {
            d.lemma_filter_map_take_succ(f, i as int);
            assert(before + Seq::empty() =~= before);
        }
        match pick_key(&deletable[i], &key) {
            Some(id) => {
                add_distinct(&mut list, &mut seen, id);
                assert((before + seq![id@]).drop_last() =~= before);
                assert((before + seq![id@]).last() == id@);
            },
            None => {},
        }
        i += 1;
    }
    assert(d.take(i as int) =~= d);
    list
}

fn collect_episodes(deletable: &Vec<MatchedItem>, season: &String) -> (episodes: Vec<MatchedItem>)
    ensures
        episodes.deep_view() == episodes_of(deletable.deep_view(), season@),
{
    let ghost d = deletable.deep_view();
    let ghost p = belongs_to(season@);
    let mut episodes: Vec<MatchedItem> = Vec::new();
    let mut i: usize = 0;
    proof {
        reveal(Seq::filter);
        assert(episodes.deep_view() =~= d.take(0).filter(p));
    }
    while i < deletable.len()
        invariant
            i <= deletable.len(),
            d == deletable.deep_view(),
            p == belongs_to(season@),
            episodes.deep_view() == d.take(i as int).filter(p),
        decreases deletable.len() - i,
    {
        let ghost before = episodes.deep_view();
        let item = &deletable[i];
        proof {
            assert(d.take(i + 1) =~= d.take(i as int).push(item.deep_view()));
            d.take(i as int).lemma_filter_push(item.deep_view(), p);
        }
        match place(item) {
            Some((_, its_season)) => {
                if *its_season == *season {
                    episodes.push(item.clone());
                    assert(episodes.deep_view() =~= before.push(item.deep_view()));
                }
            },
            None => {},
        }
        i += 1;
    }
    assert(d.take(i as int) =~= d);
    episodes
}

fn collect_ids(deletable: &Vec<MatchedItem>) -> (ids: StringHashSet)
    ensures
        ids@ == ids_of(deletable.deep_view()),
{
    let ghost d = deletable.deep_view();
    let mut ids: StringHashSet = StringHashSet::new();
    let mut i: usize = 0;
    assert(ids@ =~= ids_of(d.take(0)));
    while i < deletable.len()
        invariant
            i <= deletable.len(),
            d == deletable.deep_view(),
            ids@ == ids_of(d.take(i as int)),
        decreases deletable.len() - i,
    {
        ids.insert(deletable[i].id.clone());
        proof {
            let f = |item: MatchedModel| item.id;
            assert(d.take(i + 1) =~= d.take(i as int).push(d[i as int]));
            d.take(i as int).lemma_push_map_commute(f, d[i as int]);
            d.take(i as int).map_values(f).lemma_push_to_set_commute(d[i as int].id);
        }
        i += 1;
    }
    assert(d.take(i as int) =~= d);
    ids
}

/// The seasons with an episode that is not deletable.
fn collect_incomplete(
    all: &[MediaItem],
    Ghost(d): Ghost<Seq<MatchedModel>>,
    ids: &StringHashSet,
) -> (incomplete: StringHashSet)
    requires
        ids@ == ids_of(d),
    ensures
        forall|season: Seq<char>| #[trigger]
            incomplete@.contains(season) <==> !is_whole(all.deep_view(), d, season),
{
    let ghost a = all.deep_view();
    let mut incomplete: StringHashSet = StringHashSet::new();
    let mut i: usize = 0;
    while i < all.len()
        invariant
            i <= all.len(),
            a == all.deep_view(),
            ids@ == ids_of(d),
            forall|season: Seq<char>| #[trigger]
                incomplete@.contains(season) <==> !is_whole(a.take(i as int), d, season),
        decreases all.len() - i,
    {
        let item = &all[i];
        let ghost m = item.deep_view();
        let ghost before = incomplete@;
        assert(a[i as int] == m);
        if is_same(item.item_type.as_str(), "Episode") {
            match &item.parent_id {
                Some(season) => {
                    if !ids.contains(item.id.as_str()) {
                        incomplete.insert(season.clone());
                    }
                },
                None => {},
            }
        }
        proof {
            assert forall|season: Seq<char>| #[trigger]
                incomplete@.contains(season) <==> !is_whole(a.take(i + 1), d, season) by {
                let seen = a.take(i as int);
                let more = a.take(i + 1);
                assert(before.contains(season) <==> !is_whole(seen, d, season));
                assert(more[i as int] == m);
                assert(forall|j: int| 0 <= j < i ==> seen[j] == more[j]);
                if is_whole(more, d, season) {
                    assert forall|j: int|
                        0 <= j < seen.len() && (#[trigger] seen[j]).is_episode()
                            && seen[j].parent_id == Some(season) implies ids_of(d).contains(
                        seen[j].id,
                    ) by {
                        assert(more[j] == seen[j]);
                    }
                    assert(is_whole(seen, d, season));
                } else {
                    let j = choose|j: int|
                        0 <= j < more.len() && (#[trigger] more[j]).is_episode()
                            && more[j].parent_id == Some(season) && !ids_of(d).contains(more[j].id);
                    if j < i {
                        assert(seen[j] == more[j]);
                        assert(!is_whole(seen, d, season));
                    }
                }
            }
        }
        i += 1;
    }
    assert(a.take(i as int) =~= a);
    incomplete
}

/// The series with an episode that is not deletable.
fn collect_incomplete_series(
    all: &[MediaItem],
    Ghost(d): Ghost<Seq<MatchedModel>>,
    ids: &StringHashSet,
) -> (incomplete: StringHashSet)
    requires
        ids@ == ids_of(d),
    ensures
        forall|series: Seq<char>| #[trigger]
            incomplete@.contains(series) <==> !is_whole_series(all.deep_view(), d, series),
{
    let ghost a = all.deep_view();
    let index = ItemIndex::new(all);
    let mut incomplete: StringHashSet = StringHashSet::new();
    let mut i: usize = 0;
    while i < all.len()
        invariant
            i <= all.len(),
            a == all.deep_view(),
            index.wf(),
            index.items() == a,
            ids@ == ids_of(d),
            forall|series: Seq<char>| #[trigger]
                incomplete@.contains(series) <==> exists|j: int|
                    0 <= j < i && is_episode_of(a, #[trigger] a[j], series) && !ids_of(d).contains(
                        a[j].id,
                    ),
        decreases all.len() - i,
    {
        let item = &all[i];
        let ghost m = item.deep_view();
        let ghost before = incomplete@;
        assert(a[i as int] == m);
        let mut series: Option<String> = None;
        if is_same(item.item_type.as_str(), "Episode") && !ids.contains(item.id.as_str()) {
            let above = index.lineage(&item.parent_id);
            series = index.series_above(&above);
        }
        let ghost found = series.deep_view();
        assert forall|s: Seq<char>| #[trigger]
            is_episode_of(a, m, s) && !ids_of(d).contains(m.id) <==> found == Some(s) by {}
        match series {
            Some(series) => {
                incomplete.insert(series);
            },
            None => {},
        }
        proof {
            assert forall|s: Seq<char>| #[trigger]
                incomplete@.contains(s) <==> exists|j: int|
                    0 <= j < i + 1 && is_episode_of(a, #[trigger] a[j], s) && !ids_of(d).contains(
                        a[j].id,
                    ) by {
                assert(is_episode_of(a, m, s) && !ids_of(d).contains(m.id) <==> found == Some(s));
                if incomplete@.contains(s) {
                    if before.contains(s) {
                        let j = choose|j: int|
                            0 <= j < i && is_episode_of(a, #[trigger] a[j], s) && !ids_of(
                                d,
                            ).contains(a[j].id);
                        assert(is_episode_of(a, a[j], s));
                    } else {
                        assert(is_episode_of(a, a[i as int], s));
                    }
                }
                if exists|j: int|
                    0 <= j < i + 1 && is_episode_of(a, #[trigger] a[j], s) && !ids_of(d).contains(
                        a[j].id,
                    ) {
                    let j = choose|j: int|
                        0 <= j < i + 1 && is_episode_of(a, #[trigger] a[j], s) && !ids_of(
                            d,
                        ).contains(a[j].id);
                    if j < i {
                        assert(before.contains(s));
                    }
                }
            }
        }
        i += 1;
    }
    incomplete
}

fn contains_number(numbers: &Vec<u32>, number: u32) -> (found: bool)
    ensures
        found == numbers@.contains(number),
{
    let mut i: usize = 0;
    while i < numbers.len()
        invariant
            i <= numbers.len(),
            forall|k: int| 0 <= k < i ==> numbers@[k] != number,
        decreases numbers.len() - i,
    {
        if numbers[i] == number {
            return true;
        }
        i += 1;
    }
    false
}

fn list_season_numbers(items: &Vec<MatchedItem>) -> (numbers: Vec<u32>)
    ensures
        numbers@ == season_numbers(items.deep_view()),
{
    let ghost all = items.deep_view();
    let ghost f = |item: MatchedModel| item.season_number;
    let mut numbers: Vec<u32> = Vec::new();
    let mut i: usize = 0;
    assert(numbers@ =~= distinct(all.take(0).filter_map(f)));
    while i < items.len()
        invariant
            i <= items.len(),
            all == items.deep_view(),
            f == (|item: MatchedModel| item.season_number),
            numbers@ == distinct(all.take(i as int).filter_map(f)),
        decreases items.len() - i,
    {
        let ghost before = all.take(i as int).filter_map(f);
        proof {
            all.lemma_filter_map_take_succ(f, i as int);
            assert(before + Seq::empty() =~= before);
        }
        match items[i].season_number {
            Some(number) => {
                assert((before + seq![number]).drop_last() =~= before);
                assert((before + seq![number]).last() == number);
                if !contains_number(&numbers, number) {
                    numbers.push(number);
                }
            },
            None => {},
        }
        i += 1;
    }
    assert(all.take(i as int) =~= all);
    numbers
}

/// What the first episode of `series` that names it calls it.
fn name_series(deletable: &Vec<MatchedItem>, series: &String) -> (name: String)
    ensures
        name@ == ({
            let names = deletable.deep_view().filter_map(name_within(series@));
            if names.len() > 0 {
                names[0]
            } else {
                Seq::empty()
            }
        }),
{
    let ghost d = deletable.deep_view();
    let ghost f = name_within(series@);
    let mut i: usize = 0;
    assert(d.take(0).filter_map(f) =~= Seq::empty());
    while i < deletable.len()
        invariant
            i <= deletable.len(),
            d == deletable.deep_view(),
            f == name_within(series@),
            d.take(i as int).filter_map(f).len() == 0,
        decreases deletable.len() - i,
    {
        proof {
            d.lemma_filter_map_take_succ(f, i as int);
        }
        match place(&deletable[i]) {
            Some((its_series, _)) => {
                if *its_series == *series {
                    match &deletable[i].series_name {
                        Some(name) => {
                            proof {
                                assert(d.take(i + 1).filter_map(f)[0] == name@);
                                lemma_filter_map_first(d, f, i + 1);
                            }
                            return name.clone();
                        },
                        None => {},
                    }
                }
            },
            None => {},
        }
        i += 1;
    }
    assert(d.take(i as int) =~= d);
    String::new()
}

/// What a prefix yields first, the whole yields first.
proof fn lemma_filter_map_first<A, B>(s: Seq<A>, f: spec_fn(A) -> Option<B>, n: int)
    requires
        0 <= n <= s.len(),
        s.take(n).filter_map(f).len() > 0,
    ensures
        s.filter_map(f).len() > 0,
        s.filter_map(f)[0] == s.take(n).filter_map(f)[0],
    decreases s.len() - n,
{
    if n < s.len() {
        s.lemma_filter_map_take_succ(f, n);
        lemma_filter_map_first(s, f, n + 1);
    } else {
        assert(s.take(n) =~= s);
    }
}

fn make_season(episodes: Vec<MatchedItem>) -> (group: GroupedItem)
    requires
        episodes.len() > 0,
    ensures
        forall|deletable: Seq<MatchedModel>, season: Seq<char>| #[trigger]
            episodes_of(deletable, season) == episodes.deep_view() ==> group.deep_view()
                == season_group(deletable, season),
{
    let first = &episodes[0];
    assert(episodes.deep_view()[0] == first.deep_view());
    let series_name = match &first.series_name {
        Some(name) => name.clone(),
        None => String::new(),
    };
    let season_number: u32 = match first.season_number {
        Some(number) => number,
        None => 0,
    };
    GroupedItem::Season { series_name, season_number, items: episodes }
}

fn make_series(
    Ghost(a): Ghost<Seq<MediaModel>>,
    deletable: &Vec<MatchedItem>,
    series: &String,
    seasons: &Vec<String>,
) -> (group: GroupedItem)
    requires
        seasons.deep_view() == own_seasons(a, deletable.deep_view(), series@),
    ensures
        group.deep_view() == series_group(a, deletable.deep_view(), series@),
{
    let ghost d = deletable.deep_view();
    let ghost f = |season: Seq<char>| episodes_of(d, season);
    let ghost ids = seasons.deep_view();
    let mut items: Vec<MatchedItem> = Vec::new();
    let mut k: usize = 0;
    assert(items.deep_view() =~= ids.take(0).flat_map(f)) by {
        assert(ids.take(0).map_values(f) =~= Seq::empty());
    }
    while k < seasons.len()
        invariant
            k <= seasons.len(),
            d == deletable.deep_view(),
            f == (|season: Seq<char>| episodes_of(d, season)),
            ids == seasons.deep_view(),
            items.deep_view() == ids.take(k as int).flat_map(f),
        decreases seasons.len() - k,
    {
        let ghost before = items.deep_view();
        let mut episodes = collect_episodes(deletable, &seasons[k]);
        let ghost added = episodes.deep_view();
        items.append(&mut episodes);
        assert(items.deep_view() =~= before + added);
        proof {
            ids.lemma_flat_map_take_append(f, k as int);
        }
        k += 1;
    }
    assert(ids.take(k as int) =~= ids);
    let series_name = name_series(deletable, series);
    let numbers = list_season_numbers(&items);
    #[verifier::truncate]
    let total_episodes: u32 = items.len() as u32;
    GroupedItem::Series { series_name, total_episodes, seasons: numbers, items }
}

/// A season of a series has an episode that names the series.
pub proof fn lemma_season_of_series(
    deletable: Seq<MatchedModel>,
    series: Seq<char>,
    season: Seq<char>,
)
    ensures
        seasons_of(deletable, series).contains(season) <==> exists|i: int|
            0 <= i < deletable.len() && season_within(series)(#[trigger] deletable[i]) == Some(
                season,
            ),
        seasons_of(deletable, series).no_duplicates(),
        seasons_of(deletable, series).contains(season) ==> all_series(deletable).contains(series),
{
    lemma_distinct(deletable.filter_map(season_within(series)));
    lemma_filter_map_mentions(deletable, season_within(series), season);
    if seasons_of(deletable, series).contains(season) {
        let i = choose|i: int|
            0 <= i < deletable.len() && season_within(series)(#[trigger] deletable[i]) == Some(
                season,
            );
        assert(series_of()(deletable[i]) == Some(series));
        lemma_filter_map_mentions(deletable, series_of(), series);
        lemma_distinct(deletable.filter_map(series_of()));
    }
}

/// A season is had by a series that claims it, if any does; the series that has it lists
/// it among its own seasons.
pub proof fn lemma_owner(all: Seq<MediaModel>, deletable: Seq<MatchedModel>, season: Seq<char>)
    ensures
        owner(all, deletable, season) matches Some(series) ==> claims(all, deletable, season)(series)
            && all_series(deletable).contains(series),
        owner(all, deletable, season) is None ==> forall|series: Seq<char>|
            !(#[trigger] claims(all, deletable, season)(series)),
        forall|series: Seq<char>| #[trigger]
            own_seasons(all, deletable, series).contains(season) <==> owner(all, deletable, season)
                == Some(series),
{
    let listed = all_series(deletable);
    let p = claims(all, deletable, season);
    let chosen = listed.filter(p);
    if chosen.len() > 0 {
        listed.lemma_filter_pred(p, 0);
        assert(chosen.contains(chosen[0]));
        listed.lemma_filter_contains_rev(p, chosen[0]);
    } else {
        assert forall|series: Seq<char>| !(#[trigger] p(series)) by {
            if p(series) {
                lemma_season_of_series(deletable, series, season);
                let k = choose|k: int| 0 <= k < listed.len() && listed[k] == series;
                listed.lemma_filter_contains(p, k);
            }
        }
    }
    assert forall|series: Seq<char>| #[trigger]
        own_seasons(all, deletable, series).contains(season) <==> owner(all, deletable, season)
            == Some(series) by {
        let its = seasons_of(deletable, series);
        let q = owns(all, deletable, series);
        if its.filter(q).contains(season) {
            let k = choose|k: int| 0 <= k < its.filter(q).len() && its.filter(q)[k] == season;
            its.lemma_filter_pred(q, k);
        }
        if owner(all, deletable, season) == Some(series) {
            assert(p(series));
            let k = choose|k: int| 0 <= k < its.len() && its[k] == season;
            assert(q(its[k]));
            its.lemma_filter_contains(q, k);
        }
    }
}

/// Of the series that claim a season, the first one listed has it.
proof fn lemma_first_claim(
    all: Seq<MediaModel>,
    deletable: Seq<MatchedModel>,
    season: Seq<char>,
    k: int,
)
    requires
        0 <= k < all_series(deletable).len(),
        claims(all, deletable, season)(all_series(deletable)[k]),
    ensures
        owner(all, deletable, season) == Some(all_series(deletable)[k]) <==> forall|j: int|
            0 <= j < k ==> !claims(all, deletable, season)(#[trigger] all_series(deletable)[j]),
{
    let listed = all_series(deletable);
    let p = claims(all, deletable, season);
    lemma_distinct(deletable.filter_map(series_of()));
    lemma_filter_first(listed, p, k);
}

/// Filtering keeps the first element that passes, first.
proof fn lemma_filter_first<A>(s: Seq<A>, p: spec_fn(A) -> bool, k: int)
    requires
        s.no_duplicates(),
        0 <= k < s.len(),
        p(s[k]),
    ensures
        s.filter(p).len() > 0,
        s.filter(p)[0] == s[k] <==> forall|j: int| 0 <= j < k ==> !p(#[trigger] s[j]),
    decreases s.len(),
{
    reveal(Seq::filter);
    let rest = s.drop_last();
    assert(rest.no_duplicates());
    if k < s.len() - 1 {
        lemma_filter_first(rest, p, k);
        assert(rest[k] == s[k]);
        if forall|j: int| 0 <= j < k ==> !p(#[trigger] s[j]) {
            assert forall|j: int| 0 <= j < k implies !p(#[trigger] rest[j]) by {
                assert(!p(s[j]));
            }
        }
        if forall|j: int| 0 <= j < k ==> !p(#[trigger] rest[j]) {
            assert forall|j: int| 0 <= j < k implies !p(#[trigger] s[j]) by {
                assert(!p(rest[j]));
            }
        }
    } else if forall|j: int| 0 <= j < k ==> !p(#[trigger] s[j]) {
        assert forall|j: int| 0 <= j < rest.len() implies !p(#[trigger] rest[j]) by {
            assert(!p(s[j]));
        }
        rest.lemma_all_neg_filter_empty(p);
        assert(s.filter(p) =~= seq![s[k]]);
    } else {
        let j = choose|j: int| 0 <= j < k && p(#[trigger] s[j]);
        assert(rest[j] == s[j]);
        rest.lemma_filter_contains(p, j);
        let first = rest.filter(p)[0];
        assert(rest.filter(p).contains(first));
        rest.lemma_filter_contains_rev(p, first);
        let i = choose|i: int| 0 <= i < rest.len() && rest[i] == first;
        assert(s[i] != s[k]);
        assert(s.filter(p)[0] == first);
    }
}

/// Filtering makes no duplicates.
pub proof fn lemma_filter_no_duplicates<A>(s: Seq<A>, p: spec_fn(A) -> bool)
    requires
        s.no_duplicates(),
    ensures
        s.filter(p).no_duplicates(),
    decreases s.len(),
{
    reveal(Seq::filter);
    if s.len() > 0 {
        let rest = s.drop_last();
        assert(rest.no_duplicates());
        lemma_filter_no_duplicates(rest, p);
        if p(s.last()) {
            let kept = rest.filter(p);
            assert forall|i: int, j: int|
                0 <= i < j < kept.push(s.last()).len() implies kept.push(s.last())[i] != kept.push(
                s.last(),
            )[j] by {
                if j == kept.len() && kept[i] == s.last() {
                    assert(kept.contains(s.last()));
                    rest.lemma_filter_contains_rev(p, s.last());
                    let k = choose|k: int| 0 <= k < rest.len() && rest[k] == s.last();
                    assert(s[k] == s[s.len() - 1]);
                }
            }
        }
    }
}

/// Which seasons are complete.
fn collect_complete(
    Ghost(a): Ghost<Seq<MediaModel>>,
    deletable: &Vec<MatchedItem>,
    list: &Vec<String>,
    incomplete: &StringHashSet,
) -> (complete: StringHashSet)
    requires
        list.deep_view() == seasons(deletable.deep_view()),
        forall|season: Seq<char>| #[trigger]
            incomplete@.contains(season) <==> !is_whole(a, deletable.deep_view(), season),
    ensures
        forall|season: Seq<char>| #[trigger]
            complete@.contains(season) <==> forms_season(a, deletable.deep_view(), season),
{
    let ghost d = deletable.deep_view();
    let ghost ids = list.deep_view();
    let mut complete: StringHashSet = StringHashSet::new();
    let mut k: usize = 0;
    while k < list.len()
        invariant
            k <= list.len(),
            d == deletable.deep_view(),
            ids == list.deep_view(),
            forall|season: Seq<char>| #[trigger]
                incomplete@.contains(season) <==> !is_whole(a, d, season),
            forall|season: Seq<char>| #[trigger]
                complete@.contains(season) <==> ids.take(k as int).contains(season)
                    && forms_season(a, d, season),
        decreases list.len() - k,
    {
        let season = &list[k];
        let ghost before = complete@;
        let episodes = collect_episodes(deletable, season);
        if episodes.len() > 1 && !incomplete.contains(season.as_str()) {
            complete.insert(season.clone());
        }
        proof {
            assert(ids.take(k + 1) =~= ids.take(k as int).push(season@));
            assert forall|s: Seq<char>| #[trigger]
                complete@.contains(s) <==> ids.take(k + 1).contains(s) && forms_season(a, d, s) by {
                vstd::seq_lib::lemma_seq_contains_after_push(ids.take(k as int), season@, s);
                assert(before.contains(s) <==> ids.take(k as int).contains(s) && forms_season(
                    a,
                    d,
                    s,
                ));
            }
        }
        k += 1;
    }
    assert(ids.take(k as int) =~= ids);
    proof {
        assert forall|season: Seq<char>| #[trigger]
            complete@.contains(season) <==> forms_season(a, d, season) by {
            lemma_season_with_episodes_listed(d, season);
        }
    }
    complete
}

/// The groups of the seasons, outside of grouped series.
fn group_seasons(
    Ghost(a): Ghost<Seq<MediaModel>>,
    deletable: &Vec<MatchedItem>,
    list: &Vec<String>,
    complete: &StringHashSet,
    taken: &StringHashSet,
) -> (groups: Vec<GroupedItem>)
    requires
        list.deep_view() == seasons(deletable.deep_view()),
        forall|season: Seq<char>| #[trigger]
            complete@.contains(season) <==> forms_season(a, deletable.deep_view(), season),
        forall|season: Seq<char>| #[trigger]
            taken@.contains(season) <==> owner(a, deletable.deep_view(), season) is Some,
    ensures
        groups.deep_view() == seasons(deletable.deep_view()).filter_map(
            season_grouped(a, deletable.deep_view()),
        ),
{
    let ghost d = deletable.deep_view();
    let ghost f = season_grouped(a, d);
    let ghost ids = list.deep_view();
    let mut groups: Vec<GroupedItem> = Vec::new();
    let mut k: usize = 0;
    assert(groups.deep_view() =~= ids.take(0).filter_map(f));
    while k < list.len()
        invariant
            k <= list.len(),
            d == deletable.deep_view(),
            f == season_grouped(a, d),
            ids == list.deep_view(),
            forall|season: Seq<char>| #[trigger]
                complete@.contains(season) <==> forms_season(a, d, season),
            forall|season: Seq<char>| #[trigger]
                taken@.contains(season) <==> owner(a, d, season) is Some,
            groups.deep_view() == ids.take(k as int).filter_map(f),
        decreases list.len() - k,
    {
        let season = &list[k];
        let ghost before = groups.deep_view();
        proof {
            ids.lemma_filter_map_take_succ(f, k as int);
            assert(before + Seq::empty() =~= before);
            assert(ids[k as int] == season@);
        }
        if complete.contains(season.as_str()) && !taken.contains(season.as_str()) {
            let episodes = collect_episodes(deletable, season);
            let group = make_season(episodes);
            groups.push(group);
            assert(groups.deep_view() =~= before + seq![season_group(d, season@)]);
        }
        k += 1;
    }
    assert(ids.take(k as int) =~= ids);
    groups
}

/// Those of `texts` that are not in `set`.
fn without(texts: &Vec<String>, set: &StringHashSet) -> (rest: Vec<String>)
    ensures
        rest.deep_view() == texts.deep_view().filter(|text: Seq<char>| !set@.contains(text)),
{
    let ghost all = texts.deep_view();
    let ghost p = |text: Seq<char>| !set@.contains(text);
    let mut rest: Vec<String> = Vec::new();
    let mut k: usize = 0;
    proof {
        reveal(Seq::filter);
        assert(rest.deep_view() =~= all.take(0).filter(p));
    }
    while k < texts.len()
        invariant
            k <= texts.len(),
            all == texts.deep_view(),
            p == (|text: Seq<char>| !set@.contains(text)),
            rest.deep_view() == all.take(k as int).filter(p),
        decreases texts.len() - k,
    {
        let ghost before = rest.deep_view();
        proof {
            assert(all.take(k + 1) =~= all.take(k as int).push(all[k as int]));
            all.take(k as int).lemma_filter_push(all[k as int], p);
        }
        if !set.contains(texts[k].as_str()) {
            rest.push(texts[k].clone());
            assert(rest.deep_view() =~= before.push(all[k as int]));
        }
        k += 1;
    }
    assert(all.take(k as int) =~= all);
    rest
}

/// Adds `texts` to `set`.
fn insert_all(set: &mut StringHashSet, texts: &Vec<String>)
    ensures
        forall|text: Seq<char>| #[trigger]
            final(set)@.contains(text) <==> old(set)@.contains(text) || texts.deep_view().contains(
                text,
            ),
{
    let ghost all = texts.deep_view();
    let mut k: usize = 0;
    while k < texts.len()
        invariant
            k <= texts.len(),
            all == texts.deep_view(),
            forall|text: Seq<char>| #[trigger]
                set@.contains(text) <==> old(set)@.contains(text) || all.take(k as int).contains(
                    text,
                ),
        decreases texts.len() - k,
    {
        let ghost before = set@;
        set.insert(texts[k].clone());
        proof {
            assert(all.take(k + 1) =~= all.take(k as int).push(all[k as int]));
            assert forall|text: Seq<char>| #[trigger]
                set@.contains(text) <==> old(set)@.contains(text) || all.take(k + 1).contains(
                    text,
                ) by {
                vstd::seq_lib::lemma_seq_contains_after_push(
                    all.take(k as int),
                    all[k as int],
                    text,
                );
                assert(before.contains(text) <==> old(set)@.contains(text) || all.take(
                    k as int,
                ).contains(text));
            }
        }
        k += 1;
    }
    assert(all.take(k as int) =~= all);
}

/// Whether one of the first `n` listed series claims `season`.
spec fn is_claimed(a: Seq<MediaModel>, d: Seq<MatchedModel>, season: Seq<char>, n: int) -> bool {
    exists|j: int| 0 <= j < n && claims(a, d, season)(#[trigger] all_series(d)[j])
}

/// The seasons that a series has are those that no series before it claims.
proof fn lemma_own_seasons(a: Seq<MediaModel>, d: Seq<MatchedModel>, taken: Set<Seq<char>>, k: int)
    requires
        0 <= k < all_series(d).len(),
        forms_series(a, d, all_series(d)[k]),
        forall|season: Seq<char>| #[trigger]
            taken.contains(season) <==> is_claimed(a, d, season, k),
    ensures
        own_seasons(a, d, all_series(d)[k]) == seasons_of(d, all_series(d)[k]).filter(
            |season: Seq<char>| !taken.contains(season),
        ),
{
    let series = all_series(d)[k];
    let its = seasons_of(d, series);
    let p = owns(a, d, series);
    let q = |season: Seq<char>| !taken.contains(season);
    assert forall|i: int| 0 <= i < its.len() implies p(#[trigger] its[i]) == q(its[i]) by {
        let season = its[i];
        assert(its.contains(season));
        assert(claims(a, d, season)(series));
        lemma_first_claim(a, d, season, k);
        assert(taken.contains(season) <==> is_claimed(a, d, season, k));
    }
    lemma_filter_agrees(its, p, q);
}

/// Two conditions that agree on all elements filter alike.
proof fn lemma_filter_agrees<A>(s: Seq<A>, p: spec_fn(A) -> bool, q: spec_fn(A) -> bool)
    requires
        forall|i: int| 0 <= i < s.len() ==> p(#[trigger] s[i]) == q(s[i]),
    ensures
        s.filter(p) == s.filter(q),
    decreases s.len(),
{
    reveal(Seq::filter);
    if s.len() > 0 {
        let rest = s.drop_last();
        assert forall|i: int| 0 <= i < rest.len() implies p(#[trigger] rest[i]) == q(rest[i]) by {
            assert(p(s[i]) == q(s[i]));
        }
        lemma_filter_agrees(rest, p, q);
        assert(p(s[s.len() - 1]) == q(s[s.len() - 1]));
    }
}

/// The groups of the series, and the seasons that they have.
fn group_series(
    Ghost(a): Ghost<Seq<MediaModel>>,
    deletable: &Vec<MatchedItem>,
    complete: &StringHashSet,
    incomplete_series: &StringHashSet,
) -> (grouped: (Vec<GroupedItem>, StringHashSet))
    requires
        forall|season: Seq<char>| #[trigger]
            complete@.contains(season) <==> forms_season(a, deletable.deep_view(), season),
        forall|series: Seq<char>| #[trigger]
            incomplete_series@.contains(series) <==> !is_whole_series(
                a,
                deletable.deep_view(),
                series,
            ),
    ensures
        grouped.0.deep_view() == all_series(deletable.deep_view()).filter_map(
            series_grouped(a, deletable.deep_view()),
        ),
        forall|season: Seq<char>| #[trigger]
            grouped.1@.contains(season) <==> owner(a, deletable.deep_view(), season) is Some,
{
    let ghost d = deletable.deep_view();
    let ghost f = series_grouped(a, d);
    let list = list_keys(deletable, Key::Series);
    let ghost ids = list.deep_view();
    let mut groups: Vec<GroupedItem> = Vec::new();
    let mut taken: StringHashSet = StringHashSet::new();
    let mut k: usize = 0;
    assert(groups.deep_view() =~= ids.take(0).filter_map(f));
    while k < list.len()
        invariant
            k <= list.len(),
            d == deletable.deep_view(),
            f == series_grouped(a, d),
            ids == list.deep_view(),
            ids == all_series(d),
            forall|season: Seq<char>| #[trigger]
                complete@.contains(season) <==> forms_season(a, d, season),
            forall|series: Seq<char>| #[trigger]
                incomplete_series@.contains(series) <==> !is_whole_series(a, d, series),
            groups.deep_view() == ids.take(k as int).filter_map(f),
            forall|season: Seq<char>| #[trigger]
                taken@.contains(season) <==> is_claimed(a, d, season, k as int),
        decreases list.len() - k,
    {
        let series = &list[k];
        let ghost before = groups.deep_view();
        let ghost taken_before = taken@;
        proof {
            ids.lemma_filter_map_take_succ(f, k as int);
            assert(before + Seq::empty() =~= before);
            assert(ids[k as int] == series@);
        }
        let its_seasons = list_keys(deletable, Key::SeasonWithin(series));
        if its_seasons.len() > 1 && all_among(&its_seasons, complete) && !incomplete_series.contains(
            series.as_str(),
        ) {
            assert(forms_series(a, d, series@));
            let own = without(&its_seasons, &taken);
            proof {
                lemma_own_seasons(a, d, taken@, k as int);
            }
            if own.len() > 0 {
                let group = make_series(Ghost(a), deletable, series, &own);
                groups.push(group);
                assert(groups.deep_view() =~= before + seq![series_group(a, d, series@)]);
            }
            insert_all(&mut taken, &its_seasons);
        }
        proof {
            assert forall|season: Seq<char>| #[trigger]
                taken@.contains(season) <==> is_claimed(a, d, season, k + 1) by {
                assert(taken_before.contains(season) <==> is_claimed(a, d, season, k as int));
                if is_claimed(a, d, season, k + 1) {
                    let j = choose|j: int|
                        0 <= j < k + 1 && claims(a, d, season)(#[trigger] all_series(d)[j]);
                    if j < k {
                        assert(is_claimed(a, d, season, k as int));
                    }
                }
                if is_claimed(a, d, season, k as int) {
                    let j = choose|j: int|
                        0 <= j < k && claims(a, d, season)(#[trigger] all_series(d)[j]);
                    assert(is_claimed(a, d, season, k + 1));
                }
                if claims(a, d, season)(all_series(d)[k as int]) {
                    assert(is_claimed(a, d, season, k + 1));
                }
            }
        }
        k += 1;
    }
    assert(ids.take(k as int) =~= ids);
    proof {
        assert forall|season: Seq<char>| #[trigger]
            taken@.contains(season) <==> owner(a, d, season) is Some by {
            lemma_owner(a, d, season);
            if owner(a, d, season) is Some {
                let series = owner(a, d, season)->0;
                let j = choose|j: int| 0 <= j < ids.len() && ids[j] == series;
                assert(claims(a, d, season)(all_series(d)[j]));
            }
        }
    }
    (groups, taken)
}

/// Whether all of `texts` are in `set`.
fn all_among(texts: &Vec<String>, set: &StringHashSet) -> (answer: bool)
    ensures
        answer <==> forall|k: int|
            0 <= k < texts.deep_view().len() ==> set@.contains(#[trigger] texts.deep_view()[k]),
{
    let mut k: usize = 0;
    while k < texts.len()
        invariant
            k <= texts.len(),
            forall|j: int| 0 <= j < k ==> set@.contains(#[trigger] texts.deep_view()[j]),
        decreases texts.len() - k,
    {
        if !set.contains(texts[k].as_str()) {
            assert(!set@.contains(texts.deep_view()[k as int]));
            return false;
        }
        assert(texts.deep_view()[k as int] == texts[k as int]@);
        k += 1;
    }
    true
}

/// Groups the deletable items into seasons and series, the largest group first.
///
/// A season is grouped if it has several deletable episodes and all its episodes are
/// deletable; a series, if it has several such seasons, all of its seasons with
/// deletable episodes are such, and none of its episodes stays. A grouped series takes
/// the place of its seasons, and a group that of its items: every item is in one group,
/// its own where no other holds it. Where the episodes of a season name several grouped
/// series, the first of these has the season.
pub fn group_items(all_items: &[MediaItem], deletable_items: Vec<MatchedItem>) -> (result: Vec<
    GroupedItem,
>)
    ensures
        crate::order::is_stable_sort(
            groups(all_items.deep_view(), deletable_items.deep_view()),
            result.deep_view(),
            crate::model::larger_group_first(),
        ),
{
    let ghost a = all_items.deep_view();
    let ghost d = deletable_items.deep_view();
    let ghost f = alone(a, d);
    let ids = collect_ids(&deletable_items);
    let incomplete = collect_incomplete(all_items, Ghost(d), &ids);
    let incomplete_series = collect_incomplete_series(all_items, Ghost(d), &ids);
    let list = list_keys(&deletable_items, Key::Season);
    let complete = collect_complete(Ghost(a), &deletable_items, &list, &incomplete);
    let (mut series, taken) = group_series(
        Ghost(a),
        &deletable_items,
        &complete,
        &incomplete_series,
    );
    let mut result = group_seasons(Ghost(a), &deletable_items, &list, &complete, &taken);
    let ghost season_groups = result.deep_view();
    let ghost series_groups = series.deep_view();
    result.append(&mut series);
    assert(result.deep_view() =~= season_groups + series_groups);
    let mut i: usize = 0;
    assert(result.deep_view() =~= season_groups + series_groups + d.take(0).filter_map(f));
    while i < deletable_items.len()
        invariant
            i <= deletable_items.len(),
            d == deletable_items.deep_view(),
            f == alone(a, d),
            forall|season: Seq<char>| #[trigger]
                complete@.contains(season) <==> forms_season(a, d, season),
            result.deep_view() == season_groups + series_groups + d.take(i as int).filter_map(f),
        decreases deletable_items.len() - i,
    {
        let item = &deletable_items[i];
        let ghost m = item.deep_view();
        let ghost before = result.deep_view();
        proof {
            assert(d[i as int] == m);
            d.lemma_filter_map_take_succ(f, i as int);
            assert(d.take(i as int).filter_map(f) + Seq::empty() =~= d.take(i as int).filter_map(f));
        }
        let left_to_groups: bool = match place(item) {
            Some((_, season)) => complete.contains(season.as_str()),
            None => false,
        };
        if !left_to_groups {
            result.push(GroupedItem::Individual(item.clone()));
            assert(result.deep_view() =~= before.push(GroupModel::Individual(m)));
            assert(result.deep_view() =~= season_groups + series_groups + (d.take(
                i as int,
            ).filter_map(f) + seq![GroupModel::Individual(m)]));
        }
        i += 1;
    }
    assert(d.take(i as int) =~= d);
    let ghost unsorted = result@;
    let sorted = merge_sort(result);
    proof {
        let g = |group: GroupedItem| group.deep_view();
        assert forall|x: GroupedItem, y: GroupedItem| #[trigger]
            crate::order::rank::<GroupedItem>()(x, y) == crate::model::larger_group_first()(
                g(x),
                g(y),
            ) by {}
        crate::order::lemma_stable_sort_map(
            unsorted,
            sorted@,
            g,
            crate::order::rank::<GroupedItem>(),
            crate::model::larger_group_first(),
        );
        assert(unsorted.map_values(g) =~= result.deep_view());
        assert(sorted@.map_values(g) =~= sorted.deep_view());
    }
    sorted
}

} // verus!
