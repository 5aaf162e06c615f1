//! What the views of the data show.

use vstd::prelude::*;
use crate::deletion::Step;
use crate::deletion::StepModel;
use crate::model::GroupModel;
use crate::model::GroupedItem;
use crate::model::JellyfinUser;
use crate::model::MatchedItem;
use crate::model::MatchedModel;
use crate::model::MediaItem;
use crate::model::MediaModel;
use crate::model::UserData;
use crate::picker::Row;
use crate::selection::Selection;

verus! {

/// The view of a user has the user's fields.
pub proof fn a_user_is_seen_whole(user: JellyfinUser)
    ensures
        user.deep_view().id == user.id@,
        user.deep_view().name == user.name@,
{
}

/// The view of an item has the item's fields.
pub proof fn an_item_is_seen_whole(item: MediaItem)
    ensures
        item.deep_view().id == item.id@,
        item.deep_view().name == item.name@,
        item.deep_view().item_type == item.item_type@,
        item.path matches Some(path) ==> item.deep_view().path == Some(path@),
        item.path is None ==> item.deep_view().path is None,
        item.parent_id matches Some(parent) ==> item.deep_view().parent_id == Some(parent@),
        item.parent_id is None ==> item.deep_view().parent_id is None,
        item.deep_view().index_number == item.index_number,
        item.deep_view().parent_index_number == item.parent_index_number,
        item.last_played_date matches Some(date) ==> item.deep_view().last_played_date == Some(
            date@,
        ),
        item.last_played_date is None ==> item.deep_view().last_played_date is None,
        item.user_data is Some <==> item.deep_view().user_data is Some,
        item.user_data matches Some(UserData { last_played_date: Some(date) })
            ==> item.deep_view().user_data == Some(Some(date@)),
        item.user_data matches Some(UserData { last_played_date: None })
            ==> item.deep_view().user_data == Some(None::<Seq<char>>),
        item.media_sources is Some <==> item.deep_view().media_sources is Some,
        item.media_sources matches Some(sources) ==> {
            let sizes = item.deep_view().media_sources->0;
            sizes.len() == sources@.len() && forall|k: int|
                0 <= k < sizes.len() ==> #[trigger] sizes[k] == sources@[k].size
        },
{
}

/// The view of a deletable item has the item's fields.
pub proof fn a_deletable_item_is_seen_whole(item: MatchedItem)
    ensures
        item.deep_view().id == item.id@,
        item.deep_view().name == item.name@,
        item.deep_view().item_type == item.item_type@,
        item.deep_view().path == item.path@,
        item.last_played_date matches Some(date) ==> item.deep_view().last_played_date == Some(
            date@,
        ),
        item.last_played_date is None ==> item.deep_view().last_played_date is None,
        item.deep_view().played_by.len() == item.played_by@.len(),
        forall|k: int|
            0 <= k < item.played_by@.len() ==> #[trigger] item.deep_view().played_by[k]
                == item.played_by@[k]@,
        item.deep_view().protected_by.len() == item.protected_by@.len(),
        forall|k: int|
            0 <= k < item.protected_by@.len() ==> #[trigger] item.deep_view().protected_by[k]
                == item.protected_by@[k]@,
        item.deep_view().size == item.size,
        item.series_name matches Some(name) ==> item.deep_view().series_name == Some(name@),
        item.series_name is None ==> item.deep_view().series_name is None,
        item.deep_view().season_number == item.season_number,
        item.deep_view().episode_number == item.episode_number,
        item.series_id matches Some(id) ==> item.deep_view().series_id == Some(id@),
        item.series_id is None ==> item.deep_view().series_id is None,
        item.season_id matches Some(id) ==> item.deep_view().season_id == Some(id@),
        item.season_id is None ==> item.deep_view().season_id is None,
{
}

/// The view of a group has the group's fields, and its items are those of the group.
pub proof fn a_group_is_seen_whole(group: GroupedItem)
    ensures
        group matches GroupedItem::Individual(item) ==> group.deep_view()
            == GroupModel::Individual(item.deep_view()) && group.deep_view().items() == seq![
            item.deep_view(),
        ],
        group matches GroupedItem::Season { series_name, season_number, items } ==> {
            &&& group.deep_view() matches GroupModel::Season {
                series_name: name,
                season_number: number,
                items: seen,
            }
            &&& name == series_name@
            &&& number == season_number
            &&& seen.len() == items@.len()
            &&& forall|k: int| 0 <= k < seen.len() ==> #[trigger] seen[k] == items@[k].deep_view()
            &&& group.deep_view().items() == seen
        },
        group matches GroupedItem::Series { series_name, total_episodes, seasons, items } ==> {
            &&& group.deep_view() matches GroupModel::Series {
                series_name: name,
                total_episodes: episodes,
                seasons: numbers,
                items: seen,
            }
            &&& name == series_name@
            &&& episodes == total_episodes
            &&& numbers == seasons@
            &&& seen.len() == items@.len()
            &&& forall|k: int| 0 <= k < seen.len() ==> #[trigger] seen[k] == items@[k].deep_view()
            &&& group.deep_view().items() == seen
        },
{
}

/// The view of what decides has what decides.
pub proof fn a_selection_is_seen_whole(selection: Selection)
    ensures
        selection.deep_view().users == selection.users.deep_view(),
        selection.deep_view().items == selection.items.deep_view(),
        selection.deep_view().watched_ids == selection.audience.watched_ids.deep_view(),
        selection.deep_view().protected_ids == selection.audience.protected_ids.deep_view(),
        selection.deep_view().played == selection.played@,
        selection.deep_view().favorites == selection.favorites@,
        selection.deep_view().min_days_watched_ago == selection.min_days_watched_ago,
        selection.deep_view().now == selection.now,
{
}

/// The views of a step and of a row have their texts.
pub proof fn steps_and_rows_are_seen_whole(step: Step, row: Row)
    ensures
        step matches Step::Say(line) ==> step.deep_view() == StepModel::Say(line@),
        step matches Step::Delete { id, notice } ==> step.deep_view() == (StepModel::Delete {
            id: id@,
            notice: notice@,
        }),
        row.deep_view().checkbox == row.checkbox@,
        row.deep_view().name == row.name@,
        row.deep_view().kind == row.kind@,
        row.deep_view().size == row.size@,
        row.deep_view().last_played == row.last_played@,
{
}

/// An item was last played when the user's data say; where these say nothing, when the
/// item says.
pub proof fn the_users_date_comes_first(item: MediaModel, date: Seq<char>)
    ensures
        item.user_data == Some(Some(date)) ==> item.last_played() == Some(date),
        item.user_data is None ==> item.last_played() == item.last_played_date,
        item.user_data == Some(None::<Seq<char>>) ==> item.last_played() == item.last_played_date,
{
}

/// The size of an item is that of the first file with a size.
pub proof fn the_first_size_counts(item: MediaModel, k: int)
    ensures
        item.media_sources is None ==> item.size() == 0,
        item.media_sources matches Some(sizes) ==> {
            &&& (forall|j: int| 0 <= j < sizes.len() ==> (#[trigger] sizes[j]) is None)
                ==> item.size() == 0
            &&& 0 <= k < sizes.len() && sizes[k] is Some && (forall|j: int|
                0 <= j < k ==> (#[trigger] sizes[j]) is None) ==> item.size() == sizes[k]->0
        },
{
    if item.media_sources is Some {
        let sizes = item.media_sources->0;
        if forall|j: int| 0 <= j < sizes.len() ==> (#[trigger] sizes[j]) is None {
            lemma_no_size(sizes);
        }
        if 0 <= k < sizes.len() && sizes[k] is Some && (forall|j: int|
            0 <= j < k ==> (#[trigger] sizes[j]) is None) {
            lemma_first_size(sizes, k);
        }
    }
}

proof fn lemma_no_size(sizes: Seq<Option<u64>>)
    requires
        forall|j: int| 0 <= j < sizes.len() ==> (#[trigger] sizes[j]) is None,
    ensures
        crate::model::first_size(sizes) == 0,
    decreases sizes.len(),
{
    if sizes.len() > 0 {
        assert(sizes[0] is None);
        let rest = sizes.drop_first();
        assert forall|j: int| 0 <= j < rest.len() implies (#[trigger] rest[j]) is None by {
            assert(sizes[j + 1] is None);
        }
        lemma_no_size(rest);
    }
}

proof fn lemma_first_size(sizes: Seq<Option<u64>>, k: int)
    requires
        0 <= k < sizes.len(),
        sizes[k] is Some,
        forall|j: int| 0 <= j < k ==> (#[trigger] sizes[j]) is None,
    ensures
        crate::model::first_size(sizes) == sizes[k]->0,
    decreases sizes.len(),
{
    if k > 0 {
        assert(sizes[0] is None);
        let rest = sizes.drop_first();
        assert forall|j: int| 0 <= j < k - 1 implies (#[trigger] rest[j]) is None by {
            assert(sizes[j + 1] is None);
        }
        lemma_first_size(rest, k - 1);
    }
}

/// The size of items taken together grows with each item by its size, and that of a
/// group is that of its items.
pub proof fn sizes_are_summed(items: Seq<MatchedModel>, item: MatchedModel, group: GroupModel)
    ensures
        crate::model::total_size(Seq::empty()) == 0,
        crate::model::total_size(items.push(item)) == crate::model::total_size(items) + item.size,
        group.total_size() == crate::model::total_size(group.items()),
{
    assert(items.push(item).drop_last() =~= items);
}

/// Items and groups count with the names that the server gives to episodes, seasons and
/// series.
pub proof fn kinds_are_named(item: MediaModel, matched: MatchedModel)
    ensures
        item.is_episode() <==> item.item_type == "Episode"@,
        item.is_season() <==> item.item_type == "Season"@,
        item.is_series() <==> item.item_type == "Series"@,
        matched.is_episode() <==> matched.item_type == "Episode"@,
{
}

} // verus!
