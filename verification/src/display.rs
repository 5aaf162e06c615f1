//! What items and groups are called.

use vstd::prelude::*;
use crate::model::GroupModel;
use crate::model::GroupedItem;
use crate::model::MatchedItem;
use crate::model::MatchedModel;
use crate::size::format_size;
use crate::text::push_decimal;
use crate::text::push_two_digits;

verus! {

/// What an item is called: with series, season and episode where all are known.
pub open spec fn display_text(item: MatchedModel) -> Seq<char> {
    match (item.series_name, item.season_number, item.episode_number) {
        (Some(series), Some(season), Some(episode)) => series + " - S"@ + crate::text::two_digits(
            season as nat,
        ) + "E"@ + crate::text::two_digits(episode as nat) + " - "@ + item.name,
        _ => item.name,
    }
}

/// What a group is called, with what it holds and how large it is.
pub open spec fn group_text(group: GroupModel) -> Seq<char> {
    match group {
        GroupModel::Individual(item) => display_text(item),
        GroupModel::Season { series_name, season_number, items } => series_name + " - Season "@
            + crate::text::decimal(season_number as nat) + " ("@ + crate::text::decimal(items.len())
            + " episodes, "@ + crate::size::size_text(group.total_size()) + ")"@,
        GroupModel::Series { series_name, total_episodes, seasons, .. } => series_name + " ("@
            + crate::text::decimal(seasons.len()) + " seasons, "@ + crate::text::decimal(
            total_episodes as nat,
        ) + " episodes, "@ + crate::size::size_text(group.total_size()) + ")"@,
    }
}

/// Writes what `item` is called.
pub fn format_display_name(item: &MatchedItem) -> (text: String)
    ensures
        text@ == display_text(item.deep_view()),
{
    match (&item.series_name, item.season_number, item.episode_number) {
        (Some(series), Some(season), Some(episode)) => {
            let mut text = series.clone();
            text.append(" - S");
            push_two_digits(&mut text, season);
            text.append("E");
            push_two_digits(&mut text, episode);
            text.append(" - ");
            text.append(item.name.as_str());
            text
        },
        _ => item.name.clone(),
    }
}

impl GroupedItem {
    /// Writes what the group is called.
    pub fn display_name(&self) -> (text: String)
        requires
            self.deep_view().total_size() <= u64::MAX,
        ensures
            text@ == group_text(self.deep_view()),
    {
        match self {
            GroupedItem::Individual(item) => format_display_name(item),
            GroupedItem::Season { series_name, season_number, items } => {
                let mut text = series_name.clone();
                text.append(" - Season ");
                push_decimal(&mut text, *season_number as u128);
                text.append(" (");
                push_decimal(&mut text, items.len() as u128);
                text.append(" episodes, ");
                text.append(format_size(self.total_size() as u64).as_str());
                text.append(")");
                text
            },
            GroupedItem::Series { series_name, total_episodes, seasons, .. } => {
                let mut text = series_name.clone();
                text.append(" (");
                push_decimal(&mut text, seasons.len() as u128);
                text.append(" seasons, ");
                push_decimal(&mut text, *total_episodes as u128);
                text.append(" episodes, ");
                text.append(format_size(self.total_size() as u64).as_str());
                text.append(")");
                text
            },
        }
    }
}

/// How many items the groups hold, an item in several groups counted in each.
pub open spec fn item_count(groups: Seq<GroupModel>) -> nat
    decreases groups.len(),
{
    if groups.len() == 0 {
        0
    } else {
        item_count(groups.drop_last()) + groups.last().items().len()
    }
}

/// Some of the groups hold no more items than all.
pub proof fn lemma_item_count_take(groups: Seq<GroupModel>, n: int)
    requires
        0 <= n <= groups.len(),
    ensures
        item_count(groups.take(n)) <= item_count(groups),
    decreases groups.len() - n,
{
    if n < groups.len() {
        lemma_item_count_take(groups, n + 1);
        assert(groups.take(n + 1).drop_last() =~= groups.take(n));
    } else {
        assert(groups.take(n) =~= groups);
    }
}

/// Counts the items that the groups hold.
pub fn count_items(groups: &[GroupedItem]) -> (count: u128)
    ensures
        count == item_count(groups.deep_view()),
{
    let ghost all = groups.deep_view();
    let mut count: u128 = 0;
    let mut i: usize = 0;
    while i < groups.len()
        invariant
            i <= groups.len(),
            all == groups.deep_view(),
            count == item_count(all.take(i as int)),
            count <= i * usize::MAX,
        decreases groups.len() - i,
    {
        let items = groups[i].items();
        proof {
            assert(all.take(i + 1).drop_last() =~= all.take(i as int));
            assert(all.take(i + 1).last() == groups@[i as int].deep_view());
            assert(items.deep_view().len() == items.len());
            assert(i * usize::MAX + usize::MAX <= u128::MAX) by (nonlinear_arith)
                requires
                    i < usize::MAX,
                    usize::MAX <= u64::MAX,
            ;
            assert(i * usize::MAX + usize::MAX == (i + 1) * usize::MAX) by (nonlinear_arith);
        }
        count = count + items.len() as u128;
        i += 1;
    }
    assert(all.take(i as int) =~= all);
    count
}

} // verus!
