//! Users and media as the server reports them, and what becomes of the media.

use vstd::prelude::*;
use crate::order::Ranked;

verus! {

/// A user of the server.
#[derive(Debug)]
pub struct JellyfinUser {
    pub id: String,
    pub name: String,
}

/// What the server keeps of one user and one item.
#[derive(Debug)]
pub struct UserData {
    pub last_played_date: Option<String>,
}

/// A file behind an item.
#[derive(Debug)]
pub struct MediaSourceInfo {
    pub size: Option<u64>,
}

/// An item of the library: a film, an episode, a season, a series or a folder.
#[derive(Debug)]
pub struct MediaItem {
    pub id: String,
    pub name: String,
    pub item_type: String,
    pub path: Option<String>,
    pub parent_id: Option<String>,
    pub index_number: Option<u32>,
    pub parent_index_number: Option<u32>,
    pub last_played_date: Option<String>,
    pub user_data: Option<UserData>,
    pub media_sources: Option<Vec<MediaSourceInfo>>,
}

/// An item that may be deleted.
#[derive(Debug)]
pub struct MatchedItem {
    pub id: String,
    pub name: String,
    pub item_type: String,
    pub path: String,
    pub last_played_date: Option<String>,
    pub played_by: Vec<String>,
    pub protected_by: Vec<String>,
    pub size: u64,
    pub series_name: Option<String>,
    pub season_number: Option<u32>,
    pub episode_number: Option<u32>,
    pub series_id: Option<String>,
    pub season_id: Option<String>,
}

/// What is shown and deleted together: one item, a season or a series.
#[derive(Debug)]
pub enum GroupedItem {
    Individual(MatchedItem),
    Season { series_name: String, season_number: u32, items: Vec<MatchedItem> },
    Series { series_name: String, total_episodes: u32, seasons: Vec<u32>, items: Vec<MatchedItem> },
}

/// The mathematical view of a `JellyfinUser`.
pub struct UserModel {
    pub id: Seq<char>,
    pub name: Seq<char>,
}

/// The mathematical view of a `MediaItem`. Of the user's data it keeps the date of
/// the last play, of each file the size.
#[verifier::ext_equal]
pub struct MediaModel {
    pub id: Seq<char>,
    pub name: Seq<char>,
    pub item_type: Seq<char>,
    pub path: Option<Seq<char>>,
    pub parent_id: Option<Seq<char>>,
    pub index_number: Option<u32>,
    pub parent_index_number: Option<u32>,
    pub last_played_date: Option<Seq<char>>,
    pub user_data: Option<Option<Seq<char>>>,
    pub media_sources: Option<Seq<Option<u64>>>,
}

/// The mathematical view of a `MatchedItem`.
#[verifier::ext_equal]
pub struct MatchedModel {
    pub id: Seq<char>,
    pub name: Seq<char>,
    pub item_type: Seq<char>,
    pub path: Seq<char>,
    pub last_played_date: Option<Seq<char>>,
    pub played_by: Seq<Seq<char>>,
    pub protected_by: Seq<Seq<char>>,
    pub size: u64,
    pub series_name: Option<Seq<char>>,
    pub season_number: Option<u32>,
    pub episode_number: Option<u32>,
    pub series_id: Option<Seq<char>>,
    pub season_id: Option<Seq<char>>,
}

/// The mathematical view of a `GroupedItem`.
#[verifier::ext_equal]
pub enum GroupModel {
    Individual(MatchedModel),
    Season { series_name: Seq<char>, season_number: u32, items: Seq<MatchedModel> },
    Series {
        series_name: Seq<char>,
        total_episodes: u32,
        seasons: Seq<u32>,
        items: Seq<MatchedModel>,
    },
}

impl DeepView for JellyfinUser {
    type V = UserModel;

    open spec fn deep_view(&self) -> UserModel {
        UserModel { id: self.id@, name: self.name@ }
    }
}

impl DeepView for UserData {
    type V = Option<Seq<char>>;

    open spec fn deep_view(&self) -> Option<Seq<char>> {
        self.last_played_date.deep_view()
    }
}

impl DeepView for MediaSourceInfo {
    type V = Option<u64>;

    open spec fn deep_view(&self) -> Option<u64> {
        self.size
    }
}

impl DeepView for MediaItem {
    type V = MediaModel;

    open spec fn deep_view(&self) -> MediaModel {
        MediaModel {
            id: self.id@,
            name: self.name@,
            item_type: self.item_type@,
            path: self.path.deep_view(),
            parent_id: self.parent_id.deep_view(),
            index_number: self.index_number,
            parent_index_number: self.parent_index_number,
            last_played_date: self.last_played_date.deep_view(),
            user_data: self.user_data.deep_view(),
            media_sources: self.media_sources.deep_view(),
        }
    }
}

impl DeepView for MatchedItem {
    type V = MatchedModel;

    open spec fn deep_view(&self) -> MatchedModel {
        MatchedModel {
            id: self.id@,
            name: self.name@,
            item_type: self.item_type@,
            path: self.path@,
            last_played_date: self.last_played_date.deep_view(),
            played_by: self.played_by.deep_view(),
            protected_by: self.protected_by.deep_view(),
            size: self.size,
            series_name: self.series_name.deep_view(),
            season_number: self.season_number,
            episode_number: self.episode_number,
            series_id: self.series_id.deep_view(),
            season_id: self.season_id.deep_view(),
        }
    }
}

impl DeepView for GroupedItem {
    type V = GroupModel;

    open spec fn deep_view(&self) -> GroupModel {
        match *self {
            GroupedItem::Individual(item) => GroupModel::Individual(item.deep_view()),
            GroupedItem::Season { series_name, season_number, items } => GroupModel::Season {
                series_name: series_name@,
                season_number,
                items: items.deep_view(),
            },
            GroupedItem::Series { series_name, total_episodes, seasons, items } => GroupModel::Series {
                series_name: series_name@,
                total_episodes,
                seasons: seasons@,
                items: items.deep_view(),
            },
        }
    }
}

impl MediaModel {
    pub open spec fn is_episode(self) -> bool {
        self.item_type == "Episode"@
    }

    pub open spec fn is_season(self) -> bool {
        self.item_type == "Season"@
    }

    pub open spec fn is_series(self) -> bool {
        self.item_type == "Series"@
    }

    /// When the item was last played: by the user's own data where they say, else by
    /// the item's.
    pub open spec fn last_played(self) -> Option<Seq<char>> {
        match self.user_data {
            Some(Some(date)) => Some(date),
            _ => self.last_played_date,
        }
    }

    /// The size of the first file that has one; 0 where none has.
    pub open spec fn size(self) -> u64 {
        match self.media_sources {
            Some(sizes) => first_size(sizes),
            None => 0,
        }
    }
}

/// The first size given; 0 where none is.
pub open spec fn first_size(sizes: Seq<Option<u64>>) -> u64
    decreases sizes.len(),
{
    if sizes.len() == 0 {
        0
    } else {
        match sizes[0] {
            Some(size) => size,
            None => first_size(sizes.drop_first()),
        }
    }
}

impl MatchedModel {
    pub open spec fn is_episode(self) -> bool {
        self.item_type == "Episode"@
    }
}

impl GroupModel {
    /// The items of the group.
    pub open spec fn items(self) -> Seq<MatchedModel> {
        match self {
            GroupModel::Individual(item) => seq![item],
            GroupModel::Season { items, .. } => items,
            GroupModel::Series { items, .. } => items,
        }
    }

    /// The size of the items of the group, taken together.
    pub open spec fn total_size(self) -> nat {
        total_size(self.items())
    }
}

/// The size of `items`, taken together.
pub open spec fn total_size(items: Seq<MatchedModel>) -> nat
    decreases items.len(),
{
    if items.len() == 0 {
        0
    } else {
        total_size(items.drop_last()) + items.last().size as nat
    }
}

impl Clone for MatchedItem {
    fn clone(&self) -> (copy: Self)
        ensures
            copy.deep_view() == self.deep_view(),
    {
        let copy = MatchedItem {
            id: self.id.clone(),
            name: self.name.clone(),
            item_type: self.item_type.clone(),
            path: self.path.clone(),
            last_played_date: self.last_played_date.clone(),
            played_by: self.played_by.clone(),
            protected_by: self.protected_by.clone(),
            size: self.size,
            series_name: self.series_name.clone(),
            season_number: self.season_number,
            episode_number: self.episode_number,
            series_id: self.series_id.clone(),
            season_id: self.season_id.clone(),
        };
        assert(copy.deep_view() =~= self.deep_view());
        copy
    }
}

impl Clone for GroupedItem {
    fn clone(&self) -> (copy: Self)
        ensures
            copy.deep_view() == self.deep_view(),
    {
        match self {
            GroupedItem::Individual(item) => GroupedItem::Individual(item.clone()),
            GroupedItem::Season { series_name, season_number, items } => {
                let copy = items.clone();
                assert(copy.deep_view() =~= items.deep_view());
                GroupedItem::Season {
                    series_name: series_name.clone(),
                    season_number: *season_number,
                    items: copy,
                }
            },
            GroupedItem::Series { series_name, total_episodes, seasons, items } => {
                let copy = items.clone();
                assert(copy.deep_view() =~= items.deep_view());
                let numbers = seasons.clone();
                assert(numbers@ =~= seasons@);
                GroupedItem::Series {
                    series_name: series_name.clone(),
                    total_episodes: *total_episodes,
                    seasons: numbers,
                    items: copy,
                }
            },
        }
    }
}

impl MediaItem {
    /// When the item was last played.
    pub fn last_played(&self) -> (date: Option<String>)
        ensures
            date.deep_view() == self.deep_view().last_played(),
    {
        match &self.user_data {
            Some(data) => match &data.last_played_date {
                Some(date) => Some(date.clone()),
                None => self.last_played_date.clone(),
            },
            None => self.last_played_date.clone(),
        }
    }

    /// The size of the first file that has one; 0 where none has.
    pub fn size(&self) -> (size: u64)
        ensures
            size == self.deep_view().size(),
    {
        match &self.media_sources {
            Some(sources) => {
                let ghost sizes = sources.deep_view();
                let mut i: usize = 0;
                assert(sizes.skip(0) =~= sizes);
                while i < sources.len()
                    invariant
                        i <= sources.len(),
                        sizes == sources.deep_view(),
                        self.deep_view().size() == first_size(sizes),
                        first_size(sizes) == first_size(sizes.skip(i as int)),
                    decreases sources.len() - i,
                {
                    assert(sizes.skip(i as int)[0] == sources[i as int].size);
                    assert(sizes.skip(i as int).drop_first() =~= sizes.skip(i + 1));
                    match sources[i].size {
                        Some(size) => {
                            return size;
                        },
                        None => {},
                    }
                    i += 1;
                }
                0
            },
            None => 0,
        }
    }
}

impl GroupedItem {
    /// The items of the group.
    pub fn items(&self) -> (items: Vec<&MatchedItem>)
        ensures
            items.deep_view() == self.deep_view().items(),
    {
        match self {
            GroupedItem::Individual(item) => {
                let mut single: Vec<&MatchedItem> = Vec::new();
                single.push(item);
                assert(single.deep_view() =~= self.deep_view().items());
                single
            },
            GroupedItem::Season { items, .. } => references(items),
            GroupedItem::Series { items, .. } => references(items),
        }
    }

    /// The size of the items of the group, taken together.
    pub fn total_size(&self) -> (size: u128)
        ensures
            size == self.deep_view().total_size(),
            size <= self.deep_view().items().len() * u64::MAX,
    {
        let items = self.items();
        sum_of_sizes(&items)
    }
}

/// The order of items in which none stands before a larger one.
pub open spec fn larger_first() -> spec_fn(MatchedModel, MatchedModel) -> bool {
    |a: MatchedModel, b: MatchedModel| a.size >= b.size
}

/// The order of groups in which none stands before a larger one.
pub open spec fn larger_group_first() -> spec_fn(GroupModel, GroupModel) -> bool {
    |a: GroupModel, b: GroupModel| a.total_size() >= b.total_size()
}

impl Ranked for MatchedItem {
    open spec fn before(self, other: Self) -> bool {
        larger_first()(self.deep_view(), other.deep_view())
    }

    proof fn before_is_total(a: Self, b: Self) {
    }

    proof fn before_is_transitive(a: Self, b: Self, c: Self) {
    }

    fn may_stand_before(&self, other: &Self) -> (answer: bool) {
        self.size >= other.size
    }
}

impl Ranked for GroupedItem {
    open spec fn before(self, other: Self) -> bool {
        larger_group_first()(self.deep_view(), other.deep_view())
    }

    proof fn before_is_total(a: Self, b: Self) {
    }

    proof fn before_is_transitive(a: Self, b: Self, c: Self) {
    }

    fn may_stand_before(&self, other: &Self) -> (answer: bool) {
        self.total_size() >= other.total_size()
    }
}

fn references(items: &Vec<MatchedItem>) -> (all: Vec<&MatchedItem>)
    ensures
        all.deep_view() == items.deep_view(),
{
    let mut all: Vec<&MatchedItem> = Vec::new();
    let mut i: usize = 0;
    while i < items.len()
        invariant
            i <= items.len(),
            all.deep_view() == items.deep_view().take(i as int),
        decreases items.len() - i,
    {
        let ghost before = all.deep_view();
        all.push(&items[i]);
        assert(all.deep_view() =~= before.push(items.deep_view()[i as int]));
        assert(items.deep_view().take(i + 1) =~= before.push(items.deep_view()[i as int]));
        i += 1;
    }
    assert(items.deep_view().take(i as int) =~= items.deep_view());
    all
}

fn sum_of_sizes(items: &Vec<&MatchedItem>) -> (size: u128)
    ensures
        size == total_size(items.deep_view()),
        size <= items.len() * u64::MAX,
{
    let mut size: u128 = 0;
    let mut i: usize = 0;
    while i < items.len()
        invariant
            i <= items.len(),
            size == total_size(items.deep_view().take(i as int)),
            size <= i * u64::MAX,
        decreases items.len() - i,
    {
        assert(items.deep_view().take(i + 1).drop_last() =~= items.deep_view().take(i as int));
        assert(i * u64::MAX + u64::MAX <= 0xffff_ffff_ffff_ffff_ffff_ffff_ffff_ffff) by (nonlinear_arith)
            requires
                i < usize::MAX,
                usize::MAX <= u64::MAX,
        ;
        size = size + items[i].size as u128;
        assert(i * u64::MAX + u64::MAX == (i + 1) * u64::MAX) by (nonlinear_arith);
        i += 1;
    }
    assert(items.deep_view().take(i as int) =~= items.deep_view());
    size
}

} // verus!
