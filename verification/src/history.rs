//! What each user has played and marked as favorite.

use vstd::prelude::*;
use vstd::hash_map::StringHashMap;
use vstd::hash_set::StringHashSet;
use crate::model::MediaItem;
use crate::model::MediaModel;

verus! {

/// The ids of `items`, each with the date on which the item was last played. Where
/// an id occurs more than once the last item with it counts.
pub open spec fn play_dates(items: Seq<MediaModel>) -> Map<Seq<char>, Option<Seq<char>>> {
    Map::new(
        |id: Seq<char>| crate::ancestry::lookup(items, id) is Some,
        |id: Seq<char>| (crate::ancestry::lookup(items, id)->0).last_played(),
    )
}

/// The ids of `items`.
pub open spec fn item_ids(items: Seq<MediaModel>) -> Set<Seq<char>> {
    items.map_values(|item: MediaModel| item.id).to_set()
}

/// For each user the items played, with the dates of the last plays.
pub struct PlayedItems {
    by_user: StringHashMap<StringHashMap<Option<String>>>,
}

/// For each user the favorites.
pub struct FavoriteItems {
    by_user: StringHashMap<StringHashSet>,
}

spec fn dates_view(dates: StringHashMap<Option<String>>) -> Map<Seq<char>, Option<Seq<char>>> {
    dates@.map_values(|date: Option<String>| date.deep_view())
}

impl View for PlayedItems {
    type V = Map<Seq<char>, Map<Seq<char>, Option<Seq<char>>>>;

    closed spec fn view(&self) -> Self::V {
        self.by_user@.map_values(|dates: StringHashMap<Option<String>>| dates_view(dates))
    }
}

impl View for FavoriteItems {
    type V = Map<Seq<char>, Set<Seq<char>>>;

    closed spec fn view(&self) -> Self::V {
        self.by_user@.map_values(|ids: StringHashSet| ids@)
    }
}

impl PlayedItems {
    pub fn new() -> (played: Self)
        ensures
            played@ == Map::<Seq<char>, Map<Seq<char>, Option<Seq<char>>>>::empty(),
    {
        let played = PlayedItems { by_user: StringHashMap::new() };
        assert(played@ =~= Map::empty());
        played
    }

    /// Records that `items` are what the user has played.
    pub fn record(&mut self, user_id: String, items: &[MediaItem])
        ensures
            final(self)@ == old(self)@.insert(user_id@, play_dates(items.deep_view())),
    {
        let ghost all = items.deep_view();
        let mut dates: StringHashMap<Option<String>> = StringHashMap::new();
        let mut i: usize = 0;
        assert(dates_view(dates) =~= play_dates(all.take(0)));
        while i < items.len()
            invariant
                i <= items.len(),
                all == items.deep_view(),
                dates_view(dates) == play_dates(all.take(i as int)),
            decreases items.len() - i,
        {
            let ghost before = dates_view(dates);
            let ghost item = all[i as int];
            dates.insert(items[i].id.clone(), items[i].last_played());
            proof {
                assert(all.take(i + 1).drop_last() =~= all.take(i as int));
                assert(dates_view(dates) =~= before.insert(item.id, item.last_played()));
                assert(play_dates(all.take(i + 1)) =~= before.insert(item.id, item.last_played()));
            }
            i += 1;
        }
        assert(all.take(i as int) =~= all);
        self.by_user.insert(user_id, dates);
        assert(self@ =~= old(self)@.insert(user_id@, play_dates(all)));
    }

    /// Whether the user has played the item: if so, the date of the last play where
    /// it is known.
    pub fn play<'a>(&'a self, user_id: &str, item_id: &str) -> (play: Option<&'a Option<String>>)
        ensures
            match play {
                Some(date) => self@.contains_key(user_id@) && self@[user_id@].contains_key(item_id@)
                    && self@[user_id@][item_id@] == date.deep_view(),
                None => !(self@.contains_key(user_id@) && self@[user_id@].contains_key(item_id@)),
            },
    {
        match self.by_user.get(user_id) {
            Some(dates) => dates.get(item_id),
            None => None,
        }
    }

    /// How many items the user has played; 0 where nothing is recorded.
    pub fn count(&self, user_id: &str) -> (count: usize)
        ensures
            count == if self@.contains_key(user_id@) {
                self@[user_id@].len()
            } else {
                0
            },
    {
        match self.by_user.get(user_id) {
            Some(dates) => {
                assert(dates_view(*dates).dom() =~= dates@.dom());
                dates.len()
            },
            None => 0,
        }
    }
}

impl FavoriteItems {
    pub fn new() -> (favorites: Self)
        ensures
            favorites@ == Map::<Seq<char>, Set<Seq<char>>>::empty(),
    {
        let favorites = FavoriteItems { by_user: StringHashMap::new() };
        assert(favorites@ =~= Map::empty());
        favorites
    }

    /// Records that `items` are the user's favorites.
    pub fn record(&mut self, user_id: String, items: &[MediaItem])
        ensures
            final(self)@ == old(self)@.insert(user_id@, item_ids(items.deep_view())),
    {
        let ghost all = items.deep_view();
        let mut ids: StringHashSet = StringHashSet::new();
        let mut i: usize = 0;
        assert(ids@ =~= item_ids(all.take(0)));
        while i < items.len()
            invariant
                i <= items.len(),
                all == items.deep_view(),
                ids@ == item_ids(all.take(i as int)),
            decreases items.len() - i,
        {
            ids.insert(items[i].id.clone());
            proof {
                let f = |item: MediaModel| item.id;
                assert(all.take(i + 1) =~= all.take(i as int).push(all[i as int]));
                all.take(i as int).lemma_push_map_commute(f, all[i as int]);
                all.take(i as int).map_values(f).lemma_push_to_set_commute(all[i as int].id);
            }
            i += 1;
        }
        assert(all.take(i as int) =~= all);
        self.by_user.insert(user_id, ids);
        assert(self@ =~= old(self)@.insert(user_id@, item_ids(all)));
    }

    /// Whether the item is recorded as a favorite of the user.
    pub fn is_favorite(&self, user_id: &str, item_id: &str) -> (answer: bool)
        ensures
            answer == (self@.contains_key(user_id@) && self@[user_id@].contains(item_id@)),
    {
        match self.by_user.get(user_id) {
            Some(ids) => ids.contains(item_id),
            None => false,
        }
    }
}

} // verus!
