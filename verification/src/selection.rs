//! Which items may be deleted.

use vstd::prelude::*;
use crate::ancestry::build_ancestor_map;
use crate::ancestry::ItemIndex;
use crate::audience::find_user_with_id;
use crate::audience::Audience;
use crate::history::FavoriteItems;
use crate::history::PlayedItems;
use crate::model::JellyfinUser;
use crate::model::MatchedItem;
use crate::model::MatchedModel;
use crate::model::MediaItem;
use crate::model::MediaModel;
use crate::model::UserModel;
use crate::order::merge_sort;
use crate::text::is_less;
use crate::text::is_same;
use crate::time::days_ago;
use crate::time::parse_date;
use crate::time::Instant;

verus! {

/// Everything that decides which items may be deleted.
pub struct Selection<'a> {
    pub users: &'a [JellyfinUser],
    pub items: &'a [MediaItem],
    pub audience: &'a Audience,
    pub played: &'a PlayedItems,
    pub favorites: &'a FavoriteItems,
    /// Keep what somebody watched within this many days.
    pub min_days_watched_ago: Option<u32>,
    /// The time from which days are counted back.
    pub now: Instant,
}

/// The mathematical view of a `Selection`.
pub struct SelectionModel {
    pub users: Seq<UserModel>,
    pub items: Seq<MediaModel>,
    pub watched_ids: Seq<Seq<char>>,
    pub protected_ids: Seq<Seq<char>>,
    pub played: Map<Seq<char>, Map<Seq<char>, Option<Seq<char>>>>,
    pub favorites: Map<Seq<char>, Set<Seq<char>>>,
    pub min_days_watched_ago: Option<u32>,
    pub now: Instant,
}

impl<'a> DeepView for Selection<'a> {
    type V = SelectionModel;

    open spec fn deep_view(&self) -> SelectionModel {
        SelectionModel {
            users: self.users.deep_view(),
            items: self.items.deep_view(),
            watched_ids: self.audience.watched_ids.deep_view(),
            protected_ids: self.audience.protected_ids.deep_view(),
            played: self.played@,
            favorites: self.favorites@,
            min_days_watched_ago: self.min_days_watched_ago,
            now: self.now,
        }
    }
}

/// The last of `dates` in the order of text, which for dates written alike is the
/// order of time.
pub open spec fn latest(dates: Seq<Seq<char>>) -> Option<Seq<char>>
    decreases dates.len(),
{
    if dates.len() == 0 {
        None
    } else {
        match latest(dates.drop_last()) {
            Some(date) if !crate::text::text_less(date, dates.last()) => Some(date),
            _ => Some(dates.last()),
        }
    }
}

impl SelectionModel {
    /// Whether the user has played the item.
    pub open spec fn has_played(self, user_id: Seq<char>, item_id: Seq<char>) -> bool {
        self.played.contains_key(user_id) && self.played[user_id].contains_key(item_id)
    }

    /// Whether every user who must have watched the item has.
    pub open spec fn watched_by_all(self, item: MediaModel) -> bool {
        forall|k: int|
            0 <= k < self.watched_ids.len() ==> self.has_played(
                #[trigger] self.watched_ids[k],
                item.id,
            )
    }

    /// The date on which a user last played the item.
    pub open spec fn date_of(self, item_id: Seq<char>) -> spec_fn(Seq<char>) -> Option<Seq<char>> {
        |user_id: Seq<char>| self.played[user_id][item_id]
    }

    /// The name of the user with an id.
    pub open spec fn name_of(self) -> spec_fn(Seq<char>) -> Option<Seq<char>> {
        |user_id: Seq<char>|
            match crate::audience::user_with_id(self.users, user_id) {
                Some(user) => Some(user.name),
                None => None,
            }
    }

    /// The date that is given for the item: of the dates on which those who must have
    /// watched it last played it, the last in the order of text.
    pub open spec fn last_watched(self, item: MediaModel) -> Option<Seq<char>> {
        latest(self.watched_ids.filter_map(self.date_of(item.id)))
    }

    /// Whether the user played the item less than `min_days` days before now. A date
    /// that is unknown or cannot be read does not count.
    pub open spec fn played_lately(self, user_id: Seq<char>, item_id: Seq<char>, min_days: u32) -> bool {
        match self.date_of(item_id)(user_id) {
            Some(date) => match crate::time::days_before(date, self.now) {
                Some(days) => days < min_days,
                None => false,
            },
            None => false,
        }
    }

    /// Whether the item was watched long enough ago: the date of some play is known,
    /// and no watcher's play that can be dated is less than the given days old.
    pub open spec fn long_ago(self, item: MediaModel) -> bool {
        match self.min_days_watched_ago {
            Some(min_days) => self.last_watched(item) is Some && forall|k: int|
                0 <= k < self.watched_ids.len() ==> !self.played_lately(
                    #[trigger] self.watched_ids[k],
                    item.id,
                    min_days,
                ),
            None => true,
        }
    }

    /// The ids above the items with the id of `item`.
    pub open spec fn above(self, item: MediaModel) -> Seq<Seq<char>> {
        crate::ancestry::lineage(
            self.items,
            crate::ancestry::last_parent(self.items, item.id),
        )
    }

    /// Whether the item, or one above it, is a favorite of the user.
    pub open spec fn keeps(self, user_id: Seq<char>, item: MediaModel) -> bool {
        self.favorites.contains_key(user_id) && (self.favorites[user_id].contains(item.id)
            || exists|k: int|
            0 <= k < self.above(item).len() && self.favorites[user_id].contains(
                #[trigger] self.above(item)[k],
            ))
    }

    /// Whether some protecting user keeps the item.
    pub open spec fn is_protected(self, item: MediaModel) -> bool {
        exists|k: int|
            0 <= k < self.protected_ids.len() && self.keeps(#[trigger] self.protected_ids[k], item)
    }

    /// Whether the item may be deleted.
    pub open spec fn is_deletable(self, item: MediaModel) -> bool {
        self.watched_by_all(item) && self.long_ago(item) && !self.is_protected(item)
    }

    /// What is kept of an item that may be deleted.
    pub open spec fn describe(self, item: MediaModel) -> MatchedModel {
        let above = crate::ancestry::lineage(self.items, item.parent_id);
        MatchedModel {
            id: item.id,
            name: item.name,
            item_type: item.item_type,
            path: match item.path {
                Some(path) => path,
                None => Seq::empty(),
            },
            last_played_date: self.last_watched(item),
            played_by: self.watched_ids.filter_map(self.name_of()),
            protected_by: Seq::empty(),
            size: item.size(),
            series_name: if item.is_episode() {
                match crate::ancestry::first_series(self.items, above) {
                    Some(series) => Some(series.name),
                    None => None,
                }
            } else {
                None
            },
            season_number: item.parent_index_number,
            episode_number: item.index_number,
            series_id: if item.is_episode() {
                crate::ancestry::series_above(self.items, above)
            } else {
                None
            },
            season_id: if item.is_episode() {
                crate::ancestry::season_above(self.items, above)
            } else {
                None
            },
        }
    }

    /// An item that may be deleted, described.
    pub open spec fn matched(self) -> spec_fn(MediaModel) -> Option<MatchedModel> {
        |item: MediaModel|
            if self.is_deletable(item) {
                Some(self.describe(item))
            } else {
                None
            }
    }

    /// What is said of an item that was watched long enough ago by the dates that can
    /// be read, where the last date cannot.
    pub open spec fn warning(self) -> spec_fn(MediaModel) -> Option<Seq<char>> {
        |item: MediaModel|
            if self.watched_by_all(item) && self.min_days_watched_ago is Some && self.long_ago(
                item,
            ) {
                match self.last_watched(item) {
                    Some(date) if crate::time::instant_of(date) is None => Some(
                        unreadable_date_text(date, item.name),
                    ),
                    _ => None,
                }
            } else {
                None
            }
    }
}

/// The warning of a date that cannot be read.
pub open spec fn unreadable_date_text(date: Seq<char>, name: Seq<char>) -> Seq<char> {
    "Warning: Could not parse date '"@ + date + "' for item '"@ + name + "', including anyway"@
}

/// The items that may be deleted, and what the user should be warned of.
#[derive(Debug)]
pub struct Deletable {
    pub items: Vec<MatchedItem>,
    pub warnings: Vec<String>,
}

/// Who has watched an item, and when it was last watched.
struct Watch {
    played_by: Vec<String>,
    last_played_date: Option<String>,
}

/// What the dates say of an item.
enum Age {
    LongAgo,
    Unreadable(String),
    Recent,
}

fn unreadable_date_warning(date: &String, name: &String) -> (text: String)
    ensures
        text@ == unreadable_date_text(date@, name@),
{
    let mut text = String::new();
    text.append("Warning: Could not parse date '");
    text.append(date.as_str());
    text.append("' for item '");
    text.append(name.as_str());
    text.append("', including anyway");
    assert(text@ =~= unreadable_date_text(date@, name@));
    text
}

impl<'a> Selection<'a> {
    /// Who has watched the item, if all have who must.
    fn watch(&self, item: &MediaItem) -> (watch: Option<Watch>)
        ensures
            watch is Some <==> self.deep_view().watched_by_all(item.deep_view()),
            watch matches Some(w) ==> {
                &&& w.played_by.deep_view() == self.deep_view().watched_ids.filter_map(
                    self.deep_view().name_of(),
                )
                &&& w.last_played_date.deep_view() == self.deep_view().last_watched(
                    item.deep_view(),
                )
            },
    {
        let ghost model = self.deep_view();
        let ghost date_of = model.date_of(item.id@);
        let ghost name_of = model.name_of();
        let watched_ids = &self.audience.watched_ids;
        let ghost ids = watched_ids.deep_view();
        let mut played_by: Vec<String> = Vec::new();
        let mut last_played_date: Option<String> = None;
        let mut k: usize = 0;
        assert(played_by.deep_view() =~= ids.take(0).filter_map(name_of));
        while k < watched_ids.len()
            invariant
                k <= watched_ids.len(),
                *watched_ids == self.audience.watched_ids,
                model == self.deep_view(),
                ids == model.watched_ids,
                date_of == model.date_of(item.id@),
                name_of == model.name_of(),
                forall|j: int| 0 <= j < k ==> model.has_played(#[trigger] ids[j], item.id@),
                played_by.deep_view() == ids.take(k as int).filter_map(name_of),
                last_played_date.deep_view() == latest(ids.take(k as int).filter_map(date_of)),
            decreases watched_ids.len() - k,
        {
            let user_id = &watched_ids[k];
            let ghost names = played_by.deep_view();
            let ghost dates = ids.take(k as int).filter_map(date_of);
            proof {
                ids.lemma_filter_map_take_succ(name_of, k as int);
                ids.lemma_filter_map_take_succ(date_of, k as int);
                assert(ids[k as int] == user_id@);
            }
            match self.played.play(user_id.as_str(), item.id.as_str()) {
                Some(date) => {
                    match find_user_with_id(self.users, user_id) {
                        Some(user) => {
                            played_by.push(user.name.clone());
                            assert(played_by.deep_view() =~= names + seq![user.name@]);
                        },
                        None => {
                            assert(played_by.deep_view() =~= names + Seq::empty());
                        },
                    }
                    match date {
                        Some(d) => {
                            let later: bool = match &last_played_date {
                                Some(known) => is_less(known.as_str(), d.as_str()),
                                None => true,
                            };
                            if later {
                                last_played_date = Some(d.clone());
                            }
                            proof {
                                let more = dates + seq![d@];
                                assert(more.drop_last() =~= dates);
                                assert(more.last() == d@);
                            }
                        },
                        None => {
                            assert(dates + Seq::empty() =~= dates);
                        },
                    }
                },
                None => {
                    assert(!model.has_played(model.watched_ids[k as int], item.id@));
                    return None;
                },
            }
            k += 1;
        }
        assert(ids.take(k as int) =~= ids);
        Some(Watch { played_by, last_played_date })
    }

    /// Whether some watcher played the item less than `min_days` days ago.
    fn is_recent(&self, item_id: &String, min_days: u32) -> (recent: bool)
        requires
            self.now.valid(),
            forall|k: int|
                0 <= k < self.deep_view().watched_ids.len() ==> self.deep_view().has_played(
                    #[trigger] self.deep_view().watched_ids[k],
                    item_id@,
                ),
        ensures
            recent <==> exists|k: int|
                0 <= k < self.deep_view().watched_ids.len() && self.deep_view().played_lately(
                    #[trigger] self.deep_view().watched_ids[k],
                    item_id@,
                    min_days,
                ),
    {
        let ghost model = self.deep_view();
        let watched_ids = &self.audience.watched_ids;
        let mut k: usize = 0;
        while k < watched_ids.len()
            invariant
                k <= watched_ids.len(),
                *watched_ids == self.audience.watched_ids,
                model == self.deep_view(),
                self.now.valid(),
                forall|j: int|
                    0 <= j < model.watched_ids.len() ==> model.has_played(
                        #[trigger] model.watched_ids[j],
                        item_id@,
                    ),
                forall|j: int|
                    0 <= j < k ==> !model.played_lately(
                        #[trigger] model.watched_ids[j],
                        item_id@,
                        min_days,
                    ),
            decreases watched_ids.len() - k,
        {
            let user_id = &watched_ids[k];
            assert(model.watched_ids[k as int] == user_id@);
            let mut recent: bool = false;
            match self.played.play(user_id.as_str(), item_id.as_str()) {
                Some(Some(date)) => {
                    match days_ago(date.as_str(), self.now) {
                        Some(days) => {
                            recent = days < min_days as i64;
                        },
                        None => {},
                    }
                },
                _ => {},
            }
            assert(recent == model.played_lately(model.watched_ids[k as int], item_id@, min_days));
            if recent {
                return true;
            }
            k += 1;
        }
        false
    }

    /// What the dates say of an item that all have watched who must.
    fn age(&self, item: &MediaItem, last_played_date: &Option<String>) -> (age: Age)
        requires
            self.now.valid(),
            self.deep_view().watched_by_all(item.deep_view()),
            last_played_date.deep_view() == self.deep_view().last_watched(item.deep_view()),
        ensures
            age is Recent <==> !self.deep_view().long_ago(item.deep_view()),
            age is Unreadable <==> self.min_days_watched_ago is Some && self.deep_view().long_ago(
                item.deep_view(),
            ) && crate::time::instant_of(last_played_date->0@) is None,
            age matches Age::Unreadable(date) ==> last_played_date.deep_view() == Some(date@),
    {
        match self.min_days_watched_ago {
            Some(min_days) => match last_played_date {
                Some(date) => {
                    if self.is_recent(&item.id, min_days) {
                        Age::Recent
                    } else {
                        match parse_date(date.as_str()) {
                            Some(_) => Age::LongAgo,
                            None => Age::Unreadable(date.clone()),
                        }
                    }
                },
                None => Age::Recent,
            },
            None => Age::LongAgo,
        }
    }

    /// Whether some protecting user keeps an item with the id `id` and `above` above
    /// it.
    fn is_kept(&self, id: &String, above: Option<&Vec<String>>) -> (kept: bool)
        ensures
            forall|item: MediaModel|
                item.id == id@ && #[trigger] self.deep_view().above(item) == (match above {
                    Some(ids) => ids.deep_view(),
                    None => Seq::<Seq<char>>::empty(),
                }) ==> kept == self.deep_view().is_protected(item),
    {
        let ghost model = self.deep_view();
        let ghost above_ids = match above {
            Some(ids) => ids.deep_view(),
            None => Seq::<Seq<char>>::empty(),
        };
        let protected_ids = &self.audience.protected_ids;
        let mut k: usize = 0;
        while k < protected_ids.len()
            invariant
                k <= protected_ids.len(),
                *protected_ids == self.audience.protected_ids,
                model == self.deep_view(),
                above_ids == (match above {
                    Some(ids) => ids.deep_view(),
                    None => Seq::<Seq<char>>::empty(),
                }),
                forall|j: int, item: MediaModel|
                    #![trigger model.keeps(model.protected_ids[j], item)]
                    0 <= j < k && item.id == id@ && model.above(item) == above_ids
                        ==> !model.keeps(model.protected_ids[j], item),
            decreases protected_ids.len() - k,
        {
            let user_id = &protected_ids[k];
            let ghost user = user_id@;
            assert(model.protected_ids[k as int] == user);
            if self.favorites.is_favorite(user_id.as_str(), id.as_str()) {
                proof {
                    assert forall|item: MediaModel|
                        item.id == id@ && #[trigger] model.above(item)
                            == above_ids implies model.is_protected(item) by {
                        assert(model.keeps(model.protected_ids[k as int], item));
                    }
                }
                return true;
            }
            match above {
                Some(ids) => {
                    let mut n: usize = 0;
                    while n < ids.len()
                        invariant
                            n <= ids.len(),
                            k < protected_ids.len(),
                            *protected_ids == self.audience.protected_ids,
                            model == self.deep_view(),
                            above_ids == ids.deep_view(),
                            above == Some(ids),
                            user == user_id@,
                            model.protected_ids[k as int] == user,
                            forall|j: int|
                                0 <= j < n ==> !(model.favorites.contains_key(user)
                                    && model.favorites[user].contains(#[trigger] above_ids[j])),
                        decreases ids.len() - n,
                    {
                        if self.favorites.is_favorite(user_id.as_str(), ids[n].as_str()) {
                            proof {
                                assert(above_ids[n as int] == ids[n as int]@);
                                assert forall|item: MediaModel|
                                    item.id == id@ && #[trigger] model.above(item)
                                        == above_ids implies model.is_protected(item) by {
                                    assert(model.favorites[user].contains(
                                        model.above(item)[n as int],
                                    ));
                                    assert(model.keeps(model.protected_ids[k as int], item));
                                }
                            }
                            return true;
                        }
                        assert(above_ids[n as int] == ids[n as int]@);
                        n += 1;
                    }
                },
                None => {},
            }
            k += 1;
        }
        false
    }
}

/// The name of the first series above.
fn series_name(index: &ItemIndex, above: &Vec<String>) -> (name: Option<String>)
    requires
        index.wf(),
    ensures
        name.deep_view() == match crate::ancestry::first_series(index.items(), above.deep_view()) {
            Some(series) => Some(series.name),
            None => None,
        },
{
    let ghost all = index.items();
    let ghost ids = above.deep_view();
    let mut k: usize = 0;
    assert(ids.skip(0) =~= ids);
    while k < above.len()
        invariant
            k <= above.len(),
            index.wf(),
            all == index.items(),
            ids == above.deep_view(),
            crate::ancestry::first_series(all, ids) == crate::ancestry::first_series(
                all,
                ids.skip(k as int),
            ),
        decreases above.len() - k,
    {
        assert(ids.skip(k as int).drop_first() =~= ids.skip(k + 1));
        assert(ids.skip(k as int)[0] == above[k as int]@);
        match index.get(above[k].as_str()) {
            Some(item) => {
                if is_same(item.item_type.as_str(), "Series") {
                    return Some(item.name.clone());
                }
            },
            None => {},
        }
        k += 1;
    }
    None
}

/// What is kept of an item that may be deleted.
fn describe(index: &ItemIndex, item: &MediaItem, watch: Watch) -> (description: MatchedItem)
    requires
        index.wf(),
    ensures
        forall|model: SelectionModel|
            model.items == index.items() && #[trigger] model.last_watched(item.deep_view())
                == watch.last_played_date.deep_view() && model.watched_ids.filter_map(
                model.name_of(),
            ) == watch.played_by.deep_view() ==> description.deep_view() == model.describe(
                item.deep_view(),
            ),
{
    let mut name: Option<String> = None;
    let mut series_id: Option<String> = None;
    let mut season_id: Option<String> = None;
    if is_same(item.item_type.as_str(), "Episode") {
        let above = index.lineage(&item.parent_id);
        name = series_name(index, &above);
        season_id = index.season_above(&above);
        series_id = index.series_above(&above);
    }
    let path = match &item.path {
        Some(path) => path.clone(),
        None => String::new(),
    };
    let description = MatchedItem {
        id: item.id.clone(),
        name: item.name.clone(),
        item_type: item.item_type.clone(),
        path,
        last_played_date: watch.last_played_date,
        played_by: watch.played_by,
        protected_by: Vec::new(),
        size: item.size(),
        series_name: name,
        season_number: item.parent_index_number,
        episode_number: item.index_number,
        series_id,
        season_id,
    };
    assert(description.protected_by.deep_view() =~= Seq::<Seq<char>>::empty());
    description
}

/// Finds the items that may be deleted, the largest first.
///
/// An item may be deleted if every user who must have watched it has, if each of these
/// plays was long enough ago, as far as its date can be read, and if neither it nor anything above it is a
/// favorite of a protecting user.
pub fn find_deletable_items(selection: &Selection) -> (found: Deletable)
    requires
        selection.now.valid(),
    ensures
        crate::order::is_stable_sort(
            selection.deep_view().items.filter_map(selection.deep_view().matched()),
            found.items.deep_view(),
            crate::model::larger_first(),
        ),
        found.warnings.deep_view() == selection.deep_view().items.filter_map(
            selection.deep_view().warning(),
        ),
{
    let ghost model = selection.deep_view();
    let ghost all = model.items;
    let items = selection.items;
    let ancestors = build_ancestor_map(items);
    let index = ItemIndex::new(items);
    let mut matched: Vec<MatchedItem> = Vec::new();
    let mut warnings: Vec<String> = Vec::new();
    let mut i: usize = 0;
    assert(matched.deep_view() =~= all.take(0).filter_map(model.matched()));
    assert(warnings.deep_view() =~= all.take(0).filter_map(model.warning()));
    while i < items.len()
        invariant
            i <= items.len(),
            items == selection.items,
            selection.now.valid(),
            model == selection.deep_view(),
            all == model.items,
            all == items.deep_view(),
            index.wf(),
            index.items() == all,
            forall|id: Seq<char>| #[trigger]
                ancestors@.contains_key(id) <==> crate::ancestry::last_parent(all, id) is Some,
            forall|id: Seq<char>| #[trigger]
                ancestors@.contains_key(id) ==> ancestors@[id].deep_view()
                    == crate::ancestry::lineage(all, crate::ancestry::last_parent(all, id)),
            matched.deep_view() == all.take(i as int).filter_map(model.matched()),
            warnings.deep_view() == all.take(i as int).filter_map(model.warning()),
        decreases items.len() - i,
    {
        let item = &items[i];
        let ghost m = item.deep_view();
        let ghost matched_before = matched.deep_view();
        let ghost warnings_before = warnings.deep_view();
        proof {
            assert(all[i as int] == m);
            all.lemma_filter_map_take_succ(model.matched(), i as int);
            all.lemma_filter_map_take_succ(model.warning(), i as int);
            assert(matched_before + Seq::empty() =~= matched_before);
            assert(warnings_before + Seq::empty() =~= warnings_before);
        }
        match selection.watch(item) {
            Some(watch) => {
                let age = selection.age(item, &watch.last_played_date);
                let mut long_ago: bool = true;
                match age {
                    Age::LongAgo => {},
                    Age::Unreadable(date) => {
                        let warning = unreadable_date_warning(&date, &item.name);
                        warnings.push(warning);
                        assert(warnings.deep_view() =~= warnings_before + seq![warning@]);
                    },
                    Age::Recent => {
                        long_ago = false;
                    },
                }
                if long_ago {
                    let above = ancestors.get(item.id.as_str());
                    proof {
                        if above is None {
                            crate::ancestry::lemma_lineage_exists(all, None);
                            assert(model.above(m) =~= Seq::<Seq<char>>::empty()) by {
                                if model.above(m).len() > 0 {
                                    assert(crate::ancestry::ancestor_at(all, None, 0) == Some(
                                        model.above(m)[0],
                                    ));
                                }
                            }
                        }
                    }
                    if !selection.is_kept(&item.id, above) {
                        let description = describe(&index, item, watch);
                        assert(description.deep_view() == model.describe(m));
                        matched.push(description);
                        assert(matched.deep_view() =~= matched_before + seq![model.describe(m)]);
                    }
                }
            },
            None => {},
        }
        i += 1;
    }
    assert(all.take(i as int) =~= all);
    let ghost unsorted = matched@;
    let sorted = merge_sort(matched);
    proof {
        let f = |item: MatchedItem| item.deep_view();
        assert forall|a: MatchedItem, b: MatchedItem| #[trigger]
            crate::order::rank::<MatchedItem>()(a, b) == crate::model::larger_first()(f(a), f(b)) by {}
        crate::order::lemma_stable_sort_map(
            unsorted,
            sorted@,
            f,
            crate::order::rank::<MatchedItem>(),
            crate::model::larger_first(),
        );
        assert(unsorted.map_values(f) =~= matched.deep_view());
        assert(sorted@.map_values(f) =~= sorted.deep_view());
    }
    Deletable { items: sorted, warnings }
}

} // verus!
