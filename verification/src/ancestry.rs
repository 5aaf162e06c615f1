//! The parents of an item, up to the top of the library.

use vstd::prelude::*;
use vstd::hash_map::StringHashMap;
use crate::model::MediaItem;
use crate::model::MediaModel;
use crate::text::is_same;

verus! {

/// The item with the id `id`; the last one where several have it.
pub open spec fn lookup(items: Seq<MediaModel>, id: Seq<char>) -> Option<MediaModel>
    decreases items.len(),
{
    if items.len() == 0 {
        None
    } else if items.last().id == id {
        Some(items.last())
    } else {
        lookup(items.drop_last(), id)
    }
}

/// The parent of the item with the id `id`.
pub open spec fn parent_of(items: Seq<MediaModel>, id: Seq<char>) -> Option<Seq<char>> {
    match lookup(items, id) {
        Some(item) => item.parent_id,
        None => None,
    }
}

/// The id that is met `n` steps up from `start`.
pub open spec fn ancestor_at(
    items: Seq<MediaModel>,
    start: Option<Seq<char>>,
    n: nat,
) -> Option<Seq<char>>
    decreases n,
{
    if n == 0 {
        start
    } else {
        match ancestor_at(items, start, (n - 1) as nat) {
            Some(id) => parent_of(items, id),
            None => None,
        }
    }
}

/// Whether `ids` are the ids met from `start` upwards, each once, until there is no
/// parent or one comes round again.
pub open spec fn is_lineage(
    items: Seq<MediaModel>,
    start: Option<Seq<char>>,
    ids: Seq<Seq<char>>,
) -> bool {
    &&& forall|k: int|
        0 <= k < ids.len() ==> ancestor_at(items, start, k as nat) == Some(#[trigger] ids[k])
    &&& ids.no_duplicates()
    &&& match ancestor_at(items, start, ids.len()) {
        Some(id) => ids.contains(id),
        None => true,
    }
}

/// The ids met from `start` upwards, each once.
pub open spec fn lineage(items: Seq<MediaModel>, start: Option<Seq<char>>) -> Seq<Seq<char>> {
    choose|ids: Seq<Seq<char>>| is_lineage(items, start, ids)
}

/// The parent of the last item with the id `id` that has one.
pub open spec fn last_parent(items: Seq<MediaModel>, id: Seq<char>) -> Option<Seq<char>>
    decreases items.len(),
{
    if items.len() == 0 {
        None
    } else if items.last().id == id && items.last().parent_id is Some {
        items.last().parent_id
    } else {
        last_parent(items.drop_last(), id)
    }
}

/// The first of `ids` that is a series.
pub open spec fn first_series(items: Seq<MediaModel>, ids: Seq<Seq<char>>) -> Option<MediaModel>
    decreases ids.len(),
{
    if ids.len() == 0 {
        None
    } else {
        match lookup(items, ids[0]) {
            Some(item) if item.is_series() => Some(item),
            _ => first_series(items, ids.drop_first()),
        }
    }
}

/// How many of `ids`, from the first on, are seasons.
pub open spec fn leading_seasons(items: Seq<MediaModel>, ids: Seq<Seq<char>>) -> nat
    decreases ids.len(),
{
    if ids.len() == 0 {
        0
    } else {
        match lookup(items, ids[0]) {
            Some(item) if item.is_season() => 1 + leading_seasons(items, ids.drop_first()),
            _ => 0,
        }
    }
}

/// The season that an item with the lineage `ids` belongs to: the topmost of the
/// seasons right above it.
pub open spec fn season_above(items: Seq<MediaModel>, ids: Seq<Seq<char>>) -> Option<Seq<char>> {
    let seasons = leading_seasons(items, ids);
    if seasons > 0 {
        Some(ids[seasons - 1])
    } else {
        None
    }
}

/// The series that an item with the lineage `ids` belongs to: the one right above
/// its seasons.
pub open spec fn series_above(items: Seq<MediaModel>, ids: Seq<Seq<char>>) -> Option<Seq<char>> {
    let seasons = leading_seasons(items, ids);
    if seasons < ids.len() {
        match lookup(items, ids[seasons as int]) {
            Some(item) if item.is_series() => Some(ids[seasons as int]),
            _ => None,
        }
    } else {
        None
    }
}

/// What is looked up is among the items and has the id.
pub proof fn lemma_lookup(items: Seq<MediaModel>, id: Seq<char>)
    ensures
        match lookup(items, id) {
            Some(item) => items.contains(item) && item.id == id,
            None => forall|i: int| 0 <= i < items.len() ==> (#[trigger] items[i]).id != id,
        },
    decreases items.len(),
{
    if items.len() > 0 {
        let rest = items.drop_last();
        lemma_lookup(rest, id);
        if items.last().id == id {
            assert(items[items.len() - 1] == items.last());
        } else {
            match lookup(rest, id) {
                Some(item) => {
                    let k = choose|k: int| 0 <= k < rest.len() && rest[k] == item;
                    assert(items[k] == item);
                },
                None => {
                    assert forall|i: int| 0 <= i < items.len() implies (#[trigger] items[i]).id
                        != id by {
                        if i < rest.len() {
                            assert(rest[i] == items[i]);
                        }
                    }
                },
            }
        }
    }
}

/// Distinct ids that are all looked up are no more than there are items.
proof fn lemma_known_ids_bounded(items: Seq<MediaModel>, ids: Seq<Seq<char>>)
    requires
        ids.no_duplicates(),
        forall|k: int| 0 <= k < ids.len() ==> lookup(items, #[trigger] ids[k]) is Some,
    ensures
        ids.len() <= items.len(),
{
    let known = items.map_values(|m: MediaModel| m.id);
    assert forall|id: Seq<char>| #[trigger] ids.to_set().contains(id) implies known.to_set().contains(
        id,
    ) by {
        let k = choose|k: int| 0 <= k < ids.len() && ids[k] == id;
        lemma_lookup(items, ids[k]);
        let item = lookup(items, ids[k])->0;
        let i = choose|i: int| 0 <= i < items.len() && items[i] == item;
        assert(known[i] == id);
    }
    ids.unique_seq_to_set();
    known.lemma_cardinality_of_set();
    vstd::set_lib::lemma_len_subset(ids.to_set(), known.to_set());
}

/// Two lineages from the same start are equal.
pub proof fn lemma_lineage_unique(
    items: Seq<MediaModel>,
    start: Option<Seq<char>>,
    one: Seq<Seq<char>>,
    other: Seq<Seq<char>>,
)
    requires
        is_lineage(items, start, one),
        is_lineage(items, start, other),
    ensures
        one == other,
{
    lemma_lineage_not_longer(items, start, one, other);
    lemma_lineage_not_longer(items, start, other, one);
    assert forall|k: int| 0 <= k < one.len() implies one[k] == other[k] by {
        assert(ancestor_at(items, start, k as nat) == Some(one[k]));
        assert(ancestor_at(items, start, k as nat) == Some(other[k]));
    }
    assert(one =~= other);
}

proof fn lemma_lineage_not_longer(
    items: Seq<MediaModel>,
    start: Option<Seq<char>>,
    short: Seq<Seq<char>>,
    long: Seq<Seq<char>>,
)
    requires
        is_lineage(items, start, short),
        is_lineage(items, start, long),
    ensures
        long.len() <= short.len(),
{
    if short.len() < long.len() {
        let n = short.len() as int;
        assert(ancestor_at(items, start, n as nat) == Some(long[n]));
        assert(short.contains(long[n]));
        let k = choose|k: int| 0 <= k < short.len() && short[k] == long[n];
        assert(ancestor_at(items, start, k as nat) == Some(short[k]));
        assert(ancestor_at(items, start, k as nat) == Some(long[k]));
        assert(long[k] == long[n]);
    }
}

/// Every start has a lineage.
pub proof fn lemma_lineage_exists(items: Seq<MediaModel>, start: Option<Seq<char>>)
    ensures
        is_lineage(items, start, lineage(items, start)),
{
    lemma_lineage_extends(items, start, Seq::empty());
}

proof fn lemma_lineage_extends(
    items: Seq<MediaModel>,
    start: Option<Seq<char>>,
    ids: Seq<Seq<char>>,
)
    requires
        ids.no_duplicates(),
        forall|k: int|
            0 <= k < ids.len() ==> ancestor_at(items, start, k as nat) == Some(#[trigger] ids[k]),
    ensures
        exists|all: Seq<Seq<char>>| is_lineage(items, start, all),
    decreases items.len() + 1 - ids.len(),
{
    match ancestor_at(items, start, ids.len()) {
        Some(id) if !ids.contains(id) => {
            lemma_met_ids_are_known(items, start, ids);
            lemma_known_ids_bounded(items, ids);
            let more = ids.push(id);
            assert forall|k: int| 0 <= k < more.len() implies ancestor_at(items, start, k as nat)
                == Some(#[trigger] more[k]) by {
                if k < ids.len() {
                    assert(more[k] == ids[k]);
                }
            }
            lemma_lineage_extends(items, start, more);
        },
        _ => {
            assert(is_lineage(items, start, ids));
        },
    }
}

/// Where the way up goes on, all ids met so far are ids of items.
proof fn lemma_met_ids_are_known(
    items: Seq<MediaModel>,
    start: Option<Seq<char>>,
    ids: Seq<Seq<char>>,
)
    requires
        forall|k: int|
            0 <= k < ids.len() ==> ancestor_at(items, start, k as nat) == Some(#[trigger] ids[k]),
        ancestor_at(items, start, ids.len()) is Some,
    ensures
        forall|k: int| 0 <= k < ids.len() ==> lookup(items, #[trigger] ids[k]) is Some,
{
    assert forall|k: int| 0 <= k < ids.len() implies lookup(items, #[trigger] ids[k]) is Some by {
        assert(ancestor_at(items, start, k as nat) == Some(ids[k]));
        if k + 1 < ids.len() {
            assert(ancestor_at(items, start, (k + 1) as nat) == Some(ids[k + 1]));
        }
        assert(ancestor_at(items, start, (k + 1) as nat) is Some);
    }
}

/// The lineage of an item holds every id that can be reached by going up from it,
/// and no other.
pub proof fn lineage_is_everything_above(
    items: Seq<MediaModel>,
    start: Option<Seq<char>>,
    id: Seq<char>,
)
    ensures
        lineage(items, start).contains(id) <==> exists|n: nat| #[trigger]
            ancestor_at(items, start, n) == Some(id),
{
    lemma_lineage_exists(items, start);
    let ids = lineage(items, start);
    if ids.contains(id) {
        let k = choose|k: int| 0 <= k < ids.len() && ids[k] == id;
        assert(ancestor_at(items, start, k as nat) == Some(id));
    }
    if exists|n: nat| #[trigger] ancestor_at(items, start, n) == Some(id) {
        let n = choose|n: nat| #[trigger] ancestor_at(items, start, n) == Some(id);
        lemma_reached_is_in_lineage(items, start, n);
    }
}

proof fn lemma_reached_is_in_lineage(items: Seq<MediaModel>, start: Option<Seq<char>>, n: nat)
    requires
        ancestor_at(items, start, n) is Some,
    ensures
        lineage(items, start).contains(ancestor_at(items, start, n)->0),
    decreases n,
{
    lemma_lineage_exists(items, start);
    let ids = lineage(items, start);
    if n < ids.len() {
        assert(ids[n as int] == ancestor_at(items, start, n)->0);
    } else if n > ids.len() {
        let below = (n - 1) as nat;
        lemma_reached_is_in_lineage(items, start, below);
        let b = ancestor_at(items, start, below)->0;
        let k = choose|k: int| 0 <= k < ids.len() && ids[k] == b;
        assert(ancestor_at(items, start, k as nat) == Some(ids[k]));
        assert(ancestor_at(items, start, (k + 1) as nat) == ancestor_at(items, start, n));
        if k + 1 < ids.len() {
            assert(ids[k + 1] == ancestor_at(items, start, n)->0);
        }
    }
}

/// The items of a library by their ids.
pub struct ItemIndex<'a> {
    items: &'a [MediaItem],
    positions: StringHashMap<usize>,
}

impl<'a> ItemIndex<'a> {
    pub closed spec fn items(&self) -> Seq<MediaModel> {
        self.items.deep_view()
    }

    pub closed spec fn wf(&self) -> bool {
        forall|id: Seq<char>|
            match lookup(self.items.deep_view(), id) {
                Some(item) => {
                    &&& #[trigger] self.positions@.contains_key(id)
                    &&& self.positions@[id] < self.items@.len()
                    &&& self.items@[self.positions@[id] as int].deep_view() == item
                },
                None => !self.positions@.contains_key(id),
            }
    }

    pub fn new(items: &'a [MediaItem]) -> (index: ItemIndex<'a>)
        ensures
            index.wf(),
            index.items() == items.deep_view(),
    {
        let mut positions: StringHashMap<usize> = StringHashMap::new();
        let ghost all = items.deep_view();
        let mut i: usize = 0;
        while i < items.len()
            invariant
                i <= items.len(),
                all == items.deep_view(),
                forall|id: Seq<char>|
                    match lookup(all.take(i as int), id) {
                        Some(item) => {
                            &&& #[trigger] positions@.contains_key(id)
                            &&& positions@[id] < i
                            &&& items@[positions@[id] as int].deep_view() == item
                        },
                        None => !positions@.contains_key(id),
                    },
            decreases items.len() - i,
        {
            positions.insert(items[i].id.clone(), i);
            assert(all.take(i + 1).drop_last() =~= all.take(i as int));
            assert(all.take(i + 1).last() == items@[i as int].deep_view());
            i += 1;
        }
        assert(all.take(i as int) =~= all);
        ItemIndex { items, positions }
    }

    /// The item with the id `id`.
    pub fn get(&self, id: &str) -> (item: Option<&'a MediaItem>)
        requires
            self.wf(),
        ensures
            item.deep_view() == lookup(self.items(), id@),
    {
        match self.positions.get(id) {
            Some(position) => Some(&self.items[*position]),
            None => None,
        }
    }

    /// The ids met from `start` upwards, each once.
    pub fn lineage(&self, start: &Option<String>) -> (ids: Vec<String>)
        requires
            self.wf(),
        ensures
            ids.deep_view() == lineage(self.items(), start.deep_view()),
    {
        let ghost all = self.items();
        let ghost from = start.deep_view();
        let mut ids: Vec<String> = Vec::new();
        let mut current: Option<&String> = start.as_ref();
        loop
            invariant
                self.wf(),
                all == self.items(),
                current.deep_view() == ancestor_at(all, from, ids.deep_view().len()),
                ids.deep_view().no_duplicates(),
                forall|k: int|
                    0 <= k < ids.deep_view().len() ==> ancestor_at(all, from, k as nat) == Some(
                        #[trigger] ids.deep_view()[k],
                    ),
            ensures
                is_lineage(all, from, ids.deep_view()),
            decreases all.len() + 1 - ids.deep_view().len(),
        {
            let ghost met = ids.deep_view();
            let id = match current {
                Some(id) => id,
                None => {
                    break;
                },
            };
            if contains_text(&ids, id) {
                break;
            }
            proof {
                lemma_met_ids_are_known(all, from, met);
                lemma_known_ids_bounded(all, met);
            }
            ids.push(id.clone());
            assert(ids.deep_view() =~= met.push(id@));
            current = match self.get(id.as_str()) {
                Some(item) => item.parent_id.as_ref(),
                None => None,
            };
        }
        proof {
            lemma_lineage_exists(all, from);
            lemma_lineage_unique(all, from, ids.deep_view(), lineage(all, from));
        }
        ids
    }

    /// How many of `above`, from the first on, are seasons.
    fn count_seasons(&self, above: &Vec<String>) -> (seasons: usize)
        requires
            self.wf(),
        ensures
            seasons == leading_seasons(self.items(), above.deep_view()),
            seasons <= above.len(),
    {
        let ghost all = self.items();
        let ghost ids = above.deep_view();
        let mut k: usize = 0;
        assert(ids.skip(0) =~= ids);
        while k < above.len()
            invariant
                k <= above.len(),
                self.wf(),
                all == self.items(),
                ids == above.deep_view(),
                leading_seasons(all, ids) == k + leading_seasons(all, ids.skip(k as int)),
            decreases above.len() - k,
        {
            assert(ids.skip(k as int).drop_first() =~= ids.skip(k + 1));
            assert(ids.skip(k as int)[0] == above[k as int]@);
            match self.get(above[k].as_str()) {
                Some(item) => {
                    if !is_same(item.item_type.as_str(), "Season") {
                        return k;
                    }
                },
                None => {
                    return k;
                },
            }
            k += 1;
        }
        k
    }

    /// The season that an item with the lineage `above` belongs to.
    pub fn season_above(&self, above: &Vec<String>) -> (season: Option<String>)
        requires
            self.wf(),
        ensures
            season.deep_view() == season_above(self.items(), above.deep_view()),
    {
        let seasons: usize = self.count_seasons(above);
        if seasons > 0 {
            Some(above[seasons - 1].clone())
        } else {
            None
        }
    }

    /// The series that an item with the lineage `above` belongs to.
    pub fn series_above(&self, above: &Vec<String>) -> (series: Option<String>)
        requires
            self.wf(),
        ensures
            series.deep_view() == series_above(self.items(), above.deep_view()),
    {
        let seasons: usize = self.count_seasons(above);
        if seasons < above.len() {
            match self.get(above[seasons].as_str()) {
                Some(item) => {
                    if is_same(item.item_type.as_str(), "Series") {
                        return Some(above[seasons].clone());
                    }
                },
                None => {},
            }
        }
        None
    }
}

/// Whether `text` is among `texts`.
pub fn contains_text(texts: &[String], text: &String) -> (found: bool)
    ensures
        found == texts.deep_view().contains(text@),
{
    let mut i: usize = 0;
    while i < texts.len()
        invariant
            i <= texts.len(),
            forall|k: int| 0 <= k < i ==> texts.deep_view()[k] != text@,
        decreases texts.len() - i,
    {
        if texts[i] == *text {
            assert(texts.deep_view()[i as int] == text@);
            return true;
        }
        i += 1;
    }
    false
}

/// For each item that has a parent, the ids above it, each once and the nearest first.
pub fn build_ancestor_map(items: &[MediaItem]) -> (map: StringHashMap<Vec<String>>)
    ensures
        forall|id: Seq<char>| #[trigger]
            map@.contains_key(id) <==> last_parent(items.deep_view(), id) is Some,
        forall|id: Seq<char>| #[trigger]
            map@.contains_key(id) ==> map@[id].deep_view() == lineage(
                items.deep_view(),
                last_parent(items.deep_view(), id),
            ),
        forall|id: Seq<char>| #[trigger]
            map@.contains_key(id) ==> map@[id].deep_view().no_duplicates(),
{
    let index = ItemIndex::new(items);
    let ghost all = items.deep_view();
    let mut map: StringHashMap<Vec<String>> = StringHashMap::new();
    let mut i: usize = 0;
    while i < items.len()
        invariant
            i <= items.len(),
            index.wf(),
            index.items() == all,
            all == items.deep_view(),
            forall|id: Seq<char>| #[trigger]
                map@.contains_key(id) <==> last_parent(all.take(i as int), id) is Some,
            forall|id: Seq<char>| #[trigger]
                map@.contains_key(id) ==> map@[id].deep_view() == lineage(
                    all,
                    last_parent(all.take(i as int), id),
                ),
        decreases items.len() - i,
    {
        let ids = index.lineage(&items[i].parent_id);
        proof {
            let start = all[i as int].parent_id;
            lemma_lineage_exists(all, start);
            assert(ids.deep_view().len() == 0 <==> start is None) by {
                if ids.deep_view().len() > 0 {
                    assert(ancestor_at(all, start, 0) == Some(ids.deep_view()[0]));
                }
            }
            assert(all.take(i + 1).drop_last() =~= all.take(i as int));
            assert(all.take(i + 1).last() == all[i as int]);
        }
        if ids.len() > 0 {
            map.insert(items[i].id.clone(), ids);
        }
        i += 1;
    }
    assert(all.take(i as int) =~= all);
    proof {
        assert forall|id: Seq<char>| #[trigger]
            map@.contains_key(id) implies map@[id].deep_view().no_duplicates() by {
            lemma_lineage_exists(all, last_parent(all, id));
        }
    }
    map
}

} // verus!
