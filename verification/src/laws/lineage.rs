//! What lies above an item, told by the parents that the items name.

use vstd::prelude::*;
use crate::model::MediaModel;

verus! {

/// Whether no two items have the same id.
pub open spec fn ids_are_unique(items: Seq<MediaModel>) -> bool {
    forall|i: int, j: int|
        #![trigger items[i], items[j]]
        0 <= i < j < items.len() ==> items[i].id != items[j].id
}

/// Whether `path` leads up through the items: each names the next as its parent.
pub open spec fn is_way_up(items: Seq<MediaModel>, path: Seq<int>) -> bool {
    &&& path.len() > 0
    &&& forall|k: int| 0 <= k < path.len() ==> 0 <= #[trigger] path[k] < items.len()
    &&& forall|k: int|
        0 <= k < path.len() - 1 ==> items[#[trigger] path[k]].parent_id == Some(
            items[path[k + 1]].id,
        )
}

/// An item is looked up by its id, the last one where several have it; so is its parent.
pub proof fn an_item_is_found_by_its_id(items: Seq<MediaModel>, i: int)
    requires
        0 <= i < items.len(),
        forall|j: int| i < j < items.len() ==> (#[trigger] items[j]).id != items[i].id,
    ensures
        crate::ancestry::lookup(items, items[i].id) == Some(items[i]),
        crate::ancestry::parent_of(items, items[i].id) == items[i].parent_id,
{
    lemma_last_is_looked_up(items, i);
}

/// An id that no item has leads nowhere.
pub proof fn an_unknown_id_leads_nowhere(items: Seq<MediaModel>, id: Seq<char>)
    ensures
        crate::ancestry::lookup(items, id) is None <==> forall|j: int|
            0 <= j < items.len() ==> (#[trigger] items[j]).id != id,
        crate::ancestry::lookup(items, id) is None ==> crate::ancestry::parent_of(items, id) is None,
{
    crate::ancestry::lemma_lookup(items, id);
    if crate::ancestry::lookup(items, id) is Some {
        let item = crate::ancestry::lookup(items, id)->0;
        let k = choose|k: int| 0 <= k < items.len() && items[k] == item;
        assert(items[k].id == id);
    }
}

proof fn lemma_last_is_looked_up(items: Seq<MediaModel>, i: int)
    requires
        0 <= i < items.len(),
        forall|j: int| i < j < items.len() ==> (#[trigger] items[j]).id != items[i].id,
    ensures
        crate::ancestry::lookup(items, items[i].id) == Some(items[i]),
    decreases items.len(),
{
    if i < items.len() - 1 {
        let rest = items.drop_last();
        assert(items[items.len() - 1].id != items[i].id);
        assert forall|j: int| i < j < rest.len() implies (#[trigger] rest[j]).id != rest[i].id by {
            assert(items[j].id != items[i].id);
        }
        lemma_last_is_looked_up(rest, i);
        assert(rest[i] == items[i]);
    }
}

/// Where ids are unique, every item is found by its own.
pub proof fn unique_items_are_found_by_their_ids(items: Seq<MediaModel>, i: int)
    requires
        ids_are_unique(items),
        0 <= i < items.len(),
    ensures
        crate::ancestry::lookup(items, items[i].id) == Some(items[i]),
        crate::ancestry::parent_of(items, items[i].id) == items[i].parent_id,
        crate::ancestry::last_parent(items, items[i].id) == items[i].parent_id,
{
    assert forall|j: int| i < j < items.len() implies (#[trigger] items[j]).id != items[i].id by {
        assert(items[i].id != items[j].id);
    }
    lemma_last_is_looked_up(items, i);
    assert forall|j: int|
        0 <= j < items.len() && (#[trigger] items[j]).id == items[i].id implies items[j].parent_id
        == items[i].parent_id by {
        if j < i {
            assert(items[j].id != items[i].id);
        } else if i < j {
            assert(items[i].id != items[j].id);
        }
    }
    lemma_agreed_parent(items, items[i].id, items[i].parent_id);
}

/// Where the items with an id have the same parent, that is the parent of the last.
pub proof fn lemma_agreed_parent(items: Seq<MediaModel>, id: Seq<char>, parent: Option<Seq<char>>)
    requires
        forall|j: int|
            0 <= j < items.len() && (#[trigger] items[j]).id == id ==> items[j].parent_id == parent,
    ensures
        crate::ancestry::last_parent(items, id) == parent || crate::ancestry::last_parent(
            items,
            id,
        ) is None,
        (exists|j: int| 0 <= j < items.len() && (#[trigger] items[j]).id == id)
            ==> crate::ancestry::last_parent(items, id) == parent,
    decreases items.len(),
{
    if items.len() > 0 {
        let rest = items.drop_last();
        assert forall|j: int|
            0 <= j < rest.len() && (#[trigger] rest[j]).id == id implies rest[j].parent_id == parent by {
            assert(items[j].id == id);
        }
        lemma_agreed_parent(rest, id, parent);
        assert(items[items.len() - 1] == items.last());
        if exists|j: int| 0 <= j < items.len() && (#[trigger] items[j]).id == id {
            let j = choose|j: int| 0 <= j < items.len() && (#[trigger] items[j]).id == id;
            if j < rest.len() {
                assert(rest[j].id == id);
            }
        }
    }
}

/// Of several items with an id, the last that has a parent gives it.
pub proof fn the_last_parent_counts(items: Seq<MediaModel>, i: int, id: Seq<char>)
    ensures
        0 <= i < items.len() && items[i].parent_id is Some && (forall|j: int|
            i < j < items.len() && (#[trigger] items[j]).id == items[i].id ==> items[j].parent_id
                is None) ==> crate::ancestry::last_parent(items, items[i].id) == items[i].parent_id,
        (forall|j: int|
            0 <= j < items.len() && (#[trigger] items[j]).id == id ==> items[j].parent_id is None)
            ==> crate::ancestry::last_parent(items, id) is None,
    decreases items.len(),
{
    if items.len() > 0 {
        let rest = items.drop_last();
        let last = items.len() - 1;
        the_last_parent_counts(rest, i, id);
        assert(items[last] == items.last());
        if 0 <= i < last && items[i].parent_id is Some && (forall|j: int|
            i < j < items.len() && (#[trigger] items[j]).id == items[i].id ==> items[j].parent_id
                is None) {
            assert(rest[i] == items[i]);
            assert forall|j: int|
                i < j < rest.len() && (#[trigger] rest[j]).id == rest[i].id implies rest[j].parent_id
                is None by {
                assert(items[j].id == items[i].id);
            }
        }
        if forall|j: int|
            0 <= j < items.len() && (#[trigger] items[j]).id == id ==> items[j].parent_id is None {
            assert forall|j: int|
                0 <= j < rest.len() && (#[trigger] rest[j]).id == id implies rest[j].parent_id is None by {
                assert(items[j].id == id);
            }
        }
    }
}

/// What is met on the way up is, step by step, the parent that the item below names.
proof fn lemma_way_up_is_met(items: Seq<MediaModel>, path: Seq<int>, k: int)
    requires
        ids_are_unique(items),
        is_way_up(items, path),
        0 <= k < path.len(),
    ensures
        crate::ancestry::ancestor_at(items, items[path[0]].parent_id, k as nat)
            == items[path[k]].parent_id,
    decreases k,
{
    if k > 0 {
        lemma_way_up_is_met(items, path, k - 1);
        assert(items[path[k - 1]].parent_id == Some(items[path[k]].id));
        unique_items_are_found_by_their_ids(items, path[k]);
    }
}

/// Every item that a way up leads to, and the parent of the last, lies above the first.
pub proof fn a_way_up_leads_through_what_lies_above(items: Seq<MediaModel>, path: Seq<int>, k: int)
    requires
        ids_are_unique(items),
        is_way_up(items, path),
    ensures
        0 < k < path.len() ==> crate::ancestry::lineage(
            items,
            items[path[0]].parent_id,
        ).contains(items[path[k]].id),
        items[path.last()].parent_id matches Some(parent) ==> crate::ancestry::lineage(
            items,
            items[path[0]].parent_id,
        ).contains(parent),
{
    let start = items[path[0]].parent_id;
    if 0 < k < path.len() {
        lemma_way_up_is_met(items, path, k - 1);
        assert(items[path[k - 1]].parent_id == Some(items[path[k]].id));
        assert(crate::ancestry::ancestor_at(items, start, (k - 1) as nat) == Some(
            items[path[k]].id,
        ));
        crate::ancestry::lineage_is_everything_above(items, start, items[path[k]].id);
    }
    let top = path.len() - 1;
    lemma_way_up_is_met(items, path, top);
    if items[path.last()].parent_id is Some {
        let parent = items[path.last()].parent_id->0;
        assert(crate::ancestry::ancestor_at(items, start, top as nat) == Some(parent));
        crate::ancestry::lineage_is_everything_above(items, start, parent);
    }
}

/// Whatever lies above an item is the parent that the last item of some way up names.
pub proof fn what_lies_above_is_led_to(items: Seq<MediaModel>, i: int, above: Seq<char>)
    requires
        0 <= i < items.len(),
        crate::ancestry::lineage(items, items[i].parent_id).contains(above),
    ensures
        exists|path: Seq<int>|
            #[trigger] is_way_up(items, path) && path[0] == i && items[path.last()].parent_id
                == Some(above),
{
    crate::ancestry::lineage_is_everything_above(items, items[i].parent_id, above);
    let n = choose|n: nat| #[trigger]
        crate::ancestry::ancestor_at(items, items[i].parent_id, n) == Some(above);
    lemma_met_is_led_to(items, i, n, above);
}

proof fn lemma_met_is_led_to(items: Seq<MediaModel>, i: int, n: nat, above: Seq<char>)
    requires
        0 <= i < items.len(),
        crate::ancestry::ancestor_at(items, items[i].parent_id, n) == Some(above),
    ensures
        exists|path: Seq<int>|
            #[trigger] is_way_up(items, path) && path[0] == i && items[path.last()].parent_id
                == Some(above),
    decreases n,
{
    if n == 0 {
        let path = seq![i];
        assert(is_way_up(items, path));
        assert(path[0] == i && path.last() == i);
    } else {
        let below = (n - 1) as nat;
        let id = crate::ancestry::ancestor_at(items, items[i].parent_id, below)->0;
        lemma_met_is_led_to(items, i, below, id);
        let path = choose|path: Seq<int>|
            #[trigger] is_way_up(items, path) && path[0] == i && items[path.last()].parent_id
                == Some(id);
        crate::ancestry::lemma_lookup(items, id);
        let item = crate::ancestry::lookup(items, id)->0;
        let j = choose|j: int| 0 <= j < items.len() && items[j] == item;
        let longer = path.push(j);
        lemma_way_up_goes_on(items, path, j);
        assert(longer[0] == i && longer.last() == j);
    }
}

/// A way up goes on with the parent that its last item names.
proof fn lemma_way_up_goes_on(items: Seq<MediaModel>, path: Seq<int>, j: int)
    requires
        is_way_up(items, path),
        0 <= j < items.len(),
        items[path.last()].parent_id == Some(items[j].id),
    ensures
        is_way_up(items, path.push(j)),
{
    let longer = path.push(j);
    assert forall|k: int| 0 <= k < longer.len() implies 0 <= #[trigger] longer[k] < items.len() by {
        if k < path.len() {
            assert(longer[k] == path[k]);
        }
    }
    assert forall|k: int| 0 <= k < longer.len() - 1 implies items[#[trigger] longer[k]].parent_id
        == Some(items[longer[k + 1]].id) by {
        assert(longer[k] == path[k]);
        if k < path.len() - 1 {
            assert(longer[k + 1] == path[k + 1]);
        }
    }
}

/// The nearest lies first: a way up without repeats is how what lies above begins.
proof fn lemma_lineage_begins_with_way_up(items: Seq<MediaModel>, path: Seq<int>)
    requires
        ids_are_unique(items),
        is_way_up(items, path),
        path.no_duplicates(),
    ensures
        ({
            let ids = crate::ancestry::lineage(items, items[path[0]].parent_id);
            &&& ids.len() >= path.len() - 1
            &&& forall|k: int|
                0 <= k < path.len() - 1 ==> #[trigger] ids[k] == items[path[k + 1]].id
        }),
{
    let start = items[path[0]].parent_id;
    let ids = crate::ancestry::lineage(items, start);
    crate::ancestry::lemma_lineage_exists(items, start);
    let n = ids.len() as int;
    assert forall|k: int| 0 <= k < path.len() - 1 && k < n implies #[trigger] ids[k]
        == items[path[k + 1]].id by {
        lemma_way_up_is_met(items, path, k);
        assert(items[path[k]].parent_id == Some(items[path[k + 1]].id));
        assert(crate::ancestry::ancestor_at(items, start, k as nat) == Some(ids[k]));
    }
    if n < path.len() - 1 {
        lemma_way_up_is_met(items, path, n);
        assert(items[path[n]].parent_id == Some(items[path[n + 1]].id));
        assert(ids.contains(items[path[n + 1]].id));
        let k = choose|k: int| 0 <= k < ids.len() && ids[k] == items[path[n + 1]].id;
        assert(items[path[k + 1]].id == items[path[n + 1]].id);
        assert(path[k + 1] == path[n + 1]) by {
            if path[k + 1] < path[n + 1] {
                assert(items[path[k + 1]].id != items[path[n + 1]].id);
            } else if path[n + 1] < path[k + 1] {
                assert(items[path[n + 1]].id != items[path[k + 1]].id);
            }
        }
    }
}

/// What lies above begins with the parent and goes on with the parent of each, up to where
/// there is none, or none known, or one that is already there.
pub proof fn the_parent_comes_next(items: Seq<MediaModel>, start: Option<Seq<char>>, k: int)
    ensures
        ({
            let ids = crate::ancestry::lineage(items, start);
            &&& ids.no_duplicates()
            &&& start is None <==> ids.len() == 0
            &&& start matches Some(first) ==> ids[0] == first
            &&& 0 <= k < ids.len() - 1 ==> crate::ancestry::parent_of(items, ids[k]) == Some(
                ids[k + 1],
            )
            &&& ids.len() > 0 ==> match crate::ancestry::parent_of(items, ids.last()) {
                Some(parent) => ids.contains(parent),
                None => true,
            }
        }),
{
    crate::ancestry::lemma_lineage_exists(items, start);
    let ids = crate::ancestry::lineage(items, start);
    if ids.len() > 0 {
        assert(crate::ancestry::ancestor_at(items, start, 0) == Some(ids[0]));
        let top = ids.len() - 1;
        assert(crate::ancestry::ancestor_at(items, start, top as nat) == Some(ids[top]));
        assert(crate::ancestry::ancestor_at(items, start, ids.len())
            == crate::ancestry::parent_of(items, ids[top]));
    }
    if 0 <= k < ids.len() - 1 {
        assert(crate::ancestry::ancestor_at(items, start, k as nat) == Some(ids[k]));
        assert(crate::ancestry::ancestor_at(items, start, (k + 1) as nat) == Some(ids[k + 1]));
    }
}

/// The seasons counted right above are those up to the first that is none.
proof fn lemma_leading_seasons_are(items: Seq<MediaModel>, ids: Seq<Seq<char>>, n: int)
    requires
        0 <= n <= ids.len(),
        forall|k: int|
            0 <= k < n ==> (crate::ancestry::lookup(items, #[trigger] ids[k]) matches Some(item)
                && item.item_type == "Season"@),
        n < ids.len() ==> !(crate::ancestry::lookup(items, ids[n]) matches Some(item)
            && item.item_type == "Season"@),
    ensures
        crate::ancestry::leading_seasons(items, ids) == n,
    decreases ids.len(),
{
    if n > 0 {
        assert(crate::ancestry::lookup(items, ids[0]) is Some);
        let rest = ids.drop_first();
        assert forall|k: int| 0 <= k < n - 1 implies (crate::ancestry::lookup(
            items,
            #[trigger] rest[k],
        ) matches Some(item) && item.item_type == "Season"@) by {
            assert(rest[k] == ids[k + 1]);
        }
        if n < ids.len() {
            assert(rest[n - 1] == ids[n]);
        }
        lemma_leading_seasons_are(items, rest, n - 1);
    }
}

/// The words differ.
proof fn lemma_season_is_no_series()
    ensures
        "Season"@ != "Series"@,
{
    reveal_strlit("Season");
    reveal_strlit("Series");
    assert("Season"@[2] != "Series"@[2]);
}

/// Whether the items of `path` after the first are seasons, `seasons` of them.
pub open spec fn goes_through_seasons(items: Seq<MediaModel>, path: Seq<int>, seasons: int) -> bool {
    0 <= seasons < path.len() && forall|k: int|
        1 <= k <= seasons ==> items[#[trigger] path[k]].item_type == "Season"@
}

/// Where a way up goes through seasons to a series, that is the series, and the last of
/// the seasons, if there is any, the season.
pub proof fn seasons_lead_to_a_series(items: Seq<MediaModel>, path: Seq<int>, seasons: int)
    requires
        ids_are_unique(items),
        is_way_up(items, path),
        path.no_duplicates(),
        path.len() == seasons + 2,
        goes_through_seasons(items, path, seasons),
        items[path.last()].item_type == "Series"@,
    ensures
        ({
            let ids = crate::ancestry::lineage(items, items[path[0]].parent_id);
            &&& crate::ancestry::series_above(items, ids) == Some(items[path.last()].id)
            &&& crate::ancestry::season_above(items, ids) == if seasons > 0 {
                Some(items[path[seasons]].id)
            } else {
                None
            }
        }),
{
    let ids = crate::ancestry::lineage(items, items[path[0]].parent_id);
    lemma_lineage_begins_with_way_up(items, path);
    lemma_season_is_no_series();
    assert forall|k: int| 0 <= k < seasons implies (crate::ancestry::lookup(
        items,
        #[trigger] ids[k],
    ) matches Some(item) && item.item_type == "Season"@) by {
        assert(items[path[k + 1]].item_type == "Season"@);
        unique_items_are_found_by_their_ids(items, path[k + 1]);
    }
    assert(ids[seasons] == items[path[seasons + 1]].id);
    unique_items_are_found_by_their_ids(items, path[seasons + 1]);
    lemma_leading_seasons_are(items, ids, seasons);
    if seasons > 0 {
        assert(ids[seasons - 1] == items[path[seasons]].id);
    }
}

/// Where a way up goes through seasons to nothing, to something unknown, to something that
/// is neither season nor series, or round in a circle, there is no series; the last of the
/// seasons, if there is any, is still the season.
pub proof fn seasons_may_lead_to_no_series(items: Seq<MediaModel>, path: Seq<int>, seasons: int)
    requires
        ids_are_unique(items),
        is_way_up(items, path),
        path.no_duplicates(),
        path.len() == seasons + 1,
        goes_through_seasons(items, path, seasons),
        items[path.last()].parent_id matches Some(parent) ==> (forall|j: int|
            0 <= j < items.len() && (#[trigger] items[j]).id == parent ==> items[j].item_type
                != "Series"@ && (items[j].item_type != "Season"@ || exists|k: int|
                1 <= k <= seasons && #[trigger] path[k] == j)),
    ensures
        ({
            let ids = crate::ancestry::lineage(items, items[path[0]].parent_id);
            &&& crate::ancestry::series_above(items, ids) is None
            &&& crate::ancestry::season_above(items, ids) == if seasons > 0 {
                Some(items[path[seasons]].id)
            } else {
                None
            }
        }),
{
    let start = items[path[0]].parent_id;
    let ids = crate::ancestry::lineage(items, start);
    lemma_lineage_begins_with_way_up(items, path);
    crate::ancestry::lemma_lineage_exists(items, start);
    assert forall|k: int| 0 <= k < seasons implies (crate::ancestry::lookup(
        items,
        #[trigger] ids[k],
    ) matches Some(item) && item.item_type == "Season"@) by {
        assert(items[path[k + 1]].item_type == "Season"@);
        unique_items_are_found_by_their_ids(items, path[k + 1]);
    }
    if seasons < ids.len() {
        lemma_way_up_is_met(items, path, seasons);
        assert(crate::ancestry::ancestor_at(items, start, seasons as nat) == Some(ids[seasons]));
        let parent = ids[seasons];
        assert(items[path.last()].parent_id == Some(parent));
        crate::ancestry::lemma_lookup(items, parent);
        if crate::ancestry::lookup(items, parent) is Some {
            let item = crate::ancestry::lookup(items, parent)->0;
            let j = choose|j: int| 0 <= j < items.len() && items[j] == item;
            assert(items[j].id == parent);
            assert(items[j].item_type != "Series"@);
            if items[j].item_type == "Season"@ {
                let k = choose|k: int| 1 <= k <= seasons && #[trigger] path[k] == j;
                assert(ids[k - 1] == items[path[k]].id);
                assert(ids[k - 1] == ids[seasons]);
            }
        }
    }
    lemma_leading_seasons_are(items, ids, seasons);
    if seasons > 0 {
        assert(ids[seasons - 1] == items[path[seasons]].id);
    }
}

/// A series above is named where a way up leads to it past nothing that is a series.
pub proof fn the_first_series_above_counts(items: Seq<MediaModel>, path: Seq<int>)
    requires
        ids_are_unique(items),
        is_way_up(items, path),
        path.no_duplicates(),
        path.len() >= 2,
        items[path.last()].item_type == "Series"@,
        forall|k: int|
            1 <= k < path.len() - 1 ==> items[#[trigger] path[k]].item_type != "Series"@,
    ensures
        crate::ancestry::first_series(
            items,
            crate::ancestry::lineage(items, items[path[0]].parent_id),
        ) == Some(items[path.last()]),
{
    let ids = crate::ancestry::lineage(items, items[path[0]].parent_id);
    let n = path.len() - 2;
    lemma_lineage_begins_with_way_up(items, path);
    assert forall|k: int| 0 <= k < n implies !(crate::ancestry::lookup(
        items,
        #[trigger] ids[k],
    ) matches Some(item) && item.item_type == "Series"@) by {
        assert(items[path[k + 1]].item_type != "Series"@);
        unique_items_are_found_by_their_ids(items, path[k + 1]);
    }
    assert(ids[n] == items[path[n + 1]].id);
    unique_items_are_found_by_their_ids(items, path[n + 1]);
    lemma_first_series_is(items, ids, n);
}

proof fn lemma_first_series_is(items: Seq<MediaModel>, ids: Seq<Seq<char>>, n: int)
    requires
        0 <= n < ids.len(),
        forall|k: int|
            0 <= k < n ==> !(crate::ancestry::lookup(items, #[trigger] ids[k]) matches Some(item)
                && item.item_type == "Series"@),
        crate::ancestry::lookup(items, ids[n]) matches Some(item) && item.item_type == "Series"@,
    ensures
        crate::ancestry::first_series(items, ids) == crate::ancestry::lookup(items, ids[n]),
    decreases ids.len(),
{
    if n > 0 {
        let first = crate::ancestry::lookup(items, ids[0]);
        assert(!(first matches Some(item) && item.item_type == "Series"@));
        let rest = ids.drop_first();
        assert forall|k: int| 0 <= k < n - 1 implies !(crate::ancestry::lookup(
            items,
            #[trigger] rest[k],
        ) matches Some(item) && item.item_type == "Series"@) by {
            assert(rest[k] == ids[k + 1]);
        }
        assert(rest[n - 1] == ids[n]);
        lemma_first_series_is(items, rest, n - 1);
    }
}

/// Where a series is named, a way up leads to it.
pub proof fn a_series_that_is_named_lies_above(items: Seq<MediaModel>, i: int)
    requires
        0 <= i < items.len(),
        crate::ancestry::first_series(
            items,
            crate::ancestry::lineage(items, items[i].parent_id),
        ) is Some,
    ensures
        exists|path: Seq<int>|
            #[trigger] is_way_up(items, path) && path.len() >= 2 && path[0] == i
                && items[path.last()].item_type == "Series"@ && crate::ancestry::first_series(
                items,
                crate::ancestry::lineage(items, items[i].parent_id),
            ) == Some(items[path.last()]),
{
    let ids = crate::ancestry::lineage(items, items[i].parent_id);
    lemma_first_series_is_among(items, ids);
    let series = crate::ancestry::first_series(items, ids)->0;
    let k = choose|k: int|
        0 <= k < ids.len() && crate::ancestry::lookup(items, #[trigger] ids[k]) == Some(series);
    assert(ids.contains(ids[k]));
    what_lies_above_is_led_to(items, i, ids[k]);
    let path = choose|path: Seq<int>|
        #[trigger] is_way_up(items, path) && path[0] == i && items[path.last()].parent_id == Some(
            ids[k],
        );
    crate::ancestry::lemma_lookup(items, ids[k]);
    let j = choose|j: int| 0 <= j < items.len() && items[j] == series;
    lemma_way_up_goes_on(items, path, j);
    assert(path.push(j)[0] == i && path.push(j).last() == j);
}

proof fn lemma_first_series_is_among(items: Seq<MediaModel>, ids: Seq<Seq<char>>)
    ensures
        crate::ancestry::first_series(items, ids) matches Some(series) ==> series.item_type
            == "Series"@ && exists|k: int|
            0 <= k < ids.len() && crate::ancestry::lookup(items, #[trigger] ids[k]) == Some(series),
    decreases ids.len(),
{
    if ids.len() > 0 {
        let rest = ids.drop_first();
        lemma_first_series_is_among(items, rest);
        let first = crate::ancestry::lookup(items, ids[0]);
        if first matches Some(item) && item.is_series() {
        } else if crate::ancestry::first_series(items, rest) is Some {
            let series = crate::ancestry::first_series(items, rest)->0;
            let k = choose|k: int|
                0 <= k < rest.len() && crate::ancestry::lookup(items, #[trigger] rest[k]) == Some(
                    series,
                );
            assert(ids[k + 1] == rest[k]);
        }
    }
}

/// Where an episode has a series, a way up through seasons leads to it.
pub proof fn a_series_is_led_to_through_seasons(items: Seq<MediaModel>, i: int, series: Seq<char>)
    requires
        ids_are_unique(items),
        0 <= i < items.len(),
        items[i].item_type == "Episode"@,
        crate::ancestry::series_above(
            items,
            crate::ancestry::lineage(items, items[i].parent_id),
        ) == Some(series),
    ensures
        exists|path: Seq<int>|
            #[trigger] is_way_up(items, path) && path.no_duplicates() && path.len() >= 2 && path[0]
                == i && goes_through_seasons(items, path, path.len() - 2)
                && items[path.last()].item_type == "Series"@ && items[path.last()].id == series,
{
    let start = items[i].parent_id;
    let ids = crate::ancestry::lineage(items, start);
    let n = crate::ancestry::leading_seasons(items, ids) as int;
    lemma_counted_are_seasons(items, ids);
    crate::ancestry::lemma_lineage_exists(items, start);
    let place = |id: Seq<char>| choose|j: int| 0 <= j < items.len() && items[j].id == id;
    let path = Seq::new(
        (n + 2) as nat,
        |k: int|
            if k == 0 {
                i
            } else {
                place(ids[k - 1])
            },
    );
    assert forall|k: int| 0 <= k <= n implies 0 <= #[trigger] path[k + 1] < items.len()
        && items[path[k + 1]].id == ids[k] && crate::ancestry::lookup(items, ids[k]) == Some(
        items[path[k + 1]],
    ) by {
        crate::ancestry::lemma_lookup(items, ids[k]);
        let item = crate::ancestry::lookup(items, ids[k])->0;
        let j = choose|j: int| 0 <= j < items.len() && items[j] == item;
        assert(items[j].id == ids[k]);
        assert(items[place(ids[k])].id == ids[k]);
        unique_items_are_found_by_their_ids(items, place(ids[k]));
    }
    assert forall|k: int| 0 <= k < path.len() implies 0 <= #[trigger] path[k] < items.len() by {
        if k > 0 {
            assert(0 <= path[(k - 1) + 1] < items.len());
        }
    }
    assert forall|k: int| 0 <= k < path.len() - 1 implies items[#[trigger] path[k]].parent_id
        == Some(items[path[k + 1]].id) by {
        assert(crate::ancestry::ancestor_at(items, start, k as nat) == Some(ids[k]));
        if k > 0 {
            assert(crate::ancestry::ancestor_at(items, start, (k - 1) as nat) == Some(ids[k - 1]));
            assert(items[path[(k - 1) + 1]].id == ids[k - 1]);
        }
    }
    assert("Episode"@ != "Season"@ && "Episode"@ != "Series"@) by {
        reveal_strlit("Episode");
        reveal_strlit("Season");
        reveal_strlit("Series");
        assert("Episode"@[0] != "Season"@[0]);
        assert("Episode"@[0] != "Series"@[0]);
    }
    assert forall|k: int| 1 <= k <= n implies items[#[trigger] path[k]].item_type == "Season"@ by {
        assert(items[path[(k - 1) + 1]].id == ids[k - 1]);
        assert(crate::ancestry::lookup(items, ids[k - 1]) is Some);
    }
    assert(items[path[n + 1]].item_type == "Series"@);
    assert forall|a: int, b: int| 0 <= a < b < path.len() implies path[a] != path[b] by {
        assert(items[path[(b - 1) + 1]].id == ids[b - 1]);
        if a > 0 {
            assert(items[path[(a - 1) + 1]].id == ids[a - 1]);
            assert(ids[a - 1] != ids[b - 1]);
        } else if b <= n {
            assert(items[path[b]].item_type == "Season"@);
        }
    }
    assert(is_way_up(items, path));
    assert(path.last() == path[n + 1]);
}

/// The ids counted as seasons are seasons.
proof fn lemma_counted_are_seasons(items: Seq<MediaModel>, ids: Seq<Seq<char>>)
    ensures
        crate::ancestry::leading_seasons(items, ids) <= ids.len(),
        forall|k: int|
            0 <= k < crate::ancestry::leading_seasons(items, ids) ==> (crate::ancestry::lookup(
                items,
                #[trigger] ids[k],
            ) matches Some(item) && item.item_type == "Season"@),
    decreases ids.len(),
{
    if ids.len() > 0 {
        let rest = ids.drop_first();
        lemma_counted_are_seasons(items, rest);
        assert forall|k: int| 0 <= k < crate::ancestry::leading_seasons(items, ids) implies (
        crate::ancestry::lookup(items, #[trigger] ids[k]) matches Some(item) && item.item_type
            == "Season"@) by {
            if k > 0 {
                assert(rest[k - 1] == ids[k]);
            }
        }
    }
}

} // verus!
