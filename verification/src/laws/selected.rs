//! What holds of the items that are found.

use vstd::prelude::*;
use crate::model::MatchedModel;
use crate::model::MediaModel;
use crate::model::UserModel;
use crate::selection::SelectionModel;
use crate::time::Instant;

verus! {

/// Whether the items with the id of the item at `i` have its parent.
pub open spec fn parent_is_agreed(items: Seq<MediaModel>, i: int) -> bool {
    forall|j: int|
        0 <= j < items.len() && (#[trigger] items[j]).id == items[i].id ==> items[j].parent_id
            == items[i].parent_id
}

/// Deletable are the items that everyone who counts has watched, long enough ago, and
/// that nobody who counts keeps: all of these are found, and nothing else.
pub proof fn exactly_the_deletable_items_are_found(
    selection: SelectionModel,
    found: Seq<MatchedModel>,
    m: MatchedModel,
)
    requires
        crate::order::is_stable_sort(
            selection.items.filter_map(selection.matched()),
            found,
            crate::model::larger_first(),
        ),
    ensures
        found.contains(m) <==> exists|i: int|
            0 <= i < selection.items.len() && selection.is_deletable(
                #[trigger] selection.items[i],
            ) && selection.describe(selection.items[i]) == m,
{
    let f = selection.matched();
    crate::order::lemma_sorted_contains(
        selection.items.filter_map(f),
        found,
        crate::model::larger_first(),
        m,
    );
    crate::grouping::lemma_filter_map_mentions(selection.items, f, m);
    if exists|i: int| 0 <= i < selection.items.len() && f(#[trigger] selection.items[i]) == Some(m) {
        let i = choose|i: int|
            0 <= i < selection.items.len() && f(#[trigger] selection.items[i]) == Some(m);
        assert(selection.is_deletable(selection.items[i]));
    }
    if exists|i: int|
        0 <= i < selection.items.len() && selection.is_deletable(#[trigger] selection.items[i])
            && selection.describe(selection.items[i]) == m {
        let i = choose|i: int|
            0 <= i < selection.items.len() && selection.is_deletable(#[trigger] selection.items[i])
                && selection.describe(selection.items[i]) == m;
        assert(f(selection.items[i]) == Some(m));
    }
}

/// What is found, every user who must have watched it has played, and it is no
/// favorite of a protecting user.
pub proof fn found_items_are_watched_and_no_favorites(
    selection: SelectionModel,
    found: Seq<MatchedModel>,
    m: MatchedModel,
)
    requires
        crate::order::is_stable_sort(
            selection.items.filter_map(selection.matched()),
            found,
            crate::model::larger_first(),
        ),
        found.contains(m),
    ensures
        forall|k: int|
            0 <= k < selection.watched_ids.len() ==> selection.has_played(
                #[trigger] selection.watched_ids[k],
                m.id,
            ),
        forall|k: int|
            0 <= k < selection.protected_ids.len() && selection.favorites.contains_key(
                #[trigger] selection.protected_ids[k],
            ) ==> !selection.favorites[selection.protected_ids[k]].contains(m.id),
{
    exactly_the_deletable_items_are_found(selection, found, m);
    let i = choose|i: int|
        0 <= i < selection.items.len() && selection.is_deletable(#[trigger] selection.items[i])
            && selection.describe(selection.items[i]) == m;
    let item = selection.items[i];
    assert forall|k: int|
        0 <= k < selection.protected_ids.len() && selection.favorites.contains_key(
            #[trigger] selection.protected_ids[k],
        ) implies !selection.favorites[selection.protected_ids[k]].contains(m.id) by {
        assert(!selection.keeps(selection.protected_ids[k], item));
    }
}

/// A favorite protects itself and everything below it, however deep.
pub proof fn a_favorite_protects_everything_below_it(
    selection: SelectionModel,
    i: int,
    k: int,
    favorite: Seq<char>,
    steps: nat,
)
    requires
        0 <= i < selection.items.len(),
        parent_is_agreed(selection.items, i),
        0 <= k < selection.protected_ids.len(),
        selection.favorites.contains_key(selection.protected_ids[k]),
        selection.favorites[selection.protected_ids[k]].contains(favorite),
        favorite == selection.items[i].id || crate::ancestry::ancestor_at(
            selection.items,
            selection.items[i].parent_id,
            steps,
        ) == Some(favorite),
    ensures
        !selection.is_deletable(selection.items[i]),
{
    let item = selection.items[i];
    if favorite != item.id {
        crate::laws::lineage::lemma_agreed_parent(selection.items, item.id, item.parent_id);
        crate::ancestry::lineage_is_everything_above(selection.items, item.parent_id, favorite);
        let above = selection.above(item);
        let n = choose|n: int| 0 <= n < above.len() && above[n] == favorite;
        assert(selection.favorites[selection.protected_ids[k]].contains(selection.above(item)[n]));
    }
    assert(selection.keeps(selection.protected_ids[k], item));
}

/// An item that is kept is, or lies below, a favorite of a protecting user.
pub proof fn only_favorites_protect(selection: SelectionModel, i: int)
    requires
        0 <= i < selection.items.len(),
        parent_is_agreed(selection.items, i),
        selection.is_protected(selection.items[i]),
    ensures
        exists|k: int, favorite: Seq<char>|
            0 <= k < selection.protected_ids.len() && selection.favorites.contains_key(
                #[trigger] selection.protected_ids[k],
            ) && #[trigger] selection.favorites[selection.protected_ids[k]].contains(favorite) && (
            favorite == selection.items[i].id || exists|steps: nat| #[trigger]
                crate::ancestry::ancestor_at(
                    selection.items,
                    selection.items[i].parent_id,
                    steps,
                ) == Some(favorite)),
{
    let item = selection.items[i];
    crate::laws::lineage::lemma_agreed_parent(selection.items, item.id, item.parent_id);
    let k = choose|k: int|
        0 <= k < selection.protected_ids.len() && selection.keeps(
            #[trigger] selection.protected_ids[k],
            item,
        );
    let user = selection.protected_ids[k];
    if !selection.favorites[user].contains(item.id) {
        let n = choose|n: int|
            0 <= n < selection.above(item).len() && selection.favorites[user].contains(
                #[trigger] selection.above(item)[n],
            );
        let favorite = selection.above(item)[n];
        assert(crate::ancestry::lineage(selection.items, item.parent_id).contains(favorite));
        crate::ancestry::lineage_is_everything_above(selection.items, item.parent_id, favorite);
        assert(selection.favorites[selection.protected_ids[k]].contains(favorite));
    } else {
        assert(selection.favorites[selection.protected_ids[k]].contains(item.id));
    }
}

/// Where favorites are ignored nothing is kept on their account.
pub proof fn ignoring_favorites_protects_nothing(
    users: Seq<UserModel>,
    protected_by: Seq<Seq<char>>,
    selection: SelectionModel,
    item: MediaModel,
)
    requires
        selection.protected_ids == crate::audience::protectors(users, protected_by, true),
    ensures
        !selection.is_protected(item),
        selection.is_deletable(item) <==> selection.watched_by_all(item) && selection.long_ago(item),
{
}

/// Where nobody is named everybody counts: every user must have watched, and every
/// user's favorites are kept.
pub proof fn by_default_everyone_counts(users: Seq<UserModel>, i: int)
    requires
        0 <= i < users.len(),
    ensures
        crate::audience::ids_meant(users, Seq::empty()).contains(users[i].id),
        crate::audience::protectors(users, Seq::empty(), false).contains(users[i].id),
        crate::audience::ids_meant(users, Seq::empty()).len() == users.len(),
{
    assert(crate::audience::ids_of(users)[i] == users[i].id);
}

/// Whoever is named and exists counts, and nobody else.
pub proof fn those_named_count(users: Seq<UserModel>, names: Seq<Seq<char>>, id: Seq<char>)
    requires
        names.len() > 0,
    ensures
        crate::audience::ids_meant(users, names).contains(id) <==> exists|k: int|
            0 <= k < names.len() && crate::audience::id_named(users)(#[trigger] names[k]) == Some(id),
{
    crate::grouping::lemma_filter_map_mentions(names, crate::audience::id_named(users), id);
}

/// Where every name is known, none is left out: the audience is as long as the list
/// of names.
pub proof fn known_names_all_count(users: Seq<UserModel>, names: Seq<Seq<char>>)
    requires
        names.len() > 0,
        crate::audience::first_unknown(users, names) is None,
    ensures
        crate::audience::ids_meant(users, names).len() == names.len(),
{
    lemma_no_unknown(users, names);
    lemma_filter_map_full(names, crate::audience::id_named(users));
}

proof fn lemma_no_unknown(users: Seq<UserModel>, names: Seq<Seq<char>>)
    requires
        crate::audience::first_unknown(users, names) is None,
    ensures
        forall|k: int|
            0 <= k < names.len() ==> crate::audience::user_named(users, #[trigger] names[k]) is Some,
    decreases names.len(),
{
    if names.len() > 0 {
        lemma_no_unknown(users, names.drop_first());
        assert forall|k: int| 0 <= k < names.len() implies crate::audience::user_named(
            users,
            #[trigger] names[k],
        ) is Some by {
            if k > 0 {
                assert(names.drop_first()[k - 1] == names[k]);
            }
        }
    }
}

proof fn lemma_filter_map_full<A, B>(s: Seq<A>, f: spec_fn(A) -> Option<B>)
    requires
        forall|k: int| 0 <= k < s.len() ==> f(#[trigger] s[k]) is Some,
    ensures
        s.filter_map(f).len() == s.len(),
        forall|k: int| 0 <= k < s.len() ==> f(#[trigger] s[k]) == Some(s.filter_map(f)[k]),
    decreases s.len(),
{
    if s.len() > 0 {
        let rest = s.drop_last();
        assert(f(s[s.len() - 1]) is Some);
        assert forall|k: int| 0 <= k < rest.len() implies f(#[trigger] rest[k]) is Some by {
            assert(f(s[k]) is Some);
        }
        lemma_filter_map_full(rest, f);
        assert forall|k: int| 0 <= k < s.len() implies f(#[trigger] s[k]) == Some(
            s.filter_map(f)[k],
        ) by {
            if k < rest.len() {
                assert(rest[k] == s[k]);
                assert(s.filter_map(f)[k] == rest.filter_map(f)[k]);
            }
        }
    }
}

/// The date of an item is that of one of its plays, and none of the plays is later in
/// the order of text.
pub proof fn last_watched_is_the_latest_play(dates: Seq<Seq<char>>)
    ensures
        crate::selection::latest(dates) is None <==> dates.len() == 0,
        crate::selection::latest(dates) matches Some(date) ==> dates.contains(date) && forall|i: int|
            0 <= i < dates.len() ==> !crate::text::text_less(date, #[trigger] dates[i]),
    decreases dates.len(),
{
    if dates.len() > 0 {
        let rest = dates.drop_last();
        let last = dates.last();
        last_watched_is_the_latest_play(rest);
        let date = crate::selection::latest(dates)->0;
        crate::text::lemma_text_less_is_asymmetric(last, last);
        assert(dates[dates.len() - 1] == last);
        if date != last {
            let k = choose|k: int| 0 <= k < rest.len() && rest[k] == date;
            assert(dates[k] == date);
        }
        assert forall|i: int| 0 <= i < dates.len() implies !crate::text::text_less(
            date,
            #[trigger] dates[i],
        ) by {
            if i < rest.len() {
                assert(rest[i] == dates[i]);
                match crate::selection::latest(rest) {
                    Some(known) => {
                        assert(!crate::text::text_less(known, rest[i]));
                        if date == last && crate::text::text_less(known, last) {
                            crate::text::lemma_text_less_is_asymmetric(known, last);
                            crate::text::lemma_text_order_is_transitive(rest[i], known, last);
                        }
                    },
                    None => {},
                }
            }
        }
    }
}

/// What any user who must have watched it played within the last `n` days is kept,
/// whatever the dates of the others.
pub proof fn what_was_watched_lately_is_kept(
    selection: SelectionModel,
    item: MediaModel,
    n: u32,
    k: int,
    date: Seq<char>,
    days: int,
)
    requires
        selection.min_days_watched_ago == Some(n),
        0 <= k < selection.watched_ids.len(),
        selection.played[selection.watched_ids[k]][item.id] == Some(date),
        crate::time::days_before(date, selection.now) == Some(days),
        days < n,
    ensures
        !selection.is_deletable(item),
{
    assert(selection.played_lately(selection.watched_ids[k], item.id, n));
}

/// Nothing that is found was played within the last `n` days by a user who must have
/// watched it.
pub proof fn nothing_found_was_watched_lately(
    selection: SelectionModel,
    found: Seq<MatchedModel>,
    m: MatchedModel,
    n: u32,
    k: int,
    date: Seq<char>,
    days: int,
)
    requires
        crate::order::is_stable_sort(
            selection.items.filter_map(selection.matched()),
            found,
            crate::model::larger_first(),
        ),
        found.contains(m),
        selection.min_days_watched_ago == Some(n),
        0 <= k < selection.watched_ids.len(),
        selection.played[selection.watched_ids[k]][m.id] == Some(date),
        crate::time::days_before(date, selection.now) == Some(days),
    ensures
        days >= n,
{
    exactly_the_deletable_items_are_found(selection, found, m);
    let i = choose|i: int|
        0 <= i < selection.items.len() && selection.is_deletable(#[trigger] selection.items[i])
            && selection.describe(selection.items[i]) == m;
    if days < n {
        what_was_watched_lately_is_kept(selection, selection.items[i], n, k, date, days);
    }
}

/// The more days must have passed, the less is deletable.
pub proof fn waiting_longer_keeps_more(
    selection: SelectionModel,
    item: MediaModel,
    fewer: u32,
    more: u32,
)
    requires
        fewer <= more,
        (SelectionModel { min_days_watched_ago: Some(more), ..selection }).is_deletable(item),
    ensures
        (SelectionModel { min_days_watched_ago: Some(fewer), ..selection }).is_deletable(item),
        (SelectionModel { min_days_watched_ago: None, ..selection }).is_deletable(item),
{
    let strict = SelectionModel { min_days_watched_ago: Some(more), ..selection };
    let lax = SelectionModel { min_days_watched_ago: Some(fewer), ..selection };
    let none = SelectionModel { min_days_watched_ago: None, ..selection };
    lemma_days_do_not_matter_elsewhere(strict, lax, item);
    lemma_days_do_not_matter_elsewhere(strict, none, item);
}

proof fn lemma_days_do_not_matter_elsewhere(a: SelectionModel, b: SelectionModel, item: MediaModel)
    requires
        b == (SelectionModel {
            min_days_watched_ago: b.min_days_watched_ago,
            now: b.now,
            ..a
        }),
    ensures
        a.watched_by_all(item) == b.watched_by_all(item),
        a.is_protected(item) == b.is_protected(item),
        a.last_watched(item) == b.last_watched(item),
{
    assert(a.date_of(item.id) =~= b.date_of(item.id));
    assert forall|k: int| 0 <= k < a.protected_ids.len() implies a.keeps(
        #[trigger] a.protected_ids[k],
        item,
    ) == b.keeps(b.protected_ids[k], item) by {
        assert(a.above(item) == b.above(item));
        if a.keeps(a.protected_ids[k], item) {
            assert(b.keeps(b.protected_ids[k], item));
        }
    }
    if a.watched_by_all(item) {
        assert forall|k: int| 0 <= k < b.watched_ids.len() implies b.has_played(
            #[trigger] b.watched_ids[k],
            item.id,
        ) by {
            assert(a.has_played(a.watched_ids[k], item.id));
        }
    }
    if b.watched_by_all(item) {
        assert forall|k: int| 0 <= k < a.watched_ids.len() implies a.has_played(
            #[trigger] a.watched_ids[k],
            item.id,
        ) by {
            assert(b.has_played(b.watched_ids[k], item.id));
        }
    }
}

/// The more favorites there are, the less is deletable.
pub proof fn more_favorites_keep_more(
    selection: SelectionModel,
    favorites: Map<Seq<char>, Set<Seq<char>>>,
    item: MediaModel,
)
    requires
        forall|user: Seq<char>| #[trigger]
            selection.favorites.contains_key(user) ==> favorites.contains_key(user)
                && selection.favorites[user].subset_of(favorites[user]),
        (SelectionModel { favorites, ..selection }).is_deletable(item),
    ensures
        selection.is_deletable(item),
{
    let more = SelectionModel { favorites, ..selection };
    assert(more.date_of(item.id) =~= selection.date_of(item.id));
    assert forall|k: int| 0 <= k < selection.watched_ids.len() implies selection.has_played(
        #[trigger] selection.watched_ids[k],
        item.id,
    ) by {
        assert(more.has_played(more.watched_ids[k], item.id));
    }
    assert forall|k: int| 0 <= k < selection.protected_ids.len() implies !selection.keeps(
        #[trigger] selection.protected_ids[k],
        item,
    ) by {
        let user = more.protected_ids[k];
        assert(!more.keeps(user, item));
        assert(more.above(item) == selection.above(item));
        if selection.keeps(user, item) {
            if selection.favorites[user].contains(item.id) {
                assert(favorites[user].contains(item.id));
            } else {
                let n = choose|n: int|
                    0 <= n < selection.above(item).len() && selection.favorites[user].contains(
                        #[trigger] selection.above(item)[n],
                    );
                assert(more.favorites[user].contains(more.above(item)[n]));
            }
        }
    }
}

/// The more users protect, the less is deletable.
pub proof fn more_protectors_keep_more(
    selection: SelectionModel,
    protected_ids: Seq<Seq<char>>,
    item: MediaModel,
)
    requires
        forall|k: int|
            0 <= k < selection.protected_ids.len() ==> protected_ids.contains(
                #[trigger] selection.protected_ids[k],
            ),
        (SelectionModel { protected_ids, ..selection }).is_deletable(item),
    ensures
        selection.is_deletable(item),
{
    let more = SelectionModel { protected_ids, ..selection };
    assert(more.date_of(item.id) =~= selection.date_of(item.id));
    assert forall|k: int| 0 <= k < selection.watched_ids.len() implies selection.has_played(
        #[trigger] selection.watched_ids[k],
        item.id,
    ) by {
        assert(more.has_played(more.watched_ids[k], item.id));
    }
    assert forall|k: int| 0 <= k < selection.protected_ids.len() implies !selection.keeps(
        #[trigger] selection.protected_ids[k],
        item,
    ) by {
        let user = selection.protected_ids[k];
        let j = choose|j: int| 0 <= j < protected_ids.len() && protected_ids[j] == user;
        assert(!more.keeps(more.protected_ids[j], item));
        assert(more.above(item) == selection.above(item));
        if selection.keeps(user, item) {
            assert(more.keeps(user, item));
        }
    }
}

/// The more users must have watched, the less is deletable, where the date of some
/// play is known or does not matter.
pub proof fn more_watchers_keep_more(
    selection: SelectionModel,
    watched_ids: Seq<Seq<char>>,
    item: MediaModel,
)
    requires
        selection.min_days_watched_ago is None || selection.last_watched(item) is Some,
        forall|k: int|
            0 <= k < selection.watched_ids.len() ==> watched_ids.contains(
                #[trigger] selection.watched_ids[k],
            ),
        (SelectionModel { watched_ids, ..selection }).is_deletable(item),
    ensures
        selection.is_deletable(item),
{
    let more = SelectionModel { watched_ids, ..selection };
    assert forall|k: int| 0 <= k < selection.watched_ids.len() implies selection.has_played(
        #[trigger] selection.watched_ids[k],
        item.id,
    ) by {
        let user = selection.watched_ids[k];
        let j = choose|j: int| 0 <= j < watched_ids.len() && watched_ids[j] == user;
        assert(more.has_played(more.watched_ids[j], item.id));
    }
    if selection.min_days_watched_ago is Some {
        let n = selection.min_days_watched_ago->0;
        assert forall|k: int| 0 <= k < selection.watched_ids.len() implies !selection.played_lately(
            #[trigger] selection.watched_ids[k],
            item.id,
            n,
        ) by {
            let user = selection.watched_ids[k];
            let j = choose|j: int| 0 <= j < watched_ids.len() && watched_ids[j] == user;
            assert(!more.played_lately(more.watched_ids[j], item.id, n));
        }
    }
    assert forall|k: int| 0 <= k < selection.protected_ids.len() implies !selection.keeps(
        #[trigger] selection.protected_ids[k],
        item,
    ) by {
        assert(!more.keeps(more.protected_ids[k], item));
        assert(more.above(item) == selection.above(item));
        if selection.keeps(selection.protected_ids[k], item) {
            assert(more.keeps(selection.protected_ids[k], item));
        }
    }
}

/// Outside of leap seconds, the days since a point in time never become fewer as time
/// goes by.
pub proof fn days_since_never_shrink(then: Instant, now: Instant, later: Instant)
    requires
        then.valid(),
        now.nanos < crate::time::SECOND,
        later.nanos < crate::time::SECOND,
        now.seconds < later.seconds || (now.seconds == later.seconds && now.nanos <= later.nanos),
    ensures
        now.days_since(then) <= later.days_since(then),
{
    let a = now.nanos_since(then);
    let b = later.nanos_since(then);
    let day: int = 86_400_000_000_000;
    assert(crate::time::DAY * crate::time::SECOND == day);
    if a > b {
        let k = (later.seconds / 86_400) - (then.seconds / 86_400) - 1;
        assert(k * day < b < a < (k + 1) * day);
        if k >= 0 {
            assert(a / day == k && b / day == k);
        } else {
            assert((-a) / day == -k - 1 && (-b) / day == -k - 1);
        }
    } else if a >= 0 {
        assert(a / day <= b / day);
    } else if b < 0 {
        assert((-b) / day <= (-a) / day);
    }
}

/// What may be deleted may still be deleted later, where nothing else changes.
pub proof fn what_is_deletable_stays_deletable(
    selection: SelectionModel,
    later: Instant,
    item: MediaModel,
)
    requires
        selection.is_deletable(item),
        selection.now.nanos < crate::time::SECOND,
        later.nanos < crate::time::SECOND,
        selection.now.seconds < later.seconds || (selection.now.seconds == later.seconds
            && selection.now.nanos <= later.nanos),
        forall|k: int|
            0 <= k < selection.watched_ids.len() ==> match selection.date_of(item.id)(
                #[trigger] selection.watched_ids[k],
            ) {
                Some(date) => match crate::time::instant_of(date) {
                    Some(then) => then.valid(),
                    None => true,
                },
                None => true,
            },
    ensures
        (SelectionModel { now: later, ..selection }).is_deletable(item),
{
    let after = SelectionModel { now: later, ..selection };
    lemma_days_do_not_matter_elsewhere(selection, after, item);
    if selection.min_days_watched_ago is Some {
        let n = selection.min_days_watched_ago->0;
        assert forall|k: int| 0 <= k < after.watched_ids.len() implies !after.played_lately(
            #[trigger] after.watched_ids[k],
            item.id,
            n,
        ) by {
            assert(!selection.played_lately(selection.watched_ids[k], item.id, n));
            match selection.played[selection.watched_ids[k]][item.id] {
                Some(date) => match crate::time::instant_of(date) {
                    Some(then) => {
                        days_since_never_shrink(then, selection.now, later);
                    },
                    None => {},
                },
                None => {},
            }
        }
    }
}

/// What the history holds of a user is what was recorded: an item counts as played if
/// it is among the items, and as played when the last one with its id says.
pub proof fn what_is_recorded_is_played(items: Seq<MediaModel>, i: int, id: Seq<char>)
    requires
        0 <= i < items.len(),
        forall|j: int| i < j < items.len() ==> (#[trigger] items[j]).id != items[i].id,
    ensures
        crate::history::play_dates(items).contains_key(items[i].id),
        crate::history::play_dates(items)[items[i].id] == items[i].last_played(),
        crate::history::play_dates(items).contains_key(id) <==> crate::history::item_ids(
            items,
        ).contains(id),
{
    crate::laws::lineage::an_item_is_found_by_its_id(items, i);
    crate::ancestry::lemma_lookup(items, id);
    let ids = items.map_values(|item: MediaModel| item.id);
    if crate::history::play_dates(items).contains_key(id) {
        let item = crate::ancestry::lookup(items, id)->0;
        let k = choose|k: int| 0 <= k < items.len() && items[k] == item;
        assert(ids[k] == id);
    }
    if crate::history::item_ids(items).contains(id) {
        let k = choose|k: int| 0 <= k < ids.len() && ids[k] == id;
        assert(items[k].id == id);
    }
}

/// Whether `found` is what is found.
pub open spec fn is_found(selection: SelectionModel, found: Seq<MatchedModel>) -> bool {
    crate::order::is_stable_sort(
        selection.items.filter_map(selection.matched()),
        found,
        crate::model::larger_first(),
    )
}

/// Where ids are unique, what is found is the item with its id.
proof fn lemma_found_item(selection: SelectionModel, found: Seq<MatchedModel>, p: int, i: int)
    requires
        is_found(selection, found),
        crate::laws::lineage::ids_are_unique(selection.items),
        0 <= p < found.len(),
        0 <= i < selection.items.len(),
        found[p].id == selection.items[i].id,
    ensures
        selection.is_deletable(selection.items[i]),
        selection.describe(selection.items[i]) == found[p],
{
    assert(found.contains(found[p]));
    exactly_the_deletable_items_are_found(selection, found, found[p]);
    let j = choose|j: int|
        0 <= j < selection.items.len() && selection.is_deletable(#[trigger] selection.items[j])
            && selection.describe(selection.items[j]) == found[p];
    assert(selection.items[j].id == found[p].id);
    if i < j {
        assert(selection.items[i].id != selection.items[j].id);
    } else if j < i {
        assert(selection.items[j].id != selection.items[i].id);
    }
}

/// A favorite of a protecting user keeps everything below it from being found: every item
/// from which the parents that items name lead up to it, however far.
pub proof fn nothing_below_a_favorite_is_found(
    selection: SelectionModel,
    found: Seq<MatchedModel>,
    path: Seq<int>,
    k: int,
    favorite: Seq<char>,
    p: int,
)
    requires
        is_found(selection, found),
        crate::laws::lineage::ids_are_unique(selection.items),
        crate::laws::lineage::is_way_up(selection.items, path),
        0 <= k < selection.protected_ids.len(),
        selection.favorites.contains_key(selection.protected_ids[k]),
        selection.favorites[selection.protected_ids[k]].contains(favorite),
        selection.items[path.last()].id == favorite || selection.items[path.last()].parent_id
            == Some(favorite),
        0 <= p < found.len(),
    ensures
        found[p].id != selection.items[path[0]].id,
{
    let items = selection.items;
    let i = path[0];
    if found[p].id == items[i].id {
        lemma_found_item(selection, found, p, i);
        let top = path.len() - 1;
        if top > 0 || items[i].id != favorite {
            crate::laws::lineage::a_way_up_leads_through_what_lies_above(items, path, top);
            crate::laws::lineage::unique_items_are_found_by_their_ids(items, i);
            let above = selection.above(items[i]);
            let n = choose|n: int| 0 <= n < above.len() && above[n] == favorite;
            assert(selection.favorites[selection.protected_ids[k]].contains(
                selection.above(items[i])[n],
            ));
        }
        assert(selection.keeps(selection.protected_ids[k], items[i]));
    }
}

/// What is found, every user who must have watched it has in the played items.
pub proof fn everyone_has_played_what_is_found(
    selection: SelectionModel,
    found: Seq<MatchedModel>,
    p: int,
    k: int,
)
    requires
        is_found(selection, found),
        0 <= p < found.len(),
        0 <= k < selection.watched_ids.len(),
    ensures
        selection.played.contains_key(selection.watched_ids[k]),
        selection.played[selection.watched_ids[k]].contains_key(found[p].id),
{
    assert(found.contains(found[p]));
    found_items_are_watched_and_no_favorites(selection, found, found[p]);
    assert(selection.has_played(selection.watched_ids[k], found[p].id));
}

/// With a number of days given, what is found has the date of some play, and every date
/// of a play that can be read is at least that many days old.
pub proof fn what_is_found_was_watched_long_ago(
    selection: SelectionModel,
    found: Seq<MatchedModel>,
    p: int,
    n: u32,
    k: int,
    date: Seq<char>,
    seconds: i64,
    nanos: u32,
)
    requires
        is_found(selection, found),
        0 <= p < found.len(),
        selection.min_days_watched_ago == Some(n),
    ensures
        exists|j: int|
            0 <= j < selection.watched_ids.len()
                && selection.played[#[trigger] selection.watched_ids[j]][found[p].id] is Some,
        0 <= k < selection.watched_ids.len()
            && selection.played[selection.watched_ids[k]][found[p].id] == Some(date)
            && crate::time::rfc3339_timestamp(date) == Some((seconds, nanos))
            ==> selection.now.days_since(Instant { seconds, nanos }) >= n,
{
    assert(found.contains(found[p]));
    exactly_the_deletable_items_are_found(selection, found, found[p]);
    let i = choose|i: int|
        0 <= i < selection.items.len() && selection.is_deletable(#[trigger] selection.items[i])
            && selection.describe(selection.items[i]) == found[p];
    let item = selection.items[i];
    let dates = selection.watched_ids.filter_map(selection.date_of(item.id));
    last_watched_is_the_latest_play(dates);
    let latest = crate::selection::latest(dates)->0;
    crate::grouping::lemma_filter_map_mentions(
        selection.watched_ids,
        selection.date_of(item.id),
        latest,
    );
    let j = choose|j: int|
        0 <= j < selection.watched_ids.len() && selection.date_of(item.id)(
            #[trigger] selection.watched_ids[j],
        ) == Some(latest);
    assert(selection.played[selection.watched_ids[j]][found[p].id] is Some);
    if 0 <= k < selection.watched_ids.len()
        && selection.played[selection.watched_ids[k]][found[p].id] == Some(date)
        && crate::time::rfc3339_timestamp(date) == Some((seconds, nanos)) {
        let days = selection.now.days_since(Instant { seconds, nanos });
        if days < n {
            what_was_watched_lately_is_kept(selection, item, n, k, date, days);
        }
    }
}

/// Everything is found that every user who must have watched it has in the played items,
/// long enough ago where that matters, and that is no favorite of a protecting user, nor
/// led up to one by the parents that items name.
pub proof fn what_nothing_keeps_is_found(
    selection: SelectionModel,
    found: Seq<MatchedModel>,
    i: int,
)
    requires
        is_found(selection, found),
        crate::laws::lineage::ids_are_unique(selection.items),
        0 <= i < selection.items.len(),
        forall|k: int|
            0 <= k < selection.watched_ids.len() ==> selection.played.contains_key(
                #[trigger] selection.watched_ids[k],
            ) && selection.played[selection.watched_ids[k]].contains_key(selection.items[i].id),
        selection.min_days_watched_ago matches Some(n) ==> {
            &&& exists|k: int|
                0 <= k < selection.watched_ids.len()
                    && selection.played[#[trigger] selection.watched_ids[k]][selection.items[i].id]
                    is Some
            &&& forall|k: int, then: Instant|
                #![trigger selection.watched_ids[k], selection.now.days_since(then)]
                0 <= k < selection.watched_ids.len()
                    && selection.played[selection.watched_ids[k]][selection.items[i].id] is Some
                    && crate::time::rfc3339_timestamp(
                    selection.played[selection.watched_ids[k]][selection.items[i].id]->0,
                ) == Some((then.seconds, then.nanos)) ==> selection.now.days_since(then) >= n
        },
        forall|k: int, path: Seq<int>|
            #![trigger selection.protected_ids[k], crate::laws::lineage::is_way_up(selection.items, path)]
            0 <= k < selection.protected_ids.len() && crate::laws::lineage::is_way_up(
                selection.items,
                path,
            ) && path[0] == i && selection.favorites.contains_key(selection.protected_ids[k]) ==> {
                let last = selection.items[path.last()];
                let favorites = selection.favorites[selection.protected_ids[k]];
                !favorites.contains(last.id) && !(last.parent_id is Some && favorites.contains(
                    last.parent_id->0,
                ))
            },
    ensures
        exists|p: int|
            0 <= p < found.len() && (#[trigger] found[p]).id == selection.items[i].id,
{
    let items = selection.items;
    let item = items[i];
    assert forall|k: int| 0 <= k < selection.watched_ids.len() implies selection.has_played(
        #[trigger] selection.watched_ids[k],
        item.id,
    ) by {}
    if selection.min_days_watched_ago is Some {
        let n = selection.min_days_watched_ago->0;
        let k = choose|k: int|
            0 <= k < selection.watched_ids.len()
                && selection.played[#[trigger] selection.watched_ids[k]][item.id] is Some;
        let date = selection.played[selection.watched_ids[k]][item.id]->0;
        let f = selection.date_of(item.id);
        let dates = selection.watched_ids.filter_map(f);
        crate::grouping::lemma_filter_map_mentions(selection.watched_ids, f, date);
        assert(f(selection.watched_ids[k]) == Some(date));
        last_watched_is_the_latest_play(dates);
        assert(dates.len() > 0);
        assert forall|m: int| 0 <= m < selection.watched_ids.len() implies !selection.played_lately(
            #[trigger] selection.watched_ids[m],
            item.id,
            n,
        ) by {
            match selection.played[selection.watched_ids[m]][item.id] {
                Some(when) => match crate::time::rfc3339_timestamp(when) {
                    Some((seconds, nanos)) => {
                        let then = Instant { seconds, nanos };
                        assert(selection.now.days_since(then) >= n);
                    },
                    None => {},
                },
                None => {},
            }
        }
    }
    crate::laws::lineage::unique_items_are_found_by_their_ids(items, i);
    assert forall|k: int| 0 <= k < selection.protected_ids.len() implies !selection.keeps(
        #[trigger] selection.protected_ids[k],
        item,
    ) by {
        let user = selection.protected_ids[k];
        if selection.keeps(user, item) {
            if selection.favorites[user].contains(item.id) {
                let path = seq![i];
                assert(crate::laws::lineage::is_way_up(items, path));
                assert(path[0] == i && path.last() == i);
            } else {
                let n = choose|n: int|
                    0 <= n < selection.above(item).len() && selection.favorites[user].contains(
                        #[trigger] selection.above(item)[n],
                    );
                let favorite = selection.above(item)[n];
                assert(crate::ancestry::lineage(items, item.parent_id).contains(favorite));
                crate::laws::lineage::what_lies_above_is_led_to(items, i, favorite);
                let path = choose|path: Seq<int>|
                    #[trigger] crate::laws::lineage::is_way_up(items, path) && path[0] == i
                        && items[path.last()].parent_id == Some(favorite);
                assert(crate::laws::lineage::is_way_up(items, path));
            }
        }
    }
    let m = selection.describe(item);
    assert(selection.is_deletable(items[i]));
    exactly_the_deletable_items_are_found(selection, found, m);
    let p = choose|p: int| 0 <= p < found.len() && found[p] == m;
    assert(found[p].id == item.id);
}

/// What is found has the fields of its item: the path is empty where there is none, and
/// season and episode go by the numbers of the parent and of the item. Only episodes have
/// a series and a season.
pub proof fn what_is_found_has_the_fields_of_its_item(
    selection: SelectionModel,
    found: Seq<MatchedModel>,
    p: int,
)
    requires
        is_found(selection, found),
        0 <= p < found.len(),
    ensures
        exists|i: int|
            0 <= i < selection.items.len() && {
                let item = #[trigger] selection.items[i];
                let m = found[p];
                &&& m.id == item.id
                &&& m.name == item.name
                &&& m.item_type == item.item_type
                &&& item.path is Some ==> m.path == item.path->0
                &&& item.path is None ==> m.path.len() == 0
                &&& m.size == item.size()
                &&& m.season_number == item.parent_index_number
                &&& m.episode_number == item.index_number
                &&& m.protected_by.len() == 0
                &&& item.item_type != "Episode"@ ==> m.series_name is None && m.series_id is None
                    && m.season_id is None
            },
{
    assert(found.contains(found[p]));
    exactly_the_deletable_items_are_found(selection, found, found[p]);
    let i = choose|i: int|
        0 <= i < selection.items.len() && selection.is_deletable(#[trigger] selection.items[i])
            && selection.describe(selection.items[i]) == found[p];
    assert(selection.items[i].id == found[p].id);
}

/// An episode found is of the series and of the season that a way up through seasons
/// leads to.
pub proof fn an_episode_found_has_its_series_and_season(
    selection: SelectionModel,
    found: Seq<MatchedModel>,
    p: int,
    path: Seq<int>,
    seasons: int,
)
    requires
        is_found(selection, found),
        crate::laws::lineage::ids_are_unique(selection.items),
        0 <= p < found.len(),
        crate::laws::lineage::is_way_up(selection.items, path),
        path.no_duplicates(),
        path.len() == seasons + 2,
        crate::laws::lineage::goes_through_seasons(selection.items, path, seasons),
        selection.items[path.last()].item_type == "Series"@,
        selection.items[path[0]].item_type == "Episode"@,
        found[p].id == selection.items[path[0]].id,
    ensures
        found[p].series_id == Some(selection.items[path.last()].id),
        found[p].series_name == Some(selection.items[path.last()].name),
        seasons > 0 ==> found[p].season_id == Some(selection.items[path[seasons]].id),
        seasons == 0 ==> found[p].season_id is None,
{
    let items = selection.items;
    lemma_found_item(selection, found, p, path[0]);
    crate::laws::lineage::seasons_lead_to_a_series(items, path, seasons);
    assert forall|k: int| 1 <= k < path.len() - 1 implies items[#[trigger] path[k]].item_type
        != "Series"@ by {
        reveal_strlit("Season");
        reveal_strlit("Series");
        assert("Season"@[2] != "Series"@[2]);
        assert(items[path[k]].item_type == "Season"@);
    }
    crate::laws::lineage::the_first_series_above_counts(items, path);
}

/// An episode found has no series where a way up through seasons leads to none; its name
/// of a series goes by the first series above, whatever lies between.
pub proof fn an_episode_found_may_have_no_series(
    selection: SelectionModel,
    found: Seq<MatchedModel>,
    p: int,
    path: Seq<int>,
    seasons: int,
)
    requires
        is_found(selection, found),
        crate::laws::lineage::ids_are_unique(selection.items),
        0 <= p < found.len(),
        crate::laws::lineage::is_way_up(selection.items, path),
        path.no_duplicates(),
        path.len() == seasons + 1,
        crate::laws::lineage::goes_through_seasons(selection.items, path, seasons),
        selection.items[path.last()].parent_id matches Some(parent) ==> (forall|j: int|
            0 <= j < selection.items.len() && (#[trigger] selection.items[j]).id == parent
                ==> selection.items[j].item_type != "Series"@ && (selection.items[j].item_type
                != "Season"@ || exists|k: int| 1 <= k <= seasons && #[trigger] path[k] == j)),
        selection.items[path[0]].item_type == "Episode"@,
        found[p].id == selection.items[path[0]].id,
    ensures
        found[p].series_id is None,
        seasons > 0 ==> found[p].season_id == Some(selection.items[path[seasons]].id),
        seasons == 0 ==> found[p].season_id is None,
{
    lemma_found_item(selection, found, p, path[0]);
    crate::laws::lineage::seasons_may_lead_to_no_series(selection.items, path, seasons);
}

/// The name of the series of an episode found is that of the first series to which a way
/// up leads; there is none where no way up leads to a series.
pub proof fn an_episode_found_is_named_after_its_series(
    selection: SelectionModel,
    found: Seq<MatchedModel>,
    p: int,
    i: int,
    path: Seq<int>,
)
    requires
        is_found(selection, found),
        crate::laws::lineage::ids_are_unique(selection.items),
        0 <= p < found.len(),
        0 <= i < selection.items.len(),
        selection.items[i].item_type == "Episode"@,
        found[p].id == selection.items[i].id,
    ensures
        crate::laws::lineage::is_way_up(selection.items, path) && path.no_duplicates() && path[0]
            == i && path.len() >= 2 && selection.items[path.last()].item_type == "Series"@ && (
        forall|k: int|
            1 <= k < path.len() - 1 ==> selection.items[#[trigger] path[k]].item_type != "Series"@)
            ==> found[p].series_name == Some(selection.items[path.last()].name),
        found[p].series_name is Some ==> exists|way: Seq<int>|
            #[trigger] crate::laws::lineage::is_way_up(selection.items, way) && way.len() >= 2
                && way[0] == i && selection.items[way.last()].item_type == "Series"@
                && found[p].series_name == Some(selection.items[way.last()].name),
{
    let items = selection.items;
    lemma_found_item(selection, found, p, i);
    if crate::laws::lineage::is_way_up(items, path) && path.no_duplicates() && path[0] == i
        && path.len() >= 2 && items[path.last()].item_type == "Series"@ && (forall|k: int|
        1 <= k < path.len() - 1 ==> items[#[trigger] path[k]].item_type != "Series"@) {
        crate::laws::lineage::the_first_series_above_counts(items, path);
    }
    if found[p].series_name is Some {
        crate::laws::lineage::a_series_that_is_named_lies_above(items, i);
    }
}

/// The date given for what is found is one of the dates of its plays, none of which comes
/// later in the order of text; there is none only where no date is known.
pub proof fn the_date_given_is_the_last(
    selection: SelectionModel,
    found: Seq<MatchedModel>,
    p: int,
    k: int,
    date: Seq<char>,
)
    requires
        is_found(selection, found),
        0 <= p < found.len(),
        0 <= k < selection.watched_ids.len(),
        selection.played[selection.watched_ids[k]][found[p].id] == Some(date),
    ensures
        found[p].last_played_date is Some,
        !crate::text::text_less(found[p].last_played_date->0, date),
        exists|j: int|
            0 <= j < selection.watched_ids.len()
                && selection.played[#[trigger] selection.watched_ids[j]][found[p].id]
                == found[p].last_played_date,
{
    assert(found.contains(found[p]));
    exactly_the_deletable_items_are_found(selection, found, found[p]);
    let i = choose|i: int|
        0 <= i < selection.items.len() && selection.is_deletable(#[trigger] selection.items[i])
            && selection.describe(selection.items[i]) == found[p];
    let item = selection.items[i];
    let f = selection.date_of(item.id);
    let dates = selection.watched_ids.filter_map(f);
    crate::grouping::lemma_filter_map_mentions(selection.watched_ids, f, date);
    assert(f(selection.watched_ids[k]) == Some(date));
    last_watched_is_the_latest_play(dates);
    let n = choose|n: int| 0 <= n < dates.len() && dates[n] == date;
    let last = found[p].last_played_date->0;
    assert(!crate::text::text_less(last, dates[n]));
    crate::grouping::lemma_filter_map_mentions(selection.watched_ids, f, last);
    let j = choose|j: int|
        0 <= j < selection.watched_ids.len() && f(#[trigger] selection.watched_ids[j]) == Some(last);
    assert(selection.played[selection.watched_ids[j]][found[p].id] == found[p].last_played_date);
}

/// Where no date of a play is known, none is given.
pub proof fn no_date_is_made_up(selection: SelectionModel, found: Seq<MatchedModel>, p: int)
    requires
        is_found(selection, found),
        0 <= p < found.len(),
        found[p].last_played_date is Some,
    ensures
        exists|j: int|
            0 <= j < selection.watched_ids.len()
                && selection.played[#[trigger] selection.watched_ids[j]][found[p].id]
                == found[p].last_played_date,
{
    assert(found.contains(found[p]));
    exactly_the_deletable_items_are_found(selection, found, found[p]);
    let i = choose|i: int|
        0 <= i < selection.items.len() && selection.is_deletable(#[trigger] selection.items[i])
            && selection.describe(selection.items[i]) == found[p];
    let f = selection.date_of(selection.items[i].id);
    let dates = selection.watched_ids.filter_map(f);
    last_watched_is_the_latest_play(dates);
    let last = found[p].last_played_date->0;
    crate::grouping::lemma_filter_map_mentions(selection.watched_ids, f, last);
    let j = choose|j: int|
        0 <= j < selection.watched_ids.len() && f(#[trigger] selection.watched_ids[j]) == Some(last);
    assert(selection.played[selection.watched_ids[j]][found[p].id] == found[p].last_played_date);
}

/// Where every user who must have watched is known, what is found names them all, in
/// order.
pub proof fn what_is_found_names_its_watchers(
    selection: SelectionModel,
    found: Seq<MatchedModel>,
    p: int,
    k: int,
    u: int,
)
    requires
        is_found(selection, found),
        0 <= p < found.len(),
        forall|j: int|
            0 <= j < selection.watched_ids.len() ==> exists|v: int|
                0 <= v < selection.users.len() && (#[trigger] selection.users[v]).id
                    == #[trigger] selection.watched_ids[j],
        0 <= k < selection.watched_ids.len(),
        0 <= u < selection.users.len(),
        selection.users[u].id == selection.watched_ids[k],
        forall|v: int| 0 <= v < u ==> (#[trigger] selection.users[v]).id != selection.users[u].id,
    ensures
        found[p].played_by.len() == selection.watched_ids.len(),
        found[p].played_by[k] == selection.users[u].name,
{
    assert(found.contains(found[p]));
    exactly_the_deletable_items_are_found(selection, found, found[p]);
    let f = selection.name_of();
    assert forall|j: int| 0 <= j < selection.watched_ids.len() implies f(
        #[trigger] selection.watched_ids[j],
    ) is Some by {
        let id = selection.watched_ids[j];
        crate::laws::counted::users_are_found_by_id(selection.users, id);
        let v = choose|v: int|
            0 <= v < selection.users.len() && (#[trigger] selection.users[v]).id == id;
        assert(selection.users[v].id == id);
    }
    lemma_filter_map_full(selection.watched_ids, f);
    crate::laws::counted::the_first_user_with_an_id_counts(selection.users, u);
}

/// The largest comes first.
pub proof fn the_largest_is_found_first(
    selection: SelectionModel,
    found: Seq<MatchedModel>,
    p: int,
    q: int,
)
    requires
        is_found(selection, found),
        0 <= p < q < found.len(),
    ensures
        found[p].size >= found[q].size,
{
}

/// What is warned of: of an item that everyone has played, long enough ago by the dates
/// that can be read, whose date given cannot be read. Nothing else is warned of.
pub proof fn unreadable_dates_are_warned_of(
    selection: SelectionModel,
    item: MediaModel,
    date: Seq<char>,
)
    requires
        selection.watched_by_all(item),
        selection.last_watched(item) == Some(date),
    ensures
        selection.min_days_watched_ago is Some && selection.long_ago(item)
            && crate::time::rfc3339_timestamp(date) is None ==> selection.warning()(item) == Some(
            "Warning: Could not parse date '"@ + date + "' for item '"@ + item.name
                + "', including anyway"@,
        ),
        crate::time::rfc3339_timestamp(date) is Some ==> selection.warning()(item) is None,
{
}

/// Nothing is warned of where no number of days is given, where no date is known, or
/// where an item is kept for its date or because someone has not played it.
pub proof fn nothing_else_is_warned_of(selection: SelectionModel, item: MediaModel)
    ensures
        selection.min_days_watched_ago is None ==> selection.warning()(item) is None,
        selection.last_watched(item) is None ==> selection.warning()(item) is None,
        !selection.long_ago(item) ==> selection.warning()(item) is None,
        !selection.watched_by_all(item) ==> selection.warning()(item) is None,
{
}

/// Nobody is named as a watcher but the users who must have watched.
pub proof fn only_watchers_are_named(
    selection: SelectionModel,
    found: Seq<MatchedModel>,
    p: int,
    k: int,
)
    requires
        is_found(selection, found),
        0 <= p < found.len(),
        0 <= k < found[p].played_by.len(),
    ensures
        exists|u: int|
            0 <= u < selection.users.len() && (#[trigger] selection.users[u]).name
                == found[p].played_by[k] && selection.watched_ids.contains(selection.users[u].id),
{
    assert(found.contains(found[p]));
    exactly_the_deletable_items_are_found(selection, found, found[p]);
    let f = selection.name_of();
    let name = found[p].played_by[k];
    assert(found[p].played_by.contains(name));
    crate::grouping::lemma_filter_map_mentions(selection.watched_ids, f, name);
    let j = choose|j: int|
        0 <= j < selection.watched_ids.len() && f(#[trigger] selection.watched_ids[j]) == Some(name);
    let id = selection.watched_ids[j];
    crate::laws::counted::users_are_found_by_id(selection.users, id);
    let user = crate::audience::user_with_id(selection.users, id)->0;
    let u = choose|u: int| 0 <= u < selection.users.len() && selection.users[u] == user;
    assert(selection.users[u].name == name);
}

} // verus!
