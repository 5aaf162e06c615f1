//! What holds of the warnings.

use vstd::prelude::*;
use crate::selection::SelectionModel;
use crate::time::Instant;

verus! {

/// Whether every user who must have watched the item with the id `id` has played it, and
/// no date of these plays that can be read is less than `n` days old.
pub open spec fn is_watched_long_ago(selection: SelectionModel, id: Seq<char>, n: u32) -> bool {
    &&& forall|k: int|
        0 <= k < selection.watched_ids.len() ==> selection.played.contains_key(
            #[trigger] selection.watched_ids[k],
        ) && selection.played[selection.watched_ids[k]].contains_key(id)
    &&& forall|k: int, then: Instant|
        #![trigger selection.watched_ids[k], selection.now.days_since(then)]
        0 <= k < selection.watched_ids.len() && selection.played[selection.watched_ids[k]][id]
            is Some && crate::time::rfc3339_timestamp(
            selection.played[selection.watched_ids[k]][id]->0,
        ) == Some((then.seconds, then.nanos)) ==> selection.now.days_since(then) >= n
}

/// Whether `date` is the last date, in the order of text, on which a user who must have
/// watched the item with the id `id` played it.
pub open spec fn is_last_date(selection: SelectionModel, id: Seq<char>, date: Seq<char>) -> bool {
    &&& exists|k: int|
        0 <= k < selection.watched_ids.len()
            && selection.played[#[trigger] selection.watched_ids[k]][id] == Some(date)
    &&& forall|k: int|
        0 <= k < selection.watched_ids.len()
            && selection.played[#[trigger] selection.watched_ids[k]][id] is Some
            ==> !crate::text::text_less(
            date,
            selection.played[selection.watched_ids[k]][id]->0,
        )
}

/// Of two texts one comes first, unless they are the same.
proof fn lemma_one_text_is_less(a: Seq<char>, b: Seq<char>)
    requires
        !crate::text::text_less(a, b),
        !crate::text::text_less(b, a),
    ensures
        a == b,
    decreases a.len(),
{
    if a.len() > 0 && b.len() > 0 {
        let x = a.drop_first();
        let y = b.drop_first();
        assert(a[0] == b[0]);
        lemma_one_text_is_less(x, y);
        assert(a.len() == b.len());
        assert forall|i: int| 0 <= i < a.len() implies a[i] == b[i] by {
            if i > 0 {
                assert(a[i] == x[i - 1] && b[i] == y[i - 1]);
            }
        }
        assert(a =~= b);
    } else {
        assert(a =~= b);
    }
}

/// The date given for an item is the last.
proof fn lemma_last_date(
    selection: SelectionModel,
    item: crate::model::MediaModel,
    date: Seq<char>,
)
    ensures
        is_last_date(selection, item.id, date) <==> selection.last_watched(item) == Some(date),
{
    let f = selection.date_of(item.id);
    let ids = selection.watched_ids;
    let dates = ids.filter_map(f);
    crate::laws::selected::last_watched_is_the_latest_play(dates);
    if selection.last_watched(item) is Some {
        let last = selection.last_watched(item)->0;
        crate::grouping::lemma_filter_map_mentions(ids, f, last);
        let j = choose|j: int| 0 <= j < ids.len() && f(#[trigger] ids[j]) == Some(last);
        assert(selection.played[ids[j]][item.id] == Some(last));
        assert forall|k: int|
            0 <= k < ids.len() && selection.played[#[trigger] ids[k]][item.id] is Some implies
            !crate::text::text_less(last, selection.played[ids[k]][item.id]->0) by {
            let other = selection.played[ids[k]][item.id]->0;
            crate::grouping::lemma_filter_map_mentions(ids, f, other);
            assert(f(ids[k]) == Some(other));
            let m = choose|m: int| 0 <= m < dates.len() && dates[m] == other;
            assert(!crate::text::text_less(last, dates[m]));
        }
        assert(is_last_date(selection, item.id, last));
    }
    if is_last_date(selection, item.id, date) {
        let k = choose|k: int|
            0 <= k < ids.len() && selection.played[#[trigger] ids[k]][item.id] == Some(date);
        assert(f(ids[k]) == Some(date));
        crate::grouping::lemma_filter_map_mentions(ids, f, date);
        assert(dates.contains(date));
        let last = selection.last_watched(item)->0;
        let j = choose|j: int| 0 <= j < ids.len() && f(#[trigger] ids[j]) == Some(last);
        assert(selection.played[ids[j]][item.id] == Some(last));
        assert(!crate::text::text_less(last, selection.played[ids[k]][item.id]->0));
        lemma_one_text_is_less(last, date);
    }
}

/// An item with a date was watched long ago just where the fields say so.
proof fn lemma_watched_long_ago(
    selection: SelectionModel,
    item: crate::model::MediaModel,
    n: u32,
)
    requires
        selection.min_days_watched_ago == Some(n),
        selection.last_watched(item) is Some,
    ensures
        is_watched_long_ago(selection, item.id, n) <==> selection.watched_by_all(item)
            && selection.long_ago(item),
{
    let ids = selection.watched_ids;
    if is_watched_long_ago(selection, item.id, n) {
        assert forall|k: int| 0 <= k < ids.len() implies selection.has_played(
            #[trigger] ids[k],
            item.id,
        ) && !selection.played_lately(ids[k], item.id, n) by {
            match selection.played[ids[k]][item.id] {
                Some(when) => match crate::time::rfc3339_timestamp(when) {
                    Some((seconds, nanos)) => {
                        let then = Instant { seconds, nanos };
                        assert(selection.now.days_since(then) >= n);
                    },
                    None => {},
                },
                None => {},
            }
        }
    }
    if selection.watched_by_all(item) && selection.long_ago(item) {
        assert forall|k: int| 0 <= k < ids.len() implies selection.played.contains_key(
            #[trigger] ids[k],
        ) && selection.played[ids[k]].contains_key(item.id) by {
            assert(selection.has_played(ids[k], item.id));
        }
        assert forall|k: int, then: Instant|
            #![trigger ids[k], selection.now.days_since(then)]
            0 <= k < ids.len() && selection.played[ids[k]][item.id] is Some
                && crate::time::rfc3339_timestamp(selection.played[ids[k]][item.id]->0) == Some(
                (then.seconds, then.nanos),
            ) implies selection.now.days_since(then) >= n by {
            assert(!selection.played_lately(ids[k], item.id, n));
            assert(crate::time::instant_of(selection.played[ids[k]][item.id]->0) == Some(then));
        }
    }
}

/// With a number of days given, an item that everyone has played, long enough ago by the
/// dates that can be read, is warned of where its last date cannot be read.
pub proof fn an_unreadable_last_date_is_warned_of(
    selection: SelectionModel,
    warnings: Seq<Seq<char>>,
    i: int,
    n: u32,
    date: Seq<char>,
)
    requires
        warnings == selection.items.filter_map(selection.warning()),
        0 <= i < selection.items.len(),
        selection.min_days_watched_ago == Some(n),
        is_watched_long_ago(selection, selection.items[i].id, n),
        is_last_date(selection, selection.items[i].id, date),
        crate::time::rfc3339_timestamp(date) is None,
    ensures
        warnings.contains(
            "Warning: Could not parse date '"@ + date + "' for item '"@ + selection.items[i].name
                + "', including anyway"@,
        ),
{
    let item = selection.items[i];
    lemma_last_date(selection, item, date);
    lemma_watched_long_ago(selection, item, n);
    let text = "Warning: Could not parse date '"@ + date + "' for item '"@ + item.name
        + "', including anyway"@;
    assert(selection.warning()(selection.items[i]) == Some(text));
    crate::grouping::lemma_filter_map_mentions(selection.items, selection.warning(), text);
}

/// Nothing else is warned of, and nothing at all where no number of days is given.
pub proof fn only_unreadable_last_dates_are_warned_of(
    selection: SelectionModel,
    warnings: Seq<Seq<char>>,
    w: int,
)
    requires
        warnings == selection.items.filter_map(selection.warning()),
        0 <= w < warnings.len(),
    ensures
        selection.min_days_watched_ago is Some,
        exists|i: int, date: Seq<char>|
            0 <= i < selection.items.len() && #[trigger] is_last_date(
                selection,
                (#[trigger] selection.items[i]).id,
                date,
            ) && is_watched_long_ago(
                selection,
                selection.items[i].id,
                selection.min_days_watched_ago->0,
            ) && crate::time::rfc3339_timestamp(date) is None && warnings[w]
                == "Warning: Could not parse date '"@ + date + "' for item '"@
                + selection.items[i].name + "', including anyway"@,
{
    crate::grouping::lemma_filter_map_mentions(
        selection.items,
        selection.warning(),
        warnings[w],
    );
    assert(warnings.contains(warnings[w]));
    let i = choose|i: int|
        0 <= i < selection.items.len() && selection.warning()(#[trigger] selection.items[i])
            == Some(warnings[w]);
    let item = selection.items[i];
    let date = selection.last_watched(item)->0;
    lemma_last_date(selection, item, date);
    lemma_watched_long_ago(selection, item, selection.min_days_watched_ago->0);
    assert(is_last_date(selection, selection.items[i].id, date));
}

} // verus!
