//! The report of a dry run.

use vstd::prelude::*;
use crate::display::count_items;
use crate::model::GroupModel;
use crate::model::GroupedItem;
use crate::text::join;
use crate::text::push_decimal;
use crate::time::format_days_ago_at;
use crate::time::Instant;

verus! {

/// A line of the report.
pub open spec fn detail(label: Seq<char>, value: Seq<char>) -> Seq<char> {
    label + value + "\n"@
}

/// What the report says of a group: its name, where its first item lies, when it was
/// last played and who has watched it.
pub open spec fn entry(group: GroupModel, now: Instant) -> Seq<char> {
    crate::display::group_text(group) + "\n"@ + (match group {
        GroupModel::Individual(item) => detail("    Path: "@, item.path) + (
        match item.last_played_date {
            Some(date) => detail("    Last played: "@, crate::time::days_ago_text(date, now)),
            None => Seq::empty(),
        }) + detail("    Watched by: "@, crate::text::joined(item.played_by, ", "@)),
        GroupModel::Season { items, .. } => if items.len() > 0 {
            detail("    Path: "@, items[0].path) + detail(
                "    Watched by: "@,
                crate::text::joined(items[0].played_by, ", "@),
            )
        } else {
            Seq::empty()
        },
        GroupModel::Series { .. } => Seq::empty(),
    }) + "\n"@
}

/// The entries of `groups`, one after the other.
pub open spec fn entries(groups: Seq<GroupModel>, now: Instant) -> Seq<char>
    decreases groups.len(),
{
    if groups.len() == 0 {
        Seq::empty()
    } else {
        entries(groups.drop_last(), now) + entry(groups.last(), now)
    }
}

/// The whole report.
pub open spec fn report_text(groups: Seq<GroupModel>, now: Instant) -> Seq<char> {
    "\n=== Items to be deleted (dry-run) ===\n\n"@ + entries(groups, now) + "Total: "@
        + crate::text::decimal(crate::display::item_count(groups)) + " items\n"@
}

fn push_detail(text: &mut String, label: &str, value: &str)
    ensures
        final(text)@ == old(text)@ + detail(label@, value@),
{
    text.append(label);
    text.append(value);
    text.append("\n");
    assert(text@ =~= old(text)@ + detail(label@, value@));
}

fn push_entry(text: &mut String, group: &GroupedItem, now: Instant)
    requires
        now.valid(),
        group.deep_view().total_size() <= u64::MAX,
    ensures
        final(text)@ == old(text)@ + entry(group.deep_view(), now),
{
    let name = group.display_name();
    text.append(name.as_str());
    text.append("\n");
    match group {
        GroupedItem::Individual(item) => {
            push_detail(text, "    Path: ", item.path.as_str());
            match &item.last_played_date {
                Some(date) => {
                    let age = format_days_ago_at(date.as_str(), now);
                    push_detail(text, "    Last played: ", age.as_str());
                },
                None => {},
            }
            let viewers = join(&item.played_by, ", ");
            push_detail(text, "    Watched by: ", viewers.as_str());
        },
        GroupedItem::Season { items, .. } => {
            if items.len() > 0 {
                let first = &items[0];
                assert(items.deep_view()[0] == first.deep_view());
                push_detail(text, "    Path: ", first.path.as_str());
                let viewers = join(&first.played_by, ", ");
                push_detail(text, "    Watched by: ", viewers.as_str());
            }
        },
        GroupedItem::Series { .. } => {},
    }
    text.append("\n");
    assert(text@ =~= old(text)@ + entry(group.deep_view(), now));
}

/// Writes what would be deleted.
pub fn dry_run_report(groups: &[GroupedItem], now: Instant) -> (text: String)
    requires
        now.valid(),
        forall|i: int|
            0 <= i < groups.deep_view().len() ==> (#[trigger] groups.deep_view()[i]).total_size()
                <= u64::MAX,
    ensures
        text@ == report_text(groups.deep_view(), now),
{
    let ghost all = groups.deep_view();
    let mut text = String::new();
    text.append("\n=== Items to be deleted (dry-run) ===\n\n");
    let ghost head = text@;
    let mut i: usize = 0;
    assert(text@ =~= head + entries(all.take(0), now));
    while i < groups.len()
        invariant
            i <= groups.len(),
            now.valid(),
            all == groups.deep_view(),
            forall|j: int| 0 <= j < all.len() ==> (#[trigger] all[j]).total_size() <= u64::MAX,
            text@ == head + entries(all.take(i as int), now),
        decreases groups.len() - i,
    {
        proof {
            assert(all.take(i + 1).drop_last() =~= all.take(i as int));
            assert(all[i as int] == groups@[i as int].deep_view());
        }
        push_entry(&mut text, &groups[i], now);
        assert(text@ =~= head + entries(all.take(i + 1), now));
        i += 1;
    }
    assert(all.take(i as int) =~= all);
    text.append("Total: ");
    push_decimal(&mut text, count_items(groups));
    text.append(" items\n");
    assert(text@ =~= report_text(all, now));
    text
}

} // verus!
