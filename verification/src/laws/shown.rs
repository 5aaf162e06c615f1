//! What holds of the texts that are shown.

use vstd::prelude::*;
use crate::model::GroupModel;
use crate::model::MatchedModel;
use crate::picker::PickerModel;
use crate::time::Instant;

verus! {

/// A number is written digit by digit: a single digit as its character, and ten times a
/// number and a digit as the number followed by the digit.
pub proof fn numbers_are_written_digit_by_digit(n: nat, d: nat)
    requires
        d < 10,
    ensures
        crate::text::decimal(d) == seq![('0' as int + d) as char],
        n > 0 ==> crate::text::decimal(10 * n + d) == crate::text::decimal(n).push(
            ('0' as int + d) as char,
        ),
{
    if n > 0 {
        assert((10 * n + d) / 10 == n && (10 * n + d) % 10 == d);
    }
}

/// No two numbers are written alike.
pub proof fn numbers_are_told_apart(m: nat, n: nat)
    requires
        crate::text::decimal(m) == crate::text::decimal(n),
    ensures
        m == n,
    decreases m,
{
    let a = crate::text::decimal(m);
    let b = crate::text::decimal(n);
    lemma_decimal_not_empty(m / 10);
    lemma_decimal_not_empty(n / 10);
    assert(a.last() == b.last());
    assert(a.last() as int == 48 + m % 10);
    assert(b.last() as int == 48 + n % 10);
    if m >= 10 {
        assert(a.drop_last() =~= crate::text::decimal(m / 10));
        assert(n >= 10);
        assert(b.drop_last() =~= crate::text::decimal(n / 10));
        numbers_are_told_apart(m / 10, n / 10);
    }
}

proof fn lemma_decimal_not_empty(n: nat)
    ensures
        crate::text::decimal(n).len() > 0,
{
}

/// A number below zero is written with a minus sign before what it would be above zero.
pub proof fn a_minus_sign_stands_before_what_is_below_zero(n: nat)
    ensures
        crate::text::signed_decimal(n as int) == crate::text::decimal(n),
        n > 0 ==> crate::text::signed_decimal(-n) == seq!['-'] + crate::text::decimal(n),
{
    reveal_strlit("-");
    assert("-"@ =~= seq!['-']);
}

/// A number of one digit is filled up with a zero; a longer one is written as it is.
pub proof fn single_digits_are_filled_up(n: nat)
    ensures
        n < 10 ==> crate::text::two_digits(n) == seq!['0', ('0' as int + n) as char],
        n >= 10 ==> crate::text::two_digits(n) == crate::text::decimal(n),
        crate::text::two_digits(n).len() >= 2,
{
    reveal_strlit("0");
    if n < 10 {
        assert(crate::text::two_digits(n) =~= seq!['0', ('0' as int + n) as char]);
    } else {
        lemma_decimal_not_empty(n / 10);
    }
}

/// What is joined grows by a separator and a part; the first part comes without one.
pub proof fn parts_are_joined_one_by_one(
    parts: Seq<Seq<char>>,
    part: Seq<char>,
    separator: Seq<char>,
)
    ensures
        crate::text::joined(Seq::empty(), separator) == Seq::<char>::empty(),
        crate::text::joined(seq![part], separator) == part,
        parts.len() > 0 ==> crate::text::joined(parts.push(part), separator)
            == crate::text::joined(parts, separator) + separator + part,
{
    assert(parts.push(part).drop_last() =~= parts);
}

/// Whether `a` and `b` begin with the same `k` characters, and `a` then ends or goes on
/// with the lower character.
pub open spec fn goes_first_at(a: Seq<char>, b: Seq<char>, k: int) -> bool {
    &&& 0 <= k <= a.len() && k < b.len()
    &&& forall|j: int| 0 <= j < k ==> a[j] == b[j]
    &&& k == a.len() || (a[k] as int) < b[k] as int
}

/// One text comes before another where, after a common beginning, it ends or has the
/// lower character.
pub proof fn texts_are_ordered_by_their_first_difference(a: Seq<char>, b: Seq<char>)
    ensures
        crate::text::text_less(a, b) <==> exists|k: int| goes_first_at(a, b, k),
    decreases a.len(),
{
    if b.len() > 0 && (a.len() == 0 || a[0] != b[0]) {
        if crate::text::text_less(a, b) {
            assert(goes_first_at(a, b, 0));
        }
        if exists|k: int| goes_first_at(a, b, k) {
            let k = choose|k: int| goes_first_at(a, b, k);
            if k > 0 {
                assert(a[0] == b[0]);
            }
        }
    } else if b.len() > 0 {
        let x = a.drop_first();
        let y = b.drop_first();
        texts_are_ordered_by_their_first_difference(x, y);
        if crate::text::text_less(a, b) {
            let k = choose|k: int| goes_first_at(x, y, k);
            assert forall|j: int| 0 <= j < k + 1 implies a[j] == b[j] by {
                if j > 0 {
                    assert(x[j - 1] == y[j - 1]);
                }
            }
            if k < x.len() {
                assert(a[k + 1] == x[k] && b[k + 1] == y[k]);
            }
            assert(goes_first_at(a, b, k + 1));
        }
        if exists|k: int| goes_first_at(a, b, k) {
            let k = choose|k: int| goes_first_at(a, b, k);
            assert forall|j: int| 0 <= j < k - 1 implies x[j] == y[j] by {
                assert(a[j + 1] == b[j + 1]);
            }
            if k < a.len() {
                assert(a[k] == x[k - 1] && b[k] == y[k - 1]);
            }
            assert(goes_first_at(x, y, k - 1));
        }
    }
}

/// Rounding yields the nearest multiple.
proof fn lemma_rounding(n: nat, d: nat)
    requires
        d > 0,
    ensures
        is_nearest(crate::size::round_half_even(n, d), d, n),
{
    let q = n / d;
    vstd::arithmetic::div_mod::lemma_fundamental_div_mod(n as int, d as int);
    assert(d * q == q * d) by (nonlinear_arith);
    assert((q + 1) * d == q * d + d) by (nonlinear_arith);
}

/// The unit in which a size is shown, and its name.
pub open spec fn unit_of(size: nat) -> (nat, Seq<char>) {
    if size < 1_048_576 {
        (1024, " KB"@)
    } else if size < 1_073_741_824 {
        (1_048_576, " MB"@)
    } else if size < 1_099_511_627_776 {
        (1_073_741_824, " GB"@)
    } else {
        (1_099_511_627_776, " TB"@)
    }
}

/// Whether `count` times `step` is the multiple of `step` nearest to `n`, or the even one
/// of two that are equally near.
pub open spec fn is_nearest(count: nat, step: nat, n: nat) -> bool {
    let off = count * step - n;
    &&& -(step as int) <= 2 * off <= step
    &&& 2 * off == step || 2 * off == -(step as int) ==> count % 2 == 0
}

/// A size below a kilobyte is shown in bytes. Any other is shown in the largest unit that
/// it reaches, as units, a point, and two digits of hundredths: the nearest hundredth to
/// the size, or the even one of two that are equally near. Sizes of sixteen digits and
/// more first go to the nearest number of 53 binary digits in the same way.
pub proof fn sizes_are_shown_in_units(size: nat, step: nat, zeros: nat)
    requires
        size <= u64::MAX,
        step == vstd::arithmetic::power2::pow2(zeros),
        if size < 0x20_0000_0000_0000 {
            zeros == 0
        } else {
            0x10_0000_0000_0000 * step <= size < 0x20_0000_0000_0000 * step
        },
    ensures
        size < 1024 ==> crate::size::size_text(size) == crate::text::decimal(size) + " B"@,
        size >= 1024 ==> exists|count: nat, h: nat| #[trigger]
            is_nearest(count, step, size) && #[trigger] is_nearest(
                h,
                unit_of(size).0,
                count * step * 100,
            ) && crate::size::size_text(size) == crate::text::decimal(h / 100) + "."@
                + crate::text::two_digits(h % 100) + unit_of(size).1,
{
    lemma_spacing(size, zeros);
    vstd::arithmetic::power2::lemma_pow2_pos(zeros);
    if size >= 1024 {
        let (unit, name) = unit_of(size);
        let count = crate::size::round_half_even(size, step);
        let h = crate::size::hundredths(size, unit);
        lemma_rounding(size, step);
        lemma_rounding(count * step * 100, unit);
        assert(is_nearest(count, step, size));
        assert(is_nearest(h, unit, count * step * 100));
        assert(crate::size::size_text(size) == crate::size::scaled_text(size, unit, name));
    }
}

/// The distance between the numbers of 53 binary digits around `n`.
proof fn lemma_spacing(n: nat, zeros: nat)
    requires
        if n < 0x20_0000_0000_0000 {
            zeros == 0
        } else {
            0x10_0000_0000_0000 * vstd::arithmetic::power2::pow2(zeros) <= n < 0x20_0000_0000_0000
                * vstd::arithmetic::power2::pow2(zeros)
        },
    ensures
        crate::size::spacing(n) == vstd::arithmetic::power2::pow2(zeros),
    decreases n,
{
    vstd::arithmetic::power2::lemma2_to64();
    if n >= 0x20_0000_0000_0000 {
        assert(zeros > 0);
        vstd::arithmetic::power2::lemma_pow2_unfold(zeros);
        let rest = (zeros - 1) as nat;
        let half = vstd::arithmetic::power2::pow2(rest);
        assert(n / 2 < 0x20_0000_0000_0000 * half);
        assert(0x10_0000_0000_0000 * half <= n / 2);
        if n / 2 < 0x20_0000_0000_0000 {
            if rest > 0 {
                vstd::arithmetic::power2::lemma_pow2_unfold(rest);
                vstd::arithmetic::power2::lemma_pow2_pos((rest - 1) as nat);
                assert(half >= 2);
            }
        }
        lemma_spacing(n / 2, rest);
    }
}

/// Outside of leap seconds, days are counted whole: as many as fit between two points in
/// time, with a minus where the second is the earlier.
pub proof fn days_are_counted_whole(now: Instant, then: Instant)
    requires
        now.nanos < 1_000_000_000,
        then.nanos < 1_000_000_000,
    ensures
        ({
            let passed = (now.seconds - then.seconds) * 1_000_000_000 + now.nanos - then.nanos;
            let days = now.days_since(then);
            &&& passed >= 0 ==> days * 86_400_000_000_000 <= passed < (days + 1)
                * 86_400_000_000_000
            &&& passed < 0 ==> (days - 1) * 86_400_000_000_000 < passed <= days
                * 86_400_000_000_000
        }),
{
    let passed = now.nanos_since(then);
    assert(crate::time::DAY * crate::time::SECOND == 86_400_000_000_000);
    assert(now.seconds % 86_400 == now.seconds % crate::time::DAY);
}

/// A leap second counts where it lies between the times of day of the two points.
pub proof fn leap_seconds_count_between_times_of_day(now: Instant, then: Instant)
    ensures
        ({
            let plain = (now.seconds - then.seconds) * 1_000_000_000 + now.nanos - then.nanos;
            let a = now.seconds % 86_400;
            let b = then.seconds % 86_400;
            &&& a > b && then.nanos >= 1_000_000_000 ==> now.nanos_since(then) == plain
                + 1_000_000_000
            &&& a < b && now.nanos >= 1_000_000_000 ==> now.nanos_since(then) == plain
                - 1_000_000_000
            &&& a == b || (a > b && then.nanos < 1_000_000_000) || (a < b && now.nanos
                < 1_000_000_000) ==> now.nanos_since(then) == plain
            &&& now.days_since(then) == if now.nanos_since(then) >= 0 {
                now.nanos_since(then) / 86_400_000_000_000
            } else {
                -((-now.nanos_since(then)) / 86_400_000_000_000)
            }
        }),
{
    assert(crate::time::DAY * crate::time::SECOND == 86_400_000_000_000);
}

/// Which seconds and nanoseconds are a point in time, and which instant a text names.
pub proof fn points_in_time_are_in_range(seconds: i64, nanos: u32, text: Seq<char>)
    ensures
        (Instant { seconds, nanos }).valid() <==> -8_334_601_228_800 <= seconds
            <= 8_210_266_876_799 && nanos < 2_000_000_000 && (nanos >= 1_000_000_000 ==> seconds
            % 60 == 59),
        crate::time::is_timestamp(seconds, nanos) <==> (Instant { seconds, nanos }).valid(),
        crate::time::instant_of(text) is None <==> crate::time::rfc3339_timestamp(text) is None,
        crate::time::rfc3339_timestamp(text) == Some((seconds, nanos))
            ==> crate::time::instant_of(text) == Some(Instant { seconds, nanos }),
{
}

/// A date that can be read is shown as the days since: none is today, one is yesterday,
/// any other number is given. One that cannot is shown as it stands.
pub proof fn ages_are_put_in_words(date: Seq<char>, now: Instant)
    ensures
        crate::time::rfc3339_timestamp(date) is None ==> crate::time::days_ago_text(date, now)
            == date && crate::time::days_before(date, now) is None,
        crate::time::rfc3339_timestamp(date) matches Some((seconds, nanos)) ==> {
            let days = now.days_since(Instant { seconds, nanos });
            let text = crate::time::days_ago_text(date, now);
            &&& crate::time::days_before(date, now) == Some(days)
            &&& text == crate::time::age_text(days)
            &&& days == 0 ==> text == "Today"@
            &&& days == 1 ==> text == "Yesterday"@
            &&& days != 0 && days != 1 ==> text == crate::text::signed_decimal(days) + " days ago"@
        },
{
}

/// An item whose series, season and episode are known is shown with all three before its
/// name; any other by its name.
pub proof fn episodes_are_shown_with_their_place(item: MatchedModel)
    ensures
        item.series_name is Some && item.season_number is Some && item.episode_number is Some ==> {
            let place = item.series_name->0 + " - S"@ + crate::text::two_digits(
                item.season_number->0 as nat,
            ) + "E"@ + crate::text::two_digits(item.episode_number->0 as nat) + " - "@;
            &&& place.is_prefix_of(crate::display::display_text(item))
            &&& crate::display::display_text(item) == place + item.name
        },
        item.series_name is None || item.season_number is None || item.episode_number is None
            ==> crate::display::display_text(item) == item.name,
{
}

/// A group of one item is shown as that item is.
pub proof fn a_group_of_one_is_shown_as_its_item(item: MatchedModel)
    ensures
        crate::display::group_text(GroupModel::Individual(item)) == crate::display::display_text(
            item,
        ),
        item.series_name is Some && item.season_number is Some && item.episode_number is Some ==> (
        item.series_name->0 + " - S"@ + crate::text::two_digits(item.season_number->0 as nat)
            + "E"@ + crate::text::two_digits(item.episode_number->0 as nat)
            + " - "@).is_prefix_of(crate::display::group_text(GroupModel::Individual(item))),
{
}

/// A season is shown with its number, how many episodes its group holds and their size; a
/// series with how many seasons and episodes it has and the size of the episodes.
pub proof fn groups_are_shown_with_what_they_hold(group: GroupModel)
    ensures
        group matches GroupModel::Season { series_name, season_number, items } ==>
            crate::display::group_text(group) == series_name + " - Season "@
            + crate::text::decimal(season_number as nat) + " ("@ + crate::text::decimal(items.len())
            + " episodes, "@ + crate::size::size_text(crate::model::total_size(items)) + ")"@,
        group matches GroupModel::Series { series_name, total_episodes, seasons, items } ==>
            crate::display::group_text(group) == series_name + " ("@ + crate::text::decimal(
            seasons.len(),
        ) + " seasons, "@ + crate::text::decimal(total_episodes as nat) + " episodes, "@
            + crate::size::size_text(crate::model::total_size(items)) + ")"@,
{
}

/// Items are counted in each of their groups.
pub proof fn items_are_counted_by_group(groups: Seq<GroupModel>, group: GroupModel)
    ensures
        crate::display::item_count(Seq::empty()) == 0,
        crate::display::item_count(groups.push(group)) == crate::display::item_count(groups)
            + group.items().len(),
{
    assert(groups.push(group).drop_last() =~= groups);
}

/// The report has a heading, what is said of each group, and the number of items.
pub proof fn a_report_has_all_groups(groups: Seq<GroupModel>, group: GroupModel, now: Instant)
    ensures
        crate::report::report_text(groups, now)
            == "\n=== Items to be deleted (dry-run) ===\n\n"@ + crate::report::entries(groups, now)
            + "Total: "@ + crate::text::decimal(crate::display::item_count(groups)) + " items\n"@,
        crate::report::entries(Seq::empty(), now) == Seq::<char>::empty(),
        crate::report::entries(groups.push(group), now) == crate::report::entries(groups, now)
            + crate::report::entry(group, now),
{
    assert(groups.push(group).drop_last() =~= groups);
}

/// What is said of a group: its name, the path, and who has watched it; of a single item
/// also when it was last played, of a series the name alone.
pub proof fn entries_name_path_age_and_watchers(group: GroupModel, now: Instant)
    ensures
        group matches GroupModel::Individual(item) ==> {
            let head = crate::display::display_text(item) + "\n    Path: "@ + item.path + "\n"@;
            let tail = "    Watched by: "@ + crate::text::joined(item.played_by, ", "@) + "\n\n"@;
            &&& item.last_played_date is None ==> crate::report::entry(group, now) == head + tail
            &&& item.last_played_date matches Some(date) ==> crate::report::entry(group, now)
                == head + "    Last played: "@ + crate::time::days_ago_text(date, now) + "\n"@
                + tail
        },
        group matches GroupModel::Season { items, .. } ==> if items.len() > 0 {
            crate::report::entry(group, now) == crate::display::group_text(group)
                + "\n    Path: "@ + items[0].path + "\n    Watched by: "@ + crate::text::joined(
                items[0].played_by,
                ", "@,
            ) + "\n\n"@
        } else {
            crate::report::entry(group, now) == crate::display::group_text(group) + "\n\n"@
        },
        group is Series ==> crate::report::entry(group, now) == crate::display::group_text(group)
            + "\n\n"@,
{
    reveal_strlit("\n");
    reveal_strlit("\n\n");
    reveal_strlit("    Path: ");
    reveal_strlit("\n    Path: ");
    reveal_strlit("    Watched by: ");
    reveal_strlit("\n    Watched by: ");
    assert("\n\n"@ =~= "\n"@ + "\n"@);
    assert("\n    Path: "@ =~= "\n"@ + "    Path: "@);
    assert("\n    Watched by: "@ =~= "\n"@ + "    Watched by: "@);
    match group {
        GroupModel::Individual(item) => {
            let head = crate::display::display_text(item) + "\n    Path: "@ + item.path + "\n"@;
            let tail = "    Watched by: "@ + crate::text::joined(item.played_by, ", "@) + "\n\n"@;
            match item.last_played_date {
                Some(date) => {
                    assert(crate::report::entry(group, now) =~= head + "    Last played: "@
                        + crate::time::days_ago_text(date, now) + "\n"@ + tail);
                },
                None => {
                    assert(crate::report::entry(group, now) =~= head + tail);
                },
            }
        },
        GroupModel::Season { items, .. } => {
            if items.len() > 0 {
                assert(crate::report::entry(group, now) =~= crate::display::group_text(group)
                    + "\n    Path: "@ + items[0].path + "\n    Watched by: "@ + crate::text::joined(
                    items[0].played_by,
                    ", "@,
                ) + "\n\n"@);
            } else {
                assert(crate::report::entry(group, now) =~= crate::display::group_text(group)
                    + "\n\n"@);
            }
        },
        GroupModel::Series { .. } => {
            assert(crate::report::entry(group, now) =~= crate::display::group_text(group)
                + "\n\n"@);
        },
    }
}

/// A row of the list shows the mark, the name, the kind, the size and the age of the
/// first item of a group.
pub proof fn rows_show_the_groups(group: GroupModel, marked: bool, now: Instant)
    ensures
        ({
            let row = crate::picker::row_of(group, marked, now);
            &&& row.checkbox == if marked {
                "[x]"@
            } else {
                "[ ]"@
            }
            &&& row.name == crate::display::group_text(group)
            &&& group matches GroupModel::Individual(item) ==> row.kind == item.item_type
            &&& group is Season ==> row.kind == "Season"@
            &&& group is Series ==> row.kind == "Series"@
            &&& row.size == crate::size::size_text(crate::model::total_size(group.items()))
            &&& group.items().len() == 0 ==> row.last_played == "Never"@
            &&& group.items().len() > 0 && group.items()[0].last_played_date is None
                ==> row.last_played == "Never"@
            &&& group.items().len() > 0 && group.items()[0].last_played_date is Some
                ==> row.last_played == crate::time::days_ago_text(
                group.items()[0].last_played_date->0,
                now,
            )
        }),
{
}

/// The line under the list counts the marks and the rows from one, and speaks of the
/// help.
pub proof fn the_status_counts_marks_and_rows(picker: PickerModel, mark: bool, marked: Seq<bool>)
    ensures
        crate::picker::status_text(picker) == " Selected: "@ + crate::text::decimal(
            crate::picker::marked_count(picker.marked),
        ) + " | "@ + crate::text::decimal((picker.cursor + 1) as nat) + "/"@
            + crate::text::decimal(picker.marked.len()) + (if picker.help_shown {
            " (press any key) "@
        } else {
            " | ? for help "@
        }),
        crate::picker::marked_count(Seq::empty()) == 0,
        crate::picker::marked_count(marked.push(mark)) == crate::picker::marked_count(marked) + (
        if mark {
            1nat
        } else {
            0
        }),
{
    reveal_strlit(" ");
    reveal_strlit(" (press any key)");
    reveal_strlit(" (press any key) ");
    reveal_strlit(" | ? for help");
    reveal_strlit(" | ? for help ");
    assert(" (press any key) "@ =~= " (press any key)"@ + " "@);
    assert(" | ? for help "@ =~= " | ? for help"@ + " "@);
    assert(crate::picker::status_text(picker) =~= " Selected: "@ + crate::text::decimal(
        crate::picker::marked_count(picker.marked),
    ) + " | "@ + crate::text::decimal((picker.cursor + 1) as nat) + "/"@ + crate::text::decimal(
        picker.marked.len(),
    ) + (if picker.help_shown {
        " (press any key) "@
    } else {
        " | ? for help "@
    }));
    let p = |m: bool| m;
    marked.lemma_filter_len_push(p, mark);
    reveal(Seq::filter);
}

/// No days ago is today, one is yesterday, any other number is given.
pub proof fn numbers_of_days_are_put_in_words(days: int)
    ensures
        crate::time::age_text(0) == "Today"@,
        crate::time::age_text(1) == "Yesterday"@,
        days != 0 && days != 1 ==> crate::time::age_text(days) == crate::text::signed_decimal(days)
            + " days ago"@,
{
}

} // verus!
