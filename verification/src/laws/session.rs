//! What holds of asking, picking, fetching and deleting.

use vstd::prelude::*;
use crate::config::Arguments;
use crate::config::ConfigError;
use crate::deletion::RunModel;
use crate::deletion::StepModel;
use crate::model::GroupModel;
use crate::model::MatchedModel;
use crate::model::MediaModel;
use crate::paging::FetchModel;
use crate::picker::KeyPress;
use crate::picker::PickerModel;

verus! {

/// Arguments that are accepted do not contradict each other: nothing is both deleted
/// outright and picked by hand, and nobody's favorites are both ignored and kept.
pub proof fn accepted_arguments_are_consistent(
    args: Arguments,
    url: Option<Seq<char>>,
    api_key: Option<Seq<char>>,
)
    requires
        crate::config::objection(args, url, api_key) is None,
    ensures
        !(args.delete && args.interactive),
        args.ignore_favorites ==> args.protected_by@.len() == 0,
        crate::config::given_or(args.jellyfin_url@, url) is Some,
        crate::config::given_or(args.jellyfin_api_key@, api_key) is Some,
{
}

/// Whatever key is pressed, the cursor stays on a row and no row is lost.
pub proof fn the_cursor_stays_on_a_row(picker: PickerModel, key: KeyPress)
    requires
        picker.valid(),
        picker.takes(key),
    ensures
        picker.after(key).valid(),
        picker.after(key).marked.len() == picker.marked.len(),
{
}

/// A key changes no mark but that of the row under the cursor, and that one only where
/// it is the key for it and no help is shown.
pub proof fn only_the_row_under_the_cursor_is_marked(picker: PickerModel, key: KeyPress, row: int)
    requires
        picker.valid(),
        picker.takes(key),
        0 <= row < picker.marked.len(),
    ensures
        picker.after(key).marked[row] != picker.marked[row] <==> row == picker.cursor
            && !picker.help_shown && crate::picker::command_of(key) is Toggle,
{
}

/// Marking a row twice leaves everything as it was.
pub proof fn marking_twice_changes_nothing(picker: PickerModel, key: KeyPress)
    requires
        picker.valid(),
        picker.takes(key),
        !picker.help_shown,
        crate::picker::command_of(key) is Toggle,
    ensures
        picker.after(key).after(key) == picker,
{
    assert(picker.after(key).after(key).marked =~= picker.marked);
}

/// While the help is shown any key hides it, and does nothing else.
pub proof fn any_key_hides_the_help(picker: PickerModel, key: KeyPress)
    requires
        picker.help_shown,
    ensures
        picker.after(key) == (PickerModel { help_shown: false, ..picker }),
        picker.outcome(key) is Continue,
{
}

/// Picked are the groups of the marked rows, as many as there are marks.
pub proof fn the_marked_groups_are_picked(groups: Seq<GroupModel>, marked: Seq<bool>, g: GroupModel)
    requires
        groups.len() == marked.len(),
    ensures
        crate::picker::picked(groups, marked).contains(g) <==> exists|i: int|
            0 <= i < groups.len() && marked[i] && #[trigger] groups[i] == g,
        crate::picker::picked(groups, marked).len() == crate::picker::marked_count(marked),
    decreases groups.len(),
{
    let picked = crate::picker::picked(groups, marked);
    if groups.len() == 0 {
        reveal(Seq::filter);
    } else {
        let last = groups.len() - 1;
        let rest = crate::picker::picked(groups.drop_last(), marked);
        lemma_picked_prefix(groups.drop_last(), marked, marked.drop_last());
        the_marked_groups_are_picked(groups.drop_last(), marked.drop_last(), g);
        assert(marked =~= marked.drop_last().push(marked.last()));
        marked.drop_last().lemma_filter_len_push(|mark: bool| mark, marked.last());
        if picked.contains(g) {
            let j = choose|j: int| 0 <= j < picked.len() && picked[j] == g;
            if j < rest.len() {
                assert(rest[j] == g);
                let i = choose|i: int|
                    0 <= i < groups.drop_last().len() && marked.drop_last()[i]
                        && #[trigger] groups.drop_last()[i] == g;
                assert(groups[i] == g);
            } else {
                assert(groups[last] == g);
            }
        }
        if exists|i: int| 0 <= i < groups.len() && marked[i] && #[trigger] groups[i] == g {
            let i = choose|i: int| 0 <= i < groups.len() && marked[i] && #[trigger] groups[i] == g;
            if i < last {
                assert(groups.drop_last()[i] == g);
                let j = choose|j: int| 0 <= j < rest.len() && rest[j] == g;
                assert(picked[j] == g);
            } else {
                assert(picked[rest.len() as int] == g);
            }
        }
    }
}

/// What is picked depends on the marks of the rows there are.
proof fn lemma_picked_prefix(groups: Seq<GroupModel>, one: Seq<bool>, other: Seq<bool>)
    requires
        groups.len() <= one.len(),
        groups.len() <= other.len(),
        forall|i: int| 0 <= i < groups.len() ==> one[i] == other[i],
    ensures
        crate::picker::picked(groups, one) == crate::picker::picked(groups, other),
    decreases groups.len(),
{
    if groups.len() > 0 {
        lemma_picked_prefix(groups.drop_last(), one, other);
    }
}

/// Who confirms without having marked anything picks nothing.
pub proof fn nothing_is_picked_at_the_start(groups: Seq<GroupModel>)
    ensures
        crate::picker::picked(groups, PickerModel::at_start(groups.len()).marked)
            == Seq::<GroupModel>::empty(),
{
    let marked = PickerModel::at_start(groups.len()).marked;
    let p = |mark: bool| mark;
    marked.lemma_all_neg_filter_empty(p);
    if groups.len() > 0 {
        the_marked_groups_are_picked(groups, marked, groups[0]);
    }
}

/// An answer of white space alone, or none at all, does not mean yes.
pub proof fn silence_does_not_mean_yes(answer: Seq<char>)
    requires
        forall|i: int| 0 <= i < answer.len() ==> crate::confirm::is_white_space(
            #[trigger] answer[i],
        ),
    ensures
        !crate::confirm::means_yes(answer),
{
    if crate::confirm::means_yes(answer) {
        let i = choose|i: int|
            0 <= i < answer.len() && (answer[i] == 'y' || answer[i] == 'Y') && forall|j: int|
                0 <= j < answer.len() && j != i ==> crate::confirm::is_white_space(
                    #[trigger] answer[j],
                );
        assert(crate::confirm::is_white_space(answer[i]));
    }
}

/// The id of an item that a step deletes.
pub open spec fn deleted_id() -> spec_fn(StepModel) -> Option<Seq<char>> {
    |step: StepModel|
        match step {
            StepModel::Say(_) => None,
            StepModel::Delete { id, .. } => Some(id),
        }
}

/// The ids of the items of the groups, one after the other.
pub open spec fn item_ids(groups: Seq<GroupModel>) -> Seq<Seq<char>>
    decreases groups.len(),
{
    if groups.len() == 0 {
        Seq::empty()
    } else {
        item_ids(groups.drop_last()) + groups.last().items().map_values(
            |item: MatchedModel| item.id,
        )
    }
}

/// `filter_map` of two sequences in a row.
proof fn lemma_filter_map_add<A, B>(a: Seq<A>, b: Seq<A>, f: spec_fn(A) -> Option<B>)
    ensures
        (a + b).filter_map(f) == a.filter_map(f) + b.filter_map(f),
    decreases b.len(),
{
    if b.len() == 0 {
        assert(a + b =~= a);
        assert(a.filter_map(f) + b.filter_map(f) =~= a.filter_map(f));
    } else {
        lemma_filter_map_add(a, b.drop_last(), f);
        assert((a + b).drop_last() =~= a + b.drop_last());
        assert((a + b).filter_map(f) =~= a.filter_map(f) + b.filter_map(f));
    }
}

/// A sequence in which `filter_map` finds nothing.
proof fn lemma_filter_map_none<A, B>(s: Seq<A>, f: spec_fn(A) -> Option<B>)
    requires
        forall|i: int| 0 <= i < s.len() ==> f(#[trigger] s[i]) is None,
    ensures
        s.filter_map(f) == Seq::<B>::empty(),
    decreases s.len(),
{
    if s.len() > 0 {
        assert(f(s[s.len() - 1]) is None);
        assert forall|i: int| 0 <= i < s.drop_last().len() implies f(
            #[trigger] s.drop_last()[i],
        ) is None by {
            assert(f(s[i]) is None);
        }
        lemma_filter_map_none(s.drop_last(), f);
        assert(s.filter_map(f) =~= Seq::<B>::empty());
    } else {
        assert(s.filter_map(f) =~= Seq::<B>::empty());
    }
}

proof fn lemma_episode_steps_delete(
    items: Seq<MatchedModel>,
    indent: Seq<char>,
    done: nat,
    total: nat,
)
    ensures
        crate::deletion::episode_steps(items, indent, done, total).filter_map(deleted_id())
            == items.map_values(|item: MatchedModel| item.id),
    decreases items.len(),
{
    let steps = crate::deletion::episode_steps(items, indent, done, total);
    let ids = items.map_values(|item: MatchedModel| item.id);
    if items.len() == 0 {
        assert(steps.filter_map(deleted_id()) =~= ids);
    } else {
        lemma_episode_steps_delete(items.drop_last(), indent, done, total);
        assert(steps.drop_last() =~= crate::deletion::episode_steps(
            items.drop_last(),
            indent,
            done,
            total,
        ));
        assert(ids.drop_last() =~= items.drop_last().map_values(|item: MatchedModel| item.id));
        assert(deleted_id()(steps.last()) == Some(items.last().id));
        assert(steps.filter_map(deleted_id()) =~= ids);
    }
}

proof fn lemma_group_steps_delete(group: GroupModel, done: nat, total: nat)
    ensures
        crate::deletion::group_steps(group, done, total).filter_map(deleted_id())
            == group.items().map_values(|item: MatchedModel| item.id),
{
    let f = deleted_id();
    let steps = crate::deletion::group_steps(group, done, total);
    let ids = group.items().map_values(|item: MatchedModel| item.id);
    match group {
        GroupModel::Individual(item) => {
            assert(steps.drop_last() =~= Seq::empty());
            lemma_filter_map_none(steps.drop_last(), f);
            assert(steps.filter_map(f) =~= ids);
        },
        GroupModel::Season { series_name, season_number, items } => {
            let heading = seq![
                StepModel::Say(
                    crate::deletion::season_heading(series_name, season_number, items.len()),
                ),
            ];
            lemma_filter_map_none(heading, f);
            lemma_filter_map_add(
                heading,
                crate::deletion::episode_steps(items, "    "@, done, total),
                f,
            );
            lemma_episode_steps_delete(items, "    "@, done, total);
            assert(steps.filter_map(f) =~= ids);
        },
        GroupModel::Series { series_name, total_episodes, seasons, items } => {
            let heading = seq![
                StepModel::Say(
                    crate::deletion::series_heading(series_name, seasons.len(), total_episodes),
                ),
            ];
            let lines = seasons.map_values(|number: u32| crate::deletion::season_line(number));
            lemma_filter_map_none(heading + lines, f);
            lemma_filter_map_add(
                heading + lines,
                crate::deletion::episode_steps(items, "      "@, done, total),
                f,
            );
            lemma_episode_steps_delete(items, "      "@, done, total);
            assert(steps.filter_map(f) =~= ids);
        },
    }
}

/// The steps delete every item of every group, in order, and nothing else.
pub proof fn the_steps_delete_what_the_groups_hold(groups: Seq<GroupModel>, total: nat)
    ensures
        crate::deletion::steps_for(groups, total).filter_map(deleted_id()) == item_ids(groups),
        item_ids(groups).len() == crate::display::item_count(groups),
    decreases groups.len(),
{
    let f = deleted_id();
    if groups.len() == 0 {
        lemma_filter_map_none(crate::deletion::steps_for(groups, total), f);
    } else {
        let rest = groups.drop_last();
        let done = crate::display::item_count(rest);
        the_steps_delete_what_the_groups_hold(rest, total);
        lemma_group_steps_delete(groups.last(), done, total);
        lemma_filter_map_add(
            crate::deletion::steps_for(rest, total),
            crate::deletion::group_steps(groups.last(), done, total),
            f,
        );
    }
}

/// The run after `n` steps, where `succeeds` says of each step that deletes whether it
/// does.
pub open spec fn run_after(run: RunModel, succeeds: spec_fn(nat) -> bool, n: nat) -> RunModel
    decreases n,
{
    if n == 0 {
        run
    } else {
        let before = run_after(run, succeeds, (n - 1) as nat);
        let after = before.advanced();
        if after.waiting {
            after.settled(succeeds(before.position))
        } else {
            after
        }
    }
}

/// Of the first `n` steps, those that delete and succeed.
pub open spec fn successes(steps: Seq<StepModel>, succeeds: spec_fn(nat) -> bool, n: nat) -> nat
    decreases n,
{
    if n == 0 {
        0
    } else {
        successes(steps, succeeds, (n - 1) as nat) + (if steps[n - 1] is Delete && succeeds(
            (n - 1) as nat,
        ) {
            1nat
        } else {
            0
        })
    }
}

/// Whatever fails, a run takes every step, and it counts the deletions that succeed.
pub proof fn a_failure_does_not_end_the_run(
    steps: Seq<StepModel>,
    succeeds: spec_fn(nat) -> bool,
    n: nat,
)
    requires
        n <= steps.len(),
    ensures
        run_after(RunModel::at_start(steps), succeeds, n) == (RunModel {
            steps,
            position: n,
            deleted: successes(steps, succeeds, n),
            waiting: false,
        }),
    decreases n,
{
    if n > 0 {
        a_failure_does_not_end_the_run(steps, succeeds, (n - 1) as nat);
    }
}

/// Where nothing fails, as many items are deleted as the groups hold.
pub proof fn without_failures_everything_is_deleted(
    groups: Seq<GroupModel>,
    total: nat,
    succeeds: spec_fn(nat) -> bool,
)
    requires
        forall|n: nat| #[trigger] succeeds(n),
    ensures
        ({
            let steps = crate::deletion::steps_for(groups, total);
            run_after(RunModel::at_start(steps), succeeds, steps.len()).deleted
                == crate::display::item_count(groups)
        }),
{
    let steps = crate::deletion::steps_for(groups, total);
    a_failure_does_not_end_the_run(steps, succeeds, steps.len());
    the_steps_delete_what_the_groups_hold(groups, total);
    lemma_successes(steps, succeeds, steps.len());
    assert(steps.take(steps.len() as int) =~= steps);
}

proof fn lemma_successes(steps: Seq<StepModel>, succeeds: spec_fn(nat) -> bool, n: nat)
    requires
        n <= steps.len(),
        forall|k: nat| #[trigger] succeeds(k),
    ensures
        successes(steps, succeeds, n) == steps.take(n as int).filter_map(deleted_id()).len(),
    decreases n,
{
    if n > 0 {
        lemma_successes(steps, succeeds, (n - 1) as nat);
        steps.lemma_filter_map_take_succ(deleted_id(), n - 1);
        assert(succeeds((n - 1) as nat));
    } else {
        lemma_filter_map_none(steps.take(0), deleted_id());
    }
}

/// A listing once all of `pages` have arrived.
pub open spec fn received_all(fetch: FetchModel, pages: Seq<Seq<MediaModel>>) -> FetchModel
    decreases pages.len(),
{
    if pages.len() == 0 {
        fetch
    } else {
        received_all(fetch, pages.drop_last()).received(pages.last())
    }
}

/// While full pages arrive, the next page starts where the last one ended: no item is
/// skipped, and none comes twice.
pub proof fn pages_follow_each_other(fetch: FetchModel, pages: Seq<Seq<MediaModel>>)
    requires
        fetch.start == fetch.items.len(),
        forall|i: int|
            0 <= i < pages.len() ==> (#[trigger] pages[i]).len() == crate::paging::PAGE_LIMIT,
    ensures
        received_all(fetch, pages).start == received_all(fetch, pages).items.len(),
    decreases pages.len(),
{
    if pages.len() > 0 {
        assert forall|i: int| 0 <= i < pages.drop_last().len() implies (
        #[trigger] pages.drop_last()[i]).len() == crate::paging::PAGE_LIMIT by {
            assert(pages[i].len() == crate::paging::PAGE_LIMIT);
        }
        assert(pages[pages.len() - 1].len() == crate::paging::PAGE_LIMIT);
        pages_follow_each_other(fetch, pages.drop_last());
    }
}

/// What has arrived is the pages one after the other, and it is all once a page is not
/// full.
pub proof fn all_pages_are_kept(
    listing: crate::paging::Listing,
    base_url: Seq<char>,
    user_id: Seq<char>,
    pages: Seq<Seq<MediaModel>>,
)
    ensures
        ({
            let fetch = received_all(FetchModel::at_start(listing, base_url, user_id), pages);
            &&& fetch.items == pages.flatten()
            &&& fetch.complete <==> pages.len() > 0 && pages.last().len() < crate::paging::PAGE_LIMIT
            &&& fetch.listing == listing && fetch.base_url == base_url && fetch.user_id == user_id
        }),
    decreases pages.len(),
{
    if pages.len() > 0 {
        all_pages_are_kept(listing, base_url, user_id, pages.drop_last());
        pages.drop_last().lemma_flatten_push(pages.last());
        assert(pages.drop_last().push(pages.last()) =~= pages);
    }
}

/// Below the limit of exact doubles a size is shown to the nearest hundredth of its
/// unit.
pub proof fn sizes_are_shown_to_the_nearest_hundredth(size: nat, unit: nat)
    requires
        size < crate::size::EXACT,
        unit > 0,
    ensures
        -(unit as int) <= 2 * (crate::size::hundredths(size, unit) * unit - 100 * size) <= unit,
{
    assert(crate::size::nearest_double(size) == size) by {
        assert(crate::size::spacing(size) == 1);
        assert(size / 1 == size) by (nonlinear_arith);
        assert(size % 1 == 0) by (nonlinear_arith);
        assert(crate::size::round_half_even(size, 1) == size);
        assert(size * 1 == size) by (nonlinear_arith);
    }
    let n = size * 100;
    let q = n / unit;
    let r = n % unit;
    assert(n == q * unit + r) by {
        vstd::arithmetic::div_mod::lemma_fundamental_div_mod(n as int, unit as int);
        assert(unit * q == q * unit) by (nonlinear_arith);
    }
    assert((q + 1) * unit == q * unit + unit) by (nonlinear_arith);
}

/// How many of `items` have a season number among `numbers`.
proof fn lemma_season_lines_len(items: Seq<MatchedModel>, numbers: Seq<u32>)
    requires
        numbers.no_duplicates(),
    ensures
        numbers.flat_map(
            |number: u32|
                crate::confirm::episode_lines(items.filter(crate::confirm::in_season(number))),
        ).len() == items.filter(
            |item: MatchedModel|
                item.season_number is Some && numbers.contains(item.season_number->0),
        ).len(),
    decreases numbers.len(),
{
    let f = |number: u32|
        crate::confirm::episode_lines(items.filter(crate::confirm::in_season(number)));
    let p = |item: MatchedModel|
        item.season_number is Some && numbers.contains(item.season_number->0);
    if numbers.len() == 0 {
        assert(numbers.map_values(f) =~= Seq::empty());
        assert(numbers.flat_map(f) =~= Seq::empty());
        items.lemma_all_neg_filter_empty(p);
    } else {
        let rest = numbers.drop_last();
        let last = numbers.last();
        let q = |item: MatchedModel|
            item.season_number is Some && rest.contains(item.season_number->0);
        lemma_season_lines_len(items, rest);
        numbers.lemma_flat_map_take_append(f, numbers.len() - 1);
        assert(numbers.take(numbers.len() - 1) =~= rest);
        assert(numbers.take(numbers.len() as int) =~= numbers);
        assert(!rest.contains(last)) by {
            if rest.contains(last) {
                let k = choose|k: int| 0 <= k < rest.len() && rest[k] == last;
                assert(numbers[k] == numbers[numbers.len() - 1]);
            }
        }
        assert forall|item: MatchedModel| #[trigger] p(item) == (q(item) || crate::confirm::in_season(
            last,
        )(item)) by {
            if item.season_number is Some {
                let number = item.season_number->0;
                assert(numbers =~= rest.push(last));
                vstd::seq_lib::lemma_seq_contains_after_push(rest, last, number);
                assert(rest.push(last).contains(number) <==> rest.contains(number) || number == last);
            }
        }
        lemma_filter_split(items, p, q, crate::confirm::in_season(last));
    }
}

/// Filtering by either of two conditions that exclude each other.
proof fn lemma_filter_split<A>(
    s: Seq<A>,
    p: spec_fn(A) -> bool,
    q: spec_fn(A) -> bool,
    r: spec_fn(A) -> bool,
)
    requires
        forall|a: A| #[trigger] p(a) == (q(a) || r(a)),
        forall|a: A| !(#[trigger] q(a) && r(a)),
    ensures
        s.filter(p).len() == s.filter(q).len() + s.filter(r).len(),
    decreases s.len(),
{
    reveal(Seq::filter);
    if s.len() > 0 {
        lemma_filter_split(s.drop_last(), p, q, r);
        assert(p(s.last()) == (q(s.last()) || r(s.last())));
    }
}

/// Whether a series lists each of its seasons once and the season of each episode.
pub open spec fn lists_its_seasons(group: GroupModel) -> bool {
    group matches GroupModel::Series { seasons, items, .. } ==> {
        &&& seasons.no_duplicates()
        &&& forall|i: int|
            0 <= i < items.len() ==> (#[trigger] items[i]).season_number is Some
                && seasons.contains(items[i].season_number->0)
    }
}

/// A group made of a series lists its seasons where its episodes have season numbers.
pub proof fn a_series_lists_its_seasons(
    all: Seq<MediaModel>,
    deletable: Seq<MatchedModel>,
    series: Seq<char>,
)
    requires
        forall|i: int|
            0 <= i < crate::grouping::series_items(all, deletable, series).len() ==> (
            #[trigger] crate::grouping::series_items(all, deletable, series)[i]).season_number is Some,
    ensures
        lists_its_seasons(crate::grouping::series_group(all, deletable, series)),
{
    let items = crate::grouping::series_items(all, deletable, series);
    let f = |item: MatchedModel| item.season_number;
    crate::grouping::lemma_distinct(items.filter_map(f));
    assert forall|i: int| 0 <= i < items.len() implies (#[trigger] items[i]).season_number is Some
        && crate::grouping::season_numbers(items).contains(items[i].season_number->0) by {
        let number = crate::grouping::series_items(all, deletable, series)[i].season_number->0;
        crate::grouping::lemma_filter_map_mentions(items, f, number);
        assert(f(items[i]) == Some(number));
    }
}

/// The question before a deletion counts every item that will be deleted.
pub proof fn the_question_counts_every_item(groups: Seq<GroupModel>)
    requires
        forall|i: int| 0 <= i < groups.len() ==> lists_its_seasons(#[trigger] groups[i]),
    ensures
        crate::confirm::all_lines(groups).len() == crate::display::item_count(groups),
    decreases groups.len(),
{
    let f = |group: GroupModel| crate::confirm::group_lines(group);
    if groups.len() == 0 {
        assert(groups.map_values(f) =~= Seq::empty());
        assert(groups.flat_map(f) =~= Seq::empty());
    } else {
        let rest = groups.drop_last();
        assert forall|i: int| 0 <= i < rest.len() implies lists_its_seasons(#[trigger] rest[i]) by {
            assert(lists_its_seasons(groups[i]));
        }
        the_question_counts_every_item(rest);
        groups.lemma_flat_map_take_append(f, groups.len() - 1);
        assert(groups.take(groups.len() - 1) =~= rest);
        assert(groups.take(groups.len() as int) =~= groups);
        let last = groups[groups.len() - 1];
        assert(lists_its_seasons(last));
        match last {
            GroupModel::Series { seasons, items, .. } => {
                lemma_season_lines_len(items, seasons);
                crate::order::lemma_filter_all(
                    items,
                    |item: MatchedModel|
                        item.season_number is Some && seasons.contains(item.season_number->0),
                );
            },
            _ => {},
        }
    }
}

/// Whether a key moves the cursor down one row.
pub open spec fn is_down(key: KeyPress) -> bool {
    key == KeyPress::Down || key == KeyPress::Char('j')
}

/// Whether a key moves the cursor up one row.
pub open spec fn is_up(key: KeyPress) -> bool {
    key == KeyPress::Up || key == KeyPress::Char('k')
}

/// Whether a key moves the cursor down one page.
pub open spec fn is_page_down(key: KeyPress) -> bool {
    key == KeyPress::PageDown || key == KeyPress::Char('f')
}

/// Whether a key moves the cursor up one page.
pub open spec fn is_page_up(key: KeyPress) -> bool {
    key == KeyPress::PageUp || key == KeyPress::Char('b')
}

/// Whether a key moves the cursor to the first row.
pub open spec fn is_home(key: KeyPress) -> bool {
    key == KeyPress::Home || key == KeyPress::Char('g')
}

/// Whether a key moves the cursor to the last row.
pub open spec fn is_end(key: KeyPress) -> bool {
    key == KeyPress::End || key == KeyPress::Char('G')
}

/// Whether a key ends the picking without a choice.
pub open spec fn is_quit(key: KeyPress) -> bool {
    key == KeyPress::Esc || key == KeyPress::Char('q')
}

/// Where the cursor goes. It moves by one row or by twenty, or to the first or the last
/// row, never beyond either; no other key moves it, and none does while the help is
/// shown.
pub proof fn keys_move_the_cursor(picker: PickerModel, key: KeyPress)
    requires
        picker.valid(),
        picker.takes(key),
    ensures
        ({
            let rows = picker.marked.len() as int;
            let from = picker.cursor;
            let to = picker.after(key).cursor;
            &&& picker.help_shown ==> to == from
            &&& !picker.help_shown && is_down(key) ==> to == if from + 1 < rows {
                from + 1
            } else {
                from
            }
            &&& !picker.help_shown && is_up(key) ==> to == if from >= 1 {
                from - 1
            } else {
                from
            }
            &&& !picker.help_shown && is_page_down(key) ==> to == if from + 20 < rows {
                from + 20
            } else {
                rows - 1
            }
            &&& !picker.help_shown && is_page_up(key) ==> to == if from >= 20 {
                from - 20
            } else {
                0
            }
            &&& !picker.help_shown && is_home(key) ==> to == 0
            &&& !picker.help_shown && is_end(key) ==> to == if rows > 0 {
                rows - 1
            } else {
                0
            }
            &&& !(is_down(key) || is_up(key) || is_page_down(key) || is_page_up(key) || is_home(key)
                || is_end(key)) ==> to == from
        }),
{
}

/// The space bar turns the mark under the cursor, and nothing else changes a mark; the
/// question mark shows the help, and any key hides it.
pub proof fn keys_turn_marks_and_help(picker: PickerModel, key: KeyPress)
    requires
        picker.valid(),
        picker.takes(key),
    ensures
        picker.after(key).marked.len() == picker.marked.len(),
        forall|row: int|
            0 <= row < picker.marked.len() ==> #[trigger] picker.after(key).marked[row] == if row
                == picker.cursor && key == KeyPress::Char(' ') && !picker.help_shown {
                !picker.marked[row]
            } else {
                picker.marked[row]
            },
        picker.after(key).help_shown <==> !picker.help_shown && key == KeyPress::Char('?'),
{
}

/// The picking goes on until, with no help shown, it is quit or confirmed.
pub proof fn picking_ends_with_quit_or_enter(picker: PickerModel, key: KeyPress)
    ensures
        picker.outcome(key) is Cancelled <==> !picker.help_shown && is_quit(key),
        picker.outcome(key) is Confirmed <==> !picker.help_shown && key == KeyPress::Enter,
{
}

/// Keys make sense, but without rows those that mark or move down do not, unless the help
/// is shown.
pub proof fn without_rows_some_keys_make_no_sense(picker: PickerModel, key: KeyPress)
    ensures
        picker.takes(key) <==> picker.marked.len() > 0 || picker.help_shown || !(key
            == KeyPress::Char(' ') || is_down(key) || is_page_down(key)),
{
}

/// The picking starts on the first row, with nothing marked and no help shown, and the
/// cursor is always on a row where there is one.
pub proof fn picking_starts_on_the_first_row(rows: nat, picker: PickerModel)
    ensures
        PickerModel::at_start(rows).cursor == 0,
        !PickerModel::at_start(rows).help_shown,
        PickerModel::at_start(rows).marked.len() == rows,
        forall|row: int| 0 <= row < rows ==> !(#[trigger] PickerModel::at_start(rows).marked[row]),
        picker.valid() <==> (0 <= picker.cursor < picker.marked.len() || (picker.marked.len() == 0
            && picker.cursor == 0)),
{
}

/// A further row adds its group to what is picked, at the end, if it is marked.
pub proof fn groups_are_picked_in_order(
    groups: Seq<GroupModel>,
    marked: Seq<bool>,
    group: GroupModel,
    mark: bool,
)
    requires
        groups.len() == marked.len(),
    ensures
        crate::picker::picked(Seq::empty(), Seq::empty()) == Seq::<GroupModel>::empty(),
        crate::picker::picked(groups.push(group), marked.push(mark)) == if mark {
            crate::picker::picked(groups, marked).push(group)
        } else {
            crate::picker::picked(groups, marked)
        },
{
    assert(groups.push(group).drop_last() =~= groups);
    lemma_picked_prefix(groups, marked.push(mark), marked);
}

/// Each error, and when it comes: the first that applies.
pub proof fn arguments_are_refused_for_a_reason(
    args: Arguments,
    url: Option<Seq<char>>,
    api_key: Option<Seq<char>>,
)
    ensures
        ({
            let error = crate::config::objection(args, url, api_key);
            let no_url = args.jellyfin_url@.len() == 0 && url is None;
            let no_key = args.jellyfin_api_key@.len() == 0 && api_key is None;
            let both = args.delete && args.interactive;
            let ignored = args.ignore_favorites && args.protected_by@.len() > 0;
            &&& error == Some(ConfigError::NoUrl) <==> no_url
            &&& error == Some(ConfigError::NoApiKey) <==> !no_url && no_key
            &&& error == Some(ConfigError::DeleteInteractively) <==> !no_url && !no_key && both
            &&& error == Some(ConfigError::ProtectorsIgnored) <==> !no_url && !no_key && !both
                && ignored
            &&& error is None <==> !no_url && !no_key && !both && !ignored
        }),
{
}

/// What is given counts; the environment fills in where nothing is given.
pub proof fn the_environment_fills_in(given: Seq<char>, environment: Option<Seq<char>>)
    ensures
        given.len() > 0 ==> crate::config::given_or(given, environment) == Some(given),
        given.len() == 0 ==> crate::config::given_or(given, environment) == environment,
{
}

/// What is told of each error.
pub proof fn errors_are_told()
    ensures
        crate::config::error_text(ConfigError::NoUrl)
            == "Error: No Jellyfin URL provided. Use --jellyfin-url or JELLYFIN_URL"@,
        crate::config::error_text(ConfigError::NoApiKey)
            == "Error: No API key provided. Use --jellyfin-api-key or JELLYFIN_API_KEY"@,
        crate::config::error_text(ConfigError::DeleteInteractively)
            == "Error: --delete-watched-but-not-favourited-yes-i-am-really-sure cannot be used with --interactive"@,
        crate::config::error_text(ConfigError::ProtectorsIgnored)
            == "Error: --ignore-favorites cannot be used with --protected-by"@,
{
}

/// Nothing is deleted outright unless that was asked for, and nothing at all unless that
/// or picking was.
pub proof fn nothing_is_deleted_unasked(delete: bool, interactive: bool)
    ensures
        crate::config::mode_of(delete, interactive) is Delete <==> delete,
        crate::config::mode_of(delete, interactive) is Pick <==> interactive && !delete,
        crate::config::mode_of(delete, interactive) is Report <==> !interactive && !delete,
{
}

/// Who counts, in words: those named, or everyone; nobody's favorites where they are
/// ignored.
pub proof fn who_counts_is_put_in_words(names: Seq<Seq<char>>)
    ensures
        names.len() == 0 ==> crate::config::watchers_text(names) == "all users"@,
        names.len() > 0 ==> crate::config::watchers_text(names) == crate::text::joined(
            names,
            ", "@,
        ),
        crate::config::protectors_text(names, true) == "none (ignoring favorites)"@,
        names.len() == 0 ==> crate::config::protectors_text(names, false) == "anyone"@,
        names.len() > 0 ==> crate::config::protectors_text(names, false) == crate::text::joined(
            names,
            ", "@,
        ),
{
}

/// A reply is a success from 200 to 299. What is told of any other says what was tried
/// and, by the code, why it failed.
pub proof fn replies_are_told_by_their_code(code: u16, shown: Seq<char>, context: Seq<char>)
    ensures
        crate::api::is_success(code) <==> 200 <= code <= 299,
        code == 401 ==> crate::api::failure_text(code, shown, context) == context
            + ": Authentication failed (401). Check your API key."@,
        code == 403 ==> crate::api::failure_text(code, shown, context) == context
            + ": Permission denied (403). User may not have delete permission."@,
        code == 404 ==> crate::api::failure_text(code, shown, context) == context
            + ": Item not found (404)."@,
        400 <= code <= 499 && code != 401 && code != 403 && code != 404
            ==> crate::api::failure_text(code, shown, context) == context + ": Client error ("@
            + shown + ")"@,
        500 <= code <= 599 ==> crate::api::failure_text(code, shown, context) == context
            + ": Server error ("@ + shown + ")"@,
        code < 400 || code > 599 ==> crate::api::failure_text(code, shown, context) == context
            + ": Unknown error ("@ + shown + ")"@,
{
}

/// The key goes to the server between quotes; it can where it has no control characters
/// other than tabs.
pub proof fn the_key_goes_between_quotes(api_key: Seq<char>)
    ensures
        crate::api::authorization_text(api_key) == "MediaBrowser Token=\""@ + api_key + "\""@,
        crate::api::is_header_text(api_key) <==> forall|i: int|
            0 <= i < api_key.len() ==> ((#[trigger] api_key[i] as int) >= 32 && api_key[i] as int
                != 127) || api_key[i] as int == 9,
{
    if forall|i: int|
        0 <= i < api_key.len() ==> ((#[trigger] api_key[i] as int) >= 32 && api_key[i] as int
            != 127) || api_key[i] as int == 9 {
        assert forall|i: int| 0 <= i < api_key.len() implies crate::api::is_header_char(
            #[trigger] api_key[i],
        ) by {}
    }
    if crate::api::is_header_text(api_key) {
        assert forall|i: int| 0 <= i < api_key.len() implies ((#[trigger] api_key[i] as int) >= 32
            && api_key[i] as int != 127) || api_key[i] as int == 9 by {
            assert(crate::api::is_header_char(api_key[i]));
        }
    }
}

/// A page is asked for by user, listing, start and a limit of 500; the first starts at 0.
pub proof fn pages_are_asked_for(fetch: FetchModel, base_url: Seq<char>, user_id: Seq<char>)
    ensures
        fetch.listing is Played ==> fetch.url() == fetch.base_url + "/Items?userId="@
            + fetch.user_id
            + "&IsPlayed=true&Recursive=true&Fields=Path,MediaSources,UserData,Size&startIndex="@
            + crate::text::decimal(fetch.start) + "&limit=500"@,
        fetch.listing is Favorites ==> fetch.url() == fetch.base_url + "/Items?userId="@
            + fetch.user_id + "&IsFavorite=true&Recursive=true&startIndex="@ + crate::text::decimal(
            fetch.start,
        ) + "&limit=500"@,
        fetch.listing is Played ==> fetch.context() == "Failed to fetch played items"@,
        fetch.listing is Favorites ==> fetch.context() == "Failed to fetch favorite items"@,
        FetchModel::at_start(fetch.listing, base_url, user_id) == (FetchModel {
            listing: fetch.listing,
            base_url,
            user_id,
            start: 0,
            items: Seq::empty(),
            complete: false,
        }),
{
    reveal_with_fuel(crate::text::decimal, 4);
    reveal_strlit("&limit=");
    reveal_strlit("&limit=500");
    reveal_strlit("&startIndex=");
    reveal_strlit("&IsPlayed=true&Recursive=true&Fields=Path,MediaSources,UserData,Size");
    reveal_strlit("&IsPlayed=true&Recursive=true&Fields=Path,MediaSources,UserData,Size&startIndex=");
    reveal_strlit("&IsFavorite=true&Recursive=true");
    reveal_strlit("&IsFavorite=true&Recursive=true&startIndex=");
    assert(crate::text::decimal(500) =~= seq!['5', '0', '0']);
    assert("&limit=500"@ =~= "&limit="@ + crate::text::decimal(500));
    assert("&IsPlayed=true&Recursive=true&Fields=Path,MediaSources,UserData,Size&startIndex="@
        =~= "&IsPlayed=true&Recursive=true&Fields=Path,MediaSources,UserData,Size"@
        + "&startIndex="@);
    assert("&IsFavorite=true&Recursive=true&startIndex="@ =~= "&IsFavorite=true&Recursive=true"@
        + "&startIndex="@);
    if fetch.listing is Played {
        assert(fetch.url() =~= fetch.base_url + "/Items?userId="@ + fetch.user_id
            + "&IsPlayed=true&Recursive=true&Fields=Path,MediaSources,UserData,Size&startIndex="@
            + crate::text::decimal(fetch.start) + "&limit=500"@);
    } else {
        assert(fetch.url() =~= fetch.base_url + "/Items?userId="@ + fetch.user_id
            + "&IsFavorite=true&Recursive=true&startIndex="@ + crate::text::decimal(fetch.start)
            + "&limit=500"@);
    }
}

/// A page adds its items. One of 500 or more is followed by another, 500 items on; one of
/// fewer is the last.
pub proof fn full_pages_are_followed(fetch: FetchModel, page: Seq<MediaModel>)
    ensures
        fetch.received(page).items == fetch.items + page,
        fetch.received(page).complete <==> page.len() < 500,
        page.len() >= 500 ==> fetch.received(page).start == fetch.start + 500,
        fetch.received(page).listing == fetch.listing,
        fetch.received(page).base_url == fetch.base_url,
        fetch.received(page).user_id == fetch.user_id,
{
}

/// A run starts before its first step, with nothing deleted. A step leads to the next; one
/// that deletes waits for its outcome, and a success counts.
pub proof fn successes_are_counted(run: RunModel, succeeded: bool, steps: Seq<StepModel>)
    ensures
        RunModel::at_start(steps) == (RunModel { steps, position: 0, deleted: 0, waiting: false }),
        run.advanced().steps == run.steps,
        run.advanced().position == run.position + 1,
        run.advanced().deleted == run.deleted,
        run.advanced().waiting <==> run.steps[run.position as int] is Delete,
        run.settled(succeeded).steps == run.steps,
        run.settled(succeeded).position == run.position,
        run.settled(succeeded).deleted == run.deleted + (if succeeded {
            1nat
        } else {
            0
        }),
        !run.settled(succeeded).waiting,
{
}

/// What is said of an outcome and at the end.
pub proof fn outcomes_are_told(reason: Seq<char>, deleted: nat)
    ensures
        crate::deletion::outcome_text(None) == "\x1b[32m done\x1b[0m"@,
        crate::deletion::outcome_text(Some(reason)) == "\x1b[31m failed: "@ + reason
            + "\x1b[0m"@,
        crate::deletion::summary_text(deleted) == "\nDeleted "@ + crate::text::decimal(deleted)
            + " items"@,
{
}

/// A further group adds its steps at the end. It counts its items on from those of the
/// groups before.
pub proof fn groups_are_deleted_in_order(groups: Seq<GroupModel>, group: GroupModel, total: nat)
    ensures
        crate::deletion::steps_for(Seq::empty(), total) == Seq::<StepModel>::empty(),
        crate::deletion::steps_for(groups.push(group), total) == crate::deletion::steps_for(
            groups,
            total,
        ) + crate::deletion::group_steps(group, crate::display::item_count(groups), total),
{
    assert(groups.push(group).drop_last() =~= groups);
}

/// The steps of a group: a heading for a season, a heading and a line for each season for
/// a series, and for every item its deletion, announced with its place among all items.
pub proof fn deletions_are_announced(group: GroupModel, done: nat, total: nat, k: int)
    requires
        0 <= k < group.items().len(),
    ensures
        ({
            let steps = crate::deletion::group_steps(group, done, total);
            let item = group.items()[k];
            let place = "["@ + crate::text::decimal((done + k + 1) as nat) + "/"@
                + crate::text::decimal(total) + "] Deleting "@;
            let name = crate::display::display_text(item) + "..."@;
            &&& group is Individual ==> steps == seq![
                StepModel::Delete {
                    id: item.id,
                    notice: place + "["@ + item.item_type + "] "@ + name,
                },
            ]
            &&& group matches GroupModel::Season { series_name, season_number, items } ==> {
                &&& steps.len() == 1 + items.len()
                &&& steps[0] == StepModel::Say(
                    "  "@ + series_name + " - Season "@ + crate::text::decimal(season_number as nat)
                        + " ("@ + crate::text::decimal(items.len()) + " episodes)"@,
                )
                &&& steps[1 + k] == (StepModel::Delete { id: item.id, notice: "    "@ + place + name })
            }
            &&& group matches GroupModel::Series { series_name, total_episodes, seasons, items } ==> {
                &&& steps.len() == 1 + seasons.len() + items.len()
                &&& steps[0] == StepModel::Say(
                    "  "@ + series_name + " ("@ + crate::text::decimal(seasons.len())
                        + " seasons, "@ + crate::text::decimal(total_episodes as nat)
                        + " episodes)"@,
                )
                &&& forall|s: int|
                    0 <= s < seasons.len() ==> #[trigger] steps[1 + s] == StepModel::Say(
                        "    Season "@ + crate::text::decimal(seasons[s] as nat),
                    )
                &&& steps[1 + seasons.len() + k] == (StepModel::Delete {
                    id: item.id,
                    notice: "      "@ + place + name,
                })
            }
        }),
{
    let steps = crate::deletion::group_steps(group, done, total);
    let item = group.items()[k];
    let place = "["@ + crate::text::decimal((done + k + 1) as nat) + "/"@ + crate::text::decimal(
        total,
    ) + "] Deleting "@;
    let name = crate::display::display_text(item) + "..."@;
    match group {
        GroupModel::Individual(only) => {
            assert(only == item);
            assert(crate::deletion::progress(
                Seq::empty(),
                done + 1,
                total,
                "["@ + item.item_type + "] "@ + crate::display::display_text(item),
            ) =~= place + "["@ + item.item_type + "] "@ + name);
        },
        GroupModel::Season { items, .. } => {
            assert(crate::deletion::progress(
                "    "@,
                (done + k + 1) as nat,
                total,
                crate::display::display_text(item),
            ) =~= "    "@ + place + name);
        },
        GroupModel::Series { seasons, items, .. } => {
            assert(crate::deletion::progress(
                "      "@,
                (done + k + 1) as nat,
                total,
                crate::display::display_text(item),
            ) =~= "      "@ + place + name);
        },
    }
}

/// What is listed before the question: of a single item its type and name, of an episode
/// of a group that it is one, and its name. A series lists season by season.
pub proof fn lines_are_made_of_items(group: GroupModel, item: MatchedModel, k: int)
    ensures
        crate::confirm::group_lines(GroupModel::Individual(item)) == seq![
            "["@ + item.item_type + "] "@ + crate::display::display_text(item),
        ],
        group matches GroupModel::Season { items, .. } ==> {
            let lines = crate::confirm::group_lines(group);
            &&& lines.len() == items.len()
            &&& 0 <= k < items.len() ==> lines[k] == "[Episode] "@ + crate::display::display_text(
                items[k],
            )
        },
        group matches GroupModel::Series { seasons, items, .. } ==> {
            &&& seasons.len() == 0 ==> crate::confirm::group_lines(group).len() == 0
            &&& crate::confirm::group_lines(group) == seasons.flat_map(
                |number: u32|
                    items.filter(|e: MatchedModel| e.season_number == Some(number)).map_values(
                        |e: MatchedModel| "[Episode] "@ + crate::display::display_text(e),
                    ),
            )
        },
{
    reveal_strlit("[");
    reveal_strlit("Episode");
    reveal_strlit("] ");
    reveal_strlit("[Episode] ");
    assert("[Episode] "@ =~= "["@ + "Episode"@ + "] "@);
    match group {
        GroupModel::Individual(_) => {},
        GroupModel::Season { items, .. } => {},
        GroupModel::Series { seasons, items, .. } => {
            let f = |number: u32|
                crate::confirm::episode_lines(items.filter(crate::confirm::in_season(number)));
            let g = |number: u32|
                items.filter(|e: MatchedModel| e.season_number == Some(number)).map_values(
                    |e: MatchedModel| "[Episode] "@ + crate::display::display_text(e),
                );
            assert forall|number: u32| #[trigger] f(number) == g(number) by {
                assert(crate::confirm::in_season(number) =~= (|e: MatchedModel|
                    e.season_number == Some(number)));
                assert(f(number) =~= g(number));
            }
            assert(f =~= g);
            if seasons.len() == 0 {
                assert(seasons.map_values(f) =~= Seq::empty());
            }
        },
    }
}

/// The lines are those of each group in turn, then put in the order of text: a line may
/// stand before another unless the other is the lesser.
pub proof fn lines_are_put_in_order(
    groups: Seq<GroupModel>,
    group: GroupModel,
    lines: Seq<Seq<char>>,
    i: int,
    j: int,
)
    requires
        crate::order::is_stable_sort(
            crate::confirm::all_lines(groups),
            lines,
            crate::confirm::lesser_first(),
        ),
    ensures
        0 <= i < j < lines.len() ==> !crate::text::text_less(lines[j], lines[i]),
        lines.to_multiset() == crate::confirm::all_lines(groups).to_multiset(),
        crate::confirm::all_lines(Seq::empty()) == Seq::<Seq<char>>::empty(),
        crate::confirm::all_lines(groups.push(group)) == crate::confirm::all_lines(groups)
            + crate::confirm::group_lines(group),
{
    crate::confirm::lemma_lesser_first_is_total_preorder();
    crate::order::sorting_keeps_every_element(
        crate::confirm::all_lines(groups),
        lines,
        crate::confirm::lesser_first(),
    );
    let f = |g: GroupModel| crate::confirm::group_lines(g);
    let none = Seq::<GroupModel>::empty();
    assert(none.map_values(f) =~= Seq::empty());
    assert(none.flat_map(f) =~= Seq::empty());
    let more = groups.push(group);
    more.lemma_flat_map_take_append(f, groups.len() as int);
    assert(more.take(groups.len() as int) =~= groups);
    assert(more.take(more.len() as int) =~= more);
}

/// The question counts items and groups, and takes silence for no.
pub proof fn the_question_is_asked(lines: nat, groups: nat)
    ensures
        crate::confirm::question_text(lines, groups) == "\nDelete "@ + crate::text::decimal(lines)
            + " items ("@ + crate::text::decimal(groups) + " groups)? (y/N) "@,
{
}

/// A y is a yes in either case and with any white space around it; what has another
/// character, or two of these, is not.
pub proof fn only_a_y_means_yes(before: Seq<char>, c: char, after: Seq<char>)
    requires
        forall|i: int| 0 <= i < before.len() ==> crate::confirm::is_white_space(
            #[trigger] before[i],
        ),
        forall|i: int| 0 <= i < after.len() ==> crate::confirm::is_white_space(#[trigger] after[i]),
    ensures
        crate::confirm::means_yes(before.push(c) + after) <==> c == 'y' || c == 'Y',
{
    let answer = before.push(c) + after;
    let n = before.len() as int;
    assert(answer[n] == c);
    if c == 'y' || c == 'Y' {
        assert forall|j: int| 0 <= j < answer.len() && j != n implies crate::confirm::is_white_space(
            #[trigger] answer[j],
        ) by {
            if j < n {
                assert(answer[j] == before[j]);
            } else {
                assert(answer[j] == after[j - n - 1]);
            }
        }
    }
    if crate::confirm::means_yes(answer) {
        let i = choose|i: int|
            0 <= i < answer.len() && (answer[i] == 'y' || answer[i] == 'Y') && forall|j: int|
                0 <= j < answer.len() && j != i ==> crate::confirm::is_white_space(
                    #[trigger] answer[j],
                );
        if i < n {
            assert(answer[i] == before[i]);
        } else if i > n {
            assert(answer[i] == after[i - n - 1]);
        }
    }
}

/// An answer with two characters that are no white space does not mean yes.
pub proof fn two_characters_do_not_mean_yes(answer: Seq<char>, i: int, j: int)
    requires
        0 <= i < j < answer.len(),
        !crate::confirm::is_white_space(answer[i]),
        !crate::confirm::is_white_space(answer[j]),
    ensures
        !crate::confirm::means_yes(answer),
{
    if crate::confirm::means_yes(answer) {
        let k = choose|k: int|
            0 <= k < answer.len() && (answer[k] == 'y' || answer[k] == 'Y') && forall|m: int|
                0 <= m < answer.len() && m != k ==> crate::confirm::is_white_space(
                    #[trigger] answer[m],
                );
        if k != i {
            assert(crate::confirm::is_white_space(answer[i]));
        } else {
            assert(crate::confirm::is_white_space(answer[j]));
        }
    }
}

/// Which characters are white space.
pub proof fn white_space_is_what_unicode_says(c: char)
    ensures
        crate::confirm::is_white_space(c) <==> c == ' ' || 9 <= c as int <= 13 || c as int == 133
            || c as int == 160 || c as int == 5760 || 8192 <= c as int <= 8202 || c as int == 8232
            || c as int == 8233 || c as int == 8239 || c as int == 8287 || c as int == 12288,
{
}

/// The group of a season or a series starts with what it is called and holds, and a series
/// goes on with its seasons, however many items there are.
pub proof fn groups_have_headings(group: GroupModel, done: nat, total: nat)
    ensures
        group matches GroupModel::Season { series_name, season_number, items } ==> {
            let steps = crate::deletion::group_steps(group, done, total);
            &&& steps.len() == 1 + items.len()
            &&& steps[0] == StepModel::Say(
                "  "@ + series_name + " - Season "@ + crate::text::decimal(season_number as nat)
                    + " ("@ + crate::text::decimal(items.len()) + " episodes)"@,
            )
        },
        group matches GroupModel::Series { series_name, total_episodes, seasons, items } ==> {
            let steps = crate::deletion::group_steps(group, done, total);
            &&& steps.len() == 1 + seasons.len() + items.len()
            &&& steps[0] == StepModel::Say(
                "  "@ + series_name + " ("@ + crate::text::decimal(seasons.len()) + " seasons, "@
                    + crate::text::decimal(total_episodes as nat) + " episodes)"@,
            )
            &&& forall|s: int|
                0 <= s < seasons.len() ==> #[trigger] steps[1 + s] == StepModel::Say(
                    "    Season "@ + crate::text::decimal(seasons[s] as nat),
                )
        },
{
}

} // verus!
