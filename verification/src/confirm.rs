//! Asking before anything is deleted.

use vstd::prelude::*;
use crate::display::format_display_name;
use crate::model::GroupModel;
use crate::model::GroupedItem;
use crate::model::MatchedItem;
use crate::model::MatchedModel;
use crate::order::merge_sort;
use crate::order::Ranked;
use crate::text::code_point;
use crate::text::is_less;
use crate::text::push_decimal;

verus! {

/// The order of text: none stands before a lesser one.
pub open spec fn lesser_first() -> spec_fn(Seq<char>, Seq<char>) -> bool {
    |a: Seq<char>, b: Seq<char>| !crate::text::text_less(b, a)
}

/// The line of an item of the type `kind`.
pub open spec fn item_line(kind: Seq<char>, item: MatchedModel) -> Seq<char> {
    "["@ + kind + "] "@ + crate::display::display_text(item)
}

/// The lines of episodes.
pub open spec fn episode_lines(items: Seq<MatchedModel>) -> Seq<Seq<char>> {
    items.map_values(|item: MatchedModel| item_line("Episode"@, item))
}

/// The items of the season with a number.
pub open spec fn in_season(number: u32) -> spec_fn(MatchedModel) -> bool {
    |item: MatchedModel| item.season_number == Some(number)
}

/// The lines of a group. A series lists the episodes of its seasons.
pub open spec fn group_lines(group: GroupModel) -> Seq<Seq<char>> {
    match group {
        GroupModel::Individual(item) => seq![item_line(item.item_type, item)],
        GroupModel::Season { items, .. } => episode_lines(items),
        GroupModel::Series { seasons, items, .. } => seasons.flat_map(
            |number: u32| episode_lines(items.filter(in_season(number))),
        ),
    }
}

/// The lines of all groups.
pub open spec fn all_lines(groups: Seq<GroupModel>) -> Seq<Seq<char>> {
    groups.flat_map(|group: GroupModel| group_lines(group))
}

/// The question that is asked before `lines` items in `groups` groups are deleted.
pub open spec fn question_text(lines: nat, groups: nat) -> Seq<char> {
    "\nDelete "@ + crate::text::decimal(lines) + " items ("@ + crate::text::decimal(groups)
        + " groups)? (y/N) "@
}

/// Whether Unicode counts `c` as white space.
pub open spec fn is_white_space(c: char) -> bool {
    let n = c as int;
    ||| 0x09 <= n <= 0x0d
    ||| n == 0x20
    ||| n == 0x85
    ||| n == 0xa0
    ||| n == 0x1680
    ||| 0x2000 <= n <= 0x200a
    ||| n == 0x2028
    ||| n == 0x2029
    ||| n == 0x202f
    ||| n == 0x205f
    ||| n == 0x3000
}

/// Whether `answer` is a y, small or capital, with nothing but white space around it.
pub open spec fn means_yes(answer: Seq<char>) -> bool {
    exists|i: int|
        0 <= i < answer.len() && (answer[i] == 'y' || answer[i] == 'Y') && forall|j: int|
            0 <= j < answer.len() && j != i ==> is_white_space(#[trigger] answer[j])
}

impl Ranked for String {
    open spec fn before(self, other: Self) -> bool {
        lesser_first()(self@, other@)
    }

    proof fn before_is_total(a: Self, b: Self) {
        crate::text::lemma_text_less_is_asymmetric(a@, b@);
    }

    proof fn before_is_transitive(a: Self, b: Self, c: Self) {
        crate::text::lemma_text_order_is_transitive(a@, b@, c@);
    }

    fn may_stand_before(&self, other: &Self) -> (answer: bool) {
        !is_less(other.as_str(), self.as_str())
    }
}

fn make_line(kind: &str, item: &MatchedItem) -> (line: String)
    ensures
        line@ == item_line(kind@, item.deep_view()),
{
    let mut line = String::new();
    line.append("[");
    line.append(kind);
    line.append("] ");
    let name = format_display_name(item);
    line.append(name.as_str());
    assert(line@ =~= item_line(kind@, item.deep_view()));
    line
}

fn push_episode_lines(lines: &mut Vec<String>, items: &Vec<MatchedItem>)
    ensures
        final(lines).deep_view() == old(lines).deep_view() + episode_lines(items.deep_view()),
{
    let ghost before = lines.deep_view();
    let ghost all = episode_lines(items.deep_view());
    let mut i: usize = 0;
    assert(lines.deep_view() =~= before + all.take(0));
    while i < items.len()
        invariant
            i <= items.len(),
            all == episode_lines(items.deep_view()),
            lines.deep_view() == before + all.take(i as int),
        decreases items.len() - i,
    {
        let ghost so_far = lines.deep_view();
        let line = make_line("Episode", &items[i]);
        assert(line@ == all[i as int]);
        lines.push(line);
        assert(lines.deep_view() =~= so_far.push(all[i as int]));
        assert(so_far.push(all[i as int]) =~= before + all.take(i + 1));
        i += 1;
    }
    assert(all.take(i as int) =~= all);
}

fn push_season_lines(lines: &mut Vec<String>, items: &Vec<MatchedItem>, number: u32)
    ensures
        final(lines).deep_view() == old(lines).deep_view() + episode_lines(
            items.deep_view().filter(in_season(number)),
        ),
{
    let ghost before = lines.deep_view();
    let ghost m = items.deep_view();
    let ghost p = in_season(number);
    let mut i: usize = 0;
    proof {
        reveal(Seq::filter);
        assert(lines.deep_view() =~= before + episode_lines(m.take(0).filter(p)));
    }
    while i < items.len()
        invariant
            i <= items.len(),
            m == items.deep_view(),
            p == in_season(number),
            lines.deep_view() == before + episode_lines(m.take(i as int).filter(p)),
        decreases items.len() - i,
    {
        let ghost so_far = lines.deep_view();
        let ghost kept = m.take(i as int).filter(p);
        let item = &items[i];
        proof {
            assert(m.take(i + 1) =~= m.take(i as int).push(item.deep_view()));
            m.take(i as int).lemma_filter_push(item.deep_view(), p);
        }
        let here: bool = match item.season_number {
            Some(n) => n == number,
            None => false,
        };
        if here {
            let line = make_line("Episode", item);
            let ghost text = line@;
            lines.push(line);
            assert(lines.deep_view() =~= so_far.push(text));
            assert(episode_lines(kept.push(item.deep_view())) =~= episode_lines(kept).push(text));
            assert(so_far.push(text) =~= before + episode_lines(kept).push(text));
        }
        i += 1;
    }
    assert(m.take(i as int) =~= m);
}

fn push_group_lines(lines: &mut Vec<String>, group: &GroupedItem)
    ensures
        final(lines).deep_view() == old(lines).deep_view() + group_lines(group.deep_view()),
{
    let ghost before = lines.deep_view();
    match group {
        GroupedItem::Individual(item) => {
            lines.push(make_line(item.item_type.as_str(), item));
            assert(lines.deep_view() =~= before + group_lines(group.deep_view()));
        },
        GroupedItem::Season { items, .. } => {
            push_episode_lines(lines, items);
        },
        GroupedItem::Series { seasons, items, .. } => {
            let ghost m = items.deep_view();
            let ghost f = |number: u32| episode_lines(m.filter(in_season(number)));
            let ghost numbers = seasons@;
            let mut k: usize = 0;
            assert(lines.deep_view() =~= before + numbers.take(0).flat_map(f)) by {
                assert(numbers.take(0).map_values(f) =~= Seq::empty());
            }
            while k < seasons.len()
                invariant
                    k <= seasons.len(),
                    m == items.deep_view(),
                    f == (|number: u32| episode_lines(m.filter(in_season(number)))),
                    numbers == seasons@,
                    lines.deep_view() == before + numbers.take(k as int).flat_map(f),
                decreases seasons.len() - k,
            {
                push_season_lines(lines, items, seasons[k]);
                proof {
                    numbers.lemma_flat_map_take_append(f, k as int);
                    assert(lines.deep_view() =~= before + numbers.take(k + 1).flat_map(f));
                }
                k += 1;
            }
            assert(numbers.take(k as int) =~= numbers);
        },
    }
}

/// Lists the items of `groups` by name, in the order of text.
pub fn confirmation_lines(groups: &[GroupedItem]) -> (lines: Vec<String>)
    ensures
        crate::order::is_stable_sort(
            all_lines(groups.deep_view()),
            lines.deep_view(),
            lesser_first(),
        ),
{
    let ghost all = groups.deep_view();
    let ghost f = |group: GroupModel| group_lines(group);
    let mut lines: Vec<String> = Vec::new();
    let mut i: usize = 0;
    assert(lines.deep_view() =~= all.take(0).flat_map(f)) by {
        assert(all.take(0).map_values(f) =~= Seq::empty());
    }
    while i < groups.len()
        invariant
            i <= groups.len(),
            all == groups.deep_view(),
            f == (|group: GroupModel| group_lines(group)),
            lines.deep_view() == all.take(i as int).flat_map(f),
        decreases groups.len() - i,
    {
        push_group_lines(&mut lines, &groups[i]);
        proof {
            all.lemma_flat_map_take_append(f, i as int);
        }
        i += 1;
    }
    assert(all.take(i as int) =~= all);
    let ghost unsorted = lines@;
    let sorted = merge_sort(lines);
    proof {
        let g = |line: String| line@;
        assert forall|a: String, b: String| #[trigger]
            crate::order::rank::<String>()(a, b) == lesser_first()(g(a), g(b)) by {}
        lemma_lesser_first_is_total_preorder();
        crate::order::lemma_stable_sort_map(
            unsorted,
            sorted@,
            g,
            crate::order::rank::<String>(),
            lesser_first(),
        );
        assert(unsorted.map_values(g) =~= lines.deep_view());
        assert(sorted@.map_values(g) =~= sorted.deep_view());
    }
    sorted
}

/// The order of text is a total preorder.
pub proof fn lemma_lesser_first_is_total_preorder()
    ensures
        crate::order::is_total_preorder(lesser_first()),
{
    let before = lesser_first();
    assert forall|a: Seq<char>, b: Seq<char>| #[trigger] before(a, b) || before(b, a) by {
        crate::text::lemma_text_less_is_asymmetric(a, b);
    }
    assert forall|a: Seq<char>, b: Seq<char>, c: Seq<char>|
        #![trigger before(a, b), before(b, c)]
        before(a, b) && before(b, c) implies before(a, c) by {
        crate::text::lemma_text_order_is_transitive(a, b, c);
    }
}

/// Writes the question that is asked before anything is deleted.
pub fn confirmation_question(lines: usize, groups: usize) -> (text: String)
    ensures
        text@ == question_text(lines as nat, groups as nat),
{
    let mut text = String::new();
    text.append("\nDelete ");
    push_decimal(&mut text, lines as u128);
    text.append(" items (");
    push_decimal(&mut text, groups as u128);
    text.append(" groups)? (y/N) ");
    assert(text@ =~= question_text(lines as nat, groups as nat));
    text
}

/// Whether `answer` means yes.
pub fn is_yes(answer: &str) -> (yes: bool)
    ensures
        yes == means_yes(answer@),
{
    let mut chars = answer.chars();
    let ghost text = answer@;
    let ghost mut done: int = 0;
    let ghost mut place: int = -1;
    let mut seen: bool = false;
    assert(text.skip(0) =~= text);
    loop
        invariant
            0 <= done <= text.len(),
            vstd::std_specs::iter::IteratorSpec::remaining(&chars) == text.skip(done),
            seen <==> 0 <= place,
            seen ==> place < done && (text[place] == 'y' || text[place] == 'Y'),
            forall|j: int| 0 <= j < done && j != place ==> is_white_space(#[trigger] text[j]),
            text == answer@,
        decreases text.len() - done,
    {
        match chars.next() {
            Some(c) => {
                assert(c == text[done]);
                let n: u32 = code_point(c);
                let white: bool = (0x09 <= n && n <= 0x0d) || n == 0x20 || n == 0x85 || n == 0xa0
                    || n == 0x1680 || (0x2000 <= n && n <= 0x200a) || n == 0x2028 || n == 0x2029
                    || n == 0x202f || n == 0x205f || n == 0x3000;
                assert(white == is_white_space(text[done]));
                if !white {
                    if seen || (c != 'y' && c != 'Y') {
                        proof {
                            if means_yes(text) {
                                let i = choose|i: int|
                                    0 <= i < text.len() && (text[i] == 'y' || text[i] == 'Y')
                                        && forall|j: int|
                                        0 <= j < text.len() && j != i ==> is_white_space(
                                            #[trigger] text[j],
                                        );
                                assert(i == done);
                                if seen {
                                    assert(is_white_space(text[place]));
                                }
                            }
                        }
                        return false;
                    }
                    seen = true;
                    proof {
                        place = done;
                    }
                }
                proof {
                    assert(text.skip(done).drop_first() =~= text.skip(done + 1));
                    done = done + 1;
                }
            },
            None => {
                assert(done == text.len());
                proof {
                    if !seen && means_yes(text) {
                        let i = choose|i: int|
                            0 <= i < text.len() && (text[i] == 'y' || text[i] == 'Y') && forall|j: int|
                                0 <= j < text.len() && j != i ==> is_white_space(#[trigger] text[j]);
                        assert(is_white_space(text[i]));
                    }
                }
                return seen;
            },
        }
    }
}

} // verus!
