//! Picking the groups to delete from a list.

use vstd::prelude::*;
use crate::model::GroupModel;
use crate::model::GroupedItem;
use crate::size::format_size;
use crate::text::push_decimal;
use crate::time::format_days_ago_at;
use crate::time::Instant;

verus! {

/// How many rows a page has.
pub const PAGE_SIZE: usize = 20;

/// A key that was pressed.
#[derive(Clone, Copy, Debug)]
pub enum KeyPress {
    Char(char),
    Up,
    Down,
    PageUp,
    PageDown,
    Home,
    End,
    Enter,
    Esc,
    Other,
}

/// What a key stands for.
#[derive(Clone, Copy, Debug)]
pub enum Command {
    Toggle,
    MoveDown,
    MoveUp,
    NextPage,
    PreviousPage,
    First,
    Last,
    Help,
    Quit,
    Confirm,
    Nothing,
}

/// What becomes of the picking after a key.
#[derive(Clone, Copy, Debug, PartialEq, Eq, Structural)]
pub enum Outcome {
    Continue,
    Cancelled,
    Confirmed,
}

/// The state of the picking: which rows are marked, where the cursor is, and whether
/// the help is shown.
#[derive(Debug)]
pub struct Picker {
    marked: Vec<bool>,
    cursor: usize,
    help_shown: bool,
}

/// The mathematical view of a `Picker`.
#[verifier::ext_equal]
pub struct PickerModel {
    pub marked: Seq<bool>,
    pub cursor: int,
    pub help_shown: bool,
}

/// What `key` stands for.
pub open spec fn command_of(key: KeyPress) -> Command {
    match key {
        KeyPress::Char(c) => {
            if c == ' ' {
                Command::Toggle
            } else if c == 'j' {
                Command::MoveDown
            } else if c == 'k' {
                Command::MoveUp
            } else if c == 'f' {
                Command::NextPage
            } else if c == 'b' {
                Command::PreviousPage
            } else if c == 'g' {
                Command::First
            } else if c == 'G' {
                Command::Last
            } else if c == '?' {
                Command::Help
            } else if c == 'q' {
                Command::Quit
            } else {
                Command::Nothing
            }
        },
        KeyPress::Down => Command::MoveDown,
        KeyPress::Up => Command::MoveUp,
        KeyPress::PageDown => Command::NextPage,
        KeyPress::PageUp => Command::PreviousPage,
        KeyPress::Home => Command::First,
        KeyPress::End => Command::Last,
        KeyPress::Esc => Command::Quit,
        KeyPress::Enter => Command::Confirm,
        KeyPress::Other => Command::Nothing,
    }
}

/// What `key` stands for.
pub fn command(key: KeyPress) -> (command: Command)
    ensures
        command == command_of(key),
{
    match key {
        KeyPress::Char(c) => {
            if c == ' ' {
                Command::Toggle
            } else if c == 'j' {
                Command::MoveDown
            } else if c == 'k' {
                Command::MoveUp
            } else if c == 'f' {
                Command::NextPage
            } else if c == 'b' {
                Command::PreviousPage
            } else if c == 'g' {
                Command::First
            } else if c == 'G' {
                Command::Last
            } else if c == '?' {
                Command::Help
            } else if c == 'q' {
                Command::Quit
            } else {
                Command::Nothing
            }
        },
        KeyPress::Down => Command::MoveDown,
        KeyPress::Up => Command::MoveUp,
        KeyPress::PageDown => Command::NextPage,
        KeyPress::PageUp => Command::PreviousPage,
        KeyPress::Home => Command::First,
        KeyPress::End => Command::Last,
        KeyPress::Esc => Command::Quit,
        KeyPress::Enter => Command::Confirm,
        KeyPress::Other => Command::Nothing,
    }
}

impl PickerModel {
    /// Nothing marked, the cursor on the first of `rows` rows.
    pub open spec fn at_start(rows: nat) -> PickerModel {
        PickerModel { marked: Seq::new(rows, |i: int| false), cursor: 0, help_shown: false }
    }

    /// Whether the cursor is on a row; where there are no rows it is at 0.
    pub open spec fn valid(self) -> bool {
        0 <= self.cursor < self.marked.len() || (self.marked.len() == 0 && self.cursor == 0)
    }

    /// Whether `key` makes sense. Without rows nothing can be marked and there is no
    /// way down.
    pub open spec fn takes(self, key: KeyPress) -> bool {
        self.marked.len() > 0 || self.help_shown || !(command_of(key) is Toggle || command_of(
            key,
        ) is MoveDown || command_of(key) is NextPage)
    }

    pub open spec fn with_cursor(self, cursor: int) -> PickerModel {
        PickerModel { cursor, ..self }
    }

    /// The state after `key`. While the help is shown any key hides it and does no
    /// more.
    pub open spec fn after(self, key: KeyPress) -> PickerModel {
        let last = self.marked.len() - 1;
        if self.help_shown {
            PickerModel { help_shown: false, ..self }
        } else {
            match command_of(key) {
                Command::Toggle => PickerModel {
                    marked: self.marked.update(self.cursor, !self.marked[self.cursor]),
                    ..self
                },
                Command::MoveDown => if self.cursor < last {
                    self.with_cursor(self.cursor + 1)
                } else {
                    self
                },
                Command::MoveUp => if self.cursor > 0 {
                    self.with_cursor(self.cursor - 1)
                } else {
                    self
                },
                Command::NextPage => if self.cursor + PAGE_SIZE < last {
                    self.with_cursor(self.cursor + PAGE_SIZE)
                } else {
                    self.with_cursor(last)
                },
                Command::PreviousPage => if self.cursor > PAGE_SIZE {
                    self.with_cursor(self.cursor - PAGE_SIZE)
                } else {
                    self.with_cursor(0)
                },
                Command::First => self.with_cursor(0),
                Command::Last => if last > 0 {
                    self.with_cursor(last)
                } else {
                    self.with_cursor(0)
                },
                Command::Help => PickerModel { help_shown: true, ..self },
                _ => self,
            }
        }
    }

    /// What becomes of the picking after `key`.
    pub open spec fn outcome(self, key: KeyPress) -> Outcome {
        if self.help_shown {
            Outcome::Continue
        } else {
            match command_of(key) {
                Command::Quit => Outcome::Cancelled,
                Command::Confirm => Outcome::Confirmed,
                _ => Outcome::Continue,
            }
        }
    }
}

/// Those of `groups` that are marked.
pub open spec fn picked(groups: Seq<GroupModel>, marked: Seq<bool>) -> Seq<GroupModel>
    decreases groups.len(),
{
    if groups.len() == 0 {
        Seq::empty()
    } else {
        let rest = picked(groups.drop_last(), marked);
        if marked[groups.len() - 1] {
            rest.push(groups.last())
        } else {
            rest
        }
    }
}

/// How many rows are marked.
pub open spec fn marked_count(marked: Seq<bool>) -> nat {
    marked.filter(|mark: bool| mark).len()
}

impl Picker {
    pub closed spec fn model(self) -> PickerModel {
        PickerModel {
            marked: self.marked@,
            cursor: self.cursor as int,
            help_shown: self.help_shown,
        }
    }

    /// A picking among `rows` rows.
    pub fn new(rows: usize) -> (picker: Picker)
        ensures
            picker.model() == PickerModel::at_start(rows as nat),
    {
        let mut marked: Vec<bool> = Vec::new();
        let mut i: usize = 0;
        while i < rows
            invariant
                i <= rows,
                marked@ == Seq::new(i as nat, |k: int| false),
            decreases rows - i,
        {
            marked.push(false);
            assert(marked@ =~= Seq::new((i + 1) as nat, |k: int| false));
            i += 1;
        }
        Picker { marked, cursor: 0, help_shown: false }
    }

    /// Whether `key` makes sense.
    pub fn takes(&self, key: KeyPress) -> (answer: bool)
        ensures
            answer == self.model().takes(key),
    {
        if self.marked.len() > 0 || self.help_shown {
            return true;
        }
        match command(key) {
            Command::Toggle | Command::MoveDown | Command::NextPage => false,
            _ => true,
        }
    }

    /// Does what `key` stands for.
    pub fn handle_key(&mut self, key: KeyPress) -> (outcome: Outcome)
        requires
            old(self).model().valid(),
            old(self).model().takes(key),
        ensures
            final(self).model() == old(self).model().after(key),
            final(self).model().valid(),
            outcome == old(self).model().outcome(key),
    {
        if self.help_shown {
            self.help_shown = false;
            return Outcome::Continue;
        }
        let rows: usize = self.marked.len();
        match command(key) {
            Command::Toggle => {
                let mark: bool = !self.marked[self.cursor];
                self.marked.set(self.cursor, mark);
            },
            Command::MoveDown => {
                if self.cursor < rows - 1 {
                    self.cursor = self.cursor + 1;
                }
            },
            Command::MoveUp => {
                if self.cursor > 0 {
                    self.cursor = self.cursor - 1;
                }
            },
            Command::NextPage => {
                if rows - 1 - self.cursor > PAGE_SIZE {
                    self.cursor = self.cursor + PAGE_SIZE;
                } else {
                    self.cursor = rows - 1;
                }
            },
            Command::PreviousPage => {
                if self.cursor > PAGE_SIZE {
                    self.cursor = self.cursor - PAGE_SIZE;
                } else {
                    self.cursor = 0;
                }
            },
            Command::First => {
                self.cursor = 0;
            },
            Command::Last => {
                if rows > 0 {
                    self.cursor = rows - 1;
                } else {
                    self.cursor = 0;
                }
            },
            Command::Help => {
                self.help_shown = true;
            },
            Command::Quit => {
                return Outcome::Cancelled;
            },
            Command::Confirm => {
                return Outcome::Confirmed;
            },
            Command::Nothing => {},
        }
        Outcome::Continue
    }

    /// The row that the cursor is on.
    pub fn cursor(&self) -> (cursor: usize)
        ensures
            cursor == self.model().cursor,
    {
        self.cursor
    }

    /// Whether the help is shown.
    pub fn is_help_shown(&self) -> (answer: bool)
        ensures
            answer == self.model().help_shown,
    {
        self.help_shown
    }

    /// Whether a row is marked.
    pub fn is_marked(&self, row: usize) -> (answer: bool)
        requires
            row < self.model().marked.len(),
        ensures
            answer == self.model().marked[row as int],
    {
        self.marked[row]
    }

    /// Those of `groups` that are marked.
    pub fn pick(&self, groups: &[GroupedItem]) -> (chosen: Vec<GroupedItem>)
        requires
            groups.len() == self.model().marked.len(),
        ensures
            chosen.deep_view() == picked(groups.deep_view(), self.model().marked),
    {
        let ghost all = groups.deep_view();
        let mut chosen: Vec<GroupedItem> = Vec::new();
        let mut i: usize = 0;
        assert(chosen.deep_view() =~= picked(all.take(0), self.marked@));
        while i < groups.len()
            invariant
                i <= groups.len(),
                groups.len() == self.marked.len(),
                all == groups.deep_view(),
                chosen.deep_view() == picked(all.take(i as int), self.marked@),
            decreases groups.len() - i,
        {
            let ghost before = chosen.deep_view();
            assert(all.take(i + 1).drop_last() =~= all.take(i as int));
            if self.marked[i] {
                chosen.push(groups[i].clone());
                assert(chosen.deep_view() =~= before.push(all[i as int]));
            }
            i += 1;
        }
        assert(all.take(i as int) =~= all);
        chosen
    }

    /// How many rows are marked.
    pub fn count_marked(&self) -> (count: usize)
        ensures
            count == marked_count(self.model().marked),
    {
        let ghost p = |mark: bool| mark;
        let mut count: usize = 0;
        let mut i: usize = 0;
        proof {
            reveal(Seq::filter);
            assert(self.marked@.take(0).filter(p).len() == 0);
        }
        while i < self.marked.len()
            invariant
                i <= self.marked.len(),
                p == (|mark: bool| mark),
                count == self.marked@.take(i as int).filter(p).len(),
                count <= i,
            decreases self.marked.len() - i,
        {
            proof {
                assert(self.marked@.take(i + 1) =~= self.marked@.take(i as int).push(
                    self.marked@[i as int],
                ));
                self.marked@.take(i as int).lemma_filter_len_push(p, self.marked@[i as int]);
            }
            if self.marked[i] {
                count += 1;
            }
            i += 1;
        }
        assert(self.marked@.take(i as int) =~= self.marked@);
        count
    }

    /// The line under the list.
    pub fn status_line(&self) -> (line: String)
        requires
            self.model().valid(),
        ensures
            line@ == status_text(self.model()),
    {
        let mut line = String::new();
        line.append(" Selected: ");
        push_decimal(&mut line, self.count_marked() as u128);
        line.append(" | ");
        push_decimal(&mut line, self.cursor as u128 + 1);
        line.append("/");
        push_decimal(&mut line, self.marked.len() as u128);
        if self.help_shown {
            line.append(" (press any key)");
        } else {
            line.append(" | ? for help");
        }
        line.append(" ");
        assert(line@ =~= status_text(self.model()));
        line
    }
}

/// The line under the list: how many rows are marked, where the cursor is, and what
/// to do about the help.
pub open spec fn status_text(picker: PickerModel) -> Seq<char> {
    " Selected: "@ + crate::text::decimal(marked_count(picker.marked)) + " | "@
        + crate::text::decimal((picker.cursor + 1) as nat) + "/"@ + crate::text::decimal(picker.marked.len())
        + (if picker.help_shown {
        " (press any key)"@
    } else {
        " | ? for help"@
    }) + " "@
}

/// A row of the list.
#[derive(Debug)]
pub struct Row {
    pub checkbox: String,
    pub name: String,
    pub kind: String,
    pub size: String,
    pub last_played: String,
}

/// The mathematical view of a `Row`.
#[verifier::ext_equal]
pub struct RowModel {
    pub checkbox: Seq<char>,
    pub name: Seq<char>,
    pub kind: Seq<char>,
    pub size: Seq<char>,
    pub last_played: Seq<char>,
}

impl DeepView for Row {
    type V = RowModel;

    open spec fn deep_view(&self) -> RowModel {
        RowModel {
            checkbox: self.checkbox@,
            name: self.name@,
            kind: self.kind@,
            size: self.size@,
            last_played: self.last_played@,
        }
    }
}

/// The row of a group. Its date is that of its first item.
pub open spec fn row_of(group: GroupModel, marked: bool, now: Instant) -> RowModel {
    RowModel {
        checkbox: if marked {
            "[x]"@
        } else {
            "[ ]"@
        },
        name: crate::display::group_text(group),
        kind: match group {
            GroupModel::Individual(item) => item.item_type,
            GroupModel::Season { .. } => "Season"@,
            GroupModel::Series { .. } => "Series"@,
        },
        size: crate::size::size_text(group.total_size()),
        last_played: if group.items().len() > 0 {
            match group.items()[0].last_played_date {
                Some(date) => crate::time::days_ago_text(date, now),
                None => "Never"@,
            }
        } else {
            "Never"@
        },
    }
}

/// Writes the row of a group.
pub fn make_row(group: &GroupedItem, marked: bool, now: Instant) -> (row: Row)
    requires
        now.valid(),
        group.deep_view().total_size() <= u64::MAX,
    ensures
        row.deep_view() == row_of(group.deep_view(), marked, now),
{
    let checkbox = if marked {
        "[x]".to_owned()
    } else {
        "[ ]".to_owned()
    };
    let kind = match group {
        GroupedItem::Individual(item) => item.item_type.clone(),
        GroupedItem::Season { .. } => "Season".to_owned(),
        GroupedItem::Series { .. } => "Series".to_owned(),
    };
    let items = group.items();
    let last_played = if items.len() > 0 {
        assert(items.deep_view()[0] == items[0].deep_view());
        match &items[0].last_played_date {
            Some(date) => format_days_ago_at(date.as_str(), now),
            None => "Never".to_owned(),
        }
    } else {
        "Never".to_owned()
    };
    Row {
        checkbox,
        name: group.display_name(),
        kind,
        size: format_size(group.total_size() as u64),
        last_played,
    }
}

} // verus!
