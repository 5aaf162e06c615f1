//! Deleting groups, one item at a time.

use vstd::prelude::*;
use crate::display::count_items;
use crate::display::format_display_name;
use crate::model::GroupModel;
use crate::model::GroupedItem;
use crate::model::MatchedItem;
use crate::model::MatchedModel;
use crate::text::push_decimal;

verus! {

/// A step of a run: a line to print, or an item to delete with what to print before.
#[derive(Debug)]
pub enum Step {
    Say(String),
    Delete { id: String, notice: String },
}

/// The mathematical view of a `Step`.
pub enum StepModel {
    Say(Seq<char>),
    Delete { id: Seq<char>, notice: Seq<char> },
}

impl DeepView for Step {
    type V = StepModel;

    open spec fn deep_view(&self) -> StepModel {
        match *self {
            Step::Say(line) => StepModel::Say(line@),
            Step::Delete { id, notice } => StepModel::Delete { id: id@, notice: notice@ },
        }
    }
}

/// The place of an item in the run, and `what` is done.
pub open spec fn progress(indent: Seq<char>, current: nat, total: nat, what: Seq<char>) -> Seq<
    char,
> {
    indent + "["@ + crate::text::decimal(current) + "/"@ + crate::text::decimal(total)
        + "] Deleting "@ + what + "..."@
}

/// The step that deletes an episode within its group.
pub open spec fn episode_step(
    item: MatchedModel,
    indent: Seq<char>,
    current: nat,
    total: nat,
) -> StepModel {
    StepModel::Delete {
        id: item.id,
        notice: progress(indent, current, total, crate::display::display_text(item)),
    }
}

/// The steps that delete the episodes of a group, of which `done` items come before.
pub open spec fn episode_steps(
    items: Seq<MatchedModel>,
    indent: Seq<char>,
    done: nat,
    total: nat,
) -> Seq<StepModel> {
    Seq::new(items.len(), |i: int| episode_step(items[i], indent, (done + i + 1) as nat, total))
}

/// The heading of a season.
pub open spec fn season_heading(series_name: Seq<char>, season_number: u32, episodes: nat) -> Seq<
    char,
> {
    "  "@ + series_name + " - Season "@ + crate::text::decimal(season_number as nat) + " ("@
        + crate::text::decimal(episodes) + " episodes)"@
}

/// The heading of a series.
pub open spec fn series_heading(series_name: Seq<char>, seasons: nat, episodes: u32) -> Seq<char> {
    "  "@ + series_name + " ("@ + crate::text::decimal(seasons) + " seasons, "@
        + crate::text::decimal(episodes as nat) + " episodes)"@
}

/// The line of a season under the heading of its series.
pub open spec fn season_line(number: u32) -> StepModel {
    StepModel::Say("    Season "@ + crate::text::decimal(number as nat))
}

/// The steps that delete a group, of which `done` items come before.
pub open spec fn group_steps(group: GroupModel, done: nat, total: nat) -> Seq<StepModel> {
    match group {
        GroupModel::Individual(item) => seq![
            StepModel::Delete {
                id: item.id,
                notice: progress(
                    Seq::empty(),
                    done + 1,
                    total,
                    "["@ + item.item_type + "] "@ + crate::display::display_text(item),
                ),
            },
        ],
        GroupModel::Season { series_name, season_number, items } => seq![
            StepModel::Say(season_heading(series_name, season_number, items.len())),
        ] + episode_steps(items, "    "@, done, total),
        GroupModel::Series { series_name, total_episodes, seasons, items } => seq![
            StepModel::Say(series_heading(series_name, seasons.len(), total_episodes)),
        ] + seasons.map_values(|number: u32| season_line(number)) + episode_steps(
            items,
            "      "@,
            done,
            total,
        ),
    }
}

/// The steps that delete `groups` out of `total` items.
pub open spec fn steps_for(groups: Seq<GroupModel>, total: nat) -> Seq<StepModel>
    decreases groups.len(),
{
    if groups.len() == 0 {
        Seq::empty()
    } else {
        steps_for(groups.drop_last(), total) + group_steps(
            groups.last(),
            crate::display::item_count(groups.drop_last()),
            total,
        )
    }
}

/// What is printed once the outcome of a deletion is known.
pub open spec fn outcome_text(failure: Option<Seq<char>>) -> Seq<char> {
    match failure {
        None => "\x1b[32m done\x1b[0m"@,
        Some(reason) => "\x1b[31m failed: "@ + reason + "\x1b[0m"@,
    }
}

/// What is printed at the end of a run.
pub open spec fn summary_text(deleted: nat) -> Seq<char> {
    "\nDeleted "@ + crate::text::decimal(deleted) + " items"@
}

/// What a run does next.
#[derive(Debug)]
pub enum Action {
    Say(String),
    Delete { id: String, notice: String },
    Finish { deleted: usize, summary: String },
}

/// A run through the steps that delete groups.
#[derive(Debug)]
pub struct DeletionRun {
    steps: Vec<Step>,
    position: usize,
    deleted: usize,
    waiting: bool,
}

/// The mathematical view of a `DeletionRun`: the steps, how many are taken, how many
/// items are deleted, and whether the outcome of a deletion is awaited.
pub struct RunModel {
    pub steps: Seq<StepModel>,
    pub position: nat,
    pub deleted: nat,
    pub waiting: bool,
}

impl RunModel {
    /// A run that has not begun.
    pub open spec fn at_start(steps: Seq<StepModel>) -> RunModel {
        RunModel { steps, position: 0, deleted: 0, waiting: false }
    }

    /// The run once the next step is taken.
    pub open spec fn advanced(self) -> RunModel {
        RunModel {
            position: self.position + 1,
            waiting: self.steps[self.position as int] is Delete,
            ..self
        }
    }

    /// The run once the outcome of the deletion is known.
    pub open spec fn settled(self, succeeded: bool) -> RunModel {
        RunModel {
            deleted: if succeeded {
                self.deleted + 1
            } else {
                self.deleted
            },
            waiting: false,
            ..self
        }
    }
}

fn format_progress(indent: &str, current: u128, total: u128, what: &str) -> (text: String)
    ensures
        text@ == progress(indent@, current as nat, total as nat, what@),
{
    let mut text = indent.to_owned();
    text.append("[");
    push_decimal(&mut text, current);
    text.append("/");
    push_decimal(&mut text, total);
    text.append("] Deleting ");
    text.append(what);
    text.append("...");
    text
}

fn push_episode_steps(
    steps: &mut Vec<Step>,
    items: &Vec<MatchedItem>,
    indent: &str,
    done: u128,
    total: u128,
)
    requires
        done + items.len() <= u128::MAX,
    ensures
        final(steps).deep_view() == old(steps).deep_view() + episode_steps(
            items.deep_view(),
            indent@,
            done as nat,
            total as nat,
        ),
{
    let ghost m = items.deep_view();
    let ghost all = episode_steps(m, indent@, done as nat, total as nat);
    let ghost before = steps.deep_view();
    let mut i: usize = 0;
    assert(steps.deep_view() =~= before + all.take(0));
    while i < items.len()
        invariant
            i <= items.len(),
            done + items.len() <= u128::MAX,
            m == items.deep_view(),
            all == episode_steps(m, indent@, done as nat, total as nat),
            steps.deep_view() == before + all.take(i as int),
        decreases items.len() - i,
    {
        let ghost so_far = steps.deep_view();
        let name = format_display_name(&items[i]);
        let notice = format_progress(indent, done + i as u128 + 1, total, name.as_str());
        let step = Step::Delete { id: items[i].id.clone(), notice };
        assert(step.deep_view() == all[i as int]);
        steps.push(step);
        assert(steps.deep_view() =~= so_far.push(all[i as int]));
        assert(all.take(i + 1) =~= all.take(i as int).push(all[i as int]));
        assert(so_far.push(all[i as int]) =~= before + all.take(i + 1));
        i += 1;
    }
    assert(all.take(i as int) =~= all);
}

fn push_group_steps(steps: &mut Vec<Step>, group: &GroupedItem, done: u128, total: u128)
    requires
        done + group.deep_view().items().len() <= u128::MAX,
    ensures
        final(steps).deep_view() == old(steps).deep_view() + group_steps(
            group.deep_view(),
            done as nat,
            total as nat,
        ),
{
    let ghost before = steps.deep_view();
    match group {
        GroupedItem::Individual(item) => {
            let mut what = String::new();
            what.append("[");
            what.append(item.item_type.as_str());
            what.append("] ");
            let name = format_display_name(item);
            what.append(name.as_str());
            assert(what@ =~= "["@ + item.item_type@ + "] "@ + name@);
            let notice = format_progress("", done + 1, total, what.as_str());
            proof {
                reveal_strlit("");
                assert(""@ =~= Seq::<char>::empty());
            }
            steps.push(Step::Delete { id: item.id.clone(), notice });
            assert(steps.deep_view() =~= before + group_steps(
                group.deep_view(),
                done as nat,
                total as nat,
            ));
        },
        GroupedItem::Season { series_name, season_number, items } => {
            let mut heading = String::new();
            heading.append("  ");
            heading.append(series_name.as_str());
            heading.append(" - Season ");
            push_decimal(&mut heading, *season_number as u128);
            heading.append(" (");
            push_decimal(&mut heading, items.len() as u128);
            heading.append(" episodes)");
            assert(heading@ =~= season_heading(series_name@, *season_number, items.deep_view().len()));
            let ghost heading_step = StepModel::Say(heading@);
            steps.push(Step::Say(heading));
            assert(steps.deep_view() =~= before + seq![heading_step]);
            push_episode_steps(steps, items, "    ", done, total);
            assert(steps.deep_view() =~= before + group_steps(
                group.deep_view(),
                done as nat,
                total as nat,
            ));
        },
        GroupedItem::Series { series_name, total_episodes, seasons, items } => {
            let mut heading = String::new();
            heading.append("  ");
            heading.append(series_name.as_str());
            heading.append(" (");
            push_decimal(&mut heading, seasons.len() as u128);
            heading.append(" seasons, ");
            push_decimal(&mut heading, *total_episodes as u128);
            heading.append(" episodes)");
            assert(heading@ =~= series_heading(series_name@, seasons@.len(), *total_episodes));
            let ghost heading_step = StepModel::Say(heading@);
            steps.push(Step::Say(heading));
            assert(steps.deep_view() =~= before + seq![heading_step]);
            push_season_lines(steps, seasons);
            push_episode_steps(steps, items, "      ", done, total);
            assert(steps.deep_view() =~= before + group_steps(
                group.deep_view(),
                done as nat,
                total as nat,
            ));
        },
    }
}

fn push_season_lines(steps: &mut Vec<Step>, seasons: &Vec<u32>)
    ensures
        final(steps).deep_view() == old(steps).deep_view() + seasons@.map_values(
            |number: u32| season_line(number),
        ),
{
    let ghost before = steps.deep_view();
    let ghost lines = seasons@.map_values(|number: u32| season_line(number));
    let mut i: usize = 0;
    assert(steps.deep_view() =~= before + lines.take(0));
    while i < seasons.len()
        invariant
            i <= seasons.len(),
            lines == seasons@.map_values(|number: u32| season_line(number)),
            steps.deep_view() == before + lines.take(i as int),
        decreases seasons.len() - i,
    {
        let ghost so_far = steps.deep_view();
        let mut line = String::new();
        line.append("    Season ");
        push_decimal(&mut line, seasons[i] as u128);
        assert(line@ =~= "    Season "@ + crate::text::decimal(seasons[i as int] as nat));
        steps.push(Step::Say(line));
        assert(steps.deep_view() =~= so_far.push(lines[i as int]));
        assert(so_far.push(lines[i as int]) =~= before + lines.take(i + 1));
        i += 1;
    }
    assert(lines.take(i as int) =~= lines);
}

/// Lists the steps that delete `groups`.
pub fn deletion_steps(groups: &[GroupedItem]) -> (steps: Vec<Step>)
    ensures
        steps.deep_view() == steps_for(
            groups.deep_view(),
            crate::display::item_count(groups.deep_view()),
        ),
{
    let ghost all = groups.deep_view();
    let total: u128 = count_items(groups);
    let mut steps: Vec<Step> = Vec::new();
    let mut done: u128 = 0;
    let mut i: usize = 0;
    assert(steps.deep_view() =~= steps_for(all.take(0), total as nat));
    while i < groups.len()
        invariant
            i <= groups.len(),
            all == groups.deep_view(),
            done == crate::display::item_count(all.take(i as int)),
            total == crate::display::item_count(all),
            steps.deep_view() == steps_for(all.take(i as int), total as nat),
        decreases groups.len() - i,
    {
        proof {
            assert(all.take(i + 1).drop_last() =~= all.take(i as int));
            assert(all.take(i + 1).last() == groups@[i as int].deep_view());
            crate::display::lemma_item_count_take(all, i + 1);
        }
        push_group_steps(&mut steps, &groups[i], done, total);
        let items = groups[i].items();
        assert(items.deep_view().len() == items.len());
        done = done + items.len() as u128;
        i += 1;
    }
    assert(all.take(i as int) =~= all);
    steps
}

impl DeletionRun {
    pub closed spec fn model(self) -> RunModel {
        RunModel {
            steps: self.steps.deep_view(),
            position: self.position as nat,
            deleted: self.deleted as nat,
            waiting: self.waiting,
        }
    }

    pub closed spec fn wf(self) -> bool {
        &&& self.position <= self.steps.len()
        &&& self.deleted + (if self.waiting {
            1int
        } else {
            0
        }) <= self.position
    }

    /// A run that deletes `groups`.
    pub fn new(groups: &[GroupedItem]) -> (run: DeletionRun)
        ensures
            run.wf(),
            run.model() == RunModel::at_start(
                steps_for(groups.deep_view(), crate::display::item_count(groups.deep_view())),
            ),
    {
        DeletionRun { steps: deletion_steps(groups), position: 0, deleted: 0, waiting: false }
    }

    /// Takes the next step. Where there is none left the run is over.
    pub fn next_action(&mut self) -> (action: Action)
        requires
            old(self).wf(),
            !old(self).model().waiting,
        ensures
            final(self).wf(),
            ({
                let before = old(self).model();
                if before.position < before.steps.len() {
                    &&& final(self).model() == before.advanced()
                    &&& match before.steps[before.position as int] {
                        StepModel::Say(line) => action matches Action::Say(text) && text@ == line,
                        StepModel::Delete { id, notice } => action matches Action::Delete {
                            id: its_id,
                            notice: its_notice,
                        } && its_id@ == id && its_notice@ == notice,
                    }
                } else {
                    &&& final(self).model() == before
                    &&& action matches Action::Finish { deleted, summary }
                    &&& deleted == before.deleted
                    &&& summary@ == summary_text(before.deleted)
                }
            }),
    {
        if self.position < self.steps.len() {
            let action = match &self.steps[self.position] {
                Step::Say(line) => Action::Say(line.clone()),
                Step::Delete { id, notice } => Action::Delete {
                    id: id.clone(),
                    notice: notice.clone(),
                },
            };
            self.waiting = match &action {
                Action::Delete { .. } => true,
                _ => false,
            };
            assert(self.steps.deep_view()[self.position as int]
                == self.steps[self.position as int].deep_view());
            self.position = self.position + 1;
            action
        } else {
            let mut summary = String::new();
            summary.append("\nDeleted ");
            push_decimal(&mut summary, self.deleted as u128);
            summary.append(" items");
            assert(summary@ =~= summary_text(self.deleted as nat));
            Action::Finish { deleted: self.deleted, summary }
        }
    }

    /// Notes how the deletion went: `failure` says why it failed, if it did. A failure
    /// does not end the run.
    pub fn settle(&mut self, failure: Option<String>) -> (text: String)
        requires
            old(self).wf(),
            old(self).model().waiting,
        ensures
            final(self).wf(),
            final(self).model() == old(self).model().settled(failure is None),
            text@ == outcome_text(failure.deep_view()),
    {
        self.waiting = false;
        match failure {
            None => {
                self.deleted = self.deleted + 1;
                "\x1b[32m done\x1b[0m".to_owned()
            },
            Some(reason) => {
                let mut text = String::new();
                text.append("\x1b[31m failed: ");
                text.append(reason.as_str());
                text.append("\x1b[0m");
                assert(text@ =~= outcome_text(Some(reason@)));
                text
            },
        }
    }
}

} // verus!
