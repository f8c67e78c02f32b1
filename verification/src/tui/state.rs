//! The states of the application and how each input changes them.

use vstd::prelude::*;

use crate::chance::eggs_to_hundredths;
use crate::iv::no_thresholds;
use crate::iv::IvThresholds;
use crate::mcp::names::by_pal_display;
use crate::mcp::names::by_skill_display;
use crate::model::iv_of;
use crate::model::IvStat;
use crate::model::IvValue;
use crate::model::Pal;
use crate::model::PalDb;
use crate::model::PassiveSkill;
use crate::names::mentions;
use crate::names::shown;
use crate::passives::MAX_TOTAL_PASSIVES;
use crate::pool::load::Loaded;
use crate::pool::load::PoolError;
use crate::search::plan::owned_views;
use crate::search::plan::Fault;
use crate::search::plan::GoalView;
use crate::search::plan::OwnedView;
use crate::search::plan::PlanView;
use crate::search::plan::SearchConfig;
use crate::search::plan::MAX_PROGENITORS;
use crate::search::seed::first_fault;
use crate::search::solver::answers;
use crate::search::solver::Solver;
use crate::seqs::kept;
use crate::seqs::sorted_by;
use crate::text::decimal;
use crate::text::trimmed;
use crate::text::without_last;
use crate::tui::command::clamped;
use crate::tui::command::command_named;
use crate::tui::command::Command;
use crate::tui::command::Doc;
use crate::tui::command::DocView;
use crate::tui::store::SavedView;

verus! {

/// Plans a search returns.
pub const MAX_RESULTS: usize = 5;

pub const DEFAULT_BREEDING_STEPS: usize = 3;

pub const MIN_BREEDING_STEPS: usize = 1;

/// Deep plans matter with wild mode off, where routing through a limited
/// owned pool can far exceed the 7-step wild-partner bound.
pub const MAX_BREEDING_STEPS: usize = 24;

#[derive(Clone, Copy, PartialEq, Eq, Structural, Debug)]
pub enum Pane {
    Pals,
    Passives,
    Results,
}

/// A resolved mouse click: the pane it landed in, and the list row under
/// the pointer when it hit one.
#[derive(Clone, Copy, PartialEq, Eq, Structural, Debug)]
pub struct Click {
    pub pane: Pane,
    pub row: Option<usize>,
}

/// The keys that mean something.
#[derive(Clone, Copy, PartialEq, Eq, Structural, Debug)]
pub enum KeyCode {
    Esc,
    Enter,
    Tab,
    BackTab,
    Backspace,
    Delete,
    Up,
    Down,
    Left,
    Right,
    PageUp,
    PageDown,
    Home,
    End,
    F(u8),
    Char(char),
    Other,
}

/// A pressed key, and whether Control was held.
#[derive(Clone, Copy, PartialEq, Eq, Structural, Debug)]
pub struct KeyEvent {
    pub code: KeyCode,
    pub control: bool,
}

/// How searches run: `Inline` executes at once and applies before
/// returning; `Deferred` parks a request for the shell to ship to a
/// worker.
#[derive(Clone, Copy, PartialEq, Eq, Structural, Debug)]
pub enum SearchMode {
    Inline,
    Deferred,
}

/// Background-search activity. `Awaiting` runs from request creation
/// until the latest generation's outcome applies, and owns the spinner's
/// frame counter: an idle app cannot have a spinner.
#[derive(Clone, Copy, PartialEq, Eq, Structural, Debug)]
pub enum SearchActivity {
    Idle,
    Awaiting { spinner_tick: usize },
}

/// Search id; only the outcome matching the latest generation may apply,
/// so superseded searches die on arrival. Ids wrap around.
#[derive(Clone, Copy, PartialEq, Eq, Structural, Debug)]
pub struct SearchGen(pub u64);

impl SearchGen {
    /// The id after this one.
    pub open spec fn successor(self) -> SearchGen {
        if self.0 == u64::MAX {
            SearchGen(0)
        } else {
            SearchGen((self.0 + 1) as u64)
        }
    }
}

/// The modal layer above the panes, as plain values.
pub enum Layer {
    Closed,
    Prompt(Seq<char>),
    Doc(DocView),
}

/// How an applied outcome announces itself, as plain values.
pub enum Notice {
    Standard,
    Replan { label: Seq<char>, saved_eggs: u128 },
}

/// A search request as plain values.
pub struct RequestView {
    pub generation: SearchGen,
    pub pool: Seq<OwnedView>,
    pub goal: GoalView,
    pub config: SearchConfig,
    pub focus_results: bool,
    pub announce: Notice,
}

/// What a search gives: the ranked plans, or why it cannot start.
pub enum Found {
    Plans(Seq<PlanView>),
    Refused(Fault),
}

/// A finished search as plain values.
pub struct OutcomeView {
    pub generation: SearchGen,
    pub focus_results: bool,
    pub announce: Notice,
    pub result: Found,
}

/// Work that a key leaves to the shell, as plain values.
pub enum ChoreView {
    WriteSaved { label: Seq<char> },
    WriteDeleted { label: Seq<char> },
    Reload { path: Seq<char> },
}

/// The application as plain values.
#[verifier::ext_equal]
pub struct AppState {
    pub owned: Seq<OwnedView>,
    pub pool_path: Option<Seq<char>>,
    pub focus: Pane,
    pub species_filter: Seq<char>,
    pub species_cursor: usize,
    pub target: Option<Seq<char>>,
    pub progenitors: Seq<Seq<char>>,
    pub passive_filter: Seq<char>,
    pub passive_cursor: usize,
    pub selected: Seq<Seq<char>>,
    pub thresholds: IvThresholds,
    pub plans: Seq<PlanView>,
    pub plan_cursor: usize,
    pub saved: Seq<SavedView>,
    pub saved_path: Seq<char>,
    pub viewing_saved: bool,
    pub saved_cursor: usize,
    pub max_steps: usize,
    pub allow_wild: bool,
    pub layer: Layer,
    pub status: Seq<char>,
    pub should_quit: bool,
    pub mode: SearchMode,
    pub latest_gen: SearchGen,
    pub pending: Option<RequestView>,
    pub activity: SearchActivity,
    pub help_lines: u16,
    pub readme_lines: u16,
}

/// A state and the work it leaves to the shell.
#[verifier::ext_equal]
pub struct Step {
    pub state: AppState,
    pub chore: Option<ChoreView>,
}

/// A state that leaves no work.
pub open spec fn only(state: AppState) -> Step {
    Step { state, chore: None }
}

// ---------------------------------------------------------------------
// Small steps
// ---------------------------------------------------------------------
/// The pane after a pane.
pub open spec fn pane_after(pane: Pane) -> Pane {
    match pane {
        Pane::Pals => Pane::Passives,
        Pane::Passives => Pane::Results,
        Pane::Results => Pane::Pals,
    }
}

/// A cursor moved within a list.
pub open spec fn stepped(cursor: usize, delta: int, len: nat) -> usize {
    if len == 0 {
        0
    } else {
        clamped(cursor + delta, 0, len - 1) as usize
    }
}

/// The last position of a list, or the first of an empty one.
pub open spec fn last_position(len: nat) -> int {
    if len == 0 {
        0
    } else {
        len - 1
    }
}

/// A cursor brought back into a list.
pub open spec fn kept_in(cursor: usize, len: nat) -> usize {
    clamped(cursor as int, 0, last_position(len)) as usize
}

/// A minimum one step of ten up or down; nothing below ten.
pub open spec fn stepped_threshold(current: Option<IvValue>, up: bool) -> Option<IvValue> {
    let value: int = match current {
        Some(v) => v@ as int,
        None => 0,
    };
    let next = clamped(
        if up {
            value + 10
        } else {
            value - 10
        },
        0,
        100,
    );
    if next >= 10 {
        Some(iv_of(next as u8))
    } else {
        None
    }
}

/// A minimum in words.
pub open spec fn threshold_text(threshold: Option<IvValue>) -> Seq<char> {
    match threshold {
        Some(minimum) => "≥ "@ + decimal(minimum@ as nat),
        None => "off"@,
    }
}

/// A filter lets a name through.
pub open spec fn passes(filter: Seq<char>, display: Seq<char>, internal: Seq<char>) -> bool {
    filter.len() == 0 || mentions(internal, display, filter)
}

/// The stat that a letter drives.
pub open spec fn stat_of(key: char) -> IvStat {
    if key == 'h' || key == 'H' {
        IvStat::Hp
    } else if key == 'a' || key == 'A' {
        IvStat::Attack
    } else {
        IvStat::Defense
    }
}

/// A letter raises a minimum.
pub open spec fn raises(key: char) -> bool {
    'a' <= key <= 'z'
}

/// Thresholds with one changed.
pub open spec fn with_threshold(t: IvThresholds, stat: IvStat, value: Option<IvValue>) -> IvThresholds {
    match stat {
        IvStat::Hp => IvThresholds { hp: value, ..t },
        IvStat::Attack => IvThresholds { attack: value, ..t },
        IvStat::Defense => IvThresholds { defense: value, ..t },
    }
}

// ---------------------------------------------------------------------
// Rows
// ---------------------------------------------------------------------
/// The species of the database among names, in their order.
pub open spec fn known_pals(db: PalDb, names: Seq<Seq<char>>) -> Seq<Pal>
    decreases names.len(),
{
    if names.len() == 0 {
        Seq::empty()
    } else {
        match db.lookup(names.last()) {
            Some(pal) => known_pals(db, names.drop_last()).push(pal),
            None => known_pals(db, names.drop_last()),
        }
    }
}

/// The passives of the database among names, in their order.
pub open spec fn known_skills(db: PalDb, names: Seq<Seq<char>>) -> Seq<PassiveSkill>
    decreases names.len(),
{
    if names.len() == 0 {
        Seq::empty()
    } else {
        match db.lookup_skill(names.last()) {
            Some(skill) => known_skills(db, names.drop_last()).push(skill),
            None => known_skills(db, names.drop_last()),
        }
    }
}

/// A species that is not marked passes the filter.
pub open spec fn unmarked_pal(marked: Seq<Seq<char>>, filter: Seq<char>) -> spec_fn(Pal) -> bool {
    |p: Pal| !marked.contains(p.name@) && passes(filter, p.display_name@, p.name@)
}

/// A standard passive that is not selected passes the filter.
pub open spec fn unselected_skill(selected: Seq<Seq<char>>, filter: Seq<char>) -> spec_fn(
    PassiveSkill,
) -> bool {
    |p: PassiveSkill|
        p.standard && !selected.contains(p.name@) && passes(filter, p.display_name@, p.name@)
}

/// The rows of the Pals pane: marked progenitors pinned at the top, then
/// every filter match by display name.
pub open spec fn pal_rows(db: PalDb, marked: Seq<Seq<char>>, filter: Seq<char>) -> Seq<Pal> {
    known_pals(db, marked) + sorted_by(
        kept(db.all(), unmarked_pal(marked, filter)),
        by_pal_display(),
    )
}

/// The rows of the Passives pane: selected passives pinned at the top,
/// then every standard filter match by display name.
pub open spec fn skill_rows(db: PalDb, selected: Seq<Seq<char>>, filter: Seq<char>) -> Seq<
    PassiveSkill,
> {
    known_skills(db, selected) + sorted_by(
        kept(db.skills(), unselected_skill(selected, filter)),
        by_skill_display(),
    )
}

// ---------------------------------------------------------------------
// Searching
// ---------------------------------------------------------------------
/// What a solver answers.
pub open spec fn found(
    solver: Solver,
    pool: Seq<OwnedView>,
    goal: GoalView,
    config: SearchConfig,
) -> Found {
    match first_fault(solver.db(), pool, goal) {
        Some(fault) => Found::Refused(fault),
        None => Found::Plans(
            answers(
                solver.db(),
                solver.children(),
                solver.passive_odds(),
                solver.ivs(),
                pool,
                goal,
                config,
            ),
        ),
    }
}

impl AppState {
    /// The state with another status line.
    pub open spec fn says(self, status: Seq<char>) -> AppState {
        AppState { status, ..self }
    }

    /// The rows of the Pals pane.
    pub open spec fn pals_shown(self, db: PalDb) -> Seq<Pal> {
        pal_rows(db, self.progenitors, self.species_filter)
    }

    /// The rows of the Passives pane.
    pub open spec fn skills_shown(self, db: PalDb) -> Seq<PassiveSkill> {
        skill_rows(db, self.selected, self.passive_filter)
    }

    /// Progenitor marks switch the search to progenitor mode.
    pub open spec fn progenitor_mode(self) -> bool {
        self.progenitors.len() > 0
    }

    /// The goal of the live question.
    pub open spec fn goal(self) -> GoalView {
        GoalView {
            species: self.target->0,
            passives: self.selected,
            progenitors: self.progenitors,
            iv_thresholds: self.thresholds,
        }
    }

    /// The pool of the live question: the owned pool steps aside in
    /// progenitor mode.
    pub open spec fn stock(self) -> Seq<OwnedView> {
        if self.progenitor_mode() {
            Seq::empty()
        } else {
            self.owned
        }
    }

    /// How the live question is searched: progenitor plans need partners
    /// from somewhere, and captures are the only source.
    pub open spec fn settings(self) -> SearchConfig {
        SearchConfig {
            max_breeding_steps: self.max_steps,
            max_results: MAX_RESULTS,
            allow_wild_pals: self.allow_wild || self.progenitor_mode(),
        }
    }

    /// How plans that arrive are announced.
    pub open spec fn announcement(self, plans: Seq<PlanView>, announce: Notice) -> Seq<char> {
        match announce {
            Notice::Replan { label, saved_eggs } => if plans.len() > 0 {
                "re-planned \""@ + label + "\": best "@ + eggs_to_hundredths(
                    plans[0].expected_eggs as nat,
                ) + " eggs now (saved plan was "@ + eggs_to_hundredths(saved_eggs as nat) + ")"@
            } else {
                "re-planned \""@ + label
                    + "\": no plans with the current box (saved plan was "@ + eggs_to_hundredths(
                    saved_eggs as nat,
                ) + " eggs)"@
            },
            Notice::Standard => if plans.len() == 0 {
                if self.progenitor_mode() && (self.selected.len() > 0 || self.thresholds
                    != no_thresholds()) {
                    "no plans — progenitor pals carry no passives or IVs; drop those requirements or plan from the pool"@
                } else {
                    "no plans within "@ + decimal(self.max_steps as nat)
                        + " step(s) — raise the depth with → or check the pool"@
                }
            } else if self.progenitor_mode() {
                decimal(plans.len()) + " plan(s) from "@ + decimal(self.progenitors.len())
                    + " progenitor pal(s)"@
            } else {
                decimal(plans.len()) + " plan(s) found"@
            },
        }
    }

    /// The state after the answer to the latest question.
    pub open spec fn landed(self, focus_results: bool, announce: Notice, result: Found) -> AppState {
        match result {
            Found::Plans(plans) => AppState {
                activity: SearchActivity::Idle,
                status: self.announcement(plans, announce),
                plans,
                plan_cursor: 0,
                focus: if focus_results && plans.len() > 0 {
                    Pane::Results
                } else {
                    self.focus
                },
                ..self
            },
            Found::Refused(fault) => AppState {
                activity: SearchActivity::Idle,
                status: fault.text(),
                ..self
            },
        }
    }

    /// The state after an outcome arrives: anything but the latest
    /// generation is a superseded question and is discarded.
    pub open spec fn applied(self, outcome: OutcomeView) -> AppState {
        if outcome.generation != self.latest_gen {
            self
        } else {
            self.landed(outcome.focus_results, outcome.announce, outcome.result)
        }
    }

    /// The request for the live question.
    pub open spec fn request(self, focus_results: bool, announce: Notice) -> RequestView {
        RequestView {
            generation: self.latest_gen,
            pool: self.stock(),
            goal: self.goal(),
            config: self.settings(),
            focus_results,
            announce,
        }
    }

    /// The spinner's frame counter, zero when idle.
    pub open spec fn phase(self) -> usize {
        match self.activity {
            SearchActivity::Awaiting { spinner_tick } => spinner_tick,
            SearchActivity::Idle => 0,
        }
    }

    /// The state with a new generation.
    pub open spec fn next_generation(self) -> AppState {
        AppState { latest_gen: self.latest_gen.successor(), ..self }
    }

    /// The state after the live question is asked. A superseding request
    /// keeps the spinner's phase.
    pub open spec fn asked(self, solver: Solver, focus_results: bool, announce: Notice) -> AppState {
        if self.target is None {
            self.says("pick a target pal first (Enter in the Pals pane)"@)
        } else {
            let now = self.next_generation();
            match self.mode {
                SearchMode::Inline => now.landed(
                    focus_results,
                    announce,
                    found(solver, now.stock(), now.goal(), now.settings()),
                ),
                SearchMode::Deferred => AppState {
                    activity: SearchActivity::Awaiting { spinner_tick: now.phase() },
                    pending: Some(now.request(focus_results, announce)),
                    ..now
                },
            }
        }
    }

    /// The state after the parked request is dropped and whatever is
    /// still computing is invalidated.
    pub open spec fn cancelled(self) -> AppState {
        AppState { pending: None, activity: SearchActivity::Idle, ..self.next_generation() }
    }

    /// The state after the world changed under the question.
    pub open spec fn replanned(self, solver: Solver) -> AppState {
        if self.target is Some {
            self.asked(solver, false, Notice::Standard)
        } else {
            (AppState { plans: Seq::empty(), plan_cursor: 0, ..self }).cancelled()
        }
    }

    /// The state after the question changed, which also leaves the
    /// saved-plan view.
    pub open spec fn refreshed(self, solver: Solver) -> AppState {
        (AppState { viewing_saved: false, ..self }).replanned(solver)
    }
}

// ---------------------------------------------------------------------
// The question
// ---------------------------------------------------------------------
impl AppState {
    /// The state after a passive is toggled.
    pub open spec fn passive_toggled(
        self,
        solver: Solver,
        name: Seq<char>,
        display: Seq<char>,
    ) -> AppState {
        if self.selected.contains(name) {
            (AppState {
                selected: self.selected.remove(self.selected.index_of_first(name)->0),
                status: "dropped "@ + display,
                ..self
            }).refreshed(solver)
        } else if self.selected.len() == MAX_TOTAL_PASSIVES {
            self.says("a pal carries at most "@ + decimal(MAX_TOTAL_PASSIVES as nat) + " passives"@)
        } else {
            (AppState {
                selected: self.selected.push(name),
                status: "added "@ + display,
                ..self
            }).refreshed(solver)
        }
    }

    /// The state after the progenitor mark under the cursor is toggled.
    pub open spec fn progenitor_toggled(self, solver: Solver) -> AppState {
        let rows = self.pals_shown(solver.db());
        if self.focus != Pane::Pals || self.species_cursor >= rows.len() {
            self
        } else {
            let pal = rows[self.species_cursor as int];
            if self.progenitors.contains(pal.name@) {
                (AppState {
                    progenitors: self.progenitors.remove(
                        self.progenitors.index_of_first(pal.name@)->0,
                    ),
                    status: "progenitor removed: "@ + pal.display_name@,
                    ..self
                }).refreshed(solver)
            } else if self.progenitors.len() == MAX_PROGENITORS {
                self.says("at most "@ + decimal(MAX_PROGENITORS as nat) + " progenitors"@)
            } else {
                (AppState {
                    progenitors: self.progenitors.push(pal.name@),
                    status: "progenitor added: "@ + pal.display_name@
                        + " — plans will start from the "@ + decimal(self.progenitors.len() + 1)
                        + " marked pal(s) only"@,
                    ..self
                }).refreshed(solver)
            }
        }
    }

    /// The state after all progenitor marks are cleared.
    pub open spec fn progenitors_cleared(self, solver: Solver) -> AppState {
        if self.progenitors.len() == 0 {
            self.says("no progenitors marked"@)
        } else {
            (AppState {
                progenitors: Seq::empty(),
                status: "cleared "@ + decimal(self.progenitors.len()) + " progenitor(s)"@,
                ..self
            }).refreshed(solver)
        }
    }

    /// The state after a minimum is stepped. The status always tells the
    /// minimums.
    pub open spec fn threshold_stepped(self, solver: Solver, key: char) -> AppState {
        let stat = stat_of(key);
        let current = self.thresholds.minimum(stat);
        let next = stepped_threshold(current, raises(key));
        let now = AppState { thresholds: with_threshold(self.thresholds, stat, next), ..self };
        let after = if next != current {
            now.refreshed(solver)
        } else {
            now
        };
        after.says(
            "IV minimums — HP "@ + threshold_text(after.thresholds.hp) + " · Attack "@
                + threshold_text(after.thresholds.attack) + " · Defense "@ + threshold_text(
                after.thresholds.defense,
            ),
        )
    }

    /// The state after wild capture is toggled.
    pub open spec fn wild_toggled(self, solver: Solver) -> AppState {
        (AppState {
            allow_wild: !self.allow_wild,
            status: if !self.allow_wild {
                "wild pals: on — any catchable pal can join plans"@
            } else {
                "wild pals: off — plans use only the owned pool"@
            },
            ..self
        }).refreshed(solver)
    }

    /// The state after the search depth is changed, within its bounds.
    pub open spec fn depth_adjusted(self, solver: Solver, delta: int) -> AppState {
        let depth = clamped(
            self.max_steps + delta,
            MIN_BREEDING_STEPS as int,
            MAX_BREEDING_STEPS as int,
        );
        let now = AppState {
            max_steps: depth as usize,
            status: "search depth: up to "@ + decimal(depth as nat) + " breeding step(s)"@,
            ..self
        };
        if depth != self.max_steps {
            now.refreshed(solver)
        } else {
            now
        }
    }

    /// The state after the breeding question is reset: target, marks,
    /// and passives. IV floors and filter text stay.
    pub open spec fn goal_cleared(self, solver: Solver) -> AppState {
        if self.target is None && self.progenitors.len() == 0 && self.selected.len() == 0 {
            self.says("nothing selected to clear"@)
        } else {
            (AppState {
                target: None,
                progenitors: Seq::empty(),
                selected: Seq::empty(),
                ..self
            }).refreshed(solver).says("cleared: target, progenitors, and passives"@)
        }
    }

    /// The state after the cursor of the focused list moves.
    pub open spec fn cursor_moved(self, db: PalDb, delta: int) -> AppState {
        match self.focus {
            Pane::Pals => AppState {
                species_cursor: stepped(self.species_cursor, delta, self.pals_shown(db).len()),
                ..self
            },
            Pane::Passives => AppState {
                passive_cursor: stepped(self.passive_cursor, delta, self.skills_shown(db).len()),
                ..self
            },
            Pane::Results => if self.viewing_saved {
                AppState {
                    saved_cursor: stepped(self.saved_cursor, delta, self.saved.len()),
                    ..self
                }
            } else {
                AppState {
                    plan_cursor: stepped(self.plan_cursor, delta, self.plans.len()),
                    ..self
                }
            },
        }
    }
}

// ---------------------------------------------------------------------
// The library
// ---------------------------------------------------------------------
impl AppState {
    /// The library has the keyboard.
    pub open spec fn library_focused(self) -> bool {
        self.viewing_saved && self.focus == Pane::Results
    }

    /// The label of a plan to save.
    pub open spec fn label_of(self, db: PalDb, plan: PlanView) -> Seq<char> {
        let front = shown(db, self.target->0) + " — "@ + decimal(plan.steps as nat)
            + " step(s), "@ + eggs_to_hundredths(plan.expected_eggs as nat) + " eggs"@;
        if self.selected.len() == 0 {
            front
        } else {
            front + ", "@ + decimal(self.selected.len()) + " passive(s)"@
        }
    }

    /// The state after the highlighted plan goes into the library.
    pub open spec fn plan_saved(self, db: PalDb) -> Step {
        if self.viewing_saved {
            only(self.says("already viewing the library — Ctrl+L returns to live plans"@))
        } else if self.target is None || self.plan_cursor >= self.plans.len() {
            only(self.says("no plan highlighted to save"@))
        } else {
            let plan = self.plans[self.plan_cursor as int];
            let label = self.label_of(db, plan);
            let saved = SavedView {
                label,
                species: self.target->0,
                passives: self.selected,
                progenitors: self.progenitors,
                iv_thresholds: self.thresholds,
                expected_eggs: plan.expected_eggs,
                steps: plan.steps,
                tree: plan.tree,
            };
            Step {
                state: AppState { saved: self.saved.push(saved), ..self },
                chore: Some(ChoreView::WriteSaved { label }),
            }
        }
    }

    /// The state after the pane flips between live results and the
    /// library.
    pub open spec fn library_toggled(self) -> AppState {
        if self.viewing_saved {
            (AppState { viewing_saved: false, ..self }).says("live plans"@)
        } else {
            AppState {
                viewing_saved: true,
                focus: Pane::Results,
                saved_cursor: kept_in(self.saved_cursor, self.saved.len()),
                status: "library: "@ + decimal(self.saved.len()) + " saved plan(s) · "@
                    + self.saved_path,
                ..self
            }
        }
    }

    /// The state after the library is opened; it is never closed by
    /// this.
    pub open spec fn library_opened(self) -> AppState {
        if self.viewing_saved {
            self.says("already viewing the library"@)
        } else {
            self.library_toggled()
        }
    }

    /// The state after the highlighted saved plan is removed.
    pub open spec fn saved_removed(self) -> Step {
        if self.saved_cursor < self.saved.len() {
            Step {
                state: AppState { saved: self.saved.remove(self.saved_cursor as int), ..self },
                chore: Some(
                    ChoreView::WriteDeleted {
                        label: self.saved[self.saved_cursor as int].label,
                    },
                ),
            }
        } else {
            only(self.says("nothing to delete"@))
        }
    }

    /// The state after the typed delete command. Live plans are search
    /// results, so there is nothing to delete outside the library.
    pub open spec fn selected_deleted(self) -> Step {
        if self.viewing_saved {
            self.saved_removed()
        } else {
            only(self.says("no saved plan selected — :o opens the library"@))
        }
    }

    /// The state after delete in context: the highlighted saved plan
    /// when the library is open, otherwise all progenitor marks.
    pub open spec fn context_deleted(self, solver: Solver) -> Step {
        if self.viewing_saved {
            self.saved_removed()
        } else {
            only(self.progenitors_cleared(solver))
        }
    }

    /// The state after a library entry is loaded: the saved goal is
    /// restored and searched against the current pool.
    pub open spec fn saved_loaded(self, solver: Solver) -> AppState {
        if self.saved_cursor >= self.saved.len() {
            self
        } else {
            let saved = self.saved[self.saved_cursor as int];
            (AppState {
                target: Some(saved.species),
                selected: saved.passives,
                progenitors: saved.progenitors,
                thresholds: saved.iv_thresholds,
                viewing_saved: false,
                ..self
            }).asked(
                solver,
                true,
                Notice::Replan { label: saved.label, saved_eggs: saved.expected_eggs },
            )
        }
    }

    /// The state after the library file was written, or was not.
    pub open spec fn written(self, chore: ChoreView, failure: Option<Seq<char>>) -> AppState {
        match chore {
            ChoreView::WriteSaved { label } => match failure {
                None => self.says("saved: "@ + label),
                Some(error) => self.says("could not save plan: "@ + error),
            },
            ChoreView::WriteDeleted { label } => match failure {
                None => AppState {
                    saved_cursor: kept_in(self.saved_cursor, self.saved.len()),
                    status: "deleted: "@ + label,
                    ..self
                },
                Some(error) => self.says("could not delete plan: "@ + error),
            },
            ChoreView::Reload { path } => self,
        }
    }
}

// ---------------------------------------------------------------------
// The pool
// ---------------------------------------------------------------------
impl AppState {
    /// The state after a reload is asked for.
    pub open spec fn reload_asked(self) -> Step {
        match self.pool_path {
            Some(path) => Step { state: self, chore: Some(ChoreView::Reload { path }) },
            None => only(
                self.says("the pool did not come from a file — nothing to reload"@),
            ),
        }
    }

    /// The state after the pool file was loaded again, or was not. Any
    /// failure keeps the current pool; reloading refreshes the world,
    /// not the question, so the library view stays.
    pub open spec fn reloaded(
        self,
        solver: Solver,
        path: Seq<char>,
        loaded: Result<Loaded, PoolError>,
    ) -> AppState {
        match loaded {
            Ok(Loaded::Pool { owned, status }) => (AppState {
                owned: owned_views(owned@),
                ..self
            }).replanned(solver).says("reloaded: "@ + status@),
            Ok(Loaded::Missing) => self.says(path + " not found — keeping the current pool"@),
            Err(error) => self.says(
                "reload failed: "@ + error.text() + " — keeping the current pool"@,
            ),
        }
    }
}

// ---------------------------------------------------------------------
// Inputs
// ---------------------------------------------------------------------
impl AppState {
    /// The state after the row under the cursor is confirmed.
    pub open spec fn confirmed(self, solver: Solver) -> AppState {
        match self.focus {
            Pane::Pals => {
                let rows = self.pals_shown(solver.db());
                if self.species_cursor < rows.len() {
                    let pal = rows[self.species_cursor as int];
                    (AppState {
                        target: Some(pal.name@),
                        status: "target: "@ + pal.display_name@,
                        ..self
                    }).refreshed(solver)
                } else {
                    self
                }
            },
            Pane::Passives => {
                let rows = self.skills_shown(solver.db());
                if self.passive_cursor < rows.len() {
                    let skill = rows[self.passive_cursor as int];
                    self.passive_toggled(solver, skill.name@, skill.display_name@)
                } else {
                    self
                }
            },
            Pane::Results => if self.viewing_saved {
                self.saved_loaded(solver)
            } else {
                self.asked(solver, true, Notice::Standard)
            },
        }
    }

    /// The height of a document.
    pub open spec fn doc_lines(self, doc: Doc) -> u16 {
        match doc {
            Doc::Help => self.help_lines,
            Doc::Readme => self.readme_lines,
        }
    }

    /// The state with another layer on top.
    pub open spec fn under(self, layer: Layer) -> AppState {
        AppState { layer, ..self }
    }

    /// The state after a prompt line is entered. An empty line closes
    /// silently.
    pub open spec fn commanded(self, solver: Solver, input: Seq<char>) -> Step {
        let word = trimmed(input);
        if word.len() == 0 {
            only(self)
        } else {
            match command_named(word) {
                Some(Command::Open(doc)) => only(
                    self.under(
                        Layer::Doc(DocView { doc, scroll: 0, line_count: self.doc_lines(doc) }),
                    ),
                ),
                Some(Command::SavePlan) => self.plan_saved(solver.db()),
                Some(Command::OpenLibrary) => only(self.library_opened()),
                Some(Command::DeletePlan) => self.selected_deleted(),
                Some(Command::ClearGoal) => only(self.goal_cleared(solver)),
                Some(Command::ReloadPool) => self.reload_asked(),
                Some(Command::Quit) => only(AppState { should_quit: true, ..self }),
                None => only(self.says("unknown command: "@ + word + " — try :help"@)),
            }
        }
    }

    /// The state after a key in the prompt, which holds `buffer`.
    pub open spec fn prompt_pressed(self, solver: Solver, buffer: Seq<char>, key: KeyEvent) -> Step {
        match key.code {
            KeyCode::Esc => only(self.under(Layer::Closed)),
            KeyCode::Enter => self.under(Layer::Closed).commanded(solver, buffer),
            KeyCode::Backspace => if buffer.len() == 0 {
                only(self.under(Layer::Closed))
            } else {
                only(self.under(Layer::Prompt(buffer.drop_last())))
            },
            KeyCode::Char(c) => if key.control {
                only(self)
            } else {
                only(self.under(Layer::Prompt(buffer.push(c))))
            },
            _ => only(self),
        }
    }

    /// The state after a key in the viewer.
    pub open spec fn doc_pressed(self, view: DocView, key: KeyEvent) -> AppState {
        match key.code {
            KeyCode::Esc => self.under(Layer::Closed),
            KeyCode::Up => self.under(Layer::Doc(view.scrolled(-1))),
            KeyCode::Down => self.under(Layer::Doc(view.scrolled(1))),
            KeyCode::PageUp => self.under(Layer::Doc(view.paged(-1))),
            KeyCode::PageDown => self.under(Layer::Doc(view.paged(1))),
            KeyCode::Home => self.under(Layer::Doc(view.scrolled_to(0))),
            KeyCode::End => self.under(Layer::Doc(view.scrolled_to(view.bottom()))),
            KeyCode::Char(c) => if c == 'q' || c == 'Q' {
                self.under(Layer::Closed)
            } else if c == ':' {
                self.under(Layer::Prompt(Seq::empty()))
            } else {
                self
            },
            _ => self,
        }
    }

    /// The state after a character goes into the focused filter.
    pub open spec fn typed(self, c: char) -> AppState {
        match self.focus {
            Pane::Pals => AppState {
                species_filter: self.species_filter.push(c),
                species_cursor: 0,
                ..self
            },
            Pane::Passives => AppState {
                passive_filter: self.passive_filter.push(c),
                passive_cursor: 0,
                ..self
            },
            Pane::Results => self,
        }
    }

    /// The state after the last character leaves the focused filter.
    pub open spec fn erased(self) -> AppState {
        match self.focus {
            Pane::Pals => AppState {
                species_filter: without_last(self.species_filter),
                species_cursor: 0,
                ..self
            },
            Pane::Passives => AppState {
                passive_filter: without_last(self.passive_filter),
                passive_cursor: 0,
                ..self
            },
            Pane::Results => self,
        }
    }

    /// The state after a character key in the panes.
    pub open spec fn letter_pressed(self, solver: Solver, c: char, control: bool) -> Step {
        if control && (c == 'd' || c == 'D') {
            self.context_deleted(solver)
        } else if control && (c == 's' || c == 'S') {
            self.plan_saved(solver.db())
        } else if control && (c == 'l' || c == 'L') {
            only(self.library_toggled())
        } else if c == 'x' && self.library_focused() && !control {
            self.saved_removed()
        } else if (c == 'h' || c == 'H' || c == 'a' || c == 'A' || c == 'd' || c == 'D')
            && self.focus == Pane::Results && !control {
            only(self.threshold_stepped(solver, c))
        } else if c == ':' {
            only(self.under(Layer::Prompt(Seq::empty())))
        } else if control {
            only(self)
        } else {
            only(self.typed(c))
        }
    }

    /// The state after a function key in the panes.
    pub open spec fn function_pressed(self, solver: Solver, n: u8) -> Step {
        if n == 2 {
            only(self.wild_toggled(solver))
        } else if n == 4 {
            only(self.progenitor_toggled(solver))
        } else if n == 5 {
            only(self.asked(solver, true, Notice::Standard))
        } else if n == 6 {
            self.reload_asked()
        } else if n == 8 {
            self.plan_saved(solver.db())
        } else if n == 9 {
            only(self.library_toggled())
        } else {
            only(self)
        }
    }

    /// The state after a key in the panes.
    pub open spec fn pane_pressed(self, solver: Solver, key: KeyEvent) -> Step {
        match key.code {
            KeyCode::Esc => only(AppState { should_quit: true, ..self }),
            KeyCode::Tab => only(AppState { focus: pane_after(self.focus), ..self }),
            KeyCode::BackTab => only(
                AppState { focus: pane_after(pane_after(self.focus)), ..self },
            ),
            KeyCode::Up => only(self.cursor_moved(solver.db(), -1)),
            KeyCode::Down => only(self.cursor_moved(solver.db(), 1)),
            KeyCode::Left => only(self.depth_adjusted(solver, -1)),
            KeyCode::Right => only(self.depth_adjusted(solver, 1)),
            KeyCode::Enter => only(self.confirmed(solver)),
            KeyCode::F(n) => self.function_pressed(solver, n),
            KeyCode::Delete => self.context_deleted(solver),
            KeyCode::Backspace => if self.library_focused() {
                self.saved_removed()
            } else {
                only(self.erased())
            },
            KeyCode::Char(c) => self.letter_pressed(solver, c, key.control),
            _ => only(self),
        }
    }

    /// Filters, IV floors and the quit flag are as they were.
    pub open spec fn keeps_inputs(self, before: AppState) -> bool {
        &&& self.species_filter == before.species_filter
        &&& self.passive_filter == before.passive_filter
        &&& self.thresholds == before.thresholds
        &&& self.should_quit == before.should_quit
    }

    /// The state after a key: whichever layer is open owns the keyboard.
    pub open spec fn pressed(self, solver: Solver, key: KeyEvent) -> Step {
        match self.layer {
            Layer::Closed => self.pane_pressed(solver, key),
            Layer::Prompt(buffer) => self.prompt_pressed(solver, buffer, key),
            Layer::Doc(view) => only(self.doc_pressed(view, key)),
        }
    }

    /// The state after a click: it focuses the pane, and acts on the row
    /// it hits. An open layer owns the screen, so clicks stop at it.
    pub open spec fn clicked(self, solver: Solver, click: Click, shift: bool) -> AppState {
        if !(self.layer is Closed) {
            self
        } else {
            let now = AppState { focus: click.pane, ..self };
            match click.row {
                None => now,
                Some(index) => match click.pane {
                    Pane::Pals => if index < now.pals_shown(solver.db()).len() {
                        let at = AppState { species_cursor: index, ..now };
                        if shift {
                            at.progenitor_toggled(solver)
                        } else {
                            at.confirmed(solver)
                        }
                    } else {
                        now
                    },
                    Pane::Passives => if index < now.skills_shown(solver.db()).len() {
                        (AppState { passive_cursor: index, ..now }).confirmed(solver)
                    } else {
                        now
                    },
                    Pane::Results => if now.viewing_saved {
                        if index < now.saved.len() {
                            AppState { saved_cursor: index, ..now }
                        } else {
                            now
                        }
                    } else if index < now.plans.len() {
                        AppState { plan_cursor: index, ..now }
                    } else {
                        now
                    },
                },
            }
        }
    }

    /// The state after the mouse wheel: it scrolls an open document and
    /// means nothing anywhere else.
    pub open spec fn wheeled(self, delta: int) -> AppState {
        match self.layer {
            Layer::Doc(view) => self.under(Layer::Doc(view.scrolled(delta))),
            _ => self,
        }
    }

    /// The state after a timer tick, which animates the spinner while a
    /// search runs.
    pub open spec fn ticked(self) -> AppState {
        match self.activity {
            SearchActivity::Awaiting { spinner_tick } => AppState {
                activity: SearchActivity::Awaiting {
                    spinner_tick: if spinner_tick == usize::MAX {
                        0
                    } else {
                        (spinner_tick + 1) as usize
                    },
                },
                ..self
            },
            SearchActivity::Idle => self,
        }
    }
}

} // verus!
