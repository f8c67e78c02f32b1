//! What holds of the application as a whole.

use vstd::prelude::*;

use crate::model::iv_of;
use crate::model::IvValue;
use crate::model::PalDb;
use crate::passives::MAX_TOTAL_PASSIVES;
use crate::pool::load::Loaded;
use crate::pool::load::PoolError;
use crate::search::plan::PlanTree;
use crate::search::plan::MAX_PROGENITORS;
use crate::search::solver::Solver;
use crate::tui::state::found;
use crate::tui::state::known_pals;
use crate::tui::state::known_skills;
use crate::tui::state::only;
use crate::tui::state::pal_rows;
use crate::tui::state::skill_rows;
use crate::tui::state::stepped_threshold;
use crate::tui::state::AppState;
use crate::tui::state::Click;
use crate::tui::state::Found;
use crate::tui::state::KeyCode;
use crate::tui::state::KeyEvent;
use crate::tui::state::Layer;
use crate::tui::state::Notice;
use crate::tui::state::OutcomeView;
use crate::tui::state::Pane;
use crate::tui::state::MAX_BREEDING_STEPS;
use crate::tui::state::MIN_BREEDING_STEPS;
use crate::tui::store::SavedView;
use crate::tui::view::node_line;
use crate::tui::view::tree_lines;
use crate::tui::view::Branch;

verus! {

// ---------------------------------------------------------------------
// Searches
// ---------------------------------------------------------------------
/// Two states ask the same question in the same world.
pub open spec fn same_question(a: AppState, b: AppState) -> bool {
    &&& a.owned == b.owned
    &&& a.pool_path == b.pool_path
    &&& a.target == b.target
    &&& a.progenitors == b.progenitors
    &&& a.selected == b.selected
    &&& a.thresholds == b.thresholds
    &&& a.max_steps == b.max_steps
    &&& a.allow_wild == b.allow_wild
    &&& a.species_filter == b.species_filter
    &&& a.passive_filter == b.passive_filter
    &&& a.saved == b.saved
    &&& a.saved_path == b.saved_path
    &&& a.layer == b.layer
    &&& a.should_quit == b.should_quit
    &&& a.mode == b.mode
}

/// Asking a question, replanning it and refreshing it change neither the
/// question nor the world.
pub proof fn law_searching_keeps_the_question(
    s: AppState,
    solver: Solver,
    focus_results: bool,
    announce: Notice,
)
    ensures
        same_question(s.asked(solver, focus_results, announce), s),
        same_question(s.replanned(solver), s),
        same_question(s.refreshed(solver), s),
{
}

/// Plans are never stale: after every change of the question the plans
/// shown are the answer to it, or the answer is on its way.
pub proof fn law_a_changed_question_is_answered(s: AppState, solver: Solver)
    ensures
        ({
            let after = s.refreshed(solver);
            &&& s.target is None ==> after.plans.len() == 0 && after.pending is None
                && after.activity is Idle
            &&& s.target is Some && s.mode is Inline ==> match found(
                solver,
                s.stock(),
                s.goal(),
                s.settings(),
            ) {
                Found::Plans(plans) => after.plans == plans && after.plan_cursor == 0,
                Found::Refused(fault) => after.status == fault.text(),
            }
            &&& s.target is Some && s.mode is Deferred ==> (after.pending matches Some(request)
                && request.goal == s.goal() && request.pool == s.stock() && request.config
                == s.settings() && request.generation == after.latest_gen && after.activity
                is Awaiting)
        }),
{
}

/// A newer question supersedes the one that is still computing: its
/// outcome is discarded on arrival.
pub proof fn law_superseded_outcomes_are_discarded(
    s: AppState,
    solver: Solver,
    focus_results: bool,
    announce: Notice,
    outcome: OutcomeView,
)
    requires
        s.target is Some,
        s.mode is Deferred,
        outcome.generation == s.latest_gen,
    ensures
        ({
            let newer = s.asked(solver, focus_results, announce);
            newer.applied(outcome) == newer
        }),
        s.cancelled().applied(outcome) == s.cancelled(),
{
}

/// The outcome of the latest request lands, and the spinner stops.
pub proof fn law_the_latest_outcome_lands(s: AppState, outcome: OutcomeView)
    requires
        outcome.generation == s.latest_gen,
    ensures
        s.applied(outcome).activity is Idle,
        outcome.result matches Found::Plans(plans) ==> s.applied(outcome).plans == plans,
{
}

/// An idle application has no spinner to animate.
pub proof fn law_idle_apps_do_not_tick(s: AppState)
    requires
        s.activity is Idle,
    ensures
        s.ticked() == s,
{
}

// ---------------------------------------------------------------------
// Bounds
// ---------------------------------------------------------------------
/// A saved plan asks for no more than a search takes.
pub open spec fn saved_in_bounds(saved: SavedView) -> bool {
    saved.passives.len() <= MAX_TOTAL_PASSIVES && saved.progenitors.len() <= MAX_PROGENITORS
}

/// The question stays within what a search takes.
pub open spec fn in_bounds(s: AppState) -> bool {
    &&& s.selected.len() <= MAX_TOTAL_PASSIVES
    &&& s.progenitors.len() <= MAX_PROGENITORS
    &&& MIN_BREEDING_STEPS <= s.max_steps <= MAX_BREEDING_STEPS
    &&& forall|i: int| 0 <= i < s.saved.len() ==> saved_in_bounds(#[trigger] s.saved[i])
}

proof fn lemma_same_bounds(a: AppState, b: AppState)
    requires
        in_bounds(a),
        b.selected == a.selected,
        b.progenitors == a.progenitors,
        b.max_steps == a.max_steps,
        b.saved == a.saved,
    ensures
        in_bounds(b),
{
}

proof fn lemma_confirmed_in_bounds(s: AppState, solver: Solver)
    requires
        in_bounds(s),
    ensures
        in_bounds(s.confirmed(solver)),
{
    match s.focus {
        Pane::Pals => {},
        Pane::Passives => {
            let rows = s.skills_shown(solver.db());
            if s.passive_cursor < rows.len() {
                let name = rows[s.passive_cursor as int].name@;
                s.selected.index_of_first_ensures(name);
            }
        },
        Pane::Results => {
            if s.viewing_saved && s.saved_cursor < s.saved.len() {
                assert(saved_in_bounds(s.saved[s.saved_cursor as int]));
            }
        },
    }
}

proof fn lemma_marked_in_bounds(s: AppState, solver: Solver)
    requires
        in_bounds(s),
    ensures
        in_bounds(s.progenitor_toggled(solver)),
{
    let rows = s.pals_shown(solver.db());
    if s.focus == Pane::Pals && s.species_cursor < rows.len() {
        let name = rows[s.species_cursor as int].name@;
        s.progenitors.index_of_first_ensures(name);
    }
}

proof fn lemma_library_in_bounds(s: AppState, db: PalDb)
    requires
        in_bounds(s),
    ensures
        in_bounds(s.plan_saved(db).state),
        in_bounds(s.saved_removed().state),
{
    let kept = s.plan_saved(db).state;
    assert forall|i: int| 0 <= i < kept.saved.len() implies saved_in_bounds(
        #[trigger] kept.saved[i],
    ) by {
        if i < s.saved.len() {
            assert(kept.saved[i] == s.saved[i]);
        }
    }
    let left = s.saved_removed().state;
    assert forall|i: int| 0 <= i < left.saved.len() implies saved_in_bounds(
        #[trigger] left.saved[i],
    ) by {
        if s.saved_cursor < s.saved.len() {
            if i < s.saved_cursor {
                assert(left.saved[i] == s.saved[i]);
            } else {
                assert(left.saved[i] == s.saved[i + 1]);
            }
        }
    }
}

proof fn lemma_commanded_in_bounds(s: AppState, solver: Solver, input: Seq<char>)
    requires
        in_bounds(s),
    ensures
        in_bounds(s.commanded(solver, input).state),
{
    lemma_library_in_bounds(s, solver.db());
}

proof fn lemma_stepped_in_bounds(s: AppState, solver: Solver, key: char)
    requires
        in_bounds(s),
    ensures
        in_bounds(s.threshold_stepped(solver, key)),
{
    lemma_same_bounds(s, s.threshold_stepped(solver, key));
}

proof fn lemma_cleared_in_bounds(s: AppState, solver: Solver)
    requires
        in_bounds(s),
    ensures
        in_bounds(s.progenitors_cleared(solver)),
        in_bounds(s.context_deleted(solver).state),
{
    lemma_library_in_bounds(s, solver.db());
}

proof fn lemma_letter_in_bounds(s: AppState, solver: Solver, c: char, control: bool)
    requires
        in_bounds(s),
    ensures
        in_bounds(s.letter_pressed(solver, c, control).state),
{
    lemma_library_in_bounds(s, solver.db());
    lemma_cleared_in_bounds(s, solver);
    lemma_stepped_in_bounds(s, solver, c);
    lemma_same_bounds(s, s.typed(c));
    lemma_same_bounds(s, s.library_toggled());
}

proof fn lemma_function_in_bounds(s: AppState, solver: Solver, n: u8)
    requires
        in_bounds(s),
    ensures
        in_bounds(s.function_pressed(solver, n).state),
{
    lemma_library_in_bounds(s, solver.db());
    lemma_marked_in_bounds(s, solver);
    lemma_same_bounds(s, s.wild_toggled(solver));
    lemma_same_bounds(s, s.asked(solver, true, Notice::Standard));
    lemma_same_bounds(s, s.library_toggled());
    lemma_same_bounds(s, s.reload_asked().state);
}

proof fn lemma_depth_in_bounds(s: AppState, solver: Solver, delta: int)
    requires
        in_bounds(s),
    ensures
        in_bounds(s.depth_adjusted(solver, delta)),
{
}

proof fn lemma_pane_key_in_bounds(s: AppState, solver: Solver, key: KeyEvent)
    requires
        in_bounds(s),
    ensures
        in_bounds(s.pane_pressed(solver, key).state),
{
    match key.code {
        KeyCode::F(n) => {
            lemma_function_in_bounds(s, solver, n);
        },
        KeyCode::Char(c) => {
            lemma_letter_in_bounds(s, solver, c, key.control);
        },
        KeyCode::Left => {
            lemma_depth_in_bounds(s, solver, -1);
        },
        KeyCode::Right => {
            lemma_depth_in_bounds(s, solver, 1);
        },
        KeyCode::Enter => {
            lemma_confirmed_in_bounds(s, solver);
        },
        KeyCode::Delete => {
            lemma_cleared_in_bounds(s, solver);
        },
        KeyCode::Backspace => {
            lemma_library_in_bounds(s, solver.db());
            lemma_same_bounds(s, s.erased());
        },
        KeyCode::Up => {
            lemma_same_bounds(s, s.cursor_moved(solver.db(), -1));
        },
        KeyCode::Down => {
            lemma_same_bounds(s, s.cursor_moved(solver.db(), 1));
        },
        _ => {
            lemma_same_bounds(s, s.pane_pressed(solver, key).state);
        },
    }
}

/// No key takes the question out of its bounds: at most four passives,
/// at most eight progenitors, a depth between one and twenty-four.
pub proof fn law_keys_keep_the_question_in_bounds(s: AppState, solver: Solver, key: KeyEvent)
    requires
        in_bounds(s),
    ensures
        in_bounds(s.pressed(solver, key).state),
{
    match s.layer {
        Layer::Closed => {
            lemma_pane_key_in_bounds(s, solver, key);
        },
        Layer::Prompt(buffer) => {
            let closed = s.under(Layer::Closed);
            lemma_same_bounds(s, closed);
            lemma_commanded_in_bounds(closed, solver, buffer);
        },
        Layer::Doc(view) => {},
    }
}

/// No click takes the question out of its bounds.
pub proof fn law_clicks_keep_the_question_in_bounds(
    s: AppState,
    solver: Solver,
    click: Click,
    shift: bool,
)
    requires
        in_bounds(s),
    ensures
        in_bounds(s.clicked(solver, click, shift)),
{
    let now = AppState { focus: click.pane, ..s };
    if let Some(index) = click.row {
        let pal = AppState { species_cursor: index, ..now };
        let skill = AppState { passive_cursor: index, ..now };
        lemma_same_bounds(s, pal);
        lemma_same_bounds(s, skill);
        lemma_confirmed_in_bounds(pal, solver);
        lemma_marked_in_bounds(pal, solver);
        lemma_confirmed_in_bounds(skill, solver);
    }
}

// ---------------------------------------------------------------------
// Layers
// ---------------------------------------------------------------------
proof fn lemma_prompt_key(s: AppState, solver: Solver, buffer: Seq<char>, key: KeyEvent)
    requires
        !(key.code is Enter),
        s.layer == Layer::Prompt(buffer),
    ensures
        s.prompt_pressed(solver, buffer, key).chore is None,
        s.prompt_pressed(solver, buffer, key).state == s.under(
            s.prompt_pressed(solver, buffer, key).state.layer,
        ),
{
    assert(s.under(s.layer) =~= s);
}

proof fn lemma_doc_key(s: AppState, view: crate::tui::command::DocView, key: KeyEvent)
    requires
        s.layer == Layer::Doc(view),
    ensures
        s.doc_pressed(view, key) == s.under(s.doc_pressed(view, key).layer),
{
    assert(s.under(s.layer) =~= s);
}

proof fn lemma_control_letter(s: AppState, solver: Solver, c: char)
    ensures
        s.pane_pressed(solver, KeyEvent { code: KeyCode::Char(c), control: true }).state.keeps_inputs(
            s,
        ),
{
}

/// A letter held with Ctrl never leaks into a filter, never moves an IV
/// floor and never quits, whatever layer is open.
pub proof fn law_control_letters_do_not_leak(s: AppState, solver: Solver, c: char)
    ensures
        ({
            let key = KeyEvent { code: KeyCode::Char(c), control: true };
            &&& s.pane_pressed(solver, key).state.keeps_inputs(s)
            &&& s.pressed(solver, key).state.keeps_inputs(s)
        }),
{
    let key = KeyEvent { code: KeyCode::Char(c), control: true };
    lemma_control_letter(s, solver, c);
    match s.layer {
        Layer::Closed => {},
        Layer::Prompt(buffer) => {
            lemma_prompt_key(s, solver, buffer, key);
        },
        Layer::Doc(view) => {
            lemma_doc_key(s, view, key);
        },
    }
}

/// An open layer owns the keyboard: unless a command is entered, a key
/// changes nothing but the layer, and leaves no work.
pub proof fn law_layers_own_the_keyboard(s: AppState, solver: Solver, key: KeyEvent)
    requires
        !(s.layer is Closed),
        s.layer is Prompt ==> !(key.code is Enter),
    ensures
        s.pressed(solver, key).chore is None,
        s.pressed(solver, key).state == s.under(s.pressed(solver, key).state.layer),
{
    match s.layer {
        Layer::Closed => {},
        Layer::Prompt(buffer) => {
            lemma_prompt_key(s, solver, buffer, key);
        },
        Layer::Doc(view) => {
            lemma_doc_key(s, view, key);
        },
    }
}

/// Escape closes an open layer first, and quits only when there is none.
pub proof fn law_escape_closes_before_it_quits(s: AppState, solver: Solver, control: bool)
    ensures
        ({
            let step = s.pressed(solver, (KeyEvent { code: KeyCode::Esc, control }));
            if s.layer is Closed {
                step == only((AppState { should_quit: true, ..s }))
            } else {
                step == only(s.under(Layer::Closed))
            }
        }),
{
}

/// An open layer owns the screen: clicks stop at it.
pub proof fn law_clicks_stop_at_a_layer(s: AppState, solver: Solver, click: Click, shift: bool)
    requires
        !(s.layer is Closed),
    ensures
        s.clicked(solver, click, shift) == s,
{
}

/// The wheel means nothing outside the viewer.
pub proof fn law_the_wheel_only_scrolls_documents(s: AppState, delta: int)
    ensures
        !(s.layer is Doc) ==> s.wheeled(delta) == s,
        s.wheeled(delta) == s.under(s.wheeled(delta).layer),
{
    assert(s.wheeled(delta) =~= s.under(s.wheeled(delta).layer));
}

/// Erasing undoes typing.
pub proof fn law_erasing_undoes_typing(s: AppState, c: char)
    ensures
        s.typed(c).erased().species_filter == s.species_filter,
        s.typed(c).erased().passive_filter == s.passive_filter,
{
    assert(s.species_filter.push(c).drop_last() =~= s.species_filter);
    assert(s.passive_filter.push(c).drop_last() =~= s.passive_filter);
}

// ---------------------------------------------------------------------
// The question
// ---------------------------------------------------------------------
/// Toggling a passive twice leaves the selection as it was, unless the
/// selection is full.
pub proof fn law_toggling_a_passive_twice_undoes_it(
    s: AppState,
    solver: Solver,
    name: Seq<char>,
    display: Seq<char>,
)
    requires
        !s.selected.contains(name),
        s.selected.len() < MAX_TOTAL_PASSIVES,
    ensures
        s.passive_toggled(solver, name, display).selected == s.selected.push(name),
        s.passive_toggled(solver, name, display).passive_toggled(
            solver,
            name,
            display,
        ).selected == s.selected,
{
    let once = s.passive_toggled(solver, name, display);
    assert(once.selected[s.selected.len() as int] == name);
    assert(once.selected.contains(name));
    once.selected.index_of_first_ensures(name);
    let at = once.selected.index_of_first(name)->0;
    assert(at == s.selected.len()) by {
        if at < s.selected.len() {
            assert(s.selected[at] == name);
        }
    }
    assert(once.selected.remove(at) =~= s.selected);
}

/// A full selection stays as it is until something is dropped.
pub proof fn law_a_full_selection_refuses_more(
    s: AppState,
    solver: Solver,
    name: Seq<char>,
    display: Seq<char>,
)
    requires
        !s.selected.contains(name),
        s.selected.len() == MAX_TOTAL_PASSIVES,
    ensures
        s.passive_toggled(solver, name, display) == s.says(
            s.passive_toggled(solver, name, display).status,
        ),
{
    assert(s.passive_toggled(solver, name, display) =~= s.says(
        s.passive_toggled(solver, name, display).status,
    ));
}

/// Clearing the question drops the target, the marks and the passives,
/// and keeps the filters and the IV floors.
pub proof fn law_clearing_keeps_filters_and_floors(s: AppState, solver: Solver)
    ensures
        ({
            let after = s.goal_cleared(solver);
            &&& after.target is None && after.progenitors.len() == 0 && after.selected.len() == 0
            &&& after.species_filter == s.species_filter
            &&& after.passive_filter == s.passive_filter
            &&& after.thresholds == s.thresholds
            &&& after.owned == s.owned
            &&& after.saved == s.saved
        }),
{
}

/// Stepping a minimum up and down again gives it back, below the
/// ceiling.
pub proof fn law_stepping_down_undoes_stepping_up(tens: u8)
    requires
        tens < 10,
    ensures
        ({
            let start: Option<IvValue> = if tens == 0 {
                None
            } else {
                Some(iv_of((tens * 10) as u8))
            };
            stepped_threshold(stepped_threshold(start, true), false) == start
        }),
{
    broadcast use {crate::model::lemma_iv_of, crate::model::lemma_iv_of_view};

}

/// A minimum never leaves the scale.
pub proof fn law_minimums_stay_on_the_scale(current: Option<IvValue>, up: bool)
    ensures
        stepped_threshold(current, up) matches Some(v) ==> 10 <= v@ <= 100,
{
    broadcast use crate::model::lemma_iv_of_view;

}

// ---------------------------------------------------------------------
// Rows
// ---------------------------------------------------------------------
proof fn lemma_known_pals(db: PalDb, names: Seq<Seq<char>>, i: int)
    requires
        0 <= i < names.len(),
        db.knows(names[i]),
    ensures
        exists|k: int|
            0 <= k < known_pals(db, names).len() && (#[trigger] known_pals(db, names)[k]).name@
                == names[i],
    decreases names.len(),
{
    crate::model::lemma_pal_position(db.all(), names[i]);
    let list = known_pals(db, names);
    let rest = known_pals(db, names.drop_last());
    if i == names.len() - 1 {
        assert(list[rest.len() as int].name@ == names[i]);
    } else {
        lemma_known_pals(db, names.drop_last(), i);
        assert(names.drop_last()[i] == names[i]);
        let k = choose|k: int| 0 <= k < rest.len() && (#[trigger] rest[k]).name@ == names[i];
        assert(list[k] == rest[k]);
    }
}

/// A marked progenitor is always among the rows, whatever the filter, so
/// it stays one keypress from unmarking.
pub proof fn law_marked_pals_are_always_shown(
    db: PalDb,
    marked: Seq<Seq<char>>,
    filter: Seq<char>,
    i: int,
)
    requires
        0 <= i < marked.len(),
        db.knows(marked[i]),
    ensures
        exists|k: int|
            0 <= k < pal_rows(db, marked, filter).len() && (#[trigger] pal_rows(
                db,
                marked,
                filter,
            )[k]).name@ == marked[i],
{
    lemma_known_pals(db, marked, i);
    let pinned = known_pals(db, marked);
    let k = choose|k: int| 0 <= k < pinned.len() && (#[trigger] pinned[k]).name@ == marked[i];
    assert(pal_rows(db, marked, filter)[k] == pinned[k]);
}

proof fn lemma_known_skills(db: PalDb, names: Seq<Seq<char>>, i: int)
    requires
        0 <= i < names.len(),
        db.lookup_skill(names[i]) is Some,
    ensures
        exists|k: int|
            0 <= k < known_skills(db, names).len() && (#[trigger] known_skills(db, names)[k]).name@
                == names[i],
    decreases names.len(),
{
    crate::model::lemma_skill_position(db.skills(), names[i]);
    let list = known_skills(db, names);
    let rest = known_skills(db, names.drop_last());
    if i == names.len() - 1 {
        assert(list[rest.len() as int].name@ == names[i]);
    } else {
        lemma_known_skills(db, names.drop_last(), i);
        assert(names.drop_last()[i] == names[i]);
        let k = choose|k: int| 0 <= k < rest.len() && (#[trigger] rest[k]).name@ == names[i];
        assert(list[k] == rest[k]);
    }
}

/// A selected passive is always among the rows, whatever the filter.
pub proof fn law_selected_passives_are_always_shown(
    db: PalDb,
    selected: Seq<Seq<char>>,
    filter: Seq<char>,
    i: int,
)
    requires
        0 <= i < selected.len(),
        db.lookup_skill(selected[i]) is Some,
    ensures
        exists|k: int|
            0 <= k < skill_rows(db, selected, filter).len() && (#[trigger] skill_rows(
                db,
                selected,
                filter,
            )[k]).name@ == selected[i],
{
    lemma_known_skills(db, selected, i);
    let pinned = known_skills(db, selected);
    let k = choose|k: int| 0 <= k < pinned.len() && (#[trigger] pinned[k]).name@ == selected[i];
    assert(skill_rows(db, selected, filter)[k] == pinned[k]);
}

// ---------------------------------------------------------------------
// The library
// ---------------------------------------------------------------------
/// Loading a plan that was saved restores the goal it was saved for,
/// whatever the live question has become, and leaves the library as it
/// is.
pub proof fn law_loading_restores_the_saved_goal(
    s: AppState,
    solver: Solver,
    later: AppState,
)
    requires
        s.plan_saved(solver.db()).chore is Some,
        later.saved == s.plan_saved(solver.db()).state.saved,
        later.saved_cursor == s.saved.len(),
    ensures
        ({
            let after = later.saved_loaded(solver);
            &&& after.target == s.target
            &&& after.selected == s.selected
            &&& after.progenitors == s.progenitors
            &&& after.thresholds == s.thresholds
            &&& after.saved == later.saved
            &&& !after.viewing_saved
        }),
{
}

/// Toggling the library twice returns to the live plans.
pub proof fn law_toggling_the_library_twice_returns(s: AppState)
    ensures
        s.library_toggled().library_toggled().viewing_saved == s.viewing_saved,
        s.library_toggled().saved == s.saved,
{
}

/// Opening the library never closes it.
pub proof fn law_opening_the_library_never_closes_it(s: AppState)
    ensures
        s.library_opened().viewing_saved,
        s.library_opened().library_opened().viewing_saved,
{
}

/// Changing the question leaves the library view.
pub proof fn law_a_changed_question_leaves_the_library(s: AppState, solver: Solver)
    ensures
        !s.wild_toggled(solver).viewing_saved,
        !s.refreshed(solver).viewing_saved,
{
}

/// Reloading keeps the question and the view, and a failed reload keeps
/// the pool.
pub proof fn law_reloading_keeps_the_question(
    s: AppState,
    solver: Solver,
    path: Seq<char>,
    loaded: Result<Loaded, PoolError>,
)
    ensures
        ({
            let after = s.reloaded(solver, path, loaded);
            &&& after.target == s.target
            &&& after.selected == s.selected
            &&& after.progenitors == s.progenitors
            &&& after.thresholds == s.thresholds
            &&& after.viewing_saved == s.viewing_saved
            &&& !(loaded matches Ok(Loaded::Pool { owned, status })) ==> after.owned == s.owned
                && after.plans == s.plans
        }),
{
}

// ---------------------------------------------------------------------
// Trees
// ---------------------------------------------------------------------
/// A family tree has a line for every pal of the plan: each breeding
/// step and each leaf.
pub proof fn law_trees_show_every_pal(
    db: PalDb,
    tree: PlanTree,
    show_ivs: bool,
    prefix: Seq<char>,
    branch: Branch,
)
    ensures
        tree_lines(db, tree, show_ivs, prefix, branch).len() == 2 * tree.steps() + 1,
        tree_lines(db, tree, show_ivs, prefix, branch)[0] == node_line(
            db,
            tree,
            show_ivs,
            prefix,
            branch,
        ),
    decreases tree,
{
    match tree {
        PlanTree::Bred { male, female, species, carried } => {
            let below = prefix + branch.below();
            law_trees_show_every_pal(db, *male, show_ivs, below, Branch::Male);
            law_trees_show_every_pal(db, *female, show_ivs, below, Branch::Female);
        },
        _ => {},
    }
}

// ---------------------------------------------------------------------
// What is asked and kept
// ---------------------------------------------------------------------
/// A search asks what the panes show: the target, the selected passives,
/// the marks and each minimum, to the chosen depth. It breeds from the
/// whole pool, unless a progenitor is marked: then from none of it, and
/// wild pals may be caught.
pub proof fn law_searches_ask_what_is_shown(s: AppState, focus_results: bool, announce: Notice)
    requires
        s.target is Some,
    ensures
        ({
            let request = s.request(focus_results, announce);
            &&& Some(request.goal.species) == s.target
            &&& request.goal.passives == s.selected
            &&& request.goal.progenitors == s.progenitors
            &&& request.goal.iv_thresholds.hp == s.thresholds.hp
            &&& request.goal.iv_thresholds.attack == s.thresholds.attack
            &&& request.goal.iv_thresholds.defense == s.thresholds.defense
            &&& s.progenitors.len() == 0 ==> request.pool == s.owned
            &&& s.progenitors.len() > 0 ==> request.pool.len() == 0
            &&& request.config.max_breeding_steps == s.max_steps
            &&& request.config.allow_wild_pals <==> s.allow_wild || s.progenitors.len() > 0
        }),
{
}

/// A minimum's letter moves that minimum alone, by ten, a small letter up
/// and a capital one down, and stops at the ends of the scale.
pub proof fn law_minimum_letters_move_one_stat(s: AppState, solver: Solver, key: char)
    requires
        s.thresholds.hp matches Some(v) ==> v@ <= 100,
        s.thresholds.attack matches Some(v) ==> v@ <= 100,
        s.thresholds.defense matches Some(v) ==> v@ <= 100,
    ensures
        ({
            let (old_t, new_t) = (s.thresholds, s.threshold_stepped(solver, key).thresholds);
            &&& key == 'h' || key == 'H' ==> new_t.attack == old_t.attack && new_t.defense
                == old_t.defense
            &&& key == 'a' || key == 'A' ==> new_t.hp == old_t.hp && new_t.defense == old_t.defense
            &&& key == 'd' || key == 'D' ==> new_t.hp == old_t.hp && new_t.attack == old_t.attack
            &&& key == 'h' ==> raised(old_t.hp, new_t.hp)
            &&& key == 'a' ==> raised(old_t.attack, new_t.attack)
            &&& key == 'd' ==> raised(old_t.defense, new_t.defense)
            &&& key == 'H' ==> lowered(old_t.hp, new_t.hp)
            &&& key == 'A' ==> lowered(old_t.attack, new_t.attack)
            &&& key == 'D' ==> lowered(old_t.defense, new_t.defense)
        }),
{
    broadcast use crate::model::lemma_iv_of_view;

}

/// A minimum is ten more than another, none counting as zero, and a
/// hundred at most.
pub open spec fn raised(before: Option<IvValue>, after: Option<IvValue>) -> bool {
    after matches Some(v) && match before {
        Some(b) => v@ == if b@ <= 90 {
            b@ + 10
        } else {
            100
        },
        None => v@ == 10,
    }
}

/// A minimum is ten less than another, and none below ten.
pub open spec fn lowered(before: Option<IvValue>, after: Option<IvValue>) -> bool {
    match before {
        Some(b) => if b@ >= 20 {
            after matches Some(v) && v@ == b@ - 10
        } else {
            after is None
        },
        None => after is None,
    }
}

/// The depth moves by what is asked and stops at one and at twenty-four.
pub proof fn law_depth_moves_within_its_bounds(s: AppState, solver: Solver, delta: int)
    ensures
        ({
            let depth = s.depth_adjusted(solver, delta).max_steps;
            &&& 1 <= s.max_steps + delta <= 24 ==> depth == s.max_steps + delta
            &&& s.max_steps + delta < 1 ==> depth == 1
            &&& s.max_steps + delta > 24 ==> depth == 24
        }),
{
}

/// A cursor moves in the list that has the keyboard, by what is asked,
/// stops at both ends, and leaves every other cursor where it is.
pub proof fn law_cursors_move_in_their_own_list(s: AppState, db: PalDb, delta: int)
    ensures
        ({
            let after = s.cursor_moved(db, delta);
            let (before_at, after_at, len): (int, int, nat) = match s.focus {
                Pane::Pals => (
                    s.species_cursor as int,
                    after.species_cursor as int,
                    s.pals_shown(db).len(),
                ),
                Pane::Passives => (
                    s.passive_cursor as int,
                    after.passive_cursor as int,
                    s.skills_shown(db).len(),
                ),
                Pane::Results => if s.viewing_saved {
                    (s.saved_cursor as int, after.saved_cursor as int, s.saved.len())
                } else {
                    (s.plan_cursor as int, after.plan_cursor as int, s.plans.len())
                },
            };
            &&& len <= usize::MAX ==> if 0 <= before_at + delta < len {
                after_at == before_at + delta
            } else if before_at + delta < 0 || len == 0 {
                after_at == 0
            } else {
                after_at == len - 1
            }
            &&& s.focus != Pane::Pals ==> after.species_cursor == s.species_cursor
            &&& s.focus != Pane::Passives ==> after.passive_cursor == s.passive_cursor
            &&& !(s.focus == Pane::Results && s.viewing_saved) ==> after.saved_cursor
                == s.saved_cursor
            &&& !(s.focus == Pane::Results && !s.viewing_saved) ==> after.plan_cursor
                == s.plan_cursor
            &&& same_question(after, s)
        }),
{
}

/// Confirming a pal makes it the target, and confirming a passive selects
/// it, or drops it when it is selected; the rest of the question stays.
pub proof fn law_confirming_takes_the_row_under_the_cursor(s: AppState, solver: Solver)
    ensures
        s.focus == Pane::Pals && s.species_cursor < s.pals_shown(solver.db()).len() ==> {
            let after = s.confirmed(solver);
            &&& after.target == Some(
                s.pals_shown(solver.db())[s.species_cursor as int].name@,
            )
            &&& after.selected == s.selected
            &&& after.progenitors == s.progenitors
            &&& after.thresholds == s.thresholds
        },
        s.focus == Pane::Passives && s.passive_cursor < s.skills_shown(solver.db()).len() ==> {
            let after = s.confirmed(solver);
            let name = s.skills_shown(solver.db())[s.passive_cursor as int].name@;
            &&& after.target == s.target
            &&& after.progenitors == s.progenitors
            &&& !s.selected.contains(name) && s.selected.len() < 4 ==> after.selected
                == s.selected.push(name)
            &&& s.selected.contains(name) ==> after.selected.len() == s.selected.len() - 1
            &&& forall|other: Seq<char>|
                other != name ==> (#[trigger] after.selected.contains(other)
                    <==> s.selected.contains(other))
        },
{
    if s.focus == Pane::Passives && s.passive_cursor < s.skills_shown(solver.db()).len() {
        let after = s.confirmed(solver);
        let name = s.skills_shown(solver.db())[s.passive_cursor as int].name@;
        if s.selected.contains(name) {
            s.selected.index_of_first_ensures(name);
            lemma_others_stay(s.selected, s.selected.index_of_first(name)->0);
        } else if s.selected.len() != 4 {
            assert forall|other: Seq<char>| other != name implies (
            #[trigger] after.selected.contains(other) <==> s.selected.contains(other)) by {
                if s.selected.contains(other) {
                    let i = choose|i: int| 0 <= i < s.selected.len() && s.selected[i] == other;
                    assert(after.selected[i] == other);
                }
            }
        }
    }
}

/// Taking one name out leaves the others.
proof fn lemma_others_stay(names: Seq<Seq<char>>, at: int)
    requires
        0 <= at < names.len(),
    ensures
        forall|other: Seq<char>|
            other != names[at] ==> (#[trigger] names.remove(at).contains(other) <==> names.contains(
                other,
            )),
{
    assert forall|other: Seq<char>| other != names[at] implies (#[trigger] names.remove(
        at,
    ).contains(other) <==> names.contains(other)) by {
        if names.contains(other) {
            let i = choose|i: int| 0 <= i < names.len() && names[i] == other;
            if i < at {
                assert(names.remove(at)[i] == other);
            } else {
                assert(names.remove(at)[i - 1] == other);
            }
        }
        if names.remove(at).contains(other) {
            let i = choose|i: int| 0 <= i < names.remove(at).len() && names.remove(at)[i] == other;
            if i < at {
                assert(names[i] == other);
            } else {
                assert(names[i + 1] == other);
            }
        }
    }
}

/// Marking a pal toggles its mark and no other.
pub proof fn law_marks_toggle_one_pal(s: AppState, solver: Solver)
    requires
        s.focus == Pane::Pals,
        s.species_cursor < s.pals_shown(solver.db()).len(),
    ensures
        ({
            let after = s.progenitor_toggled(solver);
            let name = s.pals_shown(solver.db())[s.species_cursor as int].name@;
            &&& after.target == s.target
            &&& after.selected == s.selected
            &&& !s.progenitors.contains(name) && s.progenitors.len() < 8 ==> after.progenitors
                == s.progenitors.push(name)
            &&& s.progenitors.contains(name) ==> after.progenitors.len() == s.progenitors.len() - 1
            &&& forall|other: Seq<char>|
                other != name ==> (#[trigger] after.progenitors.contains(other)
                    <==> s.progenitors.contains(other))
        }),
{
    let after = s.progenitor_toggled(solver);
    let name = s.pals_shown(solver.db())[s.species_cursor as int].name@;
    if s.progenitors.contains(name) {
        s.progenitors.index_of_first_ensures(name);
        lemma_others_stay(s.progenitors, s.progenitors.index_of_first(name)->0);
    } else if s.progenitors.len() != 8 {
        assert forall|other: Seq<char>| other != name implies (
        #[trigger] after.progenitors.contains(other) <==> s.progenitors.contains(other)) by {
            if s.progenitors.contains(other) {
                let i = choose|i: int| 0 <= i < s.progenitors.len() && s.progenitors[i] == other;
                assert(after.progenitors[i] == other);
            }
        }
    }
}

/// Saving puts the highlighted plan at the end of the library, with its
/// tree and its numbers, and keeps every plan that was there.
pub proof fn law_saving_keeps_the_plan(s: AppState, db: PalDb)
    requires
        !s.viewing_saved,
        s.target is Some,
        s.plan_cursor < s.plans.len(),
    ensures
        ({
            let after = s.plan_saved(db).state;
            let plan = s.plans[s.plan_cursor as int];
            let entry = after.saved[s.saved.len() as int];
            &&& after.saved.len() == s.saved.len() + 1
            &&& forall|i: int| 0 <= i < s.saved.len() ==> #[trigger] after.saved[i] == s.saved[i]
            &&& entry.tree == plan.tree
            &&& entry.expected_eggs == plan.expected_eggs
            &&& entry.steps == plan.steps
            &&& same_question(AppState { saved: s.saved, ..after }, s)
        }),
{
}

/// Deleting takes the highlighted plan out of the library and keeps every
/// other, in order.
pub proof fn law_deleting_takes_out_one_plan(s: AppState)
    requires
        s.saved_cursor < s.saved.len(),
    ensures
        ({
            let after = s.saved_removed().state;
            &&& after.saved.len() == s.saved.len() - 1
            &&& forall|i: int|
                0 <= i < s.saved_cursor ==> #[trigger] after.saved[i] == s.saved[i]
            &&& forall|i: int|
                s.saved_cursor <= i < after.saved.len() ==> #[trigger] after.saved[i]
                    == s.saved[i + 1]
            &&& same_question(AppState { saved: s.saved, ..after }, s)
        }),
{
}

/// Beside the marked pals, the rows are exactly the pals whose internal or
/// display name holds the filter, whatever the letter case.
pub proof fn law_rows_are_what_the_filter_finds(
    db: PalDb,
    marked: Seq<Seq<char>>,
    filter: Seq<char>,
    pal: crate::model::Pal,
)
    requires
        !marked.contains(pal.name@),
    ensures
        pal_rows(db, marked, filter).contains(pal) <==> db.all().contains(pal) && (filter.len() == 0
            || crate::text::has_part(
            crate::text::lower(pal.name@),
            crate::text::lower(filter),
        ) || crate::text::has_part(
            crate::text::lower(pal.display_name@),
            crate::text::lower(filter),
        )),
{
    let asked = crate::tui::state::unmarked_pal(marked, filter);
    let matching = crate::seqs::kept(db.all(), asked);
    let lt = crate::mcp::names::by_pal_display();
    assert(crate::seqs::weak_order(lt)) by {
        assert forall|a: crate::model::Pal| !#[trigger] lt(a, a) by {
            crate::text::lemma_before_irreflexive(a.display_name@);
        }
        assert forall|a: crate::model::Pal, b: crate::model::Pal, c: crate::model::Pal| #[trigger]
            lt(a, b) && #[trigger] lt(b, c) implies lt(a, c) by {
            crate::text::lemma_before_transitive(
                a.display_name@,
                b.display_name@,
                c.display_name@,
            );
        }
        assert forall|a: crate::model::Pal, b: crate::model::Pal, c: crate::model::Pal|
            !(#[trigger] lt(a, b)) && !(#[trigger] lt(b, c)) implies !lt(a, c) by {
            let (x, y, z) = (a.display_name@, b.display_name@, c.display_name@);
            crate::text::lemma_before_total(x, y);
            crate::text::lemma_before_total(y, z);
            crate::text::lemma_before_irreflexive(x);
            if crate::text::before(x, z) && crate::text::before(z, y) {
                crate::text::lemma_before_transitive(x, z, y);
            }
        }
    }
    crate::seqs::lemma_kept(db.all(), asked);
    crate::seqs::lemma_sorted_by(matching, lt);
    broadcast use vstd::seq_lib::group_to_multiset_ensures;

    let line = crate::seqs::sorted_by(matching, lt);
    let pinned = known_pals(db, marked);
    let rows = pal_rows(db, marked, filter);
    assert(rows == pinned + line);
    assert(line.contains(pal) <==> line.to_multiset().count(pal) > 0);
    assert(matching.contains(pal) <==> matching.to_multiset().count(pal) > 0);
    lemma_pinned(db, marked);
    if rows.contains(pal) {
        let k = choose|k: int| 0 <= k < rows.len() && rows[k] == pal;
        if k < pinned.len() {
            assert(marked.contains(pinned[k].name@));
        } else {
            assert(line[k - pinned.len()] == pal);
        }
    }
    if line.contains(pal) {
        let k = choose|k: int| 0 <= k < line.len() && line[k] == pal;
        assert(rows[pinned.len() + k] == pal);
    }
}

/// The pinned pals are marked.
proof fn lemma_pinned(db: PalDb, names: Seq<Seq<char>>)
    ensures
        forall|k: int|
            0 <= k < known_pals(db, names).len() ==> names.contains(
                (#[trigger] known_pals(db, names)[k]).name@,
            ),
    decreases names.len(),
{
    if names.len() > 0 {
        let front = names.drop_last();
        lemma_pinned(db, front);
        crate::model::lemma_pal_position(db.all(), names.last());
        let list = known_pals(db, names);
        let rest = known_pals(db, front);
        assert forall|k: int| 0 <= k < list.len() implies names.contains(
            (#[trigger] list[k]).name@,
        ) by {
            if k < rest.len() {
                assert(list[k] == rest[k]);
                let i = choose|i: int| 0 <= i < front.len() && front[i] == rest[k].name@;
                assert(names[i] == list[k].name@);
            } else {
                assert(names[names.len() - 1] == list[k].name@);
            }
        }
    }
}

/// A tree has this pal of the pool as a leaf.
pub open spec fn has_leaf(tree: PlanTree, pal: crate::search::plan::OwnedView) -> bool
    decreases tree,
{
    match tree {
        PlanTree::Owned(own) => own == pal,
        PlanTree::Bred { male, female, species, carried } => has_leaf(*male, pal) || has_leaf(
            *female,
            pal,
        ),
        _ => false,
    }
}

/// A saved plan is fresh exactly when the pool still has a pal for each
/// of its leaves: of the species, the gender and the passives, and with
/// the same values unless none were saved.
pub proof fn law_fresh_plans_have_all_their_leaves(
    tree: PlanTree,
    owned: Seq<crate::search::plan::OwnedView>,
)
    ensures
        crate::tui::app::missing_leaves(tree, owned) == 0 <==> forall|
            pal: crate::search::plan::OwnedView,
        | #[trigger]
            has_leaf(tree, pal) ==> exists|i: int|
                {
                    let own = #[trigger] owned[i];
                    &&& 0 <= i < owned.len()
                    &&& own.species == pal.species
                    &&& own.gender == pal.gender
                    &&& own.passives == pal.passives
                    &&& own.ivs == pal.ivs || (pal.ivs.hp@ == 0 && pal.ivs.attack@ == 0
                        && pal.ivs.defense@ == 0)
                },
    decreases tree,
{
    assert forall|pal: crate::search::plan::OwnedView| #[trigger]
        crate::tui::app::still_owned(owned, pal) <==> exists|i: int|
            {
                let own = #[trigger] owned[i];
                &&& 0 <= i < owned.len()
                &&& own.species == pal.species
                &&& own.gender == pal.gender
                &&& own.passives == pal.passives
                &&& own.ivs == pal.ivs || (pal.ivs.hp@ == 0 && pal.ivs.attack@ == 0
                    && pal.ivs.defense@ == 0)
            } by {
        if crate::tui::app::still_owned(owned, pal) {
            let i = choose|i: int|
                0 <= i < owned.len() && crate::tui::app::stands_for(#[trigger] owned[i], pal);
            assert(owned[i].species == pal.species);
        }
    }
    match tree {
        PlanTree::Owned(own) => {
            assert(has_leaf(tree, own));
            assert(crate::tui::app::still_owned(owned, own)
                == crate::tui::app::still_owned(owned, own));
        },
        PlanTree::Bred { male, female, species, carried } => {
            law_fresh_plans_have_all_their_leaves(*male, owned);
            law_fresh_plans_have_all_their_leaves(*female, owned);
            assert forall|pal: crate::search::plan::OwnedView| #[trigger]
                has_leaf(tree, pal) <==> has_leaf(*male, pal) || has_leaf(*female, pal) by {}
            assert forall|pal: crate::search::plan::OwnedView|
                #[trigger] has_leaf(*male, pal) implies has_leaf(tree, pal) by {}
            assert forall|pal: crate::search::plan::OwnedView|
                #[trigger] has_leaf(*female, pal) implies has_leaf(tree, pal) by {}
        },
        _ => {},
    }
}

/// A family tree shows each parent of a bred pal below it, under the sign
/// of the place it takes: the father's whole tree first, then the
/// mother's.
pub proof fn law_trees_show_parents_in_their_places(
    db: PalDb,
    male: PlanTree,
    female: PlanTree,
    species: Seq<char>,
    carried: Seq<Seq<char>>,
    show_ivs: bool,
)
    ensures
        ({
            let tree = PlanTree::Bred {
                male: Box::new(male),
                female: Box::new(female),
                species,
                carried,
            };
            let lines = tree_lines(db, tree, show_ivs, ""@, Branch::Root);
            let mother_at = 2 * male.steps() + 2;
            &&& lines.len() == 2 * male.steps() + 2 * female.steps() + 3
            &&& lines[1][0].content == "├─ ♂ "@ + crate::tui::view::icon(male) + " "@
                + crate::names::shown(db, male.root_species())
            &&& lines[mother_at as int][0].content == "╰─ ♀ "@ + crate::tui::view::icon(female)
                + " "@ + crate::names::shown(db, female.root_species())
        }),
{
    let tree = PlanTree::Bred {
        male: Box::new(male),
        female: Box::new(female),
        species,
        carried,
    };
    let none = ""@;
    reveal_strlit("");
    let below = none + none;
    assert(below =~= none);
    law_trees_show_every_pal(db, male, show_ivs, below, Branch::Male);
    law_trees_show_every_pal(db, female, show_ivs, below, Branch::Female);
    let (fathers, mothers) = (
        tree_lines(db, male, show_ivs, below, Branch::Male),
        tree_lines(db, female, show_ivs, below, Branch::Female),
    );
    let lines = tree_lines(db, tree, show_ivs, none, Branch::Root);
    assert(lines == seq![node_line(db, tree, show_ivs, none, Branch::Root)] + fathers + mothers);
    assert(lines[1] == fathers[0]);
    assert(lines[(2 * male.steps() + 2) as int] == mothers[0]);
    assert(fathers[0][0].content == below + "├─ ♂ "@ + crate::tui::view::icon(male) + " "@
        + crate::names::shown(db, male.root_species()));
    assert(mothers[0][0].content == below + "╰─ ♀ "@ + crate::tui::view::icon(female) + " "@
        + crate::names::shown(db, female.root_species()));
    assert(below + "├─ ♂ "@ =~= "├─ ♂ "@);
    assert(below + "╰─ ♀ "@ =~= "╰─ ♀ "@);
}

/// A line names every passive of its pal, in order, each after the text
/// that joins it to the one before.
pub proof fn law_lines_name_every_passive(
    db: PalDb,
    names: Seq<Seq<char>>,
    verb: Seq<char>,
)
    ensures
        crate::tui::view::passive_spans(db, names, verb).len() == 2 * names.len(),
        forall|i: int|
            0 <= i < names.len() ==> crate::tui::view::passive_spans(db, names, verb)[2 * i
                + 1].content == crate::names::shown_passive(db, #[trigger] names[i]),
    decreases names.len(),
{
    if names.len() > 0 {
        let front = names.drop_last();
        law_lines_name_every_passive(db, front, verb);
        assert forall|i: int| 0 <= i < names.len() implies crate::tui::view::passive_spans(
            db,
            names,
            verb,
        )[2 * i + 1].content == crate::names::shown_passive(db, #[trigger] names[i]) by {
            if i < front.len() {
                assert(front[i] == names[i]);
            }
        }
    }
}

} // verus!
