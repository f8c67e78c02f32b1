//! Application state and input handling: transitions over the solver,
//! without a terminal. Nothing here draws.

use vstd::prelude::*;

use crate::chance::hundredths_text;
use crate::iv::IvThresholds;
use crate::mcp::names::by_pal_display;
use crate::mcp::names::by_skill_display;
use crate::model::copy_pals;
use crate::model::copy_passives;
use crate::model::holds_pal;
use crate::model::holds_passive;
use crate::model::pal_texts;
use crate::model::passive_texts;
use crate::model::same_passives;
use crate::model::IvStat;
use crate::model::IvValue;
use crate::model::Pal;
use crate::model::PalDb;
use crate::model::PalName;
use crate::model::PassiveName;
use crate::model::PassiveSkill;
use crate::names::display;
use crate::names::name_mentions;
use crate::passives::MAX_TOTAL_PASSIVES;
use crate::pool::load::Loaded;
use crate::pool::load::PoolError;
use crate::save::wire::text_view;
use crate::search::plan::copy_owned;
use crate::search::plan::owned_views;
use crate::search::plan::plan_views;
use crate::search::plan::BreedingGoal;
use crate::search::plan::BreedingPlan;
use crate::search::plan::OwnedPal;
use crate::search::plan::OwnedView;
use crate::search::plan::PlanNode;
use crate::search::plan::PlanTree;
use crate::search::plan::SearchConfig;
use crate::search::plan::SearchError;
use crate::search::plan::MAX_PROGENITORS;
use crate::search::solver::Solver;
use crate::seqs::pick;
use crate::seqs::referents;
use crate::seqs::sort_refs;
use crate::text::comes_before;
use crate::text::decimal;
use crate::text::decimal_of;
use crate::text::drop_char;
use crate::text::trim;
use crate::tui::command::Command;
use crate::tui::command::Doc;
use crate::tui::command::DocView;
use crate::tui::command::Documents;
use crate::tui::state::found;
use crate::tui::state::kept_in;
use crate::tui::state::known_pals;
use crate::tui::state::known_skills;
use crate::tui::state::only;
use crate::tui::state::pane_after;
use crate::tui::state::passes;
use crate::tui::state::stepped;
use crate::tui::state::stepped_threshold;
use crate::tui::state::threshold_text;
use crate::tui::state::unmarked_pal;
use crate::tui::state::unselected_skill;
use crate::tui::state::AppState;
use crate::tui::state::ChoreView;
use crate::tui::state::Click;
use crate::tui::state::Found;
use crate::tui::state::KeyCode;
use crate::tui::state::KeyEvent;
use crate::tui::state::Layer;
use crate::tui::state::Notice;
use crate::tui::state::OutcomeView;
use crate::tui::state::Pane;
use crate::tui::state::RequestView;
use crate::tui::state::SearchActivity;
use crate::tui::state::SearchGen;
use crate::tui::state::SearchMode;
use crate::tui::state::Step;
use crate::tui::state::DEFAULT_BREEDING_STEPS;
use crate::tui::state::MAX_BREEDING_STEPS;
use crate::tui::state::MAX_RESULTS;
use crate::tui::state::MIN_BREEDING_STEPS;
use crate::tui::store::saved_views;
use crate::tui::store::PlanStore;
use crate::tui::store::SavedPlan;

verus! {

/// The modal layer above the panes. Whichever layer is open owns the
/// keyboard; the panes only see keys when no overlay is up.
#[derive(PartialEq, Eq, Debug)]
pub enum Overlay {
    Closed,
    /// The `:` command line, holding the text typed so far.
    Prompt(String),
    /// A full-screen document viewer (`:help`, `:readme`).
    Doc(DocView),
}

impl View for Overlay {
    type V = Layer;

    open spec fn view(&self) -> Layer {
        match *self {
            Overlay::Closed => Layer::Closed,
            Overlay::Prompt(buffer) => Layer::Prompt(buffer@),
            Overlay::Doc(view) => Layer::Doc(view),
        }
    }
}

/// How the applied outcome announces itself on the status line.
#[derive(PartialEq, Eq, Debug)]
pub enum Announce {
    Standard,
    /// Re-planning a saved plan compares the fresh best cost with the
    /// bookmarked one.
    Replan { label: String, saved_eggs: u128 },
}

impl View for Announce {
    type V = Notice;

    open spec fn view(&self) -> Notice {
        match *self {
            Announce::Standard => Notice::Standard,
            Announce::Replan { label, saved_eggs } => Notice::Replan { label: label@, saved_eggs },
        }
    }
}

/// Everything a worker needs to run one search, taken down at request
/// time so the app state may keep moving underneath it.
#[derive(Debug)]
pub struct SearchRequest {
    pub generation: SearchGen,
    pub pool: Vec<OwnedPal>,
    pub goal: BreedingGoal,
    pub config: SearchConfig,
    pub focus_results: bool,
    pub announce: Announce,
}

impl View for SearchRequest {
    type V = RequestView;

    open spec fn view(&self) -> RequestView {
        RequestView {
            generation: self.generation,
            pool: owned_views(self.pool@),
            goal: self.goal@,
            config: self.config,
            focus_results: self.focus_results,
            announce: self.announce@,
        }
    }
}

/// What a search gave, as plain values.
pub open spec fn found_view(result: Result<Vec<BreedingPlan>, SearchError>) -> Found {
    match result {
        Ok(plans) => Found::Plans(plan_views(plans@)),
        Err(error) => Found::Refused(error@),
    }
}

/// A finished search, tagged with the request it answers.
#[derive(Debug)]
pub struct SearchOutcome {
    pub generation: SearchGen,
    pub focus_results: bool,
    pub announce: Announce,
    pub result: Result<Vec<BreedingPlan>, SearchError>,
}

impl View for SearchOutcome {
    type V = OutcomeView;

    open spec fn view(&self) -> OutcomeView {
        OutcomeView {
            generation: self.generation,
            focus_results: self.focus_results,
            announce: self.announce@,
            result: found_view(self.result),
        }
    }
}

/// Runs one search request to completion. The single execution path
/// shared by inline mode and a worker.
pub fn run_search(solver: &Solver, request: SearchRequest) -> (r: SearchOutcome)
    requires
        solver.wf(),
    ensures
        r@ == (OutcomeView {
            generation: request.generation,
            focus_results: request.focus_results,
            announce: request@.announce,
            result: found(*solver, request@.pool, request@.goal, request.config),
        }),
{
    let result = solver.find_paths(&request.pool, &request.goal, &request.config);
    SearchOutcome {
        generation: request.generation,
        focus_results: request.focus_results,
        announce: request.announce,
        result,
    }
}

/// Work that a key leaves to the shell; the shell reports back with
/// [`App::finish_write`] or [`App::finish_reload`].
#[derive(Debug)]
pub enum Chore {
    /// Write the library, to which a plan was added.
    WriteSaved { label: String },
    /// Write the library, from which a plan was removed.
    WriteDeleted { label: String },
    /// Load the pool again from its file.
    Reload { path: String },
}

impl View for Chore {
    type V = ChoreView;

    open spec fn view(&self) -> ChoreView {
        match *self {
            Chore::WriteSaved { label } => ChoreView::WriteSaved { label: label@ },
            Chore::WriteDeleted { label } => ChoreView::WriteDeleted { label: label@ },
            Chore::Reload { path } => ChoreView::Reload { path: path@ },
        }
    }
}

/// Optional work, as plain values.
pub open spec fn chore_view(chore: Option<Chore>) -> Option<ChoreView> {
    match chore {
        Some(c) => Some(c@),
        None => None,
    }
}

pub struct App<'db> {
    pub solver: &'db Solver<'db>,
    pub documents: &'db Documents,
    pub owned: Vec<OwnedPal>,
    /// Where the owned pool came from, when it came from a file: the
    /// reload target. `None` for in-memory pools.
    pub pool_path: Option<String>,
    pub focus: Pane,
    pub species_filter: String,
    pub species_cursor: usize,
    pub target: Option<PalName>,
    /// Progenitor species marked in the Pals pane. Non-empty marks
    /// switch the search to progenitor mode: every plan must hold each
    /// marked pal, with catchable wild partners recruited around them;
    /// the owned pool stays out.
    pub progenitors: Vec<PalName>,
    pub passive_filter: String,
    pub passive_cursor: usize,
    pub selected_passives: Vec<PassiveName>,
    /// Per-stat IV minimums on the target; adjusted with h/a/d (+10)
    /// and H/A/D (-10) while the Plans pane is focused.
    pub iv_thresholds: IvThresholds,
    pub plans: Vec<BreedingPlan>,
    pub plan_cursor: usize,
    pub saved: PlanStore,
    /// When set, the Plans pane shows the saved-plan library instead of
    /// live search results.
    pub viewing_saved: bool,
    pub saved_cursor: usize,
    pub max_breeding_steps: usize,
    pub allow_wild: bool,
    pub overlay: Overlay,
    pub status: String,
    pub should_quit: bool,
    pub mode: SearchMode,
    pub latest_gen: SearchGen,
    /// A search request built but not yet handed to the shell.
    pub pending_search: Option<SearchRequest>,
    pub activity: SearchActivity,
}

/// An optional name as plain values.
pub open spec fn name_view(name: Option<PalName>) -> Option<Seq<char>> {
    match name {
        Some(n) => Some(n@),
        None => None,
    }
}

/// An optional request as plain values.
pub open spec fn request_view(request: Option<SearchRequest>) -> Option<RequestView> {
    match request {
        Some(r) => Some(r@),
        None => None,
    }
}

impl<'db> View for App<'db> {
    type V = AppState;

    open spec fn view(&self) -> AppState {
        AppState {
            owned: owned_views(self.owned@),
            pool_path: text_view(self.pool_path),
            focus: self.focus,
            species_filter: self.species_filter@,
            species_cursor: self.species_cursor,
            target: name_view(self.target),
            progenitors: pal_texts(self.progenitors@),
            passive_filter: self.passive_filter@,
            passive_cursor: self.passive_cursor,
            selected: passive_texts(self.selected_passives@),
            thresholds: self.iv_thresholds,
            plans: plan_views(self.plans@),
            plan_cursor: self.plan_cursor,
            saved: saved_views(self.saved.plans@),
            saved_path: self.saved.path@,
            viewing_saved: self.viewing_saved,
            saved_cursor: self.saved_cursor,
            max_steps: self.max_breeding_steps,
            allow_wild: self.allow_wild,
            layer: self.overlay@,
            status: self.status@,
            should_quit: self.should_quit,
            mode: self.mode,
            latest_gen: self.latest_gen,
            pending: request_view(self.pending_search),
            activity: self.activity,
            help_lines: self.documents.page(Doc::Help).height(),
            readme_lines: self.documents.page(Doc::Readme).height(),
        }
    }
}

impl<'db> App<'db> {
    /// The invariant: the solver's tables belong to its database, the
    /// odds of the pool can be counted, and an open document is not
    /// scrolled past its end.
    pub open spec fn wf(&self) -> bool {
        &&& self.solver.wf()
    }

    /// Two moments of the same application.
    pub open spec fn same_app(&self, other: &App<'db>) -> bool {
        self.solver == other.solver && self.documents == other.documents
    }

    pub fn new(
        solver: &'db Solver<'db>,
        owned: Vec<OwnedPal>,
        saved: PlanStore,
        documents: &'db Documents,
    ) -> (r: Self)
        requires
            solver.wf(),
        ensures
            r.wf(),
            r.solver == solver,
            r.documents == documents,
            r@ == (AppState {
                owned: owned_views(owned@),
                pool_path: None,
                focus: Pane::Pals,
                species_filter: Seq::empty(),
                species_cursor: 0,
                target: None,
                progenitors: Seq::empty(),
                passive_filter: Seq::empty(),
                passive_cursor: 0,
                selected: Seq::empty(),
                thresholds: crate::iv::no_thresholds(),
                plans: Seq::empty(),
                plan_cursor: 0,
                saved: saved_views(saved.plans@),
                saved_path: saved.path@,
                viewing_saved: false,
                saved_cursor: 0,
                max_steps: DEFAULT_BREEDING_STEPS,
                allow_wild: false,
                layer: Layer::Closed,
                status: Seq::empty(),
                should_quit: false,
                mode: SearchMode::Inline,
                latest_gen: SearchGen(0),
                pending: None,
                activity: SearchActivity::Idle,
                help_lines: documents.page(Doc::Help).height(),
                readme_lines: documents.page(Doc::Readme).height(),
            }),
    {
        let r = App {
            solver,
            documents,
            owned,
            pool_path: None,
            focus: Pane::Pals,
            species_filter: String::new(),
            species_cursor: 0,
            target: None,
            progenitors: Vec::new(),
            passive_filter: String::new(),
            passive_cursor: 0,
            selected_passives: Vec::new(),
            iv_thresholds: IvThresholds::default(),
            plans: Vec::new(),
            plan_cursor: 0,
            saved,
            viewing_saved: false,
            saved_cursor: 0,
            max_breeding_steps: DEFAULT_BREEDING_STEPS,
            allow_wild: false,
            overlay: Overlay::Closed,
            status: String::new(),
            should_quit: false,
            mode: SearchMode::Inline,
            latest_gen: SearchGen(0),
            pending_search: None,
            activity: SearchActivity::Idle,
        };
        proof {
            assert(r@.species_filter =~= Seq::empty());
            assert(r@.passive_filter =~= Seq::empty());
            assert(r@.status =~= Seq::empty());
            assert(r@.progenitors =~= Seq::empty());
            assert(r@.selected =~= Seq::empty());
            assert(r@.plans =~= Seq::empty());
        }
        r
    }

    /// Switches searches to the request/apply protocol: a search parks a
    /// [`SearchRequest`] that the shell ships to a worker, and results
    /// land via [`App::apply_search_outcome`].
    pub fn defer_searches(&mut self)
        ensures
            final(self).same_app(old(self)),
            final(self)@ == (AppState { mode: SearchMode::Deferred, ..old(self)@ }),
            old(self).wf() ==> final(self).wf(),
    {
        self.mode = SearchMode::Deferred;
    }

    /// True while a search runs (or waits to run) in the background.
    pub fn searching(&self) -> (r: bool)
        ensures
            r == !(self.activity is Idle),
    {
        match self.activity {
            SearchActivity::Awaiting { .. } => true,
            SearchActivity::Idle => false,
        }
    }

    /// The spinner's frame counter: `Some` only while a search is
    /// awaited.
    pub fn spinner(&self) -> (r: Option<usize>)
        ensures
            r == (match self.activity {
                SearchActivity::Awaiting { spinner_tick } => Some(spinner_tick),
                SearchActivity::Idle => None,
            }),
    {
        match self.activity {
            SearchActivity::Awaiting { spinner_tick } => Some(spinner_tick),
            SearchActivity::Idle => None,
        }
    }

    /// Hands the newest undispatched request to the shell. Requests
    /// replace each other while parked, so this is always latest-wins.
    pub fn take_pending_search(&mut self) -> (r: Option<SearchRequest>)
        ensures
            final(self).same_app(old(self)),
            request_view(r) == old(self)@.pending,
            final(self)@ == (AppState { pending: None, ..old(self)@ }),
            old(self).wf() ==> final(self).wf(),
    {
        self.pending_search.take()
    }

    /// Shell timer tick: animates the spinner while a search runs.
    pub fn on_tick(&mut self)
        ensures
            final(self).same_app(old(self)),
            final(self)@ == old(self)@.ticked(),
            old(self).wf() ==> final(self).wf(),
    {
        match self.activity {
            SearchActivity::Awaiting { spinner_tick } => {
                let next: usize = if spinner_tick == usize::MAX {
                    0
                } else {
                    spinner_tick + 1
                };
                self.activity = SearchActivity::Awaiting { spinner_tick: next };
            },
            SearchActivity::Idle => {},
        }
    }

    pub fn db(&self) -> (r: &'db PalDb)
        requires
            self.wf(),
        ensures
            *r == self.solver.db(),
            r.wf(),
    {
        proof {
            self.solver.lemma_parts();
        }
        self.solver.pal_db()
    }
}

// ---------------------------------------------------------------------
// Small steps
// ---------------------------------------------------------------------
fn step_iv_threshold(current: Option<IvValue>, up: bool) -> (r: Option<IvValue>)
    ensures
        r == stepped_threshold(current, up),
{
    broadcast use {crate::model::lemma_iv_of, crate::model::lemma_iv_of_view};

    let value: u8 = match current {
        Some(v) => v.get(),
        None => 0,
    };
    let next: u8 = if up {
        if value >= 90 {
            100
        } else {
            value + 10
        }
    } else if value >= 10 {
        value - 10
    } else {
        0
    };
    if next >= 10 {
        IvValue::from_number(next)
    } else {
        None
    }
}

fn describe_threshold(threshold: Option<IvValue>) -> (r: String)
    ensures
        r@ == threshold_text(threshold),
{
    match threshold {
        Some(minimum) => {
            let mut out = "≥ ".to_owned();
            out.append(decimal_of(minimum.get() as u128).as_str());
            out
        },
        None => "off".to_owned(),
    }
}

fn matches_filter(filter: &str, display_name: &str, internal_name: &str) -> (r: bool)
    ensures
        r == passes(filter@, display_name@, internal_name@),
{
    crate::text::chars_of(filter).len() == 0 || name_mentions(
        internal_name,
        display_name,
        filter,
    )
}

fn next_pane(pane: Pane) -> (r: Pane)
    ensures
        r == pane_after(pane),
{
    match pane {
        Pane::Pals => Pane::Passives,
        Pane::Passives => Pane::Results,
        Pane::Results => Pane::Pals,
    }
}

fn step(cursor: usize, delta: isize, len: usize) -> (r: usize)
    ensures
        r == stepped(cursor, delta as int, len as nat),
{
    if len == 0 {
        return 0;
    }
    let moved: i128 = cursor as i128 + delta as i128;
    if moved < 0 {
        0
    } else if moved > (len - 1) as i128 {
        len - 1
    } else {
        moved as usize
    }
}

fn back_in(cursor: usize, len: usize) -> (r: usize)
    ensures
        r == kept_in(cursor, len as nat),
{
    let last: usize = if len == 0 {
        0
    } else {
        len - 1
    };
    if cursor > last {
        last
    } else {
        cursor
    }
}

fn position_of_pal(names: &Vec<PalName>, name: &PalName) -> (r: Option<usize>)
    ensures
        match r {
            Some(i) => i < names@.len() && pal_texts(names@).contains(name@) && pal_texts(
                names@,
            ).index_of_first(name@) == Some(i as int),
            None => !pal_texts(names@).contains(name@),
        },
{
    let ghost list = pal_texts(names@);
    let mut i: usize = 0;
    while i < names.len()
        invariant
            list == pal_texts(names@),
            i <= names@.len(),
            forall|j: int| 0 <= j < i ==> #[trigger] list[j] != name@,
        decreases names@.len() - i,
    {
        proof {
            assert(list[i as int] == names@[i as int]@);
        }
        if names[i] == *name {
            proof {
                list.index_of_first_ensures(name@);
                assert(list.contains(name@));
                let k = list.index_of_first(name@)->0;
                assert(list[k] == name@);
            }
            return Some(i);
        }
        i = i + 1;
    }
    None
}

fn position_of_passive(names: &Vec<PassiveName>, name: &PassiveName) -> (r: Option<usize>)
    ensures
        match r {
            Some(i) => i < names@.len() && passive_texts(names@).contains(name@) && passive_texts(
                names@,
            ).index_of_first(name@) == Some(i as int),
            None => !passive_texts(names@).contains(name@),
        },
{
    let ghost list = passive_texts(names@);
    let mut i: usize = 0;
    while i < names.len()
        invariant
            list == passive_texts(names@),
            i <= names@.len(),
            forall|j: int| 0 <= j < i ==> #[trigger] list[j] != name@,
        decreases names@.len() - i,
    {
        proof {
            assert(list[i as int] == names@[i as int]@);
        }
        if names[i] == *name {
            proof {
                list.index_of_first_ensures(name@);
                assert(list.contains(name@));
                let k = list.index_of_first(name@)->0;
                assert(list[k] == name@);
            }
            return Some(i);
        }
        i = i + 1;
    }
    None
}

fn owned_text(text: &str) -> (r: String)
    ensures
        r@ == text@,
{
    text.to_owned()
}

fn two(front: &str, back: &str) -> (r: String)
    ensures
        r@ == front@ + back@,
{
    let mut out = front.to_owned();
    out.append(back);
    out
}

fn around(front: &str, number: usize, back: &str) -> (r: String)
    ensures
        r@ == front@ + decimal(number as nat) + back@,
{
    let mut out = front.to_owned();
    out.append(decimal_of(number as u128).as_str());
    out.append(back);
    out
}

// ---------------------------------------------------------------------
// Rows
// ---------------------------------------------------------------------
impl<'db> App<'db> {
    /// Rows for the Pals pane: marked progenitors pinned at the top (in
    /// marking order, shown even when the filter would exclude them, so
    /// each stays one keypress from unmarking), then every filter match
    /// sorted by display name.
    pub fn species_rows(&self) -> (r: Vec<&'db Pal>)
        requires
            self.wf(),
        ensures
            referents(r@) == self@.pals_shown(self.solver.db()),
    {
        let db: &'db PalDb = self.db();
        let ghost marked = pal_texts(self.progenitors@);
        let mut rows: Vec<&'db Pal> = Vec::new();
        let mut i: usize = 0;
        proof {
            assert(marked.take(0) =~= Seq::empty());
            assert(referents(rows@) =~= Seq::empty());
        }
        while i < self.progenitors.len()
            invariant
                db.wf(),
                marked == pal_texts(self.progenitors@),
                i <= self.progenitors@.len(),
                referents(rows@) == known_pals(*db, marked.take(i as int)),
            decreases self.progenitors@.len() - i,
        {
            proof {
                assert(marked.take(i + 1).drop_last() =~= marked.take(i as int));
                assert(marked.take(i + 1).last() == self.progenitors@[i as int]@);
            }
            match db.pal(&self.progenitors[i]) {
                Some(pal) => {
                    let ghost so_far = referents(rows@);
                    rows.push(pal);
                    proof {
                        assert(referents(rows@) =~= so_far.push(*pal));
                    }
                },
                None => {},
            }
            i = i + 1;
        }
        proof {
            assert(marked.take(i as int) =~= marked);
        }
        let ghost wanted = unmarked_pal(marked, self.species_filter@);
        let keep = |p: &Pal| -> (b: bool)
            ensures
                b == wanted(*p),
            {
                !holds_pal(&self.progenitors, &p.name) && matches_filter(
                    self.species_filter.as_str(),
                    p.display_name.as_str(),
                    p.name.as_str(),
                )
            };
        let matching = pick(db.pals(), keep, Ghost(wanted));
        let earlier = |a: &Pal, b: &Pal| -> (o: bool)
            ensures
                o == by_pal_display()(*a, *b),
            { comes_before(a.display_name.as_str(), b.display_name.as_str()) };
        let rest = sort_refs(&matching, earlier, Ghost(by_pal_display()));
        let ghost pinned = referents(rows@);
        let ghost tail = referents(rest@);
        let mut k: usize = 0;
        proof {
            assert(pinned + tail.take(0) =~= pinned);
        }
        while k < rest.len()
            invariant
                tail == referents(rest@),
                k <= rest@.len(),
                referents(rows@) == pinned + tail.take(k as int),
            decreases rest@.len() - k,
        {
            let ghost so_far = referents(rows@);
            rows.push(rest[k]);
            proof {
                assert(tail[k as int] == *rest@[k as int]);
                assert(referents(rows@) =~= so_far.push(tail[k as int]));
                assert(so_far.push(tail[k as int]) =~= pinned + tail.take(k + 1));
            }
            k = k + 1;
        }
        proof {
            assert(tail.take(k as int) =~= tail);
        }
        rows
    }

    /// Rows for the Passives pane: selected passives pinned at the top
    /// (in selection order, shown even when the filter would exclude
    /// them, so each stays one keypress from deselecting), then every
    /// standard filter match sorted by display name.
    pub fn passive_rows(&self) -> (r: Vec<&'db PassiveSkill>)
        requires
            self.wf(),
        ensures
            referents(r@) == self@.skills_shown(self.solver.db()),
    {
        let db: &'db PalDb = self.db();
        let ghost chosen = passive_texts(self.selected_passives@);
        let mut rows: Vec<&'db PassiveSkill> = Vec::new();
        let mut i: usize = 0;
        proof {
            assert(chosen.take(0) =~= Seq::empty());
            assert(referents(rows@) =~= Seq::empty());
        }
        while i < self.selected_passives.len()
            invariant
                db.wf(),
                chosen == passive_texts(self.selected_passives@),
                i <= self.selected_passives@.len(),
                referents(rows@) == known_skills(*db, chosen.take(i as int)),
            decreases self.selected_passives@.len() - i,
        {
            proof {
                assert(chosen.take(i + 1).drop_last() =~= chosen.take(i as int));
                assert(chosen.take(i + 1).last() == self.selected_passives@[i as int]@);
            }
            match db.passive(&self.selected_passives[i]) {
                Some(skill) => {
                    let ghost so_far = referents(rows@);
                    rows.push(skill);
                    proof {
                        assert(referents(rows@) =~= so_far.push(*skill));
                    }
                },
                None => {},
            }
            i = i + 1;
        }
        proof {
            assert(chosen.take(i as int) =~= chosen);
        }
        let ghost wanted = unselected_skill(chosen, self.passive_filter@);
        let keep = |p: &PassiveSkill| -> (b: bool)
            ensures
                b == wanted(*p),
            {
                p.standard && !holds_passive(&self.selected_passives, &p.name) && matches_filter(
                    self.passive_filter.as_str(),
                    p.display_name.as_str(),
                    p.name.as_str(),
                )
            };
        let matching = pick(db.passives(), keep, Ghost(wanted));
        let earlier = |a: &PassiveSkill, b: &PassiveSkill| -> (o: bool)
            ensures
                o == by_skill_display()(*a, *b),
            { comes_before(a.display_name.as_str(), b.display_name.as_str()) };
        let rest = sort_refs(&matching, earlier, Ghost(by_skill_display()));
        let ghost pinned = referents(rows@);
        let ghost tail = referents(rest@);
        let mut k: usize = 0;
        proof {
            assert(pinned + tail.take(0) =~= pinned);
        }
        while k < rest.len()
            invariant
                tail == referents(rest@),
                k <= rest@.len(),
                referents(rows@) == pinned + tail.take(k as int),
            decreases rest@.len() - k,
        {
            let ghost so_far = referents(rows@);
            rows.push(rest[k]);
            proof {
                assert(tail[k as int] == *rest@[k as int]);
                assert(referents(rows@) =~= so_far.push(tail[k as int]));
                assert(so_far.push(tail[k as int]) =~= pinned + tail.take(k + 1));
            }
            k = k + 1;
        }
        proof {
            assert(tail.take(k as int) =~= tail);
        }
        rows
    }
}

// ---------------------------------------------------------------------
// Searching
// ---------------------------------------------------------------------
impl<'db> App<'db> {
    fn describe_plans(&self, plans: &Vec<BreedingPlan>, announce: &Announce) -> (r: String)
        ensures
            r@ == self@.announcement(plan_views(plans@), announce@),
    {
        let count: usize = plans.len();
        proof {
            assert(plan_views(plans@).len() == count);
            if count > 0 {
                assert(plan_views(plans@)[0] == plans@[0]@);
            }
            assert(self@.progenitors.len() == self.progenitors@.len());
            assert(self@.selected.len() == self.selected_passives@.len());
        }
        match announce {
            Announce::Replan { label, saved_eggs } => {
                let mut out = "re-planned \"".to_owned();
                out.append(label.as_str());
                if count > 0 {
                    out.append("\": best ");
                    out.append(hundredths_text(plans[0].expected_eggs).as_str());
                    out.append(" eggs now (saved plan was ");
                    out.append(hundredths_text(*saved_eggs).as_str());
                    out.append(")");
                } else {
                    out.append("\": no plans with the current box (saved plan was ");
                    out.append(hundredths_text(*saved_eggs).as_str());
                    out.append(" eggs)");
                }
                out
            },
            Announce::Standard => {
                let progenitor_mode = self.progenitors.len() > 0;
                if count == 0 {
                    if progenitor_mode && (self.selected_passives.len() > 0
                        || !self.iv_thresholds.is_empty()) {
                        owned_text(
                            "no plans — progenitor pals carry no passives or IVs; drop those requirements or plan from the pool",
                        )
                    } else {
                        around(
                            "no plans within ",
                            self.max_breeding_steps,
                            " step(s) — raise the depth with → or check the pool",
                        )
                    }
                } else if progenitor_mode {
                    let mut out = decimal_of(count as u128);
                    out.append(" plan(s) from ");
                    out.append(decimal_of(self.progenitors.len() as u128).as_str());
                    out.append(" progenitor pal(s)");
                    out
                } else {
                    let mut out = decimal_of(count as u128);
                    out.append(" plan(s) found");
                    out
                }
            },
        }
    }

    /// Lands a finished search. Anything but the latest generation is a
    /// superseded question and is discarded unapplied.
    pub fn apply_search_outcome(&mut self, outcome: SearchOutcome)
        ensures
            final(self).same_app(old(self)),
            final(self)@ == old(self)@.applied(outcome@),
            old(self).wf() ==> final(self).wf(),
    {
        if outcome.generation != self.latest_gen {
            return;
        }
        self.activity = SearchActivity::Idle;
        match outcome.result {
            Ok(plans) => {
                self.status = self.describe_plans(&plans, &outcome.announce);
                let any = plans.len() > 0;
                self.plans = plans;
                self.plan_cursor = 0;
                if outcome.focus_results && any {
                    self.focus = Pane::Results;
                }
            },
            Err(error) => {
                self.status = error.message();
            },
        }
    }

    fn next_gen(&mut self)
        ensures
            final(self).same_app(old(self)),
            final(self)@ == old(self)@.next_generation(),
            old(self).wf() ==> final(self).wf(),
    {
        self.latest_gen = if self.latest_gen.0 == u64::MAX {
            SearchGen(0)
        } else {
            SearchGen(self.latest_gen.0 + 1)
        };
    }

    fn search_announcing(&mut self, focus_results: bool, announce: Announce)
        requires
            old(self).wf(),
        ensures
            final(self).wf(),
            final(self).same_app(old(self)),
            final(self)@ == old(self)@.asked(*old(self).solver, focus_results, announce@),
    {
        let target = match &self.target {
            Some(name) => name.clone(),
            None => {
                self.status = owned_text("pick a target pal first (Enter in the Pals pane)");
                return;
            },
        };
        let progenitor_mode = self.progenitors.len() > 0;
        let goal = BreedingGoal {
            species: target,
            passives: copy_passives(&self.selected_passives),
            progenitors: copy_pals(&self.progenitors),
            iv_thresholds: self.iv_thresholds,
        };
        let pool: Vec<OwnedPal> = if progenitor_mode {
            Vec::new()
        } else {
            copy_owned(&self.owned)
        };
        let config = SearchConfig {
            max_breeding_steps: self.max_breeding_steps,
            max_results: MAX_RESULTS,
            allow_wild_pals: self.allow_wild || progenitor_mode,
        };
        self.next_gen();
        let ghost now = self@;
        proof {
            assert(now.progenitors.len() == self.progenitors@.len());
            assert(owned_views(pool@) =~= now.stock());
            assert(goal@ == now.goal());
            assert(config == now.settings());
        }
        let request = SearchRequest {
            generation: self.latest_gen,
            pool,
            goal,
            config,
            focus_results,
            announce,
        };
        match self.mode {
            SearchMode::Inline => {
                let outcome = run_search(self.solver, request);
                self.apply_search_outcome(outcome);
            },
            SearchMode::Deferred => {
                let spinner_tick: usize = match self.spinner() {
                    Some(tick) => tick,
                    None => 0,
                };
                self.activity = SearchActivity::Awaiting { spinner_tick };
                self.pending_search = Some(request);
            },
        }
    }

    pub fn run_search(&mut self)
        requires
            old(self).wf(),
        ensures
            final(self).wf(),
            final(self).same_app(old(self)),
            final(self)@ == old(self)@.asked(*old(self).solver, true, Notice::Standard),
    {
        self.search_announcing(true, Announce::Standard);
    }

    /// Drops any parked request and invalidates whatever a worker is
    /// still computing, so a stale outcome can never apply.
    fn cancel_pending_search(&mut self)
        ensures
            final(self).same_app(old(self)),
            final(self)@ == old(self)@.cancelled(),
            old(self).wf() ==> final(self).wf(),
    {
        self.next_gen();
        self.pending_search = None;
        self.activity = SearchActivity::Idle;
    }

    fn replan(&mut self)
        requires
            old(self).wf(),
        ensures
            final(self).wf(),
            final(self).same_app(old(self)),
            final(self)@ == old(self)@.replanned(*old(self).solver),
    {
        if self.target.is_some() {
            self.search_announcing(false, Announce::Standard);
        } else {
            self.plans = Vec::new();
            self.plan_cursor = 0;
            proof {
                assert(plan_views(self.plans@) =~= Seq::empty());
            }
            self.cancel_pending_search();
        }
    }

    /// Re-runs the search after a state change: silently when no target
    /// is picked yet (plans just stay empty), and without stealing
    /// focus. Changing the live question also leaves the saved-plan
    /// view.
    fn refresh_plans(&mut self)
        requires
            old(self).wf(),
        ensures
            final(self).wf(),
            final(self).same_app(old(self)),
            final(self)@ == old(self)@.refreshed(*old(self).solver),
    {
        self.viewing_saved = false;
        self.replan();
    }
}

// ---------------------------------------------------------------------
// The question
// ---------------------------------------------------------------------
impl<'db> App<'db> {
    fn toggle_passive(&mut self, name: &PassiveName, display: &str)
        requires
            old(self).wf(),
        ensures
            final(self).wf(),
            final(self).same_app(old(self)),
            final(self)@ == old(self)@.passive_toggled(*old(self).solver, name@, display@),
    {
        let ghost was = self@;
        match position_of_passive(&self.selected_passives, name) {
            Some(position) => {
                self.selected_passives.remove(position);
                self.status = two("dropped ", display);
                proof {
                    assert(self@.selected =~= was.selected.remove(position as int));
                }
                self.refresh_plans();
            },
            None => {
                proof {
                    assert(was.selected.len() == self.selected_passives@.len());
                }
                if self.selected_passives.len() == MAX_TOTAL_PASSIVES {
                    self.status = around("a pal carries at most ", MAX_TOTAL_PASSIVES, " passives");
                } else {
                    self.selected_passives.push(name.clone());
                    self.status = two("added ", display);
                    proof {
                        assert(self@.selected =~= was.selected.push(name@));
                    }
                    self.refresh_plans();
                }
            },
        }
    }

    fn toggle_progenitor(&mut self)
        requires
            old(self).wf(),
        ensures
            final(self).wf(),
            final(self).same_app(old(self)),
            final(self)@ == old(self)@.progenitor_toggled(*old(self).solver),
    {
        if self.focus != Pane::Pals {
            return;
        }
        let ghost was = self@;
        let rows = self.species_rows();
        let ghost list = referents(rows@);
        proof {
            assert(list.len() == rows@.len());
        }
        if self.species_cursor >= rows.len() {
            return;
        }
        let pal: &'db Pal = rows[self.species_cursor];
        proof {
            assert(list[self.species_cursor as int] == *pal);
        }
        match position_of_pal(&self.progenitors, &pal.name) {
            Some(position) => {
                self.progenitors.remove(position);
                self.status = two("progenitor removed: ", pal.display_name.as_str());
                proof {
                    assert(self@.progenitors =~= was.progenitors.remove(position as int));
                }
                self.refresh_plans();
            },
            None => {
                proof {
                    assert(was.progenitors.len() == self.progenitors@.len());
                }
                if self.progenitors.len() == MAX_PROGENITORS {
                    self.status = around("at most ", MAX_PROGENITORS, " progenitors");
                } else {
                    self.progenitors.push(pal.name.clone());
                    let mut status = two("progenitor added: ", pal.display_name.as_str());
                    status.append(" — plans will start from the ");
                    status.append(decimal_of(self.progenitors.len() as u128).as_str());
                    status.append(" marked pal(s) only");
                    self.status = status;
                    proof {
                        assert(self@.progenitors =~= was.progenitors.push(pal.name@));
                    }
                    self.refresh_plans();
                }
            },
        }
    }

    fn clear_progenitors(&mut self)
        requires
            old(self).wf(),
        ensures
            final(self).wf(),
            final(self).same_app(old(self)),
            final(self)@ == old(self)@.progenitors_cleared(*old(self).solver),
    {
        proof {
            assert(self@.progenitors.len() == self.progenitors@.len());
        }
        if self.progenitors.len() == 0 {
            self.status = owned_text("no progenitors marked");
        } else {
            self.status = around("cleared ", self.progenitors.len(), " progenitor(s)");
            self.progenitors = Vec::new();
            proof {
                assert(self@.progenitors =~= Seq::empty());
            }
            self.refresh_plans();
        }
    }

    /// h/a/d raise (lowercase) or lower (uppercase) one stat's IV
    /// minimum in steps of 10; stepping below 10 turns the minimum off.
    fn adjust_iv_threshold(&mut self, key: char)
        requires
            old(self).wf(),
        ensures
            final(self).wf(),
            final(self).same_app(old(self)),
            final(self)@ == old(self)@.threshold_stepped(*old(self).solver, key),
    {
        let stat = if key == 'h' || key == 'H' {
            IvStat::Hp
        } else if key == 'a' || key == 'A' {
            IvStat::Attack
        } else {
            IvStat::Defense
        };
        let current: Option<IvValue> = self.iv_thresholds.get(stat);
        let up = 'a' <= key && key <= 'z';
        let next: Option<IvValue> = step_iv_threshold(current, up);
        match stat {
            IvStat::Hp => {
                self.iv_thresholds.hp = next;
            },
            IvStat::Attack => {
                self.iv_thresholds.attack = next;
            },
            IvStat::Defense => {
                self.iv_thresholds.defense = next;
            },
        }
        if !same_threshold(next, current) {
            self.refresh_plans();
        }
        let mut status = two("IV minimums — HP ", describe_threshold(self.iv_thresholds.hp).as_str());
        status.append(" · Attack ");
        status.append(describe_threshold(self.iv_thresholds.attack).as_str());
        status.append(" · Defense ");
        status.append(describe_threshold(self.iv_thresholds.defense).as_str());
        self.status = status;
    }

    fn toggle_wild(&mut self)
        requires
            old(self).wf(),
        ensures
            final(self).wf(),
            final(self).same_app(old(self)),
            final(self)@ == old(self)@.wild_toggled(*old(self).solver),
    {
        self.allow_wild = !self.allow_wild;
        self.status = if self.allow_wild {
            owned_text("wild pals: on — any catchable pal can join plans")
        } else {
            owned_text("wild pals: off — plans use only the owned pool")
        };
        self.refresh_plans();
    }

    fn adjust_depth(&mut self, delta: isize)
        requires
            old(self).wf(),
        ensures
            final(self).wf(),
            final(self).same_app(old(self)),
            final(self)@ == old(self)@.depth_adjusted(*old(self).solver, delta as int),
    {
        let moved: i128 = self.max_breeding_steps as i128 + delta as i128;
        let adjusted: usize = if moved < MIN_BREEDING_STEPS as i128 {
            MIN_BREEDING_STEPS
        } else if moved > MAX_BREEDING_STEPS as i128 {
            MAX_BREEDING_STEPS
        } else {
            moved as usize
        };
        let changed = adjusted != self.max_breeding_steps;
        self.max_breeding_steps = adjusted;
        self.status = around("search depth: up to ", adjusted, " breeding step(s)");
        if changed {
            self.refresh_plans();
        }
    }

    /// `:clear`: reset the breeding question. IV floors and filter text
    /// stay.
    fn clear_goal(&mut self)
        requires
            old(self).wf(),
        ensures
            final(self).wf(),
            final(self).same_app(old(self)),
            final(self)@ == old(self)@.goal_cleared(*old(self).solver),
    {
        proof {
            assert(self@.progenitors.len() == self.progenitors@.len());
            assert(self@.selected.len() == self.selected_passives@.len());
        }
        if self.target.is_none() && self.progenitors.len() == 0 && self.selected_passives.len()
            == 0 {
            self.status = owned_text("nothing selected to clear");
            return;
        }
        self.target = None;
        self.progenitors = Vec::new();
        self.selected_passives = Vec::new();
        proof {
            assert(self@.progenitors =~= Seq::empty());
            assert(self@.selected =~= Seq::empty());
        }
        self.refresh_plans();
        self.status = owned_text("cleared: target, progenitors, and passives");
    }

    fn move_cursor(&mut self, delta: isize)
        requires
            old(self).wf(),
        ensures
            final(self).wf(),
            final(self).same_app(old(self)),
            final(self)@ == old(self)@.cursor_moved(old(self).solver.db(), delta as int),
    {
        match self.focus {
            Pane::Pals => {
                let rows = self.species_rows();
                proof {
                    assert(referents(rows@).len() == rows@.len());
                }
                self.species_cursor = step(self.species_cursor, delta, rows.len());
            },
            Pane::Passives => {
                let rows = self.passive_rows();
                proof {
                    assert(referents(rows@).len() == rows@.len());
                }
                self.passive_cursor = step(self.passive_cursor, delta, rows.len());
            },
            Pane::Results => {
                if self.viewing_saved {
                    proof {
                        assert(self@.saved.len() == self.saved.plans@.len());
                    }
                    self.saved_cursor = step(self.saved_cursor, delta, self.saved.plans.len());
                } else {
                    proof {
                        assert(self@.plans.len() == self.plans@.len());
                    }
                    self.plan_cursor = step(self.plan_cursor, delta, self.plans.len());
                }
            },
        }
    }
}

fn same_threshold(a: Option<IvValue>, b: Option<IvValue>) -> (r: bool)
    ensures
        r == (a == b),
{
    match a {
        Some(x) => match b {
            Some(y) => x == y,
            None => false,
        },
        None => b.is_none(),
    }
}

// ---------------------------------------------------------------------
// The library
// ---------------------------------------------------------------------
impl<'db> App<'db> {
    fn library_focused(&self) -> (r: bool)
        ensures
            r == self@.library_focused(),
    {
        self.viewing_saved && self.focus == Pane::Results
    }

    /// Ctrl+S (or F8): bookmark the highlighted plan into the library.
    fn save_current_plan(&mut self) -> (r: Option<Chore>)
        requires
            old(self).wf(),
        ensures
            final(self).wf(),
            final(self).same_app(old(self)),
            (Step { state: final(self)@, chore: chore_view(r) }) == old(self)@.plan_saved(
                old(self).solver.db(),
            ),
    {
        let ghost was = self@;
        if self.viewing_saved {
            self.status = owned_text("already viewing the library — Ctrl+L returns to live plans");
            return None;
        }
        proof {
            assert(was.plans.len() == self.plans@.len());
        }
        if self.plan_cursor >= self.plans.len() {
            self.status = owned_text("no plan highlighted to save");
            return None;
        }
        let target = match &self.target {
            Some(name) => name.clone(),
            None => {
                self.status = owned_text("no plan highlighted to save");
                return None;
            },
        };
        let plan = self.plans[self.plan_cursor].clone();
        proof {
            assert(was.plans[self.plan_cursor as int] == self.plans@[self.plan_cursor as int]@);
            assert(was.selected.len() == self.selected_passives@.len());
        }
        let db = self.db();
        let mut label = two(display(db, &target), " — ");
        label.append(decimal_of(plan.steps as u128).as_str());
        label.append(" step(s), ");
        label.append(hundredths_text(plan.expected_eggs).as_str());
        label.append(" eggs");
        if self.selected_passives.len() > 0 {
            label.append(", ");
            label.append(decimal_of(self.selected_passives.len() as u128).as_str());
            label.append(" passive(s)");
        }
        let saved = SavedPlan {
            label: label.clone(),
            goal_species: target,
            goal_passives: copy_passives(&self.selected_passives),
            goal_progenitors: copy_pals(&self.progenitors),
            goal_iv_thresholds: self.iv_thresholds,
            expected_eggs: plan.expected_eggs,
            steps: plan.steps,
            root: plan.root,
        };
        self.saved.add(saved);
        proof {
            assert(self@.saved =~= was.saved.push(saved@));
        }
        Some(Chore::WriteSaved { label })
    }

    /// Ctrl+L (or F9): flip the Plans pane between live results and the
    /// library.
    fn toggle_saved_view(&mut self)
        requires
            old(self).wf(),
        ensures
            final(self).wf(),
            final(self).same_app(old(self)),
            final(self)@ == old(self)@.library_toggled(),
    {
        proof {
            assert(self@.saved.len() == self.saved.plans@.len());
        }
        if self.viewing_saved {
            self.viewing_saved = false;
            self.status = owned_text("live plans");
        } else {
            self.viewing_saved = true;
            self.focus = Pane::Results;
            let count: usize = self.saved.plans.len();
            self.saved_cursor = back_in(self.saved_cursor, count);
            let mut status = around("library: ", count, " saved plan(s) · ");
            status.append(self.saved.path.as_str());
            self.status = status;
        }
    }

    /// `:o`: show the library; already viewing it is a no-op, not a
    /// toggle.
    fn open_library(&mut self)
        requires
            old(self).wf(),
        ensures
            final(self).wf(),
            final(self).same_app(old(self)),
            final(self)@ == old(self)@.library_opened(),
    {
        if self.viewing_saved {
            self.status = owned_text("already viewing the library");
        } else {
            self.toggle_saved_view();
        }
    }

    /// Delete (library view): remove the highlighted saved plan.
    fn delete_saved_plan(&mut self) -> (r: Option<Chore>)
        requires
            old(self).wf(),
        ensures
            final(self).wf(),
            final(self).same_app(old(self)),
            (Step { state: final(self)@, chore: chore_view(r) }) == old(self)@.saved_removed(),
    {
        let ghost was = self@;
        proof {
            assert(was.saved.len() == self.saved.plans@.len());
        }
        match self.saved.remove(self.saved_cursor) {
            Some(removed) => {
                proof {
                    let at = self.saved_cursor as int;
                    assert(self@.saved =~= was.saved.remove(at));
                    assert(was.saved[at] == removed@);
                }
                Some(Chore::WriteDeleted { label: removed.label })
            },
            None => {
                self.status = owned_text("nothing to delete");
                None
            },
        }
    }

    /// `:dd`: delete the highlighted saved plan.
    fn delete_selected_plan(&mut self) -> (r: Option<Chore>)
        requires
            old(self).wf(),
        ensures
            final(self).wf(),
            final(self).same_app(old(self)),
            (Step { state: final(self)@, chore: chore_view(r) }) == old(self)@.selected_deleted(),
    {
        if self.viewing_saved {
            self.delete_saved_plan()
        } else {
            self.status = owned_text("no saved plan selected — :o opens the library");
            None
        }
    }

    /// Delete in context: the highlighted saved plan when the library is
    /// open, otherwise all progenitor marks.
    fn contextual_delete(&mut self) -> (r: Option<Chore>)
        requires
            old(self).wf(),
        ensures
            final(self).wf(),
            final(self).same_app(old(self)),
            (Step { state: final(self)@, chore: chore_view(r) }) == old(self)@.context_deleted(
                *old(self).solver,
            ),
    {
        if self.viewing_saved {
            self.delete_saved_plan()
        } else {
            self.clear_progenitors();
            None
        }
    }

    /// Enter on a library entry: restore the saved goal and re-plan
    /// against the current box, reporting how the cost moved. The
    /// original stays in the library untouched.
    fn load_saved_plan(&mut self)
        requires
            old(self).wf(),
        ensures
            final(self).wf(),
            final(self).same_app(old(self)),
            final(self)@ == old(self)@.saved_loaded(*old(self).solver),
    {
        let ghost was = self@;
        proof {
            assert(was.saved.len() == self.saved.plans@.len());
        }
        if self.saved_cursor >= self.saved.plans.len() {
            return;
        }
        let saved = self.saved.plans[self.saved_cursor].clone();
        proof {
            assert(was.saved[self.saved_cursor as int] == saved@);
        }
        self.target = Some(saved.goal_species);
        self.selected_passives = saved.goal_passives;
        self.progenitors = saved.goal_progenitors;
        self.iv_thresholds = saved.goal_iv_thresholds;
        self.viewing_saved = false;
        self.search_announcing(
            true,
            Announce::Replan { label: saved.label, saved_eggs: saved.expected_eggs },
        );
    }

    /// What the shell reports after writing the library: nothing, or why
    /// it could not.
    pub fn finish_write(&mut self, chore: Chore, failure: Option<String>)
        requires
            old(self).wf(),
        ensures
            final(self).wf(),
            final(self).same_app(old(self)),
            final(self)@ == old(self)@.written(chore@, text_view(failure)),
    {
        match chore {
            Chore::WriteSaved { label } => match failure {
                None => {
                    self.status = two("saved: ", label.as_str());
                },
                Some(error) => {
                    self.status = two("could not save plan: ", error.as_str());
                },
            },
            Chore::WriteDeleted { label } => match failure {
                None => {
                    proof {
                        assert(self@.saved.len() == self.saved.plans@.len());
                    }
                    self.saved_cursor = back_in(self.saved_cursor, self.saved.plans.len());
                    self.status = two("deleted: ", label.as_str());
                },
                Some(error) => {
                    self.status = two("could not delete plan: ", error.as_str());
                },
            },
            Chore::Reload { path: _ } => {},
        }
    }
}

// ---------------------------------------------------------------------
// The pool
// ---------------------------------------------------------------------
impl<'db> App<'db> {
    /// F6: re-import the pool from the file it was loaded from, so a
    /// fresh in-game save lands without restarting.
    fn reload_pool(&mut self) -> (r: Option<Chore>)
        requires
            old(self).wf(),
        ensures
            final(self).wf(),
            final(self).same_app(old(self)),
            (Step { state: final(self)@, chore: chore_view(r) }) == old(self)@.reload_asked(),
    {
        match &self.pool_path {
            Some(path) => Some(Chore::Reload { path: path.clone() }),
            None => {
                self.status = owned_text("the pool did not come from a file — nothing to reload");
                None
            },
        }
    }

    /// What the shell reports after loading the pool file again.
    pub fn finish_reload(&mut self, path: &str, loaded: Result<Loaded, PoolError>)
        requires
            old(self).wf(),
        ensures
            final(self).wf(),
            final(self).same_app(old(self)),
            final(self)@ == old(self)@.reloaded(*old(self).solver, path@, loaded),
    {
        match loaded {
            Ok(Loaded::Pool { owned, status }) => {
                self.owned = owned;
                self.replan();
                self.status = two("reloaded: ", status.as_str());
            },
            Ok(Loaded::Missing) => {
                self.status = crate::pool::load::kept_pool_status(path);
            },
            Err(error) => {
                let mut status = two("reload failed: ", error.message().as_str());
                status.append(" — keeping the current pool");
                self.status = status;
            },
        }
    }
}

// ---------------------------------------------------------------------
// Inputs
// ---------------------------------------------------------------------
impl<'db> App<'db> {
    fn confirm(&mut self)
        requires
            old(self).wf(),
        ensures
            final(self).wf(),
            final(self).same_app(old(self)),
            final(self)@ == old(self)@.confirmed(*old(self).solver),
    {
        match self.focus {
            Pane::Pals => {
                let rows = self.species_rows();
                let ghost list = referents(rows@);
                proof {
                    assert(list.len() == rows@.len());
                }
                if self.species_cursor < rows.len() {
                    let pal: &'db Pal = rows[self.species_cursor];
                    proof {
                        assert(list[self.species_cursor as int] == *pal);
                    }
                    self.target = Some(pal.name.clone());
                    self.status = two("target: ", pal.display_name.as_str());
                    self.refresh_plans();
                }
            },
            Pane::Passives => {
                let rows = self.passive_rows();
                let ghost list = referents(rows@);
                proof {
                    assert(list.len() == rows@.len());
                }
                if self.passive_cursor < rows.len() {
                    let skill: &'db PassiveSkill = rows[self.passive_cursor];
                    proof {
                        assert(list[self.passive_cursor as int] == *skill);
                    }
                    self.toggle_passive(&skill.name, skill.display_name.as_str());
                }
            },
            Pane::Results => {
                if self.viewing_saved {
                    self.load_saved_plan();
                } else {
                    self.run_search();
                }
            },
        }
    }

    fn execute_command(&mut self, input: &str) -> (r: Option<Chore>)
        requires
            old(self).wf(),
        ensures
            final(self).wf(),
            final(self).same_app(old(self)),
            (Step { state: final(self)@, chore: chore_view(r) }) == old(self)@.commanded(
                *old(self).solver,
                input@,
            ),
    {
        let word = trim(input);
        if crate::text::chars_of(word.as_str()).len() == 0 {
            return None;
        }
        match Command::parse(input) {
            Ok(Command::Open(doc)) => {
                self.overlay = Overlay::Doc(DocView::open(doc, self.documents));
                None
            },
            Ok(Command::SavePlan) => self.save_current_plan(),
            Ok(Command::OpenLibrary) => {
                self.open_library();
                None
            },
            Ok(Command::DeletePlan) => self.delete_selected_plan(),
            Ok(Command::ClearGoal) => {
                self.clear_goal();
                None
            },
            Ok(Command::ReloadPool) => self.reload_pool(),
            Ok(Command::Quit) => {
                self.should_quit = true;
                None
            },
            Err(unknown) => {
                let mut status = two("unknown command: ", unknown.message());
                status.append(" — try :help");
                self.status = status;
                None
            },
        }
    }

    fn handle_prompt_key(&mut self, buffer: String, key: KeyEvent) -> (r: Option<Chore>)
        requires
            old(self).wf(),
            old(self)@.layer == Layer::Prompt(buffer@),
        ensures
            final(self).wf(),
            final(self).same_app(old(self)),
            (Step { state: final(self)@, chore: chore_view(r) }) == old(self)@.prompt_pressed(
                *old(self).solver,
                buffer@,
                key,
            ),
    {
        match key.code {
            KeyCode::Esc => {
                self.overlay = Overlay::Closed;
                None
            },
            KeyCode::Enter => {
                self.overlay = Overlay::Closed;
                self.execute_command(buffer.as_str())
            },
            // Vim behavior: erasing past the start closes the prompt.
            KeyCode::Backspace => {
                if crate::text::chars_of(buffer.as_str()).len() == 0 {
                    self.overlay = Overlay::Closed;
                } else {
                    self.overlay = Overlay::Prompt(drop_char(buffer.as_str()));
                }
                None
            },
            KeyCode::Char(c) => {
                if !key.control {
                    let mut longer = buffer;
                    longer.push(c);
                    self.overlay = Overlay::Prompt(longer);
                }
                None
            },
            _ => None,
        }
    }

    fn handle_doc_key(&mut self, view: DocView, key: KeyEvent)
        requires
            old(self).wf(),
            old(self)@.layer == Layer::Doc(view),
        ensures
            final(self).wf(),
            final(self).same_app(old(self)),
            final(self)@ == old(self)@.doc_pressed(view, key),
    {
        let mut moved = view;
        match key.code {
            KeyCode::Esc => {
                self.overlay = Overlay::Closed;
            },
            KeyCode::Up => {
                moved.scroll_lines(-1);
                self.overlay = Overlay::Doc(moved);
            },
            KeyCode::Down => {
                moved.scroll_lines(1);
                self.overlay = Overlay::Doc(moved);
            },
            KeyCode::PageUp => {
                moved.scroll_pages(-1);
                self.overlay = Overlay::Doc(moved);
            },
            KeyCode::PageDown => {
                moved.scroll_pages(1);
                self.overlay = Overlay::Doc(moved);
            },
            KeyCode::Home => {
                moved.scroll_to_top();
                self.overlay = Overlay::Doc(moved);
            },
            KeyCode::End => {
                moved.scroll_to_bottom();
                self.overlay = Overlay::Doc(moved);
            },
            KeyCode::Char(c) => {
                if c == 'q' || c == 'Q' {
                    self.overlay = Overlay::Closed;
                } else if c == ':' {
                    self.open_prompt();
                }
            },
            _ => {},
        }
    }

    fn open_prompt(&mut self)
        requires
            old(self).wf(),
        ensures
            final(self).wf(),
            final(self).same_app(old(self)),
            final(self)@ == old(self)@.under(Layer::Prompt(Seq::empty())),
    {
        let empty = String::new();
        proof {
            assert(empty@ =~= Seq::empty());
        }
        self.overlay = Overlay::Prompt(empty);
    }

    fn type_char(&mut self, c: char)
        requires
            old(self).wf(),
        ensures
            final(self).wf(),
            final(self).same_app(old(self)),
            final(self)@ == old(self)@.typed(c),
    {
        match self.focus {
            Pane::Pals => {
                self.species_filter.push(c);
                self.species_cursor = 0;
            },
            Pane::Passives => {
                self.passive_filter.push(c);
                self.passive_cursor = 0;
            },
            Pane::Results => {},
        }
    }

    fn erase_char(&mut self)
        requires
            old(self).wf(),
        ensures
            final(self).wf(),
            final(self).same_app(old(self)),
            final(self)@ == old(self)@.erased(),
    {
        match self.focus {
            Pane::Pals => {
                self.species_filter = drop_char(self.species_filter.as_str());
                self.species_cursor = 0;
            },
            Pane::Passives => {
                self.passive_filter = drop_char(self.passive_filter.as_str());
                self.passive_cursor = 0;
            },
            Pane::Results => {},
        }
    }

    fn handle_letter(&mut self, c: char, control: bool) -> (r: Option<Chore>)
        requires
            old(self).wf(),
        ensures
            final(self).wf(),
            final(self).same_app(old(self)),
            (Step { state: final(self)@, chore: chore_view(r) }) == old(self)@.letter_pressed(
                *old(self).solver,
                c,
                control,
            ),
    {
        // Ctrl+D works on every keyboard; the Delete key stays supported.
        if control && (c == 'd' || c == 'D') {
            return self.contextual_delete();
        }
        // F8/F9 remain as fallbacks for terminals that swallow these.
        if control && (c == 's' || c == 'S') {
            return self.save_current_plan();
        }
        if control && (c == 'l' || c == 'L') {
            self.toggle_saved_view();
            return None;
        }
        // Vim's x: single-key delete in the library pane.
        if c == 'x' && self.library_focused() && !control {
            return self.delete_saved_plan();
        }
        if (c == 'h' || c == 'H' || c == 'a' || c == 'A' || c == 'd' || c == 'D') && self.focus
            == Pane::Results && !control {
            self.adjust_iv_threshold(c);
            return None;
        }
        if c == ':' {
            self.open_prompt();
            return None;
        }
        if !control {
            self.type_char(c);
        }
        None
    }

    fn handle_function_key(&mut self, n: u8) -> (r: Option<Chore>)
        requires
            old(self).wf(),
        ensures
            final(self).wf(),
            final(self).same_app(old(self)),
            (Step { state: final(self)@, chore: chore_view(r) }) == old(self)@.function_pressed(
                *old(self).solver,
                n,
            ),
    {
        if n == 2 {
            self.toggle_wild();
            None
        } else if n == 4 {
            self.toggle_progenitor();
            None
        } else if n == 5 {
            self.run_search();
            None
        } else if n == 6 {
            self.reload_pool()
        } else if n == 8 {
            self.save_current_plan()
        } else if n == 9 {
            self.toggle_saved_view();
            None
        } else {
            None
        }
    }

    /// Handles a key while no layer is open. A letter held with Ctrl
    /// never leaks into a filter, never moves an IV floor and never
    /// quits.
    pub fn handle_pane_key(&mut self, key: KeyEvent) -> (r: Option<Chore>)
        requires
            old(self).wf(),
        ensures
            final(self).wf(),
            final(self).same_app(old(self)),
            key.control && key.code is Char ==> final(self)@.keeps_inputs(old(self)@),
            (Step { state: final(self)@, chore: chore_view(r) }) == old(self)@.pane_pressed(
                *old(self).solver,
                key,
            ),
    {
        match key.code {
            KeyCode::Esc => {
                self.should_quit = true;
                None
            },
            KeyCode::Tab => {
                self.focus = next_pane(self.focus);
                None
            },
            KeyCode::BackTab => {
                self.focus = next_pane(next_pane(self.focus));
                None
            },
            KeyCode::Up => {
                self.move_cursor(-1);
                None
            },
            KeyCode::Down => {
                self.move_cursor(1);
                None
            },
            KeyCode::Left => {
                self.adjust_depth(-1);
                None
            },
            KeyCode::Right => {
                self.adjust_depth(1);
                None
            },
            KeyCode::Enter => {
                self.confirm();
                None
            },
            KeyCode::F(n) => self.handle_function_key(n),
            KeyCode::Delete => self.contextual_delete(),
            // In the library the Mac delete key (= Backspace) deletes the
            // highlighted plan; elsewhere it edits the focused filter.
            KeyCode::Backspace => {
                if self.library_focused() {
                    self.delete_saved_plan()
                } else {
                    self.erase_char();
                    None
                }
            },
            KeyCode::Char(c) => self.handle_letter(c, key.control),
            _ => None,
        }
    }

    /// Handles a key. Returns the work that is left to the shell.
    pub fn handle_key(&mut self, key: KeyEvent) -> (r: Option<Chore>)
        requires
            old(self).wf(),
        ensures
            final(self).wf(),
            final(self).same_app(old(self)),
            key.control && key.code is Char ==> final(self)@.keeps_inputs(old(self)@),
            (Step { state: final(self)@, chore: chore_view(r) }) == old(self)@.pressed(
                *old(self).solver,
                key,
            ),
    {
        let prompt: Option<String> = match &self.overlay {
            Overlay::Prompt(buffer) => Some(buffer.clone()),
            _ => None,
        };
        let viewer: Option<DocView> = match &self.overlay {
            Overlay::Doc(view) => Some(*view),
            _ => None,
        };
        if let Some(buffer) = prompt {
            return self.handle_prompt_key(buffer, key);
        }
        if let Some(view) = viewer {
            self.handle_doc_key(view, key);
            return None;
        }
        self.handle_pane_key(key)
    }

    /// Mouse selection: clicking focuses the pane; clicking a row acts
    /// on it: target in the Pals pane (shift marks a progenitor
    /// instead), toggle in Passives, plan selection in Results. An open
    /// overlay owns the screen, so clicks stop at it.
    pub fn handle_click(&mut self, click: Click, shift: bool)
        requires
            old(self).wf(),
        ensures
            final(self).wf(),
            final(self).same_app(old(self)),
            final(self)@ == old(self)@.clicked(*old(self).solver, click, shift),
    {
        match &self.overlay {
            Overlay::Closed => {},
            _ => {
                return;
            },
        }
        self.focus = click.pane;
        let index: usize = match click.row {
            Some(index) => index,
            None => {
                return;
            },
        };
        match click.pane {
            Pane::Pals => {
                let rows = self.species_rows();
                proof {
                    assert(referents(rows@).len() == rows@.len());
                }
                if index < rows.len() {
                    self.species_cursor = index;
                    if shift {
                        self.toggle_progenitor();
                    } else {
                        self.confirm();
                    }
                }
            },
            Pane::Passives => {
                let rows = self.passive_rows();
                proof {
                    assert(referents(rows@).len() == rows@.len());
                }
                if index < rows.len() {
                    self.passive_cursor = index;
                    self.confirm();
                }
            },
            Pane::Results => {
                if self.viewing_saved {
                    proof {
                        assert(self@.saved.len() == self.saved.plans@.len());
                    }
                    if index < self.saved.plans.len() {
                        self.saved_cursor = index;
                    }
                } else {
                    proof {
                        assert(self@.plans.len() == self.plans@.len());
                    }
                    if index < self.plans.len() {
                        self.plan_cursor = index;
                    }
                }
            },
        }
    }

    /// Mouse-wheel input: scrolls the document viewer when one is open;
    /// means nothing anywhere else.
    pub fn handle_scroll(&mut self, delta: i16)
        requires
            old(self).wf(),
        ensures
            final(self).wf(),
            final(self).same_app(old(self)),
            final(self)@ == old(self)@.wheeled(delta as int),
    {
        let viewer: Option<DocView> = match &self.overlay {
            Overlay::Doc(view) => Some(*view),
            _ => None,
        };
        if let Some(view) = viewer {
            let mut moved = view;
            moved.scroll_lines(delta);
            self.overlay = Overlay::Doc(moved);
        }
    }
}

// ---------------------------------------------------------------------
// Staleness
// ---------------------------------------------------------------------
/// An owned pal stands for a saved leaf. Leaves saved before individual
/// values were modeled have zero ones; those match on species, gender
/// and passives alone.
pub open spec fn stands_for(owned: OwnedView, saved: OwnedView) -> bool {
    &&& owned.species == saved.species
    &&& owned.gender == saved.gender
    &&& owned.passives == saved.passives
    &&& (crate::save::import::zero_ivs(saved.ivs) || owned.ivs == saved.ivs)
}

/// Some owned pal stands for a saved leaf.
pub open spec fn still_owned(owned: Seq<OwnedView>, saved: OwnedView) -> bool {
    exists|i: int| 0 <= i < owned.len() && stands_for(#[trigger] owned[i], saved)
}

/// How many owned leaves of a tree are no longer in a pool.
pub open spec fn missing_leaves(tree: PlanTree, owned: Seq<OwnedView>) -> nat
    decreases tree,
{
    match tree {
        PlanTree::Owned(pal) => if still_owned(owned, pal) {
            0
        } else {
            1
        },
        PlanTree::Bred { male, female, species, carried } => missing_leaves(*male, owned)
            + missing_leaves(*female, owned),
        _ => 0,
    }
}

fn leaf_owned(owned: &Vec<OwnedPal>, saved: &OwnedPal) -> (r: bool)
    ensures
        r == still_owned(owned_views(owned@), saved@),
{
    let ghost views = owned_views(owned@);
    let zero = saved.ivs.hp.get() == 0 && saved.ivs.attack.get() == 0 && saved.ivs.defense.get()
        == 0;
    let mut i: usize = 0;
    while i < owned.len()
        invariant
            views == owned_views(owned@),
            zero == crate::save::import::zero_ivs(saved.ivs),
            i <= owned@.len(),
            forall|j: int| 0 <= j < i ==> !stands_for(#[trigger] views[j], saved@),
        decreases owned@.len() - i,
    {
        let pal = &owned[i];
        proof {
            assert(views[i as int] == pal@);
        }
        if pal.species == saved.species && pal.gender == saved.gender && same_passives(
            &pal.passives,
            &saved.passives,
        ) && (zero || pal.ivs == saved.ivs) {
            return true;
        }
        i = i + 1;
    }
    false
}

/// How many owned leaves of a plan are no longer in a pool, more than
/// can be counted being as many as can be.
fn count_missing(node: &PlanNode, owned: &Vec<OwnedPal>, so_far: usize) -> (r: usize)
    ensures
        r == crate::tui::command::clamped(
            so_far + missing_leaves(node@, owned_views(owned@)),
            0,
            usize::MAX as int,
        ),
    decreases *node,
{
    match node {
        PlanNode::Owned(pal) => {
            if leaf_owned(owned, pal) || so_far == usize::MAX {
                so_far
            } else {
                so_far + 1
            }
        },
        PlanNode::Bred(bred) => {
            let males: usize = count_missing(&bred.male, owned, so_far);
            count_missing(&bred.female, owned, males)
        },
        PlanNode::Wild(_) => so_far,
        PlanNode::Progenitor(_) => so_far,
    }
}

impl<'db> App<'db> {
    /// Owned pals in a saved plan's tree that no longer exist in the
    /// current pool: the plan's staleness measure.
    pub fn stale_leaves(&self, saved: &SavedPlan) -> (r: usize)
        ensures
            r == crate::tui::command::clamped(
                missing_leaves(saved.root@, self@.owned) as int,
                0,
                usize::MAX as int,
            ),
    {
        count_missing(&saved.root, &self.owned, 0)
    }
}

} // verus!
