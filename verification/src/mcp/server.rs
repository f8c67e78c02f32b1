//! The tools: translation between requests and the typed library.

use vstd::prelude::*;

use crate::chance::eggs_to_tenths;
use crate::chance::tenths_text;
use crate::child::ChildIndex;
use crate::child::Pairing;
use crate::iv::IvThresholds;
use crate::mcp::names::at_most;
use crate::mcp::names::by_skill_display;
use crate::mcp::names::minimums_fault;
use crate::mcp::names::parse_gender;
use crate::mcp::names::passive_suggestion;
use crate::mcp::names::resolve_passive;
use crate::mcp::names::resolve_species;
use crate::mcp::names::same_minimums;
use crate::mcp::names::skill_mentions;
use crate::mcp::names::species_suggestion;
use crate::mcp::names::thresholds;
use crate::mcp::names::unknown_text;
use crate::mcp::names::IvMinimums;
use crate::mcp::output::all_named;
use crate::mcp::output::owned_pal_json;
use crate::mcp::output::passive_refs;
use crate::mcp::output::passive_views;
use crate::mcp::output::passives_named;
use crate::mcp::output::plan_json;
use crate::mcp::output::reported_pal;
use crate::mcp::output::reported_plan;
use crate::mcp::output::species_named;
use crate::mcp::output::species_ref;
use crate::mcp::output::species_refs;
use crate::mcp::output::species_views;
use crate::mcp::output::NameView;
use crate::mcp::output::OwnedPalJson;
use crate::mcp::output::PassiveRef;
use crate::mcp::output::PlanJson;
use crate::mcp::output::ReportedPal;
use crate::mcp::output::ReportedPlan;
use crate::mcp::output::SpeciesRef;
use crate::model::holds_passive;
use crate::model::Gender;
use crate::model::PalDb;
use crate::model::PalName;
use crate::model::PassiveName;
use crate::model::PassiveSkill;
use crate::names::display;
use crate::names::name_mentions;
use crate::names::shown;
use crate::pool::load::Loaded;
use crate::pool::load::PoolError;
use crate::pool::pals_file::spoken_gender;
use crate::search::plan::owned_views;
use crate::search::plan::plan_views;
use crate::search::plan::BreedingGoal;
use crate::search::plan::BreedingPlan;
use crate::search::plan::GoalView;
use crate::search::plan::OwnedPal;
use crate::search::plan::PlanView;
use crate::search::plan::SearchConfig;
use crate::search::seed::first_fault;
use crate::search::solver::answers;
use crate::search::solver::Solver;
use crate::seqs::first_where;
use crate::seqs::kept;
use crate::seqs::lemma_first_where;
use crate::seqs::pick;
use crate::seqs::referents;
use crate::seqs::sort_refs;
use crate::seqs::sorted_by;
use crate::text::before;
use crate::text::comes_before;
use crate::text::debug_quoted;
use crate::text::decimal;
use crate::text::decimal_of;
use crate::text::lower;

verus! {

pub const DEFAULT_BREEDING_STEPS: usize = 3;

pub const MAX_BREEDING_STEPS: usize = 24;

pub const DEFAULT_RESULTS: usize = 5;

pub const MAX_RESULTS: usize = 10;

pub const DEFAULT_LIST_LIMIT: usize = 100;

pub const DEFAULT_COMBO_LIMIT: usize = 50;

/// A number if there is one, else another, brought into a range.
pub open spec fn settled(asked: Option<usize>, default: usize, most: usize) -> usize {
    let value = match asked {
        Some(value) => value,
        None => default,
    };
    if value < 1 {
        1
    } else if value > most {
        most
    } else {
        value
    }
}

fn settle(asked: Option<usize>, default: usize, most: usize) -> (r: usize)
    ensures
        r == settled(asked, default, most),
{
    let value: usize = match asked {
        Some(value) => value,
        None => default,
    };
    if value < 1 {
        1
    } else if value > most {
        most
    } else {
        value
    }
}

/// The server: a solver and the pool its searches breed from, swapped
/// wholesale on reload.
pub struct PalMcpServer<'db> {
    solver: &'db Solver<'db>,
    path: String,
    owned: Vec<OwnedPal>,
    status: String,
}

// ---------------------------------------------------------------------
// Requests and answers
// ---------------------------------------------------------------------
#[derive(Debug)]
pub struct FindBreedingPathRequest {
    /// Target species to breed (display or internal name).
    pub target: String,
    /// Passives the bred pal must carry (up to 4).
    pub passives: Vec<String>,
    /// Anchor species: every plan must hold each of these as a leaf.
    /// Implicitly enables wild capture.
    pub progenitors: Vec<String>,
    /// IV minimums the bred pal must meet.
    pub min_ivs: Option<IvMinimums>,
    /// Allow catching wild pals as free plan leaves.
    pub allow_wild: bool,
    /// Most breeding steps per plan, 1-24 (default 3).
    pub max_breeding_steps: Option<usize>,
    /// Ranked plans to return, 1-10 (default 5).
    pub max_results: Option<usize>,
}

/// The goal as actually searched, echoed so the response is
/// self-describing after name resolution and defaulting.
#[derive(Debug)]
pub struct GoalEcho {
    pub species: SpeciesRef,
    pub passives: Vec<PassiveRef>,
    pub progenitors: Vec<SpeciesRef>,
    pub min_ivs: Option<IvMinimums>,
    pub allow_wild: bool,
    pub max_breeding_steps: usize,
    pub max_results: usize,
}

#[derive(Debug)]
pub struct FindBreedingPathResponse {
    pub goal: GoalEcho,
    pub plans: Vec<PlanJson>,
    pub summary: String,
}

#[derive(Debug)]
pub struct ListPalsRequest {
    /// Only this species (display or internal name).
    pub species: Option<String>,
    /// Only pals carrying this passive.
    pub passive: Option<String>,
    /// Only this gender: "male" or "female".
    pub gender: Option<String>,
    /// Only pals meeting these IV minimums.
    pub min_ivs: Option<IvMinimums>,
    /// Most entries to return (default 100).
    pub limit: Option<usize>,
}

#[derive(Debug)]
pub struct ListPalsResponse {
    /// How the pool was loaded, with import counts.
    pub pool_status: String,
    /// Identical breeding profiles are deduplicated; this counts
    /// distinct profiles, not box pals.
    pub total_matching: usize,
    pub returned: usize,
    pub truncated: bool,
    pub pals: Vec<OwnedPalJson>,
}

#[derive(Debug)]
pub struct ReloadPoolResponse {
    pub status: String,
    pub unique_profiles: usize,
}

#[derive(Debug)]
pub struct PalInfoRequest {
    /// Species to describe (display or internal name).
    pub species: String,
}

#[derive(Clone, Copy, PartialEq, Eq, Structural, Debug)]
pub struct WildLevelsJson {
    pub min: u8,
    pub max: u8,
}

#[derive(Debug)]
pub struct PalInfoResponse {
    pub species: SpeciesRef,
    pub dex_number: u16,
    pub dex_variant: bool,
    pub breeding_power: u32,
    /// Probability that a bred child of this species is male, in parts
    /// of [`crate::model::CERTAIN`].
    pub male_probability: u32,
    pub guaranteed_passives: Vec<PassiveRef>,
    /// Wild spawn level range; absent when the species never spawns in
    /// the wild.
    pub wild_levels: Option<WildLevelsJson>,
    /// Distinct breeding profiles of this species in the pool.
    pub owned_profiles: usize,
}

#[derive(Debug)]
pub struct BreedingCombosRequest {
    /// One parent species; constrains the pair.
    pub parent_a: Option<String>,
    /// The other parent species.
    pub parent_b: Option<String>,
    /// The child species the pair must produce.
    pub child: Option<String>,
    /// Most combos to return (default 50).
    pub limit: Option<usize>,
}

#[derive(Debug)]
pub struct ComboJson {
    pub parent_male: SpeciesRef,
    pub parent_female: SpeciesRef,
    pub child: SpeciesRef,
    /// True when the pairing produces this child regardless of which
    /// parent is male (the common case; a few combos are gender-locked).
    pub either_direction: bool,
}

#[derive(Debug)]
pub struct BreedingCombosResponse {
    pub total_matching: usize,
    pub returned: usize,
    pub truncated: bool,
    pub combos: Vec<ComboJson>,
}

#[derive(Debug)]
pub struct ListPassivesRequest {
    /// Substring filter on display or internal name.
    pub filter: Option<String>,
}

#[derive(Debug)]
pub struct PassiveInfoJson {
    pub name: String,
    pub display_name: String,
    /// Tier: negative ranks are detrimental passives.
    pub rank: i8,
    pub random_inheritance_allowed: bool,
    pub random_inheritance_weight: u32,
}

#[derive(Debug)]
pub struct ListPassivesResponse {
    pub total: usize,
    pub passives: Vec<PassiveInfoJson>,
}

// ---------------------------------------------------------------------
// Optional names
// ---------------------------------------------------------------------
/// A name if there is one, resolved.
pub enum Wanted {
    Any,
    Only(Seq<char>),
    Unknown(Seq<char>),
}

/// What an optional species name asks for.
pub open spec fn wanted_species(db: PalDb, raw: Option<String>) -> Wanted {
    match raw {
        Some(name) => match db.found(name@) {
            Some(pal) => Wanted::Only(pal.name@),
            None => Wanted::Unknown(
                unknown_text("species"@, name@, species_suggestion(db, name@)),
            ),
        },
        None => Wanted::Any,
    }
}

/// What an optional passive name asks for.
pub open spec fn wanted_passive(db: PalDb, raw: Option<String>) -> Wanted {
    match raw {
        Some(name) => match db.found_skill(name@) {
            Some(skill) => Wanted::Only(skill.name@),
            None => Wanted::Unknown(
                unknown_text("passive"@, name@, passive_suggestion(db, name@)),
            ),
        },
        None => Wanted::Any,
    }
}

/// What a resolved name asks for.
pub open spec fn wants(name: Option<PalName>) -> Wanted {
    match name {
        Some(n) => Wanted::Only(n@),
        None => Wanted::Any,
    }
}

/// What a resolved passive name asks for.
pub open spec fn wants_passive(name: Option<PassiveName>) -> Wanted {
    match name {
        Some(n) => Wanted::Only(n@),
        None => Wanted::Any,
    }
}

fn species_wanted(db: &PalDb, raw: &Option<String>) -> (r: Result<Option<PalName>, String>)
    ensures
        match r {
            Ok(name) => wanted_species(*db, *raw) == wants(name),
            Err(text) => wanted_species(*db, *raw) == Wanted::Unknown(text@),
        },
{
    match raw {
        Some(name) => match resolve_species(db, name.as_str()) {
            Ok(pal) => Ok(Some(pal.name.clone())),
            Err(text) => Err(text),
        },
        None => Ok(None),
    }
}

fn passive_wanted(db: &PalDb, raw: &Option<String>) -> (r: Result<Option<PassiveName>, String>)
    ensures
        match r {
            Ok(name) => wanted_passive(*db, *raw) == wants_passive(name),
            Err(text) => wanted_passive(*db, *raw) == Wanted::Unknown(text@),
        },
{
    match raw {
        Some(name) => match resolve_passive(db, name.as_str()) {
            Ok(skill) => Ok(Some(skill.name.clone())),
            Err(text) => Err(text),
        },
        None => Ok(None),
    }
}

// ---------------------------------------------------------------------
// Asking for a plan
// ---------------------------------------------------------------------
/// A species name stands for nothing in the database.
pub open spec fn strange_species(db: PalDb) -> spec_fn(String) -> bool {
    |name: String| db.found(name@) is None
}

/// A passive name stands for nothing in the database.
pub open spec fn strange_passive(db: PalDb) -> spec_fn(String) -> bool {
    |name: String| db.found_skill(name@) is None
}

/// Why a request cannot be searched, if it cannot: the first name that
/// does not resolve, or a minimum out of range.
pub open spec fn refusal(db: PalDb, request: FindBreedingPathRequest) -> Option<Seq<char>> {
    if db.found(request.target@) is None {
        Some(
            unknown_text(
                "species"@,
                request.target@,
                species_suggestion(db, request.target@),
            ),
        )
    } else {
        match first_where(request.passives@, strange_passive(db)) {
            Some(k) => {
                let raw = request.passives@[k]@;
                Some(unknown_text("passive"@, raw, passive_suggestion(db, raw)))
            },
            None => match first_where(request.progenitors@, strange_species(db)) {
                Some(k) => {
                    let raw = request.progenitors@[k]@;
                    Some(unknown_text("species"@, raw, species_suggestion(db, raw)))
                },
                None => minimums_fault(request.min_ivs),
            },
        }
    }
}

/// `goal` is what a request that can be searched asks for.
pub open spec fn asks_for(db: PalDb, request: FindBreedingPathRequest, goal: GoalView) -> bool {
    &&& goal.species == db.found(request.target@)->0.name@
    &&& goal.passives == request.passives@.map_values(
        |name: String| db.found_skill(name@)->0.name@,
    )
    &&& goal.progenitors == request.progenitors@.map_values(
        |name: String| db.found(name@)->0.name@,
    )
    &&& same_minimums(goal.iv_thresholds, request.min_ivs)
}

/// How a request is searched: progenitors imply wild capture, and the
/// bounds stay in their ranges.
pub open spec fn settings(request: FindBreedingPathRequest) -> SearchConfig {
    SearchConfig {
        max_breeding_steps: settled(
            request.max_breeding_steps,
            DEFAULT_BREEDING_STEPS,
            MAX_BREEDING_STEPS,
        ),
        max_results: settled(request.max_results, DEFAULT_RESULTS, MAX_RESULTS),
        allow_wild_pals: request.allow_wild || request.progenitors@.len() > 0,
    }
}

/// The one-line summary of ranked plans.
pub open spec fn summary_of(plans: Seq<PlanView>, target: Seq<char>, steps: nat) -> Seq<char> {
    if plans.len() == 0 {
        "no plans for "@ + target + " within "@ + decimal(steps)
            + " breeding step(s) — consider raising max_breeding_steps, enabling allow_wild, or calling reload_pool if the save changed"@
    } else if plans[0].steps == 0 {
        "an owned pal already satisfies the goal ("@ + decimal(plans.len()) + " plan(s))"@
    } else {
        decimal(plans.len()) + " plan(s) for "@ + target + "; best needs "@ + decimal(
            plans[0].steps as nat,
        ) + " breeding step(s), ~"@ + eggs_to_tenths(plans[0].expected_eggs as nat)
            + " expected eggs"@
    }
}

/// The one-line summary of ranked plans.
pub fn summarize(plans: &Vec<BreedingPlan>, target_display: &str, steps_limit: usize) -> (r: String)
    ensures
        r@ == summary_of(plan_views(plans@), target_display@, steps_limit as nat),
{
    let count: usize = plans.len();
    if count == 0 {
        let mut out = "no plans for ".to_owned();
        out.append(target_display);
        out.append(" within ");
        out.append(decimal_of(steps_limit as u128).as_str());
        out.append(
            " breeding step(s) — consider raising max_breeding_steps, enabling allow_wild, or calling reload_pool if the save changed",
        );
        return out;
    }
    let best = &plans[0];
    proof {
        assert(plan_views(plans@)[0] == best@);
    }
    if best.steps == 0 {
        let mut out = "an owned pal already satisfies the goal (".to_owned();
        out.append(decimal_of(count as u128).as_str());
        out.append(" plan(s))");
        out
    } else {
        let mut out = decimal_of(count as u128);
        out.append(" plan(s) for ");
        out.append(target_display);
        out.append("; best needs ");
        out.append(decimal_of(best.steps as u128).as_str());
        out.append(" breeding step(s), ~");
        out.append(tenths_text(best.expected_eggs).as_str());
        out.append(" expected eggs");
        out
    }
}

fn resolve_all_passives(db: &PalDb, raws: &Vec<String>) -> (r: Result<Vec<PassiveName>, String>)
    ensures
        match r {
            Ok(names) => first_where(raws@, strange_passive(*db)) is None
                && crate::model::passive_texts(names@) == raws@.map_values(
                |name: String| db.found_skill(name@)->0.name@,
            ),
            Err(text) => first_where(raws@, strange_passive(*db)) matches Some(k) && text@
                == unknown_text("passive"@, raws@[k]@, passive_suggestion(*db, raws@[k]@)),
        },
{
    let ghost strange = strange_passive(*db);
    let mut names: Vec<PassiveName> = Vec::new();
    let mut i: usize = 0;
    while i < raws.len()
        invariant
            strange == strange_passive(*db),
            i <= raws@.len(),
            names@.len() == i,
            forall|j: int| 0 <= j < i ==> !strange(#[trigger] raws@[j]),
            forall|j: int|
                0 <= j < i ==> (#[trigger] names@[j])@ == db.found_skill(raws@[j]@)->0.name@,
        decreases raws@.len() - i,
    {
        match resolve_passive(db, raws[i].as_str()) {
            Ok(skill) => {
                names.push(skill.name.clone());
            },
            Err(text) => {
                proof {
                    assert(strange(raws@[i as int]));
                    lemma_first_where(raws@, strange);
                }
                return Err(text);
            },
        }
        i = i + 1;
    }
    proof {
        lemma_first_where(raws@, strange);
        assert(crate::model::passive_texts(names@) =~= raws@.map_values(
            |name: String| db.found_skill(name@)->0.name@,
        ));
    }
    Ok(names)
}

fn resolve_all_species(db: &PalDb, raws: &Vec<String>) -> (r: Result<Vec<PalName>, String>)
    ensures
        match r {
            Ok(names) => first_where(raws@, strange_species(*db)) is None
                && crate::model::pal_texts(names@) == raws@.map_values(
                |name: String| db.found(name@)->0.name@,
            ),
            Err(text) => first_where(raws@, strange_species(*db)) matches Some(k) && text@
                == unknown_text("species"@, raws@[k]@, species_suggestion(*db, raws@[k]@)),
        },
{
    let ghost strange = strange_species(*db);
    let mut names: Vec<PalName> = Vec::new();
    let mut i: usize = 0;
    while i < raws.len()
        invariant
            strange == strange_species(*db),
            i <= raws@.len(),
            names@.len() == i,
            forall|j: int| 0 <= j < i ==> !strange(#[trigger] raws@[j]),
            forall|j: int|
                0 <= j < i ==> (#[trigger] names@[j])@ == db.found(raws@[j]@)->0.name@,
        decreases raws@.len() - i,
    {
        match resolve_species(db, raws[i].as_str()) {
            Ok(pal) => {
                names.push(pal.name.clone());
            },
            Err(text) => {
                proof {
                    assert(strange(raws@[i as int]));
                    lemma_first_where(raws@, strange);
                }
                return Err(text);
            },
        }
        i = i + 1;
    }
    proof {
        lemma_first_where(raws@, strange);
        assert(crate::model::pal_texts(names@) =~= raws@.map_values(
            |name: String| db.found(name@)->0.name@,
        ));
    }
    Ok(names)
}

/// The goal that a request asks for.
fn goal_of(db: &PalDb, request: &FindBreedingPathRequest) -> (r: Result<BreedingGoal, String>)
    ensures
        match r {
            Ok(goal) => refusal(*db, *request) is None && asks_for(*db, *request, goal@),
            Err(text) => refusal(*db, *request) == Some(text@),
        },
{
    let target = match resolve_species(db, request.target.as_str()) {
        Ok(pal) => pal,
        Err(text) => {
            return Err(text);
        },
    };
    let passives = match resolve_all_passives(db, &request.passives) {
        Ok(names) => names,
        Err(text) => {
            return Err(text);
        },
    };
    let progenitors = match resolve_all_species(db, &request.progenitors) {
        Ok(names) => names,
        Err(text) => {
            return Err(text);
        },
    };
    let iv_thresholds = match thresholds(request.min_ivs) {
        Ok(t) => t,
        Err(text) => {
            return Err(text);
        },
    };
    Ok(BreedingGoal { species: target.name.clone(), passives, progenitors, iv_thresholds })
}

/// Plans as they are reported.
pub open spec fn plan_json_views(plans: Seq<PlanJson>) -> Seq<ReportedPlan> {
    plans.map_values(|p: PlanJson| p@)
}

fn report_plans(db: &PalDb, plans: &Vec<BreedingPlan>) -> (r: Vec<PlanJson>)
    requires
        db.wf(),
    ensures
        plan_json_views(r@) == plan_views(plans@).map_values(
            |p: PlanView| reported_plan(*db, p),
        ),
{
    let mut out: Vec<PlanJson> = Vec::new();
    let mut i: usize = 0;
    while i < plans.len()
        invariant
            db.wf(),
            i <= plans@.len(),
            out@.len() == i,
            forall|j: int| 0 <= j < i ==> (#[trigger] out@[j])@ == reported_plan(*db, plans@[j]@),
        decreases plans@.len() - i,
    {
        out.push(plan_json(db, &plans[i]));
        i = i + 1;
    }
    proof {
        assert(plan_json_views(out@) =~= plan_views(plans@).map_values(
            |p: PlanView| reported_plan(*db, p),
        ));
    }
    out
}

/// An echo repeats the goal and the settings.
pub open spec fn echoes(
    echo: GoalEcho,
    db: PalDb,
    request: FindBreedingPathRequest,
    goal: GoalView,
) -> bool {
    &&& echo.species@ == species_named(db, goal.species)
    &&& passive_views(echo.passives@) == passives_named(db, goal.passives)
    &&& species_views(echo.progenitors@) == all_named(db, goal.progenitors)
    &&& echo.min_ivs == request.min_ivs
    &&& echo.allow_wild == settings(request).allow_wild_pals
    &&& echo.max_breeding_steps == settings(request).max_breeding_steps
    &&& echo.max_results == settings(request).max_results
}

impl<'db> PalMcpServer<'db> {
    /// The solver that is asked.
    pub closed spec fn searches(&self) -> Solver<'db> {
        *self.solver
    }

    /// The database that names are resolved in.
    pub open spec fn names(&self) -> PalDb {
        self.searches().db()
    }

    /// The pool that searches breed from.
    pub closed spec fn pool(&self) -> Seq<OwnedPal> {
        self.owned@
    }

    /// How the pool was loaded.
    pub closed spec fn pool_status(&self) -> Seq<char> {
        self.status@
    }

    /// Where the pool was loaded from.
    pub closed spec fn pool_path(&self) -> Seq<char> {
        self.path@
    }

    /// The invariant: the solver's tables belong to its database, and
    /// the odds of the pool can be counted.
    pub open spec fn wf(&self) -> bool {
        self.searches().wf()
    }

    pub fn new(
        solver: &'db Solver<'db>,
        pool_path: String,
        owned: Vec<OwnedPal>,
        status: String,
    ) -> (r: Self)
        requires
            solver.wf(),
        ensures
            r.wf(),
            r.searches() == *solver,
            r.pool() == owned@,
            r.pool_path() == pool_path@,
            r.pool_status() == status@,
    {
        PalMcpServer { solver, path: pool_path, owned, status }
    }

    fn db(&self) -> (r: &'db PalDb)
        requires
            self.wf(),
        ensures
            *r == self.names(),
            r.wf(),
    {
        proof {
            self.solver.lemma_parts();
        }
        self.solver.pal_db()
    }

    /// Where the pool was loaded from.
    pub fn path(&self) -> (r: &str)
        ensures
            r@ == self.pool_path(),
    {
        self.path.as_str()
    }

    /// Finds ranked breeding plans for a request, from the pool.
    ///
    /// Fails when a name does not resolve, a minimum is out of range, or
    /// the goal is not one that can be searched.
    pub fn find_breeding_path(&self, request: &FindBreedingPathRequest) -> (r: Result<
        FindBreedingPathResponse,
        String,
    >)
        requires
            self.wf(),
        ensures
            match refusal(self.names(), *request) {
                Some(text) => r matches Err(out) && out@ == text,
                None => exists|goal: GoalView|
                    {
                        &&& #[trigger] asks_for(self.names(), *request, goal)
                        &&& match first_fault(self.names(), owned_views(self.pool()), goal) {
                            Some(fault) => r matches Err(out) && out@ == fault.text(),
                            None => r matches Ok(found) && echoes(
                                found.goal,
                                self.names(),
                                *request,
                                goal,
                            ) && ({
                                let plans = answers(
                                    self.names(),
                                    self.searches().children(),
                                    self.searches().passive_odds(),
                                    self.searches().ivs(),
                                    owned_views(self.pool()),
                                    goal,
                                    settings(*request),
                                );
                                &&& plan_json_views(found.plans@) == plans.map_values(
                                    |p: PlanView| reported_plan(self.names(), p),
                                )
                                &&& found.summary@ == summary_of(
                                    plans,
                                    shown(self.names(), goal.species),
                                    settings(*request).max_breeding_steps as nat,
                                )
                            }),
                        }
                    },
            },
    {
        let db = self.db();
        let goal = match goal_of(db, request) {
            Ok(goal) => goal,
            Err(text) => {
                return Err(text);
            },
        };
        let config = SearchConfig {
            max_breeding_steps: settle(
                request.max_breeding_steps,
                DEFAULT_BREEDING_STEPS,
                MAX_BREEDING_STEPS,
            ),
            max_results: settle(request.max_results, DEFAULT_RESULTS, MAX_RESULTS),
            allow_wild_pals: request.allow_wild || request.progenitors.len() > 0,
        };
        let echo = GoalEcho {
            species: species_ref(db, &goal.species),
            passives: passive_refs(db, &goal.passives),
            progenitors: species_refs(db, &goal.progenitors),
            min_ivs: request.min_ivs,
            allow_wild: config.allow_wild_pals,
            max_breeding_steps: config.max_breeding_steps,
            max_results: config.max_results,
        };
        proof {
            assert(asks_for(self.names(), *request, goal@));
            assert(config == settings(*request));
        }
        let plans = match self.solver.find_paths(&self.owned, &goal, &config) {
            Ok(plans) => plans,
            Err(error) => {
                return Err(error.message());
            },
        };
        let summary = summarize(&plans, display(db, &goal.species), config.max_breeding_steps);
        Ok(FindBreedingPathResponse { goal: echo, plans: report_plans(db, &plans), summary })
    }

    /// Takes in what reloading the pool file gave. Keeps the current
    /// pool when the file is missing or cannot be loaded.
    pub fn reload_pool(&mut self, loaded: Result<Loaded, PoolError>) -> (r: Result<
        ReloadPoolResponse,
        String,
    >)
        requires
            old(self).wf(),
        ensures
            final(self).wf(),
            final(self).searches() == old(self).searches(),
            final(self).pool_path() == old(self).pool_path(),
            match loaded {
                Ok(Loaded::Pool { owned, status }) => r matches Ok(answer) && answer.status@
                    == status@ && answer.unique_profiles == owned@.len() && final(self).pool()
                    == owned@ && final(self).pool_status() == status@,
                Ok(Loaded::Missing) => r matches Err(text) && text@ == old(self).pool_path()
                    + " not found — keeping the current pool"@ && final(self).pool() == old(
                    self,
                ).pool() && final(self).pool_status() == old(self).pool_status(),
                Err(error) => r matches Err(text) && text@ == error.text() && final(self).pool()
                    == old(self).pool() && final(self).pool_status() == old(self).pool_status(),
            },
    {
        match loaded {
            Ok(Loaded::Pool { owned, status }) => {
                let unique_profiles: usize = owned.len();
                self.owned = owned;
                self.status = status.clone();
                Ok(ReloadPoolResponse { status, unique_profiles })
            },
            Ok(Loaded::Missing) => Err(crate::pool::load::kept_pool_status(self.path.as_str())),
            Err(error) => Err(error.message()),
        }
    }
}

// ---------------------------------------------------------------------
// Listing the pool
// ---------------------------------------------------------------------
/// Why a listing is refused, if it is.
pub open spec fn listing_fault(db: PalDb, request: ListPalsRequest) -> Option<Seq<char>> {
    match wanted_species(db, request.species) {
        Wanted::Unknown(text) => Some(text),
        _ => match wanted_passive(db, request.passive) {
            Wanted::Unknown(text) => Some(text),
            _ => if request.gender is Some && spoken_gender(request.gender->0@) is None {
                Some(
                    "gender must be male or female, got "@ + debug_quoted(
                        lower(request.gender->0@),
                    ),
                )
            } else {
                minimums_fault(request.min_ivs)
            },
        },
    }
}

/// A pal is one of those that a listing asks for.
pub open spec fn listed(
    species: Wanted,
    passive: Wanted,
    gender: Option<Gender>,
    minimums: IvThresholds,
) -> spec_fn(OwnedPal) -> bool {
    |pal: OwnedPal|
        {
            &&& species matches Wanted::Only(name) ==> pal.species@ == name
            &&& passive matches Wanted::Only(name) ==> pal@.passives.contains(name)
            &&& gender matches Some(g) ==> pal.gender == g
            &&& minimums.met(pal.ivs)
        }
}

/// The order of a listing: by display name, fewer passives first.
pub open spec fn listing_order(db: PalDb) -> spec_fn(OwnedPal, OwnedPal) -> bool {
    |a: OwnedPal, b: OwnedPal|
        {
            let left = shown(db, a.species@);
            let right = shown(db, b.species@);
            before(left, right) || (left == right && a.passives@.len() < b.passives@.len())
        }
}

fn listing_before(db: &PalDb, a: &OwnedPal, b: &OwnedPal) -> (r: bool)
    requires
        db.wf(),
    ensures
        r == listing_order(*db)(*a, *b),
{
    let left = display(db, &a.species);
    let right = display(db, &b.species);
    comes_before(left, right) || (crate::text::same_text(left, right) && a.passives.len()
        < b.passives.len())
}

/// The gender that an optional word stands for.
pub open spec fn wanted_gender(raw: Option<String>) -> Option<Gender> {
    match raw {
        Some(word) => spoken_gender(word@),
        None => None,
    }
}

/// At least one, and the default when nothing is asked.
pub open spec fn limit_of(asked: Option<usize>, default: usize) -> nat {
    match asked {
        Some(limit) => if limit == 0 {
            1
        } else {
            limit as nat
        },
        None => default as nat,
    }
}

fn limit(asked: Option<usize>, default: usize) -> (r: usize)
    ensures
        r == limit_of(asked, default),
{
    match asked {
        Some(limit) => if limit == 0 {
            1
        } else {
            limit
        },
        None => default,
    }
}

/// Reported pals as plain values.
pub open spec fn owned_json_views(pals: Seq<OwnedPalJson>) -> Seq<ReportedPal> {
    pals.map_values(|p: OwnedPalJson| p@)
}

/// A listing shows the first of `matching`.
pub open spec fn lists(
    answer: ListPalsResponse,
    db: PalDb,
    matching: Seq<OwnedPal>,
    limit: nat,
) -> bool {
    &&& answer.total_matching == matching.len()
    &&& owned_json_views(answer.pals@) == at_most(matching, limit).map_values(
        |p: OwnedPal| reported_pal(db, p@),
    )
    &&& answer.returned == answer.pals@.len()
    &&& answer.truncated == (matching.len() > limit)
}

/// An answer lists what a request asks for of a pool: the pals that meet
/// its conditions, in order, as many as its limit allows.
pub open spec fn answers_pals(
    answer: ListPalsResponse,
    db: PalDb,
    pool: Seq<OwnedPal>,
    request: ListPalsRequest,
    minimums: IvThresholds,
) -> bool {
    lists(
        answer,
        db,
        sorted_by(
            kept(
                pool,
                listed(
                    wanted_species(db, request.species),
                    wanted_passive(db, request.passive),
                    wanted_gender(request.gender),
                    minimums,
                ),
            ),
            listing_order(db),
        ),
        limit_of(request.limit, DEFAULT_LIST_LIMIT),
    )
}

impl<'db> PalMcpServer<'db> {
    /// Lists the pals of the pool that a request asks for.
    ///
    /// Fails when a name does not resolve or a minimum is out of range.
    pub fn list_pals(&self, request: &ListPalsRequest) -> (r: Result<ListPalsResponse, String>)
        requires
            self.wf(),
        ensures
            match listing_fault(self.names(), *request) {
                Some(text) => r matches Err(out) && out@ == text,
                None => exists|minimums: IvThresholds|
                    {
                        &&& #[trigger] same_minimums(minimums, request.min_ivs)
                        &&& r matches Ok(answer) && answer.pool_status@ == self.pool_status()
                            && answers_pals(
                            answer,
                            self.names(),
                            self.pool(),
                            *request,
                            minimums,
                        )
                    },
            },
    {
        let db = self.db();
        let species = match species_wanted(db, &request.species) {
            Ok(name) => name,
            Err(text) => {
                return Err(text);
            },
        };
        let passive = match passive_wanted(db, &request.passive) {
            Ok(name) => name,
            Err(text) => {
                return Err(text);
            },
        };
        let gender: Option<Gender> = match &request.gender {
            Some(raw) => match parse_gender(raw.as_str()) {
                Ok(gender) => Some(gender),
                Err(text) => {
                    return Err(text);
                },
            },
            None => None,
        };
        let minimums = match thresholds(request.min_ivs) {
            Ok(minimums) => minimums,
            Err(text) => {
                return Err(text);
            },
        };
        let ghost asked = listed(wants(species), wants_passive(passive), gender, minimums);
        let keep = |pal: &OwnedPal| -> (b: bool)
            ensures
                b == asked(*pal),
            {
                let right_species = match &species {
                    Some(wanted) => pal.species == *wanted,
                    None => true,
                };
                let right_passive = match &passive {
                    Some(wanted) => holds_passive(&pal.passives, wanted),
                    None => true,
                };
                let right_gender = match gender {
                    Some(wanted) => pal.gender == wanted,
                    None => true,
                };
                right_species && right_passive && right_gender && minimums.met_by(pal.ivs)
            };
        let matching = pick(&self.owned, keep, Ghost(asked));
        let earlier = |a: &OwnedPal, b: &OwnedPal| -> (o: bool)
            ensures
                o == listing_order(*db)(*a, *b),
            { listing_before(db, a, b) };
        let sorted = sort_refs(&matching, earlier, Ghost(listing_order(*db)));
        let ghost list = referents(sorted@);
        let limit: usize = limit(request.limit, DEFAULT_LIST_LIMIT);
        let total_matching: usize = sorted.len();
        let mut pals: Vec<OwnedPalJson> = Vec::new();
        let mut i: usize = 0;
        while i < sorted.len() && i < limit
            invariant
                db.wf(),
                list == referents(sorted@),
                i <= sorted@.len(),
                i <= limit,
                pals@.len() == i,
                forall|j: int|
                    0 <= j < i ==> (#[trigger] pals@[j])@ == reported_pal(*db, list[j]@),
            decreases sorted@.len() - i,
        {
            proof {
                assert(list[i as int] == *sorted@[i as int]);
            }
            pals.push(owned_pal_json(db, sorted[i]));
            i = i + 1;
        }
        proof {
            assert(list.len() == total_matching);
            assert(owned_json_views(pals@) =~= at_most(list, limit as nat).map_values(
                |p: OwnedPal| reported_pal(*db, p@),
            ));
            assert(same_minimums(minimums, request.min_ivs));
        }
        let returned: usize = pals.len();
        Ok(
            ListPalsResponse {
                pool_status: self.status.clone(),
                total_matching,
                returned,
                truncated: total_matching > returned,
                pals,
            },
        )
    }
}

// ---------------------------------------------------------------------
// One species
// ---------------------------------------------------------------------
/// An owned pal is of this species.
pub open spec fn of_species(name: Seq<char>) -> spec_fn(OwnedPal) -> bool {
    |pal: OwnedPal| pal.species@ == name
}

/// Where a species is found, as reported.
pub open spec fn reported_levels(levels: Option<crate::model::WildLevels>) -> Option<
    WildLevelsJson,
> {
    match levels {
        Some(l) => Some(WildLevelsJson { min: l.min, max: l.max }),
        None => None,
    }
}

impl<'db> PalMcpServer<'db> {
    /// Describes a species and counts the profiles of it in the pool.
    ///
    /// Fails when the name does not resolve.
    pub fn pal_info(&self, request: &PalInfoRequest) -> (r: Result<PalInfoResponse, String>)
        requires
            self.wf(),
        ensures
            match self.names().found(request.species@) {
                Some(pal) => r matches Ok(info) && info.species@ == species_named(
                    self.names(),
                    pal.name@,
                ) && info.dex_number == pal.id.dex && info.dex_variant == pal.id.variant
                    && info.breeding_power == pal.breeding_power && info.male_probability
                    == pal.gender_probability.part(Gender::Male) && passive_views(
                    info.guaranteed_passives@,
                ) == passives_named(
                    self.names(),
                    crate::model::passive_texts(pal.guaranteed_passives@),
                ) && info.wild_levels == reported_levels(pal.wild_levels) && info.owned_profiles
                    == kept(self.pool(), of_species(pal.name@)).len(),
                None => r matches Err(text) && text@ == unknown_text(
                    "species"@,
                    request.species@,
                    species_suggestion(self.names(), request.species@),
                ),
            },
    {
        let db = self.db();
        let pal = match resolve_species(db, request.species.as_str()) {
            Ok(pal) => pal,
            Err(text) => {
                return Err(text);
            },
        };
        let keep = |owned: &OwnedPal| -> (b: bool)
            ensures
                b == of_species(pal.name@)(*owned),
            { owned.species == pal.name };
        let same = pick(&self.owned, keep, Ghost(of_species(pal.name@)));
        let owned_profiles: usize = same.len();
        proof {
            assert(referents(same@).len() == owned_profiles);
        }
        Ok(
            PalInfoResponse {
                species: species_ref(db, &pal.name),
                dex_number: pal.id.dex,
                dex_variant: pal.id.variant,
                breeding_power: pal.breeding_power,
                male_probability: pal.gender_probability.of(Gender::Male),
                guaranteed_passives: passive_refs(db, &pal.guaranteed_passives),
                wild_levels: match pal.wild_levels {
                    Some(levels) => Some(WildLevelsJson { min: levels.min, max: levels.max }),
                    None => None,
                },
                owned_profiles,
            },
        )
    }
}

// ---------------------------------------------------------------------
// Breeding combos
// ---------------------------------------------------------------------
/// Why a combo query is refused, if it is.
pub open spec fn combos_fault(db: PalDb, request: BreedingCombosRequest) -> Option<Seq<char>> {
    match wanted_species(db, request.parent_a) {
        Wanted::Unknown(text) => Some(text),
        _ => match wanted_species(db, request.parent_b) {
            Wanted::Unknown(text) => Some(text),
            _ => match wanted_species(db, request.child) {
                Wanted::Unknown(text) => Some(text),
                _ => if request.parent_a is None && request.parent_b is None && request.child
                    is None {
                    Some("give at least one of parent_a, parent_b, or child"@)
                } else {
                    None
                },
            },
        },
    }
}

/// A pairing gives the same child whichever parent is male.
pub open spec fn either_way(index: ChildIndex, p: Pairing) -> bool {
    index.child(p.female@, p.male@) == Some(p.child@)
}

/// A pair of parents is one of those that a query asks for.
pub open spec fn pair_matches(a: Wanted, b: Wanted, male: Seq<char>, female: Seq<char>) -> bool {
    match (a, b) {
        (Wanted::Only(x), Wanted::Only(y)) => (male == x && female == y) || (male == y && female
            == x),
        (Wanted::Only(x), _) => male == x || female == x,
        (_, Wanted::Only(y)) => male == y || female == y,
        _ => true,
    }
}

/// A pairing is one of those that a query asks for; of two that differ
/// only in which parent is male, the one in the order of the names.
pub open spec fn combo_listed(index: ChildIndex, a: Wanted, b: Wanted, child: Wanted) -> spec_fn(
    Pairing,
) -> bool {
    |p: Pairing|
        {
            &&& !(either_way(index, p) && before(p.female@, p.male@))
            &&& pair_matches(a, b, p.male@, p.female@)
            &&& child matches Wanted::Only(name) ==> p.child@ == name
        }
}

/// The order of combos: by the display names of child, male, female.
pub open spec fn combo_order(db: PalDb) -> spec_fn(Pairing, Pairing) -> bool {
    |a: Pairing, b: Pairing|
        {
            let (c, d) = (shown(db, a.child@), shown(db, b.child@));
            let (m, n) = (shown(db, a.male@), shown(db, b.male@));
            ||| before(c, d)
            ||| c == d && before(m, n)
            ||| c == d && m == n && before(shown(db, a.female@), shown(db, b.female@))
        }
}

fn combo_before(db: &PalDb, a: &Pairing, b: &Pairing) -> (r: bool)
    requires
        db.wf(),
    ensures
        r == combo_order(*db)(*a, *b),
{
    let c = display(db, &a.child);
    let d = display(db, &b.child);
    if comes_before(c, d) {
        return true;
    }
    if !crate::text::same_text(c, d) {
        return false;
    }
    let m = display(db, &a.male);
    let n = display(db, &b.male);
    if comes_before(m, n) {
        return true;
    }
    crate::text::same_text(m, n) && comes_before(
        display(db, &a.female),
        display(db, &b.female),
    )
}

/// A combo as it is reported.
pub struct ReportedCombo {
    pub parent_male: NameView,
    pub parent_female: NameView,
    pub child: NameView,
    pub either_direction: bool,
}

impl View for ComboJson {
    type V = ReportedCombo;

    open spec fn view(&self) -> ReportedCombo {
        ReportedCombo {
            parent_male: self.parent_male@,
            parent_female: self.parent_female@,
            child: self.child@,
            either_direction: self.either_direction,
        }
    }
}

/// How a pairing is reported.
pub open spec fn reported_combo(db: PalDb, index: ChildIndex, p: Pairing) -> ReportedCombo {
    ReportedCombo {
        parent_male: species_named(db, p.male@),
        parent_female: species_named(db, p.female@),
        child: species_named(db, p.child@),
        either_direction: either_way(index, p),
    }
}

/// Combos as they are reported.
pub open spec fn combo_views(combos: Seq<ComboJson>) -> Seq<ReportedCombo> {
    combos.map_values(|c: ComboJson| c@)
}

/// An answer shows the first of `matching`.
pub open spec fn shows_combos(
    answer: BreedingCombosResponse,
    db: PalDb,
    index: ChildIndex,
    matching: Seq<Pairing>,
    limit: nat,
) -> bool {
    &&& answer.total_matching == matching.len()
    &&& combo_views(answer.combos@) == at_most(matching, limit).map_values(
        |p: Pairing| reported_combo(db, index, p),
    )
    &&& answer.returned == answer.combos@.len()
    &&& answer.truncated == (matching.len() > limit)
}

/// An answer shows what a query asks for.
pub open spec fn answers_combos(
    answer: BreedingCombosResponse,
    db: PalDb,
    index: ChildIndex,
    request: BreedingCombosRequest,
) -> bool {
    shows_combos(
        answer,
        db,
        index,
        sorted_by(
            kept(
                index.listed(),
                combo_listed(
                    index,
                    wanted_species(db, request.parent_a),
                    wanted_species(db, request.parent_b),
                    wanted_species(db, request.child),
                ),
            ),
            combo_order(db),
        ),
        limit_of(request.limit, DEFAULT_COMBO_LIMIT),
    )
}

fn same_either_way(index: &ChildIndex, p: &Pairing) -> (r: bool)
    requires
        index.wf(),
    ensures
        r == either_way(*index, *p),
{
    match index.child_between(&p.female, &p.male) {
        Some(child) => *child == p.child,
        None => false,
    }
}

fn pair_asked(a: &Option<PalName>, b: &Option<PalName>, p: &Pairing) -> (r: bool)
    ensures
        r == pair_matches(wants(*a), wants(*b), p.male@, p.female@),
{
    match a {
        Some(x) => match b {
            Some(y) => (p.male == *x && p.female == *y) || (p.male == *y && p.female == *x),
            None => p.male == *x || p.female == *x,
        },
        None => match b {
            Some(y) => p.male == *y || p.female == *y,
            None => true,
        },
    }
}

impl<'db> PalMcpServer<'db> {
    /// Which child two parents produce, or which pairs produce a child.
    ///
    /// Fails when a name does not resolve or no name is given.
    pub fn breeding_combos(&self, request: &BreedingCombosRequest) -> (r: Result<
        BreedingCombosResponse,
        String,
    >)
        requires
            self.wf(),
        ensures
            match combos_fault(self.names(), *request) {
                Some(text) => r matches Err(out) && out@ == text,
                None => r matches Ok(answer) && answers_combos(
                    answer,
                    self.names(),
                    self.searches().children(),
                    *request,
                ) && (forall|k: int|
                    0 <= k < answer.combos@.len() ==> {
                        let c = #[trigger] answer.combos@[k];
                        &&& request.child matches Some(raw) ==> c.child.name@ == self.names().found(
                            raw@,
                        )->0.name@
                        &&& self.searches().children().child(
                            c.parent_male.name@,
                            c.parent_female.name@,
                        ) == Some(c.child.name@)
                    }),
            },
    {
        let db = self.db();
        let parent_a = match species_wanted(db, &request.parent_a) {
            Ok(name) => name,
            Err(text) => {
                return Err(text);
            },
        };
        let parent_b = match species_wanted(db, &request.parent_b) {
            Ok(name) => name,
            Err(text) => {
                return Err(text);
            },
        };
        let child = match species_wanted(db, &request.child) {
            Ok(name) => name,
            Err(text) => {
                return Err(text);
            },
        };
        if parent_a.is_none() && parent_b.is_none() && child.is_none() {
            return Err("give at least one of parent_a, parent_b, or child".to_owned());
        }
        let index = self.solver.child_index();
        proof {
            self.solver.lemma_parts();
        }
        let ghost asked = combo_listed(*index, wants(parent_a), wants(parent_b), wants(child));
        let keep = |p: &Pairing| -> (b: bool)
            ensures
                b == asked(*p),
            {
                let mirrored = same_either_way(index, p) && comes_before(
                    p.female.as_str(),
                    p.male.as_str(),
                );
                let right_child = match &child {
                    Some(wanted) => p.child == *wanted,
                    None => true,
                };
                !mirrored && pair_asked(&parent_a, &parent_b, p) && right_child
            };
        let matching = pick(index.pairings(), keep, Ghost(asked));
        let earlier = |a: &Pairing, b: &Pairing| -> (o: bool)
            ensures
                o == combo_order(*db)(*a, *b),
            { combo_before(db, a, b) };
        let sorted = sort_refs(&matching, earlier, Ghost(combo_order(*db)));
        let ghost list = referents(sorted@);
        let limit: usize = limit(request.limit, DEFAULT_COMBO_LIMIT);
        let total_matching: usize = sorted.len();
        let mut combos: Vec<ComboJson> = Vec::new();
        let mut i: usize = 0;
        while i < sorted.len() && i < limit
            invariant
                db.wf(),
                index.wf(),
                list == referents(sorted@),
                i <= sorted@.len(),
                i <= limit,
                combos@.len() == i,
                forall|j: int|
                    0 <= j < i ==> (#[trigger] combos@[j])@ == reported_combo(
                        *db,
                        *index,
                        list[j],
                    ),
            decreases sorted@.len() - i,
        {
            proof {
                assert(list[i as int] == *sorted@[i as int]);
            }
            let p = sorted[i];
            combos.push(
                ComboJson {
                    parent_male: species_ref(db, &p.male),
                    parent_female: species_ref(db, &p.female),
                    child: species_ref(db, &p.child),
                    either_direction: same_either_way(index, p),
                },
            );
            i = i + 1;
        }
        proof {
            assert(list.len() == total_matching);
            assert(combo_views(combos@) =~= at_most(list, limit as nat).map_values(
                |p: Pairing| reported_combo(*db, *index, p),
            ));
        }
        let returned: usize = combos.len();
        let answer = BreedingCombosResponse {
            total_matching,
            returned,
            truncated: total_matching > returned,
            combos,
        };
        proof {
            law_combos_are_what_was_asked_for(answer, *db, *index, *request);
        }
        Ok(answer)
    }
}

// ---------------------------------------------------------------------
// Passives
// ---------------------------------------------------------------------
/// A passive is one of those that a filter asks for.
pub open spec fn passive_listed(filter: Option<String>) -> spec_fn(PassiveSkill) -> bool {
    |skill: PassiveSkill|
        filter matches Some(query) ==> skill_mentions(query@)(skill)
}

/// A passive as it is reported.
pub open spec fn describes(info: PassiveInfoJson, skill: PassiveSkill) -> bool {
    &&& info.name@ == skill.name@
    &&& info.display_name@ == skill.display_name@
    &&& info.rank == skill.rank
    &&& info.random_inheritance_allowed == skill.random_inheritance_allowed
    &&& info.random_inheritance_weight == skill.random_inheritance_weight
}

/// An answer lists the passives that a filter asks for, by display name.
pub open spec fn answers_passives(
    answer: ListPassivesResponse,
    db: PalDb,
    filter: Option<String>,
) -> bool {
    let matching = sorted_by(kept(db.skills(), passive_listed(filter)), by_skill_display());
    &&& answer.total == matching.len()
    &&& answer.passives@.len() == matching.len()
    &&& forall|i: int|
        0 <= i < matching.len() ==> describes(#[trigger] answer.passives@[i], matching[i])
}

impl<'db> PalMcpServer<'db> {
    /// Lists passive skills, by display name.
    pub fn list_passives(&self, request: &ListPassivesRequest) -> (r: ListPassivesResponse)
        requires
            self.wf(),
        ensures
            answers_passives(r, self.names(), request.filter),
    {
        let db = self.db();
        let ghost asked = passive_listed(request.filter);
        let keep = |skill: &PassiveSkill| -> (b: bool)
            ensures
                b == asked(*skill),
            {
                match &request.filter {
                    Some(query) => name_mentions(
                        skill.name.as_str(),
                        skill.display_name.as_str(),
                        query.as_str(),
                    ),
                    None => true,
                }
            };
        let matching = pick(db.passives(), keep, Ghost(asked));
        let earlier = |a: &PassiveSkill, b: &PassiveSkill| -> (o: bool)
            ensures
                o == by_skill_display()(*a, *b),
            { comes_before(a.display_name.as_str(), b.display_name.as_str()) };
        let sorted = sort_refs(&matching, earlier, Ghost(by_skill_display()));
        let ghost list = referents(sorted@);
        let mut passives: Vec<PassiveInfoJson> = Vec::new();
        let mut i: usize = 0;
        while i < sorted.len()
            invariant
                list == referents(sorted@),
                i <= sorted@.len(),
                passives@.len() == i,
                forall|j: int| 0 <= j < i ==> describes(#[trigger] passives@[j], list[j]),
            decreases sorted@.len() - i,
        {
            proof {
                assert(list[i as int] == *sorted@[i as int]);
            }
            let skill = sorted[i];
            passives.push(
                PassiveInfoJson {
                    name: skill.name.as_str().to_owned(),
                    display_name: skill.display_name.clone(),
                    rank: skill.rank,
                    random_inheritance_allowed: skill.random_inheritance_allowed,
                    random_inheritance_weight: skill.random_inheritance_weight,
                },
            );
            i = i + 1;
        }
        let total: usize = passives.len();
        ListPassivesResponse { total, passives }
    }
}

// ---------------------------------------------------------------------
// Laws
// ---------------------------------------------------------------------
/// Listing every combo loses no pair: each pairing is listed, or the one
/// with the parents' roles exchanged, which gives the same child.
pub proof fn law_no_pair_is_lost(index: ChildIndex, p: Pairing)
    requires
        index.wf(),
        index.listed().contains(p),
    ensures
        exists|q: Pairing|
            {
                &&& #[trigger] kept(
                    index.listed(),
                    combo_listed(index, Wanted::Any, Wanted::Any, Wanted::Any),
                ).contains(q)
                &&& q.child@ == p.child@
                &&& (q.male@ == p.male@ && q.female@ == p.female@) || (q.male@ == p.female@
                    && q.female@ == p.male@)
            },
{
    let list = index.listed();
    let asked = combo_listed(index, Wanted::Any, Wanted::Any, Wanted::Any);
    index.lemma_listed();
    crate::seqs::lemma_kept(list, asked);
    if asked(p) {
        assert(kept(list, asked).contains(p));
    } else {
        // the mirror image gives the same child and comes first
        let e = choose|e: int|
            0 <= e < list.len() && (#[trigger] list[e]).male@ == p.female@ && list[e].female@
                == p.male@;
        assert(index.table().dom().contains((p.female@, p.male@)));
        let q = list[e];
        let at = choose|at: int| 0 <= at < list.len() && list[at] == p;
        assert(index.table()[(p.male@, p.female@)] == p.child@);
        crate::text::lemma_before_irreflexive(p.male@);
        if before(q.female@, q.male@) {
            crate::text::lemma_before_transitive(p.male@, p.female@, p.male@);
        }
        assert(list.contains(q));
        assert(asked(q));
        assert(kept(list, asked).contains(q));
    }
}

proof fn lemma_combo_order(db: PalDb)
    ensures
        crate::seqs::weak_order(combo_order(db)),
{
    let lt = combo_order(db);
    assert forall|a: Pairing| !#[trigger] lt(a, a) by {
        crate::text::lemma_before_irreflexive(shown(db, a.child@));
        crate::text::lemma_before_irreflexive(shown(db, a.male@));
        crate::text::lemma_before_irreflexive(shown(db, a.female@));
    }
    assert forall|a: Pairing, b: Pairing, c: Pairing| #[trigger]
        lt(a, b) && #[trigger] lt(b, c) implies lt(a, c) by {
        lemma_texts_ordered(shown(db, a.child@), shown(db, b.child@), shown(db, c.child@));
        lemma_texts_ordered(shown(db, a.male@), shown(db, b.male@), shown(db, c.male@));
        lemma_texts_ordered(shown(db, a.female@), shown(db, b.female@), shown(db, c.female@));
    }
    assert forall|a: Pairing, b: Pairing, c: Pairing|
        !(#[trigger] lt(a, b)) && !(#[trigger] lt(b, c)) implies !lt(a, c) by {
        lemma_texts_ordered(shown(db, c.child@), shown(db, b.child@), shown(db, a.child@));
        lemma_texts_ordered(shown(db, c.male@), shown(db, b.male@), shown(db, a.male@));
        lemma_texts_ordered(shown(db, c.female@), shown(db, b.female@), shown(db, a.female@));
    }
}

/// Texts stand in one line.
proof fn lemma_texts_ordered(a: Seq<char>, b: Seq<char>, c: Seq<char>)
    ensures
        before(a, b) && before(b, c) ==> before(a, c),
        before(a, b) || before(b, a) || a == b,
        before(b, c) || before(c, b) || b == c,
        before(a, c) || before(c, a) || a == c,
        !(before(a, b) && before(b, a)),
        !(before(b, c) && before(c, b)),
        !(before(a, c) && before(c, a)),
        !before(a, a) && !before(b, b) && !before(c, c),
{
    crate::text::lemma_before_total(a, b);
    crate::text::lemma_before_total(b, c);
    crate::text::lemma_before_total(a, c);
    crate::text::lemma_before_irreflexive(a);
    crate::text::lemma_before_irreflexive(b);
    crate::text::lemma_before_irreflexive(c);
    if before(a, b) && before(b, c) {
        crate::text::lemma_before_transitive(a, b, c);
    }
    if before(a, b) && before(b, a) {
        crate::text::lemma_before_transitive(a, b, a);
    }
    if before(b, c) && before(c, b) {
        crate::text::lemma_before_transitive(b, c, b);
    }
    if before(a, c) && before(c, a) {
        crate::text::lemma_before_transitive(a, c, a);
    }
}

/// What a query matches, before it is put in order.
spec fn matching_combos(db: PalDb, index: ChildIndex, request: BreedingCombosRequest) -> Seq<
    Pairing,
> {
    kept(
        index.listed(),
        combo_listed(
            index,
            wanted_species(db, request.parent_a),
            wanted_species(db, request.parent_b),
            wanted_species(db, request.child),
        ),
    )
}

/// Each reported combo is that of a matching pairing, and each matching
/// pairing stands in line to be reported.
proof fn lemma_combos(
    answer: BreedingCombosResponse,
    db: PalDb,
    index: ChildIndex,
    request: BreedingCombosRequest,
)
    requires
        index.wf(),
        answers_combos(answer, db, index, request),
    ensures
        ({
            let matching = matching_combos(db, index, request);
            let line = sorted_by(matching, combo_order(db));
            &&& line.len() == matching.len()
            &&& answer.combos@.len() <= line.len()
            &&& forall|k: int|
                0 <= k < answer.combos@.len() ==> (#[trigger] answer.combos@[k])@
                    == reported_combo(db, index, line[k]) && matching.contains(line[k])
            &&& forall|p: Pairing| matching.contains(p) ==> #[trigger] line.contains(p)
        }),
{
    let matching = matching_combos(db, index, request);
    let line = sorted_by(matching, combo_order(db));
    lemma_combo_order(db);
    crate::seqs::lemma_sorted_by(matching, combo_order(db));
    broadcast use vstd::seq_lib::group_to_multiset_ensures;

    let limit = limit_of(request.limit, DEFAULT_COMBO_LIMIT);
    assert(combo_views(answer.combos@).len() == at_most(line, limit).len());
    assert forall|k: int| 0 <= k < answer.combos@.len() implies (#[trigger] answer.combos@[k])@
        == reported_combo(db, index, line[k]) && matching.contains(line[k]) by {
        assert(combo_views(answer.combos@)[k] == answer.combos@[k]@);
        assert(at_most(line, limit)[k] == line[k]);
        assert(line.contains(line[k]));
        assert(line.to_multiset().count(line[k]) > 0);
    }
    assert forall|p: Pairing| matching.contains(p) implies #[trigger] line.contains(p) by {
        assert(matching.to_multiset().count(p) > 0);
        assert(line.to_multiset().count(p) > 0);
    }
}

/// Every combo that is answered is one that breeds, has the asked child
/// whatever parents are given, and holds each given parent: both when
/// two are given. It says whether the parents may change their roles.
pub proof fn law_combos_are_what_was_asked_for(
    answer: BreedingCombosResponse,
    db: PalDb,
    index: ChildIndex,
    request: BreedingCombosRequest,
)
    requires
        index.wf(),
        combos_fault(db, request) is None,
        answers_combos(answer, db, index, request),
    ensures
        forall|k: int|
            0 <= k < answer.combos@.len() ==> {
                let c = #[trigger] answer.combos@[k];
                let (male, female) = (c.parent_male.name@, c.parent_female.name@);
                &&& index.child(male, female) == Some(c.child.name@)
                &&& c.either_direction <==> index.child(female, male) == Some(c.child.name@)
                &&& request.child matches Some(raw) ==> db.found(raw@) matches Some(pal)
                    && c.child.name@ == pal.name@
                &&& request.parent_a matches Some(raw) ==> db.found(raw@) matches Some(pal) && (
                male == pal.name@ || female == pal.name@)
                &&& request.parent_b matches Some(raw) ==> db.found(raw@) matches Some(pal) && (
                male == pal.name@ || female == pal.name@)
                &&& request.parent_a is Some && request.parent_b is Some ==> {
                    let a = db.found(request.parent_a->0@)->0.name@;
                    let b = db.found(request.parent_b->0@)->0.name@;
                    (male == a && female == b) || (male == b && female == a)
                }
            },
{
    lemma_combos(answer, db, index, request);
    let matching = matching_combos(db, index, request);
    let line = sorted_by(matching, combo_order(db));
    index.lemma_listed();
    let asked = combo_listed(
        index,
        wanted_species(db, request.parent_a),
        wanted_species(db, request.parent_b),
        wanted_species(db, request.child),
    );
    crate::seqs::lemma_kept(index.listed(), asked);
    assert forall|k: int| 0 <= k < answer.combos@.len() implies ({
        let c = #[trigger] answer.combos@[k];
        let (male, female) = (c.parent_male.name@, c.parent_female.name@);
        &&& index.child(male, female) == Some(c.child.name@)
        &&& c.either_direction <==> index.child(female, male) == Some(c.child.name@)
        &&& request.child matches Some(raw) ==> db.found(raw@) matches Some(pal) && c.child.name@
            == pal.name@
        &&& request.parent_a matches Some(raw) ==> db.found(raw@) matches Some(pal) && (male
            == pal.name@ || female == pal.name@)
        &&& request.parent_b matches Some(raw) ==> db.found(raw@) matches Some(pal) && (male
            == pal.name@ || female == pal.name@)
        &&& request.parent_a is Some && request.parent_b is Some ==> {
            let a = db.found(request.parent_a->0@)->0.name@;
            let b = db.found(request.parent_b->0@)->0.name@;
            (male == a && female == b) || (male == b && female == a)
        }
    }) by {
        let c = answer.combos@[k];
        let p = line[k];
        assert(c@ == reported_combo(db, index, p));
        assert(matching.contains(p));
        assert(asked(p));
        let e = choose|e: int| 0 <= e < index.listed().len() && index.listed()[e] == p;
        assert(index.table().dom().contains((p.male@, p.female@)));
        assert(c.parent_male@.name == p.male@);
        assert(c.parent_female@.name == p.female@);
        assert(c.child@.name == p.child@);
    }
}

/// Every pairing of the index that has the asked child and holds the
/// given parents is answered, as it stands or with the parents' roles
/// exchanged where that gives the same child, unless the limit cuts the
/// answer short; and then the answer says so.
pub proof fn law_no_asked_combo_is_lost(
    answer: BreedingCombosResponse,
    db: PalDb,
    index: ChildIndex,
    request: BreedingCombosRequest,
    male: Seq<char>,
    female: Seq<char>,
)
    requires
        index.wf(),
        combos_fault(db, request) is None,
        answers_combos(answer, db, index, request),
        index.child(male, female) is Some,
        request.child matches Some(raw) ==> index.child(male, female) == Some(
            db.found(raw@)->0.name@,
        ),
        request.parent_a matches Some(raw) ==> db.found(raw@)->0.name@ == male || db.found(
            raw@,
        )->0.name@ == female,
        request.parent_b matches Some(raw) ==> db.found(raw@)->0.name@ == male || db.found(
            raw@,
        )->0.name@ == female,
        request.parent_a is Some && request.parent_b is Some && db.found(
            request.parent_a->0@,
        )->0.name@ == db.found(request.parent_b->0@)->0.name@ ==> male == female,
    ensures
        answer.truncated || exists|k: int|
            0 <= k < answer.combos@.len() && {
                let c = #[trigger] answer.combos@[k];
                &&& index.child(male, female) == Some(c.child.name@)
                &&& (c.parent_male.name@ == male && c.parent_female.name@ == female) || (
                c.either_direction && c.parent_male.name@ == female && c.parent_female.name@
                    == male)
            },
        answer.truncated <==> answer.combos@.len() < answer.total_matching,
        answer.returned == answer.combos@.len(),
        match request.limit {
            Some(limit) => answer.truncated ==> answer.returned == limit || (limit == 0
                && answer.returned == 1),
            None => answer.truncated ==> answer.returned == 50,
        },
{
    lemma_combos(answer, db, index, request);
    let matching = matching_combos(db, index, request);
    let line = sorted_by(matching, combo_order(db));
    index.lemma_listed();
    let asked = combo_listed(
        index,
        wanted_species(db, request.parent_a),
        wanted_species(db, request.parent_b),
        wanted_species(db, request.child),
    );
    let list = index.listed();
    crate::seqs::lemma_kept(list, asked);
    let child = index.child(male, female)->0;
    assert(index.table().dom().contains((male, female)));
    let e = choose|e: int|
        0 <= e < list.len() && (#[trigger] list[e]).male@ == male && list[e].female@ == female;
    let p = list[e];
    assert(p.child@ == child);
    assert(list.contains(p));
    let limit = limit_of(request.limit, DEFAULT_COMBO_LIMIT);
    assert(combo_views(answer.combos@).len() == at_most(line, limit).len());
    if either_way(index, p) && before(female, male) {
        assert(index.table().dom().contains((female, male)));
        let m = choose|m: int|
            0 <= m < list.len() && (#[trigger] list[m]).male@ == female && list[m].female@ == male;
        let q = list[m];
        assert(q.child@ == child);
        assert(list.contains(q));
        lemma_texts_ordered(male, female, male);
        assert(asked(q));
        assert(matching.contains(q));
        assert(line.contains(q));
        let k = choose|k: int| 0 <= k < line.len() && line[k] == q;
        if !answer.truncated {
            let c = answer.combos@[k];
            assert(c@ == reported_combo(db, index, line[k]));
            assert(c.parent_male@.name == female && c.parent_female@.name == male);
            assert(c.child@.name == child);
        }
    } else {
        assert(asked(p));
        assert(matching.contains(p));
        assert(line.contains(p));
        let k = choose|k: int| 0 <= k < line.len() && line[k] == p;
        if !answer.truncated {
            let c = answer.combos@[k];
            assert(c@ == reported_combo(db, index, line[k]));
            assert(c.parent_male@.name == male && c.parent_female@.name == female);
            assert(c.child@.name == child);
        }
    }
}

/// The limit only cuts an answer short: two queries that differ in
/// nothing else match as many combos, and what both show is the same.
pub proof fn law_limits_only_cut(
    few: BreedingCombosResponse,
    many: BreedingCombosResponse,
    db: PalDb,
    index: ChildIndex,
    short: BreedingCombosRequest,
    long: BreedingCombosRequest,
)
    requires
        index.wf(),
        answers_combos(few, db, index, short),
        answers_combos(many, db, index, long),
        short.parent_a == long.parent_a,
        short.parent_b == long.parent_b,
        short.child == long.child,
    ensures
        few.total_matching == many.total_matching,
        forall|k: int|
            0 <= k < few.combos@.len() && k < many.combos@.len() ==> (#[trigger] few.combos@[k])@
                == many.combos@[k]@,
{
    lemma_combos(few, db, index, short);
    lemma_combos(many, db, index, long);
    assert forall|k: int| 0 <= k < few.combos@.len() && k < many.combos@.len() implies (
    #[trigger] few.combos@[k])@ == many.combos@[k]@ by {
        assert(many.combos@[k]@ == few.combos@[k]@);
    }
}

proof fn lemma_listing_order(db: PalDb)
    ensures
        crate::seqs::weak_order(listing_order(db)),
{
    let lt = listing_order(db);
    assert forall|a: OwnedPal| !#[trigger] lt(a, a) by {
        crate::text::lemma_before_irreflexive(shown(db, a.species@));
    }
    assert forall|a: OwnedPal, b: OwnedPal, c: OwnedPal| #[trigger]
        lt(a, b) && #[trigger] lt(b, c) implies lt(a, c) by {
        let (x, y, z) = (shown(db, a.species@), shown(db, b.species@), shown(db, c.species@));
        if before(x, y) && before(y, z) {
            crate::text::lemma_before_transitive(x, y, z);
        }
    }
    assert forall|a: OwnedPal, b: OwnedPal, c: OwnedPal|
        !(#[trigger] lt(a, b)) && !(#[trigger] lt(b, c)) implies !lt(a, c) by {
        let (x, y, z) = (shown(db, a.species@), shown(db, b.species@), shown(db, c.species@));
        crate::text::lemma_before_total(x, y);
        crate::text::lemma_before_total(y, z);
        crate::text::lemma_before_irreflexive(x);
        crate::text::lemma_before_irreflexive(y);
        if before(y, x) && before(z, y) {
            crate::text::lemma_before_transitive(z, y, x);
            if before(x, z) {
                crate::text::lemma_before_transitive(x, z, x);
            }
        } else if before(y, x) {
            if before(x, z) {
                crate::text::lemma_before_transitive(y, x, z);
                assert(y == z);
            }
        } else if before(z, y) {
            assert(x == y);
            if before(x, z) {
                crate::text::lemma_before_transitive(x, z, y);
            }
        }
    }
}

/// A listing is ordered by display name, then by how many passives a pal
/// carries, and holds each matching pal as often as the pool does.
pub proof fn law_listings_are_ordered_and_complete(db: PalDb, matching: Seq<OwnedPal>)
    ensures
        crate::seqs::ordered(sorted_by(matching, listing_order(db)), listing_order(db)),
        sorted_by(matching, listing_order(db)).to_multiset() == matching.to_multiset(),
{
    lemma_listing_order(db);
    crate::seqs::lemma_sorted_by(matching, listing_order(db));
}

/// However much is asked for, a search stays within its bounds.
pub proof fn law_settings_stay_in_range(request: FindBreedingPathRequest)
    ensures
        1 <= settings(request).max_breeding_steps <= MAX_BREEDING_STEPS,
        1 <= settings(request).max_results <= MAX_RESULTS,
        request.progenitors@.len() > 0 ==> settings(request).allow_wild_pals,
{
}

/// What a listing shows is in the pool, as it stands there, and meets
/// each of the given conditions: species, passive, gender and every
/// minimum.
pub proof fn law_listed_pals_are_what_was_asked_for(
    answer: ListPalsResponse,
    db: PalDb,
    pool: Seq<OwnedPal>,
    request: ListPalsRequest,
    minimums: IvThresholds,
) -> (origin: Seq<int>)
    requires
        listing_fault(db, request) is None,
        same_minimums(minimums, request.min_ivs),
        answers_pals(answer, db, pool, request, minimums),
    ensures
        origin.len() == answer.pals@.len(),
        forall|k: int|
            0 <= k < answer.pals@.len() ==> {
                let row = #[trigger] answer.pals@[k];
                let pal = pool[origin[k]];
                &&& 0 <= origin[k] < pool.len()
                &&& row.species.name@ == pal.species@
                &&& row.gender is Male <==> pal.gender is Male
                &&& row.passives@.len() == pal.passives@.len()
                &&& forall|j: int|
                    0 <= j < pal.passives@.len() ==> (#[trigger] row.passives@[j]).name@
                        == pal.passives@[j]@
                &&& row.ivs.hp == pal.ivs.hp@
                &&& row.ivs.attack == pal.ivs.attack@
                &&& row.ivs.defense == pal.ivs.defense@
                &&& request.species matches Some(raw) ==> db.found(raw@) matches Some(s)
                    && row.species.name@ == s.name@
                &&& request.passive matches Some(raw) ==> db.found_skill(raw@) matches Some(s)
                    && exists|j: int|
                    0 <= j < row.passives@.len() && (#[trigger] row.passives@[j]).name@ == s.name@
                &&& request.gender matches Some(raw) ==> if row.gender is Male {
                    lower(raw@) == "male"@ || lower(raw@) == "m"@
                } else {
                    lower(raw@) == "female"@ || lower(raw@) == "f"@
                }
                &&& request.min_ivs matches Some(least) ==> {
                    &&& least.hp matches Some(v) ==> v <= row.ivs.hp
                    &&& least.attack matches Some(v) ==> v <= row.ivs.attack
                    &&& least.defense matches Some(v) ==> v <= row.ivs.defense
                }
            },
{
    let asked = listed(
        wanted_species(db, request.species),
        wanted_passive(db, request.passive),
        wanted_gender(request.gender),
        minimums,
    );
    let matching = kept(pool, asked);
    let line = sorted_by(matching, listing_order(db));
    lemma_listing_order(db);
    crate::seqs::lemma_sorted_by(matching, listing_order(db));
    crate::seqs::lemma_kept(pool, asked);
    broadcast use vstd::seq_lib::group_to_multiset_ensures;

    let limit = limit_of(request.limit, DEFAULT_LIST_LIMIT);
    assert(owned_json_views(answer.pals@).len() == at_most(line, limit).len());
    let origin = Seq::new(
        answer.pals@.len(),
        |k: int| choose|i: int| 0 <= i < pool.len() && pool[i] == line[k],
    );
    assert forall|k: int| 0 <= k < answer.pals@.len() implies ({
        let row = #[trigger] answer.pals@[k];
        let pal = pool[origin[k]];
        &&& 0 <= origin[k] < pool.len()
        &&& row.species.name@ == pal.species@
        &&& row.gender is Male <==> pal.gender is Male
        &&& row.passives@.len() == pal.passives@.len()
        &&& forall|j: int|
            0 <= j < pal.passives@.len() ==> (#[trigger] row.passives@[j]).name@
                == pal.passives@[j]@
        &&& row.ivs.hp == pal.ivs.hp@
        &&& row.ivs.attack == pal.ivs.attack@
        &&& row.ivs.defense == pal.ivs.defense@
        &&& request.species matches Some(raw) ==> db.found(raw@) matches Some(s)
            && row.species.name@ == s.name@
        &&& request.passive matches Some(raw) ==> db.found_skill(raw@) matches Some(s)
            && exists|j: int|
            0 <= j < row.passives@.len() && (#[trigger] row.passives@[j]).name@ == s.name@
        &&& request.gender matches Some(raw) ==> if row.gender is Male {
            lower(raw@) == "male"@ || lower(raw@) == "m"@
        } else {
            lower(raw@) == "female"@ || lower(raw@) == "f"@
        }
        &&& request.min_ivs matches Some(least) ==> {
            &&& least.hp matches Some(v) ==> v <= row.ivs.hp
            &&& least.attack matches Some(v) ==> v <= row.ivs.attack
            &&& least.defense matches Some(v) ==> v <= row.ivs.defense
        }
    }) by {
        let row = answer.pals@[k];
        assert(owned_json_views(answer.pals@)[k] == row@);
        assert(at_most(line, limit)[k] == line[k]);
        assert(line.contains(line[k]));
        assert(line.to_multiset().count(line[k]) > 0);
        assert(matching.contains(line[k]));
        assert(pool.contains(line[k]) && asked(line[k]));
        let pal = line[k];
        assert(pool[origin[k]] == pal);
        assert(row@ == reported_pal(db, pal@));
        assert(passive_views(row.passives@) == passives_named(db, pal@.passives));
        assert(passive_views(row.passives@).len() == row.passives@.len());
        assert(row@.species.name == pal.species@);
        assert forall|j: int| 0 <= j < pal.passives@.len() implies (
        #[trigger] row.passives@[j]).name@ == pal.passives@[j]@ by {
            assert(passive_views(row.passives@)[j] == row.passives@[j]@);
            assert(passives_named(db, pal@.passives)[j].name == pal@.passives[j]);
        }
        if request.passive is Some {
            let name = db.found_skill(request.passive->0@)->0.name@;
            assert(pal@.passives.contains(name));
            let j = choose|j: int| 0 <= j < pal@.passives.len() && pal@.passives[j] == name;
            assert(row.passives@[j].name@ == name);
        }
        assert(minimums.stat_met(crate::model::IvStat::Hp, pal.ivs));
        assert(minimums.stat_met(crate::model::IvStat::Attack, pal.ivs));
        assert(minimums.stat_met(crate::model::IvStat::Defense, pal.ivs));
    }
    origin
}

/// Every pal of the pool that meets the given conditions is counted and
/// shown, unless the limit cuts the listing short; and then the listing
/// says so.
pub proof fn law_no_listed_pal_is_lost(
    answer: ListPalsResponse,
    db: PalDb,
    pool: Seq<OwnedPal>,
    request: ListPalsRequest,
    minimums: IvThresholds,
    at: int,
) -> (k: int)
    requires
        listing_fault(db, request) is None,
        same_minimums(minimums, request.min_ivs),
        answers_pals(answer, db, pool, request, minimums),
        0 <= at < pool.len(),
        request.species matches Some(raw) ==> pool[at].species@ == db.found(raw@)->0.name@,
        request.passive matches Some(raw) ==> exists|j: int|
            0 <= j < pool[at].passives@.len() && (#[trigger] pool[at].passives@[j])@
                == db.found_skill(raw@)->0.name@,
        request.gender matches Some(raw) ==> if pool[at].gender is Male {
            lower(raw@) == "male"@ || lower(raw@) == "m"@
        } else {
            lower(raw@) == "female"@ || lower(raw@) == "f"@
        },
        request.min_ivs matches Some(least) ==> {
            &&& least.hp matches Some(v) ==> v <= pool[at].ivs.hp@
            &&& least.attack matches Some(v) ==> v <= pool[at].ivs.attack@
            &&& least.defense matches Some(v) ==> v <= pool[at].ivs.defense@
        },
    ensures
        answer.truncated || (0 <= k < answer.pals@.len() && answer.pals@[k]@ == reported_pal(
            db,
            pool[at]@,
        )),
        answer.total_matching > 0,
        answer.truncated <==> answer.pals@.len() < answer.total_matching,
        answer.returned == answer.pals@.len(),
        match request.limit {
            Some(limit) => answer.truncated ==> answer.returned == limit || (limit == 0
                && answer.returned == 1),
            None => answer.truncated ==> answer.returned == 100,
        },
{
    let asked = listed(
        wanted_species(db, request.species),
        wanted_passive(db, request.passive),
        wanted_gender(request.gender),
        minimums,
    );
    let matching = kept(pool, asked);
    let line = sorted_by(matching, listing_order(db));
    lemma_listing_order(db);
    crate::seqs::lemma_sorted_by(matching, listing_order(db));
    crate::seqs::lemma_kept(pool, asked);
    broadcast use vstd::seq_lib::group_to_multiset_ensures;

    let pal = pool[at];
    assert(asked(pal)) by {
        if request.passive is Some {
            let name = db.found_skill(request.passive->0@)->0.name@;
            let j = choose|j: int|
                0 <= j < pal.passives@.len() && (#[trigger] pal.passives@[j])@ == name;
            assert(pal@.passives[j] == name);
        }
        if request.gender is Some {
            reveal_strlit("male");
            reveal_strlit("m");
            reveal_strlit("female");
            reveal_strlit("f");
            assert("male"@.len() == 4 && "m"@.len() == 1 && "female"@.len() == 6 && "f"@.len()
                == 1);
            assert("m"@[0] == 'm' && "f"@[0] == 'f');
        }
        assert(minimums.stat_met(crate::model::IvStat::Hp, pal.ivs));
        assert(minimums.stat_met(crate::model::IvStat::Attack, pal.ivs));
        assert(minimums.stat_met(crate::model::IvStat::Defense, pal.ivs));
    }
    assert(matching.contains(pal));
    assert(matching.to_multiset().count(pal) > 0);
    assert(line.to_multiset().count(pal) > 0);
    assert(line.contains(pal));
    let limit = limit_of(request.limit, DEFAULT_LIST_LIMIT);
    assert(owned_json_views(answer.pals@).len() == at_most(line, limit).len());
    let k = choose|k: int| 0 <= k < line.len() && line[k] == pal;
    if !answer.truncated {
        assert(owned_json_views(answer.pals@)[k] == answer.pals@[k]@);
    }
    k
}

/// What is not asked for takes its default, what is asked for within
/// its range is taken as it is, and wild pals are allowed exactly when
/// they are asked for or a progenitor is named.
pub proof fn law_settings_are_what_was_asked_for(request: FindBreedingPathRequest)
    ensures
        match request.max_breeding_steps {
            Some(n) => 1 <= n <= 24 ==> settings(request).max_breeding_steps == n,
            None => settings(request).max_breeding_steps == 3,
        },
        match request.max_results {
            Some(n) => 1 <= n <= 10 ==> settings(request).max_results == n,
            None => settings(request).max_results == 5,
        },
        request.max_breeding_steps matches Some(n) && n > 24 ==> settings(
            request,
        ).max_breeding_steps == 24,
        request.max_results matches Some(n) && n > 10 ==> settings(request).max_results == 10,
        settings(request).allow_wild_pals <==> request.allow_wild || request.progenitors@.len() > 0,
{
}

/// A goal holds all that a request says: each name in its place, as
/// the database spells it, and each minimum for its own stat.
pub proof fn law_goals_are_what_was_asked_for(
    db: PalDb,
    request: FindBreedingPathRequest,
    goal: GoalView,
)
    requires
        refusal(db, request) is None,
        asks_for(db, request, goal),
    ensures
        db.found(request.target@) matches Some(pal) && goal.species == pal.name@,
        goal.passives.len() == request.passives@.len(),
        forall|i: int|
            0 <= i < request.passives@.len() ==> (db.found_skill(
                (#[trigger] request.passives@[i])@,
            ) matches Some(skill) && goal.passives[i] == skill.name@),
        goal.progenitors.len() == request.progenitors@.len(),
        forall|i: int|
            0 <= i < request.progenitors@.len() ==> (db.found(
                (#[trigger] request.progenitors@[i])@,
            ) matches Some(pal) && goal.progenitors[i] == pal.name@),
        match request.min_ivs {
            Some(least) => {
                &&& goal.iv_thresholds.hp is Some <==> least.hp is Some
                &&& goal.iv_thresholds.attack is Some <==> least.attack is Some
                &&& goal.iv_thresholds.defense is Some <==> least.defense is Some
                &&& least.hp matches Some(v) ==> goal.iv_thresholds.hp->0@ == v && v <= 100
                &&& least.attack matches Some(v) ==> goal.iv_thresholds.attack->0@ == v && v <= 100
                &&& least.defense matches Some(v) ==> goal.iv_thresholds.defense->0@ == v && v
                    <= 100
            },
            None => goal.iv_thresholds.hp is None && goal.iv_thresholds.attack is None
                && goal.iv_thresholds.defense is None,
        },
{
    lemma_first_where(request.passives@, strange_passive(db));
    lemma_first_where(request.progenitors@, strange_species(db));
    assert forall|i: int| 0 <= i < request.passives@.len() implies (db.found_skill(
        (#[trigger] request.passives@[i])@,
    ) matches Some(skill) && goal.passives[i] == skill.name@) by {
        assert(!strange_passive(db)(request.passives@[i]));
    }
    assert forall|i: int| 0 <= i < request.progenitors@.len() implies (db.found(
        (#[trigger] request.progenitors@[i])@,
    ) matches Some(pal) && goal.progenitors[i] == pal.name@) by {
        assert(!strange_species(db)(request.progenitors@[i]));
    }
}

/// Every passive that mentions the query in its internal or its display
/// name is listed with all that is known of it, and no other is.
pub proof fn law_passive_filters_keep_what_mentions_them(
    answer: ListPassivesResponse,
    db: PalDb,
    filter: Option<String>,
)
    requires
        answers_passives(answer, db, filter),
    ensures
        answer.total == answer.passives@.len(),
        forall|j: int|
            0 <= j < db.skills().len() && (filter matches Some(query) ==> crate::text::has_part(
                lower(db.skills()[j].name@),
                lower(query@),
            ) || crate::text::has_part(lower(db.skills()[j].display_name@), lower(query@)))
                ==> exists|k: int| 0 <= k < answer.passives@.len() && tells(
                #[trigger] answer.passives@[k],
                #[trigger] db.skills()[j],
            ),
        forall|k: int|
            0 <= k < answer.passives@.len() ==> {
                let row = #[trigger] answer.passives@[k];
                &&& exists|j: int|
                    0 <= j < db.skills().len() && tells(row, #[trigger] db.skills()[j])
                &&& filter matches Some(query) ==> crate::text::has_part(
                    lower(row.name@),
                    lower(query@),
                ) || crate::text::has_part(lower(row.display_name@), lower(query@))
            },
{
    let matching = kept(db.skills(), passive_listed(filter));
    let lt = by_skill_display();
    assert forall|a: PassiveSkill| !#[trigger] lt(a, a) by {
        crate::text::lemma_before_irreflexive(a.display_name@);
    }
    assert forall|a: PassiveSkill, b: PassiveSkill, c: PassiveSkill| #[trigger]
        lt(a, b) && #[trigger] lt(b, c) implies lt(a, c) by {
        lemma_texts_ordered(a.display_name@, b.display_name@, c.display_name@);
    }
    assert forall|a: PassiveSkill, b: PassiveSkill, c: PassiveSkill|
        !(#[trigger] lt(a, b)) && !(#[trigger] lt(b, c)) implies !lt(a, c) by {
        lemma_texts_ordered(c.display_name@, b.display_name@, a.display_name@);
    }
    crate::seqs::lemma_sorted_by(matching, lt);
    crate::seqs::lemma_kept(db.skills(), passive_listed(filter));
    broadcast use vstd::seq_lib::group_to_multiset_ensures;

    let line = sorted_by(matching, lt);
    assert forall|j: int|
        0 <= j < db.skills().len() && (filter matches Some(query) ==> crate::text::has_part(
            lower(db.skills()[j].name@),
            lower(query@),
        ) || crate::text::has_part(
            lower(db.skills()[j].display_name@),
            lower(query@),
        )) implies exists|k: int|
        0 <= k < answer.passives@.len() && tells(
            #[trigger] answer.passives@[k],
            #[trigger] db.skills()[j],
        ) by {
        let skill = db.skills()[j];
        assert(db.skills().contains(skill));
        assert(passive_listed(filter)(skill));
        assert(matching.contains(skill));
        assert(matching.to_multiset().count(skill) > 0);
        assert(line.to_multiset().count(skill) > 0);
        assert(line.contains(skill));
        let k = choose|k: int| 0 <= k < line.len() && line[k] == skill;
        assert(describes(answer.passives@[k], line[k]));
    }
    assert forall|k: int| 0 <= k < answer.passives@.len() implies ({
        let row = #[trigger] answer.passives@[k];
        &&& exists|j: int| 0 <= j < db.skills().len() && tells(row, #[trigger] db.skills()[j])
        &&& filter matches Some(query) ==> crate::text::has_part(lower(row.name@), lower(query@))
            || crate::text::has_part(lower(row.display_name@), lower(query@))
    }) by {
        let skill = line[k];
        assert(describes(answer.passives@[k], line[k]));
        assert(line.contains(skill));
        assert(line.to_multiset().count(skill) > 0);
        assert(matching.contains(skill));
        let j = choose|j: int| 0 <= j < db.skills().len() && db.skills()[j] == skill;
        assert(tells(answer.passives@[k], db.skills()[j]));
    }
}

/// A row tells a passive's names, its rank and how it is inherited at
/// random.
pub open spec fn tells(row: PassiveInfoJson, skill: PassiveSkill) -> bool {
    &&& row.name@ == skill.name@
    &&& row.display_name@ == skill.display_name@
    &&& row.rank == skill.rank
    &&& row.random_inheritance_allowed == skill.random_inheritance_allowed
    &&& row.random_inheritance_weight == skill.random_inheritance_weight
}

} // verus!
