//! The search itself: seed, run the rounds, rank what reached the goal.

use std::collections::HashMap;
use vstd::prelude::*;

use crate::child::ChildIndex;
use crate::iv::IvOdds;
use crate::model::passive_texts;
use crate::model::PalDb;
use crate::model::PalName;
use crate::model::PassiveName;
use crate::passives::PassiveOdds;
use crate::search::beam::within_arena;
use crate::search::breed::ExpandContext;
use crate::search::laws::Question;
use crate::search::mask::all_bits;
use crate::search::mask::picked;
use crate::search::mask::DesiredMask;
use crate::search::plan::owned_views;
use crate::search::plan::plan_views;
use crate::search::plan::BredNode;
use crate::search::plan::BreedingGoal;
use crate::search::plan::BreedingPlan;
use crate::search::plan::GoalView;
use crate::search::plan::OwnedPal;
use crate::search::plan::OwnedView;
use crate::search::plan::PlanNode;
use crate::search::plan::PlanTree;
use crate::search::plan::PlanView;
use crate::search::plan::SearchConfig;
use crate::search::plan::SearchError;
use crate::search::record::key_of_masks;
use crate::search::record::Record;
use crate::search::record::Scene;
use crate::search::record::Source;
use crate::search::rounds::bucket_of;
use crate::search::rounds::goal_key;
use crate::search::rounds::Search;
use crate::search::rounds::SearchState;
use crate::search::seed::first_fault;
use crate::search::seed::junk_table;
use crate::search::seed::known_id;
use crate::search::seed::leaves;
use crate::search::seed::owned_junk_table;
use crate::search::seed::seed_leaves;
use crate::search::seed::validate;
use crate::search::world::lemma_sorted_names;
use crate::search::world::world_of;
use crate::search::world::World;
use crate::search::world::WorldView;
use crate::seqs::first_where;
use crate::seqs::lemma_first_number;
use crate::seqs::lemma_first_where;
use crate::seqs::sorted_by;
use crate::steps::breeding_edges;
use crate::steps::steps_apart;
use crate::steps::Edges;
use crate::steps::SpeciesAdjacency;

verus! {

broadcast use vstd::std_specs::hash::group_hash_axioms;

// ---------------------------------------------------------------------
// What a search answers
// ---------------------------------------------------------------------
/// The fewest steps from each species to the goal.
pub open spec fn distances(
    edges: Edges,
    names: Seq<Seq<char>>,
    goal: Seq<char>,
) -> Seq<Option<u32>> {
    Seq::new(
        names.len(),
        |i: int|
            match steps_apart(edges, names[i], goal) {
                Some(k) => Some(k as u32),
                None => None,
            },
    )
}

/// What every step of a search reads.
pub open spec fn scene_of(
    db: PalDb,
    index: ChildIndex,
    odds: PassiveOdds,
    iv_odds: IvOdds,
    owned: Seq<OwnedView>,
    goal: GoalView,
    config: SearchConfig,
) -> Scene {
    let world = world_of(db, index);
    Scene {
        child: world.child,
        distance: distances(breeding_edges(db, index), world.names, goal.species),
        male: world.male,
        female: world.female,
        odds,
        iv_odds,
        junk: junk_table(owned, goal.passives),
        max_steps: config.max_breeding_steps,
        beam: config.max_results,
        goal: known_id(world.names, goal.species),
        full: all_bits(goal.passives.len()),
        all_required: all_bits(goal.progenitors.len()),
        iv_full: all_bits(goal.iv_thresholds.requirements().len()),
    }
}

/// Where a search starts: every leaf is to be expanded.
pub open spec fn start(arena: Seq<Record>) -> Search {
    Search {
        arena,
        live: Seq::new(arena.len(), |i: int| true),
        buckets: Map::empty(),
        frontier: Seq::new(arena.len(), |i: int| i as usize),
    }
}

/// A record is what the goal asks for.
pub open spec fn meets_goal(scene: Scene, r: Record) -> bool {
    r.species == scene.goal && r.carried == scene.full && r.required == scene.all_required
        && r.iv_met == scene.iv_full
}

/// The leaves below `n` that are what the goal asks for.
pub open spec fn goal_leaves(scene: Scene, arena: Seq<Record>, n: nat) -> Seq<usize>
    decreases n,
{
    if n == 0 {
        Seq::empty()
    } else {
        let rest = goal_leaves(scene, arena, (n - 1) as nat);
        if meets_goal(scene, arena[n - 1]) {
            rest.push((n - 1) as usize)
        } else {
            rest
        }
    }
}

/// Fewer expected eggs come first, then fewer steps.
pub open spec fn ranks_before(arena: Seq<Record>) -> spec_fn(usize, usize) -> bool {
    |a: usize, b: usize|
        arena[a as int].cost < arena[b as int].cost || (arena[a as int].cost
            == arena[b as int].cost && arena[a as int].bred_count < arena[b as int].bred_count)
}

/// The ids that are what the goal asks for: leaves, then bred ones.
pub open spec fn goal_ids(scene: Scene, leaf_count: nat, search: Search) -> Seq<usize> {
    goal_leaves(scene, search.arena, leaf_count) + bucket_of(search.buckets, goal_key(scene))
}

/// The best ids in order, at most as many as are asked for.
pub open spec fn ranked_ids(scene: Scene, leaf_count: nat, search: Search) -> Seq<usize> {
    let sorted = sorted_by(goal_ids(scene, leaf_count, search), ranks_before(search.arena));
    if sorted.len() <= scene.beam {
        sorted
    } else {
        sorted.take(scene.beam as int)
    }
}

/// The plan that led to a record.
pub open spec fn tree_of(
    names: Seq<Seq<char>>,
    owned: Seq<OwnedView>,
    desired: Seq<Seq<char>>,
    arena: Seq<Record>,
    id: nat,
) -> PlanTree
    decreases id,
{
    let r = arena[id as int];
    match r.source {
        Source::Owned(position) => PlanTree::Owned(owned[position as int]),
        Source::Wild => PlanTree::Wild(names[r.species as int]),
        Source::Progenitor => PlanTree::Progenitor(names[r.species as int]),
        Source::Bred { male, female } => if male < id && female < id {
            PlanTree::Bred {
                male: Box::new(tree_of(names, owned, desired, arena, male as nat)),
                female: Box::new(tree_of(names, owned, desired, arena, female as nat)),
                species: names[r.species as int],
                carried: picked(r.carried, desired),
            }
        } else {
            PlanTree::Wild(names[r.species as int])
        },
    }
}

/// The plan of a record.
pub open spec fn plan_of(
    names: Seq<Seq<char>>,
    owned: Seq<OwnedView>,
    desired: Seq<Seq<char>>,
    arena: Seq<Record>,
    id: usize,
) -> PlanView {
    PlanView {
        tree: tree_of(names, owned, desired, arena, id as nat),
        expected_eggs: arena[id as int].cost,
        steps: arena[id as int].bred_count,
    }
}

/// The state in which a search ends.
pub open spec fn outcome(
    db: PalDb,
    index: ChildIndex,
    odds: PassiveOdds,
    iv_odds: IvOdds,
    owned: Seq<OwnedView>,
    goal: GoalView,
    config: SearchConfig,
) -> Search {
    let scene = scene_of(db, index, odds, iv_odds, owned, goal, config);
    let seeds = leaves(world_of(db, index), owned, goal, scene.distance, config);
    start(seeds).rounds(scene, config.max_breeding_steps as nat)
}

/// The ranked plans of a search.
pub open spec fn answers(
    db: PalDb,
    index: ChildIndex,
    odds: PassiveOdds,
    iv_odds: IvOdds,
    owned: Seq<OwnedView>,
    goal: GoalView,
    config: SearchConfig,
) -> Seq<PlanView> {
    if config.max_results == 0 {
        Seq::empty()
    } else {
        let scene = scene_of(db, index, odds, iv_odds, owned, goal, config);
        let world = world_of(db, index);
        let count = leaves(world, owned, goal, scene.distance, config).len();
        let search = outcome(db, index, odds, iv_odds, owned, goal, config);
        ranked_ids(scene, count, search).map_values(
            |id: usize| plan_of(world.names, owned, goal.passives, search.arena, id),
        )
    }
}

// ---------------------------------------------------------------------
// Running it
// ---------------------------------------------------------------------
/// Reusable search context: build once, search many times. Holds the
/// precomputed species tables.
pub struct Solver<'db> {
    pal_db: &'db PalDb,
    index: &'db ChildIndex,
    odds: &'db PassiveOdds,
    iv_odds: &'db IvOdds,
    adjacency: SpeciesAdjacency,
    world: World,
}

impl<'db> Solver<'db> {
    /// The database that is searched.
    pub closed spec fn db(&self) -> PalDb {
        *self.pal_db
    }

    /// The child lookup.
    pub closed spec fn children(&self) -> ChildIndex {
        *self.index
    }

    /// The passive odds.
    pub closed spec fn passive_odds(&self) -> PassiveOdds {
        *self.odds
    }

    /// The IV odds.
    pub closed spec fn ivs(&self) -> IvOdds {
        *self.iv_odds
    }

    /// Everything that one question to this solver consists of.
    pub open spec fn question(
        &self,
        owned: Seq<OwnedView>,
        goal: GoalView,
        config: SearchConfig,
    ) -> Question {
        Question {
            db: self.db(),
            index: self.children(),
            odds: self.passive_odds(),
            iv_odds: self.ivs(),
            owned,
            goal,
            config,
        }
    }

    /// The invariant: the tables belong to the database.
    pub closed spec fn wf(&self) -> bool {
        &&& self.pal_db.wf()
        &&& self.index.wf()
        &&& self.odds.wf()
        &&& self.iv_odds.wf()
        &&& self.adjacency.wf()
        &&& self.adjacency.edges() == breeding_edges(*self.pal_db, *self.index)
        &&& self.world.wf()
        &&& self.world@ == world_of(*self.pal_db, *self.index)
    }

    /// The parts of a solver are well formed.
    pub proof fn lemma_parts(&self)
        requires
            self.wf(),
        ensures
            self.db().wf(),
            self.children().wf(),
            self.passive_odds().wf(),
            self.ivs().wf(),
    {
    }

    /// Species that the index yields but the database lacks are skipped.
    pub fn new(
        pal_db: &'db PalDb,
        index: &'db ChildIndex,
        odds: &'db PassiveOdds,
        iv_odds: &'db IvOdds,
    ) -> (r: Self)
        requires
            pal_db.wf(),
            index.wf(),
            odds.wf(),
            iv_odds.wf(),
        ensures
            r.wf(),
            r.db() == *pal_db,
            r.children() == *index,
            r.passive_odds() == *odds,
            r.ivs() == *iv_odds,
    {
        Solver {
            pal_db,
            index,
            odds,
            iv_odds,
            adjacency: SpeciesAdjacency::build(pal_db, index),
            world: World::build(pal_db, index),
        }
    }

    /// The database this solver searches over.
    pub fn pal_db(&self) -> (r: &'db PalDb)
        ensures
            *r == self.db(),
    {
        self.pal_db
    }

    /// The child lookup this solver breeds with.
    pub fn child_index(&self) -> (r: &'db ChildIndex)
        ensures
            *r == self.children(),
    {
        self.index
    }

    fn distances_to(&self, goal: &PalName) -> (r: Vec<Option<u32>>)
        requires
            self.wf(),
        ensures
            r@ == distances(
                breeding_edges(self.db(), self.children()),
                self.world@.names,
                goal@,
            ),
    {
        let map = self.adjacency.distances_to(goal);
        let ghost edges = self.adjacency.edges();
        let ghost target = distances(edges, self.world@.names, goal@);
        let mut out: Vec<Option<u32>> = Vec::new();
        let mut i: usize = 0;
        while i < self.world.names.len()
            invariant
                i <= self.world.names@.len(),
                edges == self.adjacency.edges(),
                target == distances(edges, self.world@.names, goal@),
                out@.len() == i,
                forall|s: Seq<char>|
                    #![trigger map@.dom().contains(s)]
                    steps_apart(edges, s, goal@) == (if map@.dom().contains(s) {
                        Some(map@[s] as nat)
                    } else {
                        None
                    }),
                forall|j: int| 0 <= j < i ==> #[trigger] out@[j] == target[j],
            decreases self.world.names@.len() - i,
        {
            let name = &self.world.names[i];
            proof {
                assert(self.world@.names[i as int] == name@);
                assert(map@.dom().contains(name@) || !map@.dom().contains(name@));
            }
            let entry: Option<u32> = match map.get(name.as_str()) {
                Some(d) => Some(*d),
                None => None,
            };
            out.push(entry);
            i = i + 1;
        }
        proof {
            assert(out@ =~= target);
        }
        out
    }

    /// Finds breeding plans producing `goal` from `owned`, ranked by
    /// expected eggs (ascending). Returns an empty list when the goal is
    /// unreachable within `config.max_breeding_steps`.
    ///
    /// Fails when the goal, an owned pal, or a progenitor names an
    /// unknown species, or when the goal's passive or progenitor lists
    /// have duplicates or exceed their caps.
    pub fn find_paths(
        &self,
        owned: &Vec<OwnedPal>,
        goal: &BreedingGoal,
        config: &SearchConfig,
    ) -> (r: Result<Vec<BreedingPlan>, SearchError>)
        requires
            self.wf(),
        ensures
            match r {
                Ok(plans) => {
                    &&& first_fault(self.db(), owned_views(owned@), goal@) is None
                    &&& plan_views(plans@) == answers(
                        self.db(),
                        self.children(),
                        self.passive_odds(),
                        self.ivs(),
                        owned_views(owned@),
                        goal@,
                        *config,
                    )
                    &&& forall|k: int|
                        0 <= k < plans@.len() ==> self.question(
                            owned_views(owned@),
                            goal@,
                            *config,
                        ).answered_by((#[trigger] plans@[k])@)
                },
                Err(error) => first_fault(self.db(), owned_views(owned@), goal@) == Some(error@),
            },
    {
        match validate(self.pal_db, owned, goal) {
            Ok(_) => {},
            Err(error) => {
                return Err(error);
            },
        }
        if config.max_results == 0 {
            let none: Vec<BreedingPlan> = Vec::new();
            proof {
                assert(plan_views(none@) =~= Seq::empty());
            }
            return Ok(none);
        }
        let ghost views = owned_views(owned@);
        proof {
            lemma_checked(*self.pal_db, *self.index, views, goal@);
        }
        let goal_id: usize = match self.world.id(&goal.species) {
            Some(id) => id,
            None => 0,
        };
        let distance = self.distances_to(&goal.species);
        let junk = owned_junk_table(owned, &goal.passives);
        proof {
            assert forall|i: int| 0 <= i < owned@.len() implies self.world@.names.contains(
                (#[trigger] owned@[i]).species@,
            ) by {
                assert(views[i].species == owned@[i].species@);
            }
            assert forall|i: int|
                0 <= i < goal.progenitors@.len() implies self.world@.names.contains(
                (#[trigger] goal.progenitors@[i])@,
            ) by {
                assert(goal@.progenitors[i] == goal.progenitors@[i]@);
            }
        }
        let arena = seed_leaves(&self.world, owned, goal, &distance, config);
        let leaf_count: usize = arena.len();
        let active = goal.iv_thresholds.active();
        let context = ExpandContext {
            world: &self.world,
            distance: &distance,
            odds: self.odds,
            iv_odds: self.iv_odds,
            junk: &junk,
            max_steps: config.max_breeding_steps,
            beam: config.max_results,
            goal: goal_id,
            full: DesiredMask::full(goal.passives.len()).0,
            all_required: DesiredMask::full(goal.progenitors.len()).0,
            iv_full: DesiredMask::full(active.len()).0,
        };
        let ghost scene = scene_of(
            *self.pal_db,
            *self.index,
            *self.odds,
            *self.iv_odds,
            views,
            goal@,
            *config,
        );
        proof {
            assert(context@ == scene);
            assert(scene.wf());
            lemma_leaves_fit(scene, self.world@, views, goal@, *config);
        }
        let mut state = start_state(arena);
        proof {
            let begin = start(arena@);
            assert(state@ == begin);
            assert(begin.wf(scene));
        }
        state.run(&context);
        let ids = rank(&context, leaf_count, &state);
        let plans = materialize_all(
            &self.world.names,
            owned,
            &goal.passives,
            &state.arena,
            &ids,
            Ghost(scene),
        );
        proof {
            let question = self.question(views, goal@, *config);
            assert(state.arena@.len() == state.arena.len());
            assert(owned@.len() == owned.len());
            question.law_plans_are_what_was_asked_for();
            assert(plan_views(plans@) =~= question.answers());
            assert forall|k: int| 0 <= k < plans@.len() implies question.answered_by(
                (#[trigger] plans@[k])@,
            ) by {
                assert(plan_views(plans@)[k] == plans@[k]@);
                assert(question.answered_by(question.answers()[k]));
            }
        }
        Ok(plans)
    }
}

/// Checked inputs name known species within the caps.
pub proof fn lemma_checked(db: PalDb, index: ChildIndex, owned: Seq<OwnedView>, goal: GoalView)
    requires
        db.wf(),
        first_fault(db, owned, goal) is None,
    ensures
        goal.passives.len() <= crate::passives::MAX_TOTAL_PASSIVES,
        goal.progenitors.len() <= crate::search::plan::MAX_PROGENITORS,
        world_of(db, index).names.contains(goal.species),
        forall|i: int|
            0 <= i < owned.len() ==> world_of(db, index).names.contains(
                (#[trigger] owned[i]).species,
            ),
        forall|i: int|
            0 <= i < goal.progenitors.len() ==> world_of(db, index).names.contains(
                #[trigger] goal.progenitors[i],
            ),
        goal.passives.no_duplicates(),
        goal.progenitors.no_duplicates(),
{
    lemma_sorted_names(db);
    let strange = crate::search::seed::unknown_owned(db, owned);
    lemma_first_number(strange, owned.len() as int);
    assert forall|i: int| 0 <= i < owned.len() implies world_of(db, index).names.contains(
        (#[trigger] owned[i]).species,
    ) by {
        assert(!strange(i));
    }
    let twice = crate::search::seed::repeats(goal.passives);
    lemma_first_number(twice, goal.passives.len() as int);
    assert forall|i: int, j: int|
        0 <= i < goal.passives.len() && 0 <= j < goal.passives.len() && i
            != j implies goal.passives[i] != goal.passives[j] by {
        if i < j {
            assert(!twice(j));
            assert(goal.passives.take(j)[i] == goal.passives[i]);
        } else {
            assert(!twice(i));
            assert(goal.passives.take(i)[j] == goal.passives[j]);
        }
    }
    let bad = crate::search::seed::bad_progenitor(db, goal.progenitors);
    lemma_first_number(bad, goal.progenitors.len() as int);
    assert forall|i: int| 0 <= i < goal.progenitors.len() implies world_of(
        db,
        index,
    ).names.contains(#[trigger] goal.progenitors[i]) by {
        assert(!bad(i));
    }
    assert forall|i: int, j: int|
        0 <= i < goal.progenitors.len() && 0 <= j < goal.progenitors.len() && i
            != j implies goal.progenitors[i] != goal.progenitors[j] by {
        if i < j {
            assert(!bad(j));
            assert(goal.progenitors.take(j)[i] == goal.progenitors[i]);
        } else {
            assert(!bad(i));
            assert(goal.progenitors.take(i)[j] == goal.progenitors[j]);
        }
    }
}

/// A known name has a number.
pub proof fn lemma_known_id(names: Seq<Seq<char>>, name: Seq<char>)
    requires
        names.contains(name),
        names.len() <= u32::MAX,
    ensures
        known_id(names, name) < names.len(),
        names[known_id(names, name) as int] == name,
{
    lemma_first_where(names, crate::search::world::equals(name));
    let k = choose|k: int| 0 <= k < names.len() && names[k] == name;
    assert(crate::search::world::equals(name)(names[k]));
}

/// Leaves fit the scene.
pub proof fn lemma_leaves_fit(
    scene: Scene,
    world: WorldView,
    owned: Seq<OwnedView>,
    goal: GoalView,
    config: SearchConfig,
)
    requires
        world.wf(),
        scene.child == world.child,
        scene.junk.len() == owned.len(),
        forall|i: int| 0 <= i < owned.len() ==> world.names.contains((#[trigger] owned[i]).species),
        forall|i: int|
            0 <= i < goal.progenitors.len() ==> world.names.contains(
                #[trigger] goal.progenitors[i],
            ),
        owned.len() <= usize::MAX,
        goal.passives.len() <= 4,
        goal.progenitors.len() <= 8,
    ensures
        scene.fit(leaves(world, owned, goal, scene.distance, config)),
{
    let all = leaves(world, owned, goal, scene.distance, config);
    let wild = wild_part(world, scene.distance, config);
    lemma_wild_fit(scene, world, config.max_breeding_steps, world.names.len());
    assert forall|id: int| 0 <= id < all.len() implies scene.fits(#[trigger] all[id], id) by {
        if id < owned.len() {
            assert(all[id] == crate::search::seed::owned_leaf(
                world.names,
                goal,
                owned[id],
                id as usize,
            ));
            lemma_known_id(world.names, owned[id].species);
            crate::search::mask::lemma_four_bits(
                crate::search::mask::carries(goal.passives, owned[id].passives),
                goal.passives.len(),
            );
            crate::search::mask::lemma_three_bits(
                crate::search::seed::reaches(goal.iv_thresholds, owned[id].ivs),
                goal.iv_thresholds.requirements().len(),
            );
        } else if id < owned.len() + goal.progenitors.len() {
            let p = id - owned.len();
            assert(all[id] == crate::search::seed::progenitor_leaf(
                world.names,
                goal.progenitors[p],
                p as usize,
            ));
            lemma_known_id(world.names, goal.progenitors[p]);
        } else {
            let p = id - owned.len() - goal.progenitors.len();
            assert(all[id] == wild[p]);
        }
    }
}

/// The wild leaves of a search.
spec fn wild_part(
    world: WorldView,
    distance: Seq<Option<u32>>,
    config: SearchConfig,
) -> Seq<Record> {
    if config.allow_wild_pals {
        crate::search::seed::wild_leaves(
            world,
            distance,
            config.max_breeding_steps,
            world.names.len(),
        )
    } else {
        Seq::empty()
    }
}

proof fn lemma_wild_fit(scene: Scene, world: WorldView, max_steps: usize, n: nat)
    requires
        world.wf(),
        scene.child == world.child,
        n <= world.names.len(),
    ensures
        forall|i: int|
            #![trigger crate::search::seed::wild_leaves(world, scene.distance, max_steps, n)[i]]
            0 <= i < crate::search::seed::wild_leaves(world, scene.distance, max_steps, n).len()
                ==> forall|id: int|
                scene.fits(
                    crate::search::seed::wild_leaves(world, scene.distance, max_steps, n)[i],
                    id,
                ),
    decreases n,
{
    if n > 0 {
        lemma_wild_fit(scene, world, max_steps, (n - 1) as nat);
        let rest = crate::search::seed::wild_leaves(
            world,
            scene.distance,
            max_steps,
            (n - 1) as nat,
        );
        let all = crate::search::seed::wild_leaves(world, scene.distance, max_steps, n);
        assert forall|i: int|
            #![trigger all[i]]
            0 <= i < all.len() implies forall|id: int| scene.fits(all[i], id) by {
            if i < rest.len() {
                assert(all[i] == rest[i]);
            }
        }
    }
}

/// Where a search starts.
fn start_state(arena: Vec<Record>) -> (r: SearchState)
    ensures
        r@ == start(arena@),
{
    let n: usize = arena.len();
    let mut live: Vec<bool> = Vec::new();
    let mut frontier: Vec<usize> = Vec::new();
    let mut i: usize = 0;
    while i < n
        invariant
            i <= n,
            live@.len() == i,
            frontier@.len() == i,
            forall|j: int| 0 <= j < i ==> #[trigger] live@[j],
            forall|j: int| 0 <= j < i ==> #[trigger] frontier@[j] == j,
        decreases n - i,
    {
        live.push(true);
        frontier.push(i);
        i = i + 1;
    }
    let buckets: HashMap<u64, Vec<usize>> = HashMap::new();
    let r = SearchState { arena, live, buckets, frontier };
    proof {
        let s = start(arena@);
        assert(r@.live =~= s.live);
        assert(r@.frontier =~= s.frontier);
        assert(r@.buckets =~= s.buckets);
    }
    r
}

/// The best ids in order, at most as many as are asked for.
fn rank(context: &ExpandContext, leaf_count: usize, state: &SearchState) -> (r: Vec<usize>)
    requires
        context@.wf(),
        state@.wf(context@),
        leaf_count <= state@.arena.len(),
    ensures
        r@ == ranked_ids(context@, leaf_count as nat, state@),
        within_arena(r@, state@.arena.len()),
{
    let ghost scene = context@;
    let mut ids: Vec<usize> = Vec::new();
    let mut i: usize = 0;
    while i < leaf_count
        invariant
            scene == context@,
            leaf_count <= state.arena@.len(),
            i <= leaf_count,
            ids@ == goal_leaves(scene, state@.arena, i as nat),
            within_arena(ids@, state.arena@.len()),
        decreases leaf_count - i,
    {
        let r = state.arena[i];
        if r.species == context.goal && r.carried == context.full && r.required
            == context.all_required && r.iv_met == context.iv_full {
            ids.push(i);
        }
        i = i + 1;
    }
    let masks: u32 = key_of_masks(context.full, context.all_required, context.iv_full);
    let key: u64 = (context.goal as u64) * 0x100_0000 + masks as u64;
    let ghost leaf_ids = ids@;
    match state.buckets.get(&key) {
        Some(bucket) => {
            proof {
                assert(state@.buckets.dom().contains(key));
                assert(state@.buckets[key] == bucket@);
                assert(leaf_ids + bucket@.take(0) =~= leaf_ids);
            }
            let mut k: usize = 0;
            while k < bucket.len()
                invariant
                    k <= bucket@.len(),
                    within_arena(bucket@, state.arena@.len()),
                    ids@ == leaf_ids + bucket@.take(k as int),
                    within_arena(ids@, state.arena@.len()),
                decreases bucket@.len() - k,
            {
                ids.push(bucket[k]);
                proof {
                    assert(leaf_ids + bucket@.take(k + 1) =~= (leaf_ids + bucket@.take(
                        k as int,
                    )).push(bucket@[k as int]));
                }
                k = k + 1;
            }
            proof {
                assert(bucket@.take(k as int) =~= bucket@);
            }
        },
        None => {
            proof {
                assert(!state@.buckets.dom().contains(key));
                assert(leaf_ids + Seq::<usize>::empty() =~= leaf_ids);
            }
        },
    }
    proof {
        assert(ids@ == goal_ids(scene, leaf_count as nat, state@));
    }
    let mut sorted = sort_ids(&state.arena, &ids);
    if sorted.len() > context.beam {
        sorted.truncate(context.beam);
    }
    sorted
}

/// Ids in rank order.
fn sort_ids(arena: &Vec<Record>, ids: &Vec<usize>) -> (r: Vec<usize>)
    requires
        within_arena(ids@, arena@.len()),
    ensures
        r@ == sorted_by(ids@, ranks_before(arena@)),
        within_arena(r@, arena@.len()),
{
    let ghost lt = ranks_before(arena@);
    let mut out: Vec<usize> = Vec::new();
    let mut i: usize = 0;
    proof {
        assert(ids@.take(0) =~= Seq::empty());
    }
    while i < ids.len()
        invariant
            lt == ranks_before(arena@),
            within_arena(ids@, arena@.len()),
            within_arena(out@, arena@.len()),
            i <= ids@.len(),
            out@ == sorted_by(ids@.take(i as int), lt),
        decreases ids@.len() - i,
    {
        let id: usize = ids[i];
        let a = arena[id];
        let ghost p = |y: usize| lt(id, y);
        proof {
            assert(ids@.take(i + 1).drop_last() =~= ids@.take(i as int));
            assert(ids@.take(i + 1).last() == id);
            lemma_first_where(out@, p);
        }
        let mut at: usize = 0;
        let mut found = false;
        while at < out.len() && !found
            invariant
                lt == ranks_before(arena@),
                p == (|y: usize| lt(id, y)),
                a == arena@[id as int],
                within_arena(out@, arena@.len()),
                at <= out@.len(),
                forall|j: int| 0 <= j < at ==> !p(#[trigger] out@[j]),
                found ==> at < out@.len() && p(out@[at as int]),
            decreases out@.len() - at + (if found { 0int } else { 1int }),
        {
            let b = arena[out[at]];
            if a.cost < b.cost || (a.cost == b.cost && a.bred_count < b.bred_count) {
                found = true;
                proof {
                    assert(p(out@[at as int]));
                }
            } else {
                proof {
                    assert(!p(out@[at as int]));
                }
                at = at + 1;
            }
        }
        let ghost before = out@;
        proof {
            lemma_first_where(before, p);
            if found {
                assert(first_where(before, p) == Some(at as int));
            } else {
                assert(first_where(before, p) is None);
                assert(before.insert(before.len() as int, id) =~= before.push(id));
            }
        }
        out.insert(at, id);
        i = i + 1;
    }
    proof {
        assert(ids@.take(i as int) =~= ids@);
    }
    out
}

/// The plan tree of a record.
fn materialize(
    names: &Vec<PalName>,
    owned: &Vec<OwnedPal>,
    desired: &Vec<PassiveName>,
    arena: &Vec<Record>,
    id: usize,
    Ghost(scene): Ghost<Scene>,
) -> (r: PlanNode)
    requires
        id < arena@.len(),
        scene.fit(arena@),
        scene.size() == names@.len(),
        scene.junk.len() == owned@.len(),
        desired@.len() <= 8,
    ensures
        r@ == tree_of(
            crate::model::pal_texts(names@),
            owned_views(owned@),
            passive_texts(desired@),
            arena@,
            id as nat,
        ),
    decreases id,
{
    let record = arena[id];
    proof {
        assert(scene.fits(arena@[id as int], id as int));
    }
    match record.source {
        Source::Owned(position) => {
            proof {
                assert(owned_views(owned@)[position as int] == owned@[position as int]@);
            }
            PlanNode::Owned(owned[position].clone())
        },
        Source::Wild => PlanNode::Wild(names[record.species].clone()),
        Source::Progenitor => PlanNode::Progenitor(names[record.species].clone()),
        Source::Bred { male, female } => {
            let father = materialize(names, owned, desired, arena, male, Ghost(scene));
            let mother = materialize(names, owned, desired, arena, female, Ghost(scene));
            PlanNode::Bred(
                Box::new(
                    BredNode {
                        male: father,
                        female: mother,
                        species: names[record.species].clone(),
                        carried_passives: DesiredMask(record.carried).names(desired),
                    },
                ),
            )
        },
    }
}

/// The plans of the ids.
fn materialize_all(
    names: &Vec<PalName>,
    owned: &Vec<OwnedPal>,
    desired: &Vec<PassiveName>,
    arena: &Vec<Record>,
    ids: &Vec<usize>,
    Ghost(scene): Ghost<Scene>,
) -> (r: Vec<BreedingPlan>)
    requires
        within_arena(ids@, arena@.len()),
        scene.fit(arena@),
        scene.size() == names@.len(),
        scene.junk.len() == owned@.len(),
        desired@.len() <= 8,
    ensures
        plan_views(r@) == ids@.map_values(
            |id: usize|
                plan_of(
                    crate::model::pal_texts(names@),
                    owned_views(owned@),
                    passive_texts(desired@),
                    arena@,
                    id,
                ),
        ),
{
    let mut out: Vec<BreedingPlan> = Vec::new();
    let mut i: usize = 0;
    while i < ids.len()
        invariant
            within_arena(ids@, arena@.len()),
            scene.fit(arena@),
            scene.size() == names@.len(),
            scene.junk.len() == owned@.len(),
            desired@.len() <= 8,
            i <= ids@.len(),
            out@.len() == i,
            forall|j: int|
                0 <= j < i ==> (#[trigger] out@[j])@ == plan_of(
                    crate::model::pal_texts(names@),
                    owned_views(owned@),
                    passive_texts(desired@),
                    arena@,
                    ids@[j],
                ),
        decreases ids@.len() - i,
    {
        let id: usize = ids[i];
        let root = materialize(names, owned, desired, arena, id, Ghost(scene));
        out.push(
            BreedingPlan { root, expected_eggs: arena[id].cost, steps: arena[id].bred_count },
        );
        i = i + 1;
    }
    proof {
        assert(plan_views(out@) =~= ids@.map_values(
            |id: usize|
                plan_of(
                    crate::model::pal_texts(names@),
                    owned_views(owned@),
                    passive_texts(desired@),
                    arena@,
                    id,
                ),
        ));
    }
    out
}

/// One-shot convenience over [`Solver`]. Prefer holding a `Solver` when
/// searching more than once.
pub fn find_paths(
    pal_db: &PalDb,
    index: &ChildIndex,
    odds: &PassiveOdds,
    iv_odds: &IvOdds,
    owned: &Vec<OwnedPal>,
    goal: &BreedingGoal,
    config: &SearchConfig,
) -> (r: Result<Vec<BreedingPlan>, SearchError>)
    requires
        pal_db.wf(),
        index.wf(),
        odds.wf(),
        iv_odds.wf(),
    ensures
        match r {
            Ok(plans) => {
                &&& first_fault(*pal_db, owned_views(owned@), goal@) is None
                &&& plan_views(plans@) == answers(
                    *pal_db,
                    *index,
                    *odds,
                    *iv_odds,
                    owned_views(owned@),
                    goal@,
                    *config,
                )
            },
            Err(error) => first_fault(*pal_db, owned_views(owned@), goal@) == Some(error@),
        },
{
    Solver::new(pal_db, index, odds, iv_odds).find_paths(owned, goal, config)
}

} // verus!
