//! What every search keeps: the plans it answers are ones the player
//! can carry out, reach the goal, and cost what they say.

use vstd::prelude::*;

use crate::chance::cost_sum;
use crate::chance::EggChance;
use crate::chance::EGG;
use crate::child::ChildIndex;
use crate::iv::IvOdds;
use crate::model::Gender;
use crate::model::PalDb;
use crate::model::CERTAIN;
use crate::passives::PassiveOdds;
use crate::search::beam::all_kept;
use crate::search::beam::emitted;
use crate::search::beam::lemma_offered_keeps;
use crate::search::beam::lemma_worst_position;
use crate::search::beam::try_block;
use crate::search::beam::try_groups;
use crate::search::beam::try_row;
use crate::search::beam::Pass;
use crate::search::beam::SlotView;
use crate::search::breed::bred;
use crate::search::breed::chance_of;
use crate::search::breed::lemma_pair_chance_sound;
use crate::search::breed::missing;
use crate::search::breed::pair_chance;
use crate::search::mask::all_bits;
use crate::search::mask::bit_count;
use crate::search::mask::bits_of;
use crate::search::mask::carries;
use crate::search::mask::has_bit;
use crate::search::mask::lemma_bits_of;
use crate::search::mask::lemma_union_bit;
use crate::search::mask::picked;
use crate::search::plan::GoalView;
use crate::search::plan::OwnedView;
use crate::search::plan::PlanTree;
use crate::search::plan::PlanView;
use crate::search::plan::SearchConfig;
use crate::search::record::bare_leaf;
use crate::search::record::record_of;
use crate::search::record::state_key;
use crate::search::record::Availability;
use crate::search::record::Candidate;
use crate::search::record::Record;
use crate::search::record::Scene;
use crate::search::record::Source;
use crate::search::rounds::bucket_of;
use crate::search::rounds::costs_of;
use crate::search::rounds::goal_key;
use crate::search::rounds::Search;
use crate::search::seed::iv_bits;
use crate::search::seed::junk_of;
use crate::search::seed::leaves;
use crate::search::seed::owned_leaf;
use crate::search::seed::progenitor_leaf;
use crate::search::seed::reaches;
use crate::search::seed::wild_leaves;
use crate::search::solver::answers;
use crate::search::solver::goal_ids;
use crate::search::solver::goal_leaves;
use crate::search::solver::lemma_checked;
use crate::search::solver::lemma_known_id;
use crate::search::solver::lemma_leaves_fit;
use crate::search::solver::meets_goal;
use crate::search::solver::outcome;
use crate::search::solver::plan_of;
use crate::search::solver::ranked_ids;
use crate::search::solver::ranks_before;
use crate::search::solver::scene_of;
use crate::search::solver::start;
use crate::search::solver::tree_of;
use crate::search::world::lemma_sorted_names;
use crate::search::world::small_id;
use crate::search::world::world_of;
use crate::search::world::WorldView;
use crate::seqs::sorted_by;

verus! {

// ---------------------------------------------------------------------
// What a plan tree says
// ---------------------------------------------------------------------
/// Everything a question to the search consists of.
pub struct Question {
    pub db: PalDb,
    pub index: ChildIndex,
    pub odds: PassiveOdds,
    pub iv_odds: IvOdds,
    pub owned: Seq<OwnedView>,
    pub goal: GoalView,
    pub config: SearchConfig,
}

impl Question {
    /// The databases are valid and the question has no fault.
    pub open spec fn sound(self) -> bool {
        &&& self.db.wf()
        &&& self.index.wf()
        &&& self.odds.wf()
        &&& self.iv_odds.wf()
        &&& self.owned.len() <= usize::MAX
        &&& crate::search::seed::first_fault(self.db, self.owned, self.goal) is None
        &&& self.config.max_results > 0
    }

    pub open spec fn world(self) -> WorldView {
        world_of(self.db, self.index)
    }

    pub open spec fn scene(self) -> Scene {
        scene_of(
            self.db,
            self.index,
            self.odds,
            self.iv_odds,
            self.owned,
            self.goal,
            self.config,
        )
    }

    pub open spec fn seeds(self) -> Seq<Record> {
        leaves(self.world(), self.owned, self.goal, self.scene().distance, self.config)
    }

    pub open spec fn outcome(self) -> Search {
        outcome(
            self.db,
            self.index,
            self.odds,
            self.iv_odds,
            self.owned,
            self.goal,
            self.config,
        )
    }

    pub open spec fn answers(self) -> Seq<PlanView> {
        answers(
            self.db,
            self.index,
            self.odds,
            self.iv_odds,
            self.owned,
            self.goal,
            self.config,
        )
    }

    /// The plan that led to a record of an arena.
    pub open spec fn tree(self, arena: Seq<Record>, id: nat) -> PlanTree {
        tree_of(self.world().names, self.owned, self.goal.passives, arena, id)
    }

    // -----------------------------------------------------------------
    /// The player can carry out the plan: every leaf is owned, asked for
    /// or catchable, every child comes from its parents, and every owned
    /// parent has the gender of its place.
    pub open spec fn feasible(self, tree: PlanTree) -> bool
        decreases tree,
    {
        match tree {
            PlanTree::Owned(pal) => self.owned.contains(pal),
            PlanTree::Wild(species) => {
                &&& self.config.allow_wild_pals
                &&& self.db.lookup(species) is Some
                &&& self.db.lookup(species)->0.wild_levels is Some
            },
            PlanTree::Progenitor(species) => self.goal.progenitors.contains(species),
            PlanTree::Bred { male, female, species, carried } => {
                &&& self.feasible(*male)
                &&& self.feasible(*female)
                &&& self.index.child(male.root_species(), female.root_species()) == Some(species)
                &&& (*male matches PlanTree::Owned(pal) ==> pal.gender == Gender::Male)
                &&& (*female matches PlanTree::Owned(pal) ==> pal.gender == Gender::Female)
            },
        }
    }

    /// Some owned pal of the plan has the wanted passive.
    pub open spec fn supplies(self, tree: PlanTree, passive: Seq<char>) -> bool
        decreases tree,
    {
        match tree {
            PlanTree::Owned(pal) => pal.passives.contains(passive),
            PlanTree::Bred { male, female, species, carried } => self.supplies(*male, passive)
                || self.supplies(*female, passive),
            _ => false,
        }
    }

    /// The plan breeds through the progenitor.
    pub open spec fn breeds_through(self, tree: PlanTree, species: Seq<char>) -> bool
        decreases tree,
    {
        match tree {
            PlanTree::Progenitor(s) => s == species,
            PlanTree::Bred { male, female, species: s, carried } => self.breeds_through(
                *male,
                species,
            ) || self.breeds_through(*female, species),
            _ => false,
        }
    }

    /// Some owned pal of the plan meets the requirement.
    pub open spec fn provides_iv(self, tree: PlanTree, i: int) -> bool
        decreases tree,
    {
        match tree {
            PlanTree::Owned(pal) => reaches(self.goal.iv_thresholds, pal.ivs)(i),
            PlanTree::Bred { male, female, species, carried } => self.provides_iv(*male, i)
                || self.provides_iv(*female, i),
            _ => false,
        }
    }

    // -----------------------------------------------------------------
    /// The wanted passives that the pal at the root carries.
    pub open spec fn carried(self, tree: PlanTree) -> u8
        decreases tree,
    {
        match tree {
            PlanTree::Owned(pal) => bits_of(
                carries(self.goal.passives, pal.passives),
                self.goal.passives.len(),
            ),
            PlanTree::Bred { male, female, species, carried } => self.carried(*male)
                | self.carried(*female),
            _ => 0,
        }
    }

    /// The IV minimums that the pal at the root meets.
    pub open spec fn ivs(self, tree: PlanTree) -> u8
        decreases tree,
    {
        match tree {
            PlanTree::Owned(pal) => iv_bits(self.goal.iv_thresholds, pal.ivs),
            PlanTree::Bred { male, female, species, carried } => self.ivs(*male) | self.ivs(
                *female,
            ),
            _ => 0,
        }
    }

    /// The passives that nobody wants and the root brings into a pool:
    /// only an owned pal brings any.
    pub open spec fn junk(self, tree: PlanTree) -> Seq<Seq<char>> {
        match tree {
            PlanTree::Owned(pal) => junk_of(pal.passives, self.goal.passives),
            _ => Seq::empty(),
        }
    }

    /// The chance that one egg of the pair is as wanted.
    pub open spec fn chance(self, male: PlanTree, female: PlanTree) -> EggChance {
        let wanted = bit_count(self.carried(male) | self.carried(female)) as nat;
        let pool = wanted + self.junk(male).len() + missing(self.junk(male), self.junk(female));
        let single = bit_count(self.ivs(male) ^ self.ivs(female)) as nat;
        let both = bit_count(self.ivs(male) & self.ivs(female)) as nat;
        chance_of(self.odds, self.iv_odds, pool as int, wanted, single, both)
    }

    /// Expected eggs to obtain the pal at the root with a gender.
    pub open spec fn eggs_as(self, tree: PlanTree, gender: Gender) -> Option<u128>
        decreases tree,
    {
        match tree {
            PlanTree::Owned(pal) => if pal.gender == gender {
                Some(0u128)
            } else {
                None
            },
            PlanTree::Bred { male, female, species, carried } => {
                let part = self.db.lookup(species)->0.gender_probability.part(gender);
                match (
                    self.eggs_as(*male, Gender::Male),
                    self.eggs_as(*female, Gender::Female),
                ) {
                    (Some(a), Some(b)) => if part > 0 {
                        Some(cost_sum(cost_sum(a, b), self.chance(*male, *female).eggs(part)))
                    } else {
                        None
                    },
                    _ => None,
                }
            },
            _ => Some(0u128),
        }
    }

    /// Expected eggs to obtain the pal at the root, whatever its gender.
    pub open spec fn eggs(self, tree: PlanTree) -> u128 {
        match tree {
            PlanTree::Bred { male, female, species, carried } => {
                match (
                    self.eggs_as(*male, Gender::Male),
                    self.eggs_as(*female, Gender::Female),
                ) {
                    (Some(a), Some(b)) => cost_sum(
                        cost_sum(a, b),
                        self.chance(*male, *female).eggs(CERTAIN),
                    ),
                    _ => 0,
                }
            },
            _ => 0,
        }
    }

    // -----------------------------------------------------------------
    // Where records come from
    // -----------------------------------------------------------------
    /// A bred record comes from a pair of earlier ones.
    #[verifier::opaque]
    pub open spec fn is_child(self, arena: Seq<Record>, r: Record) -> bool {
        let scene = self.scene();
        match r.source {
            Source::Bred { male, female } => {
                &&& male < arena.len()
                &&& female < arena.len()
                &&& r.species < scene.size()
                &&& arena[male as int].species < scene.size()
                &&& arena[female as int].species < scene.size()
                &&& scene.child[arena[male as int].species as int][arena[female as int].species as int]
                    == Some(r.species)
                &&& scene.distance[r.species as int] is Some
                &&& match bred(scene, arena, scene.distance[r.species as int]->0, male, female) {
                    Some(c) => r == record_of(scene, r.species, c),
                    None => false,
                }
            },
            _ => false,
        }
    }

    /// Every record from `n` on comes from a pair of earlier ones, and
    /// every kept record stands under its own state.
    pub open spec fn grown(self, s: Search) -> bool {
        let seeds = self.seeds();
        &&& seeds.len() <= s.arena.len()
        &&& s.arena.take(seeds.len() as int) == seeds
        &&& forall|id: int|
            seeds.len() <= id < s.arena.len() ==> self.is_child(
                s.arena.take(id),
                #[trigger] s.arena[id],
            )
        &&& forall|key: u64, i: int|
            #![trigger bucket_of(s.buckets, key)[i]]
            0 <= i < bucket_of(s.buckets, key).len() ==> {
                let id = bucket_of(s.buckets, key)[i];
                seeds.len() <= id < s.arena.len() && state_key(s.arena[id as int]) == key
            }
    }
}

// ---------------------------------------------------------------------
// Records keep their origin
// ---------------------------------------------------------------------
/// A candidate is what its pair breeds, and the pair has the species.
spec fn from_pair(pass: Pass, male: int, female: int) -> spec_fn(Candidate) -> bool {
    |c: Candidate|
        {
            &&& bred(pass.scene, pass.arena, pass.distance, c.male, c.female) == Some(c)
            &&& c.male < pass.arena.len()
            &&& c.female < pass.arena.len()
            &&& pass.arena[c.male as int].species == male
            &&& pass.arena[c.female as int].species == female
        }
}

spec fn all_of(pass: Pass, ids: Seq<usize>, species: int) -> bool {
    forall|i: int|
        0 <= i < ids.len() ==> (#[trigger] ids[i]) < pass.arena.len()
            && pass.arena[ids[i] as int].species == species
}

proof fn lemma_row_origin(
    pass: Pass,
    slots: Seq<SlotView>,
    male: usize,
    females: Seq<usize>,
    ms: int,
    fs: int,
)
    requires
        all_kept(slots, from_pair(pass, ms, fs)),
        male < pass.arena.len(),
        pass.arena[male as int].species == ms,
        all_of(pass, females, fs),
    ensures
        all_kept(try_row(pass, slots, male, females), from_pair(pass, ms, fs)),
    decreases females.len(),
{
    if females.len() > 0 {
        let rest = females.drop_last();
        assert(all_of(pass, rest, fs)) by {
            assert forall|i: int| 0 <= i < rest.len() implies (#[trigger] rest[i])
                < pass.arena.len() && pass.arena[rest[i] as int].species == fs by {
                assert(rest[i] == females[i]);
            }
        }
        lemma_row_origin(pass, slots, male, rest, ms, fs);
        let before = try_row(pass, slots, male, rest);
        let female = females.last();
        assert(females[females.len() - 1] == female);
        match bred(pass.scene, pass.arena, pass.distance, male, female) {
            Some(c) => {
                assert(c.male == male && c.female == female);
                assert(from_pair(pass, ms, fs)(c));
                lemma_offered_keeps(before, c, pass.scene.beam, from_pair(pass, ms, fs));
            },
            None => {},
        }
    }
}

proof fn lemma_block_origin(
    pass: Pass,
    slots: Seq<SlotView>,
    males: Seq<usize>,
    females: Seq<usize>,
    ms: int,
    fs: int,
)
    requires
        all_kept(slots, from_pair(pass, ms, fs)),
        all_of(pass, males, ms),
        all_of(pass, females, fs),
    ensures
        all_kept(try_block(pass, slots, males, females), from_pair(pass, ms, fs)),
    decreases males.len(),
{
    if males.len() > 0 {
        let rest = males.drop_last();
        assert(all_of(pass, rest, ms)) by {
            assert forall|i: int| 0 <= i < rest.len() implies (#[trigger] rest[i])
                < pass.arena.len() && pass.arena[rest[i] as int].species == ms by {
                assert(rest[i] == males[i]);
            }
        }
        lemma_block_origin(pass, slots, rest, females, ms, fs);
        assert(males[males.len() - 1] == males.last());
        lemma_row_origin(
            pass,
            try_block(pass, slots, rest, females),
            males.last(),
            females,
            ms,
            fs,
        );
    }
}

/// A record is that of a candidate with the property.
spec fn made_of(scene: Scene, child: usize, p: spec_fn(Candidate) -> bool, r: Record) -> bool {
    exists|c: Candidate| #[trigger] p(c) && r == record_of(scene, child, c)
}

proof fn lemma_emitted_origin(
    scene: Scene,
    child: usize,
    slots: Seq<SlotView>,
    p: spec_fn(Candidate) -> bool,
)
    requires
        all_kept(slots, p),
    ensures
        forall|i: int|
            0 <= i < emitted(scene, child, slots).len() ==> made_of(
                scene,
                child,
                p,
                #[trigger] emitted(scene, child, slots)[i],
            ),
    decreases slots.len(),
{
    if slots.len() > 0 {
        let rest = slots.drop_last();
        assert(all_kept(rest, p)) by {
            assert forall|s: int, k: int|
                0 <= s < rest.len() && 0 <= k < rest[s].kept.len() implies p(
                #[trigger] rest[s].kept[k],
            ) by {
                assert(slots[s].kept[k] == rest[s].kept[k]);
            }
        }
        lemma_emitted_origin(scene, child, rest, p);
        let head = emitted(scene, child, rest);
        let kept = slots.last().kept;
        let all = emitted(scene, child, slots);
        assert forall|i: int| 0 <= i < all.len() implies made_of(
            scene,
            child,
            p,
            #[trigger] all[i],
        ) by {
            if i < head.len() {
                assert(all[i] == head[i]);
            } else {
                let k = i - head.len();
                assert(p(slots[slots.len() - 1].kept[k]));
                assert(all[i] == record_of(scene, child, kept[k]));
            }
        }
    }
}

proof fn lemma_members(s: Search, species: int, fresh: bool, n: nat)
    requires
        n <= s.arena.len(),
        n <= usize::MAX,
    ensures
        forall|i: int|
            0 <= i < s.members(species, fresh, n).len() ==> (#[trigger] s.members(
                species,
                fresh,
                n,
            )[i]) < n && s.arena[s.members(species, fresh, n)[i] as int].species == species,
    decreases n,
{
    if n > 0 {
        lemma_members(s, species, fresh, (n - 1) as nat);
        let rest = s.members(species, fresh, (n - 1) as nat);
        let all = s.members(species, fresh, n);
        assert forall|i: int| 0 <= i < all.len() implies (#[trigger] all[i]) < n
            && s.arena[all[i] as int].species == species by {
            if i < rest.len() {
                assert(all[i] == rest[i]);
            }
        }
    }
}

impl Question {
    /// The children of a pair of species come from pairs of records.
    proof fn lemma_pair_children(self, s: Search, worst: Option<u128>, male: int, female: int)
        requires
            0 <= male < self.scene().size(),
            0 <= female < self.scene().size(),
            self.scene().wf(),
            s.arena.len() <= usize::MAX,
        ensures
            forall|i: int|
                0 <= i < s.pair_children(self.scene(), worst, male, female).len()
                    ==> self.is_child(
                    s.arena,
                    #[trigger] s.pair_children(self.scene(), worst, male, female)[i],
                ),
    {
        let scene = self.scene();
        let males = s.group(male);
        let females = s.group(female);
        assert(scene.child[male].len() == scene.size());
        match scene.child[male][female] {
            Some(child) => match scene.distance[child as int] {
                Some(distance) => {
                    let pass = Pass {
                        scene,
                        arena: s.arena,
                        worst,
                        goal_child: child == scene.goal,
                        distance,
                    };
                    let n = s.arena.len();
                    lemma_members(s, male, true, n);
                    lemma_members(s, male, false, n);
                    lemma_members(s, female, true, n);
                    lemma_members(s, female, false, n);
                    let both = females.fresh + females.old;
                    assert(all_of(pass, both, female)) by {
                        assert forall|i: int| 0 <= i < both.len() implies (#[trigger] both[i])
                            < pass.arena.len() && pass.arena[both[i] as int].species == female by {
                            if i < females.fresh.len() {
                                assert(both[i] == females.fresh[i]);
                            } else {
                                assert(both[i] == females.old[i - females.fresh.len()]);
                            }
                        }
                    }
                    let p = from_pair(pass, male, female);
                    lemma_block_origin(pass, Seq::empty(), males.fresh, both, male, female);
                    lemma_block_origin(
                        pass,
                        try_block(pass, Seq::empty(), males.fresh, both),
                        males.old,
                        females.fresh,
                        male,
                        female,
                    );
                    let slots = try_groups(pass, males, females);
                    lemma_emitted_origin(scene, child, slots, p);
                    let out = s.pair_children(scene, worst, male, female);
                    assert forall|i: int| 0 <= i < out.len() implies self.is_child(
                        s.arena,
                        #[trigger] out[i],
                    ) by {
                        reveal(Question::is_child);
                        assert(out == emitted(scene, child, slots));
                        assert(made_of(scene, child, p, out[i]));
                        let c = choose|c: Candidate| #[trigger]
                            p(c) && out[i] == record_of(scene, child, c);
                        assert(p(c));
                    }
                },
                None => {},
            },
            None => {},
        }
    }

    proof fn lemma_row_children(self, s: Search, worst: Option<u128>, male: int, n: nat)
        requires
            0 <= male < self.scene().size(),
            n <= self.scene().size(),
            self.scene().wf(),
            s.arena.len() <= usize::MAX,
        ensures
            forall|i: int|
                0 <= i < s.row_children(self.scene(), worst, male, n).len() ==> self.is_child(
                    s.arena,
                    #[trigger] s.row_children(self.scene(), worst, male, n)[i],
                ),
        decreases n,
    {
        if n > 0 {
            let scene = self.scene();
            self.lemma_row_children(s, worst, male, (n - 1) as nat);
            self.lemma_pair_children(s, worst, male, n - 1);
            let head = s.row_children(scene, worst, male, (n - 1) as nat);
            let tail = s.pair_children(scene, worst, male, n - 1);
            let all = s.row_children(scene, worst, male, n);
            assert forall|i: int| 0 <= i < all.len() implies self.is_child(
                s.arena,
                #[trigger] all[i],
            ) by {
                if i < head.len() {
                    assert(all[i] == head[i]);
                } else {
                    assert(all[i] == tail[i - head.len()]);
                }
            }
        }
    }

    pub proof fn lemma_children(self, s: Search, worst: Option<u128>, n: nat)
        requires
            n <= self.scene().size(),
            self.scene().wf(),
            s.arena.len() <= usize::MAX,
        ensures
            forall|i: int|
                0 <= i < s.children(self.scene(), worst, n).len() ==> self.is_child(
                    s.arena,
                    #[trigger] s.children(self.scene(), worst, n)[i],
                ),
        decreases n,
    {
        if n > 0 {
            let scene = self.scene();
            self.lemma_children(s, worst, (n - 1) as nat);
            self.lemma_row_children(s, worst, n - 1, scene.size());
            let head = s.children(scene, worst, (n - 1) as nat);
            let tail = s.row_children(scene, worst, n - 1, scene.size());
            let all = s.children(scene, worst, n);
            assert forall|i: int| 0 <= i < all.len() implies self.is_child(
                s.arena,
                #[trigger] all[i],
            ) by {
                if i < head.len() {
                    assert(all[i] == head[i]);
                } else {
                    assert(all[i] == tail[i - head.len()]);
                }
            }
        }
    }

    /// A child stays one when more records come.
    proof fn lemma_child_stays(self, few: Seq<Record>, more: Seq<Record>, r: Record)
        requires
            self.is_child(few, r),
            few.len() <= more.len(),
            more.take(few.len() as int) == few,
        ensures
            self.is_child(more, r),
    {
        reveal(Question::is_child);
        match r.source {
            Source::Bred { male, female } => {
                assert(few[male as int] == more.take(few.len() as int)[male as int]);
                assert(few[female as int] == more.take(few.len() as int)[female as int]);
            },
            _ => {},
        }
    }

    /// Inserting a child keeps the origin of all records.
    proof fn lemma_inserted(self, s: Search, r: Record, base: Seq<Record>)
        requires
            self.grown(s),
            self.is_child(base, r),
            base.len() <= s.arena.len(),
            s.arena.take(base.len() as int) == base,
            self.seeds().len() <= base.len(),
            s.inserted(r, self.scene().beam).arena.len() <= usize::MAX,
        ensures
            self.grown(s.inserted(r, self.scene().beam)),
    {
        let beam = self.scene().beam;
        let next = s.inserted(r, beam);
        let key = state_key(r);
        let bucket = bucket_of(s.buckets, key);
        let seeds = self.seeds();
        lemma_inserted_arena(s, r, beam);
        if next.arena != s.arena {
            if bucket.len() > 0 {
                lemma_worst_position(costs_of(s.arena, bucket));
            }
            assert(next.arena.take(seeds.len() as int) =~= s.arena.take(seeds.len() as int));
            self.lemma_child_stays(base, s.arena, r);
            assert forall|id: int| seeds.len() <= id < next.arena.len() implies self.is_child(
                next.arena.take(id),
                #[trigger] next.arena[id],
            ) by {
                if id < s.arena.len() {
                    assert(next.arena.take(id) =~= s.arena.take(id));
                    assert(next.arena[id] == s.arena[id]);
                } else {
                    assert(next.arena.take(id) =~= s.arena);
                }
            }
            assert forall|k: u64, i: int|
                #![trigger bucket_of(next.buckets, k)[i]]
                0 <= i < bucket_of(next.buckets, k).len() implies ({
                let id = bucket_of(next.buckets, k)[i];
                seeds.len() <= id < next.arena.len() && state_key(next.arena[id as int]) == k
            }) by {
                if k != key {
                    assert(bucket_of(next.buckets, k) == bucket_of(s.buckets, k));
                    let id = bucket_of(s.buckets, k)[i];
                    assert(next.arena[id as int] == s.arena[id as int]);
                } else {
                    let now = bucket_of(next.buckets, k);
                    let id = now[i];
                    if id as int != s.arena.len() {
                        assert(i < bucket.len() && now[i] == bucket[i]);
                        assert(next.arena[id as int] == s.arena[id as int]);
                    }
                }
            }
        } else {
            assert(next == s);
        }
    }

    proof fn lemma_inserted_all(self, s: Search, records: Seq<Record>)
        requires
            self.grown(s),
            forall|i: int|
                0 <= i < records.len() ==> self.is_child(s.arena, #[trigger] records[i]),
            s.inserted_all(records, self.scene().beam).arena.len() <= usize::MAX,
        ensures
            self.grown(s.inserted_all(records, self.scene().beam)),
        decreases records.len(),
    {
        let beam = self.scene().beam;
        if records.len() > 0 {
            let rest = records.drop_last();
            assert forall|i: int| 0 <= i < rest.len() implies self.is_child(
                s.arena,
                #[trigger] rest[i],
            ) by {
                assert(rest[i] == records[i]);
            }
            let mid = s.inserted_all(rest, beam);
            lemma_inserted_arena(mid, records.last(), beam);
            self.lemma_inserted_all(s, rest);
            lemma_inserted_all_arena(s, rest, beam);
            assert(records[records.len() - 1] == records.last());
            self.lemma_inserted(mid, records.last(), s.arena);
        }
    }

    /// A round keeps the origin of all records.
    pub proof fn lemma_round(self, s: Search)
        requires
            self.scene().wf(),
            self.grown(s),
            s.round(self.scene()).arena.len() <= usize::MAX,
        ensures
            self.grown(s.round(self.scene())),
            s.round(self.scene()).arena.len() >= s.arena.len(),
    {
        reveal(Search::round);
        let scene = self.scene();
        let children = s.children(scene, s.incumbent(scene), scene.size());
        let cleared = Search { frontier: Seq::empty(), ..s };
        assert(self.grown(cleared));
        lemma_inserted_all_arena(cleared, children, scene.beam);
        self.lemma_children(s, s.incumbent(scene), scene.size());
        self.lemma_inserted_all(cleared, children);
    }

    pub proof fn lemma_rounds(self, s: Search, n: nat)
        requires
            self.scene().wf(),
            self.grown(s),
            s.rounds(self.scene(), n).arena.len() <= usize::MAX,
        ensures
            self.grown(s.rounds(self.scene(), n)),
        decreases n,
    {
        if n > 0 {
            lemma_rounds_arena(s.round(self.scene()), self.scene(), (n - 1) as nat);
            self.lemma_round(s);
            if s.round(self.scene()).frontier.len() > 0 {
                self.lemma_rounds(s.round(self.scene()), (n - 1) as nat);
            }
        }
    }

    /// At the end of a search every record has its origin.
    pub proof fn lemma_outcome(self)
        requires
            self.sound(),
            self.outcome().arena.len() <= usize::MAX,
        ensures
            self.scene().wf(),
            self.world().wf(),
            self.scene().fit(self.seeds()),
            self.grown(self.outcome()),
    {
        self.lemma_scene();
        let begin = start(self.seeds());
        assert(begin.arena.take(self.seeds().len() as int) =~= self.seeds());
        assert(self.grown(begin));
        self.lemma_rounds(begin, self.config.max_breeding_steps as nat);
    }

    /// The scene of a sound question is valid.
    pub proof fn lemma_scene(self)
        requires
            self.sound(),
        ensures
            self.scene().wf(),
            self.world().wf(),
            self.scene().fit(self.seeds()),
    {
        let scene = self.scene();
        let world = self.world();
        lemma_sorted_names(self.db);
        lemma_checked(self.db, self.index, self.owned, self.goal);
        lemma_known_id(world.names, self.goal.species);
        assert forall|i: int| 0 <= i < world.names.len() implies #[trigger] world.male[i]
            <= CERTAIN by {
            self.lemma_species(i);
        }
        assert forall|i: int| 0 <= i < world.names.len() implies #[trigger] world.female[i]
            <= CERTAIN by {
            self.lemma_species(i);
        }
        assert forall|m: int, f: int|
            0 <= m < world.names.len() && 0 <= f < world.names.len() && (
            #[trigger] world.child[m][f]) is Some implies world.child[m][f]->0
            < world.names.len() by {
            let c = self.index.child(world.names[m], world.names[f]);
            assert(world.child[m][f] == small_id(world.names, c));
            crate::seqs::lemma_first_where(world.names, crate::search::world::equals(c->0));
        }
        lemma_leaves_fit(scene, world, self.owned, self.goal, self.config);
    }

    /// A species of the world is one of the database.
    pub proof fn lemma_species(self, i: int)
        requires
            self.db.wf(),
            0 <= i < self.world().names.len(),
        ensures
            self.db.lookup(self.world().names[i]) is Some,
            self.db.lookup(self.world().names[i])->0.gender_probability.wf(),
    {
        lemma_sorted_names(self.db);
        let name = self.world().names[i];
        assert(self.db.knows(name));
        crate::model::lemma_pal_position(self.db.all(), name);
    }
}

/// Inserting appends the record or changes nothing.
pub proof fn lemma_inserted_arena(s: Search, r: Record, beam: usize)
    ensures
        s.inserted(r, beam) == s || s.inserted(r, beam).arena == s.arena.push(r),
        s.inserted(r, beam).arena.len() >= s.arena.len(),
        s.inserted(r, beam).arena.take(s.arena.len() as int) == s.arena,
{
    assert(s.inserted(r, beam).arena.take(s.arena.len() as int) =~= s.arena);
}

pub proof fn lemma_inserted_all_arena(s: Search, records: Seq<Record>, beam: usize)
    ensures
        s.inserted_all(records, beam).arena.len() >= s.arena.len(),
        s.inserted_all(records, beam).arena.take(s.arena.len() as int) == s.arena,
    decreases records.len(),
{
    if records.len() > 0 {
        let mid = s.inserted_all(records.drop_last(), beam);
        lemma_inserted_all_arena(s, records.drop_last(), beam);
        lemma_inserted_arena(mid, records.last(), beam);
        let next = mid.inserted(records.last(), beam);
        assert(next.arena.take(s.arena.len() as int) =~= next.arena.take(
            mid.arena.len() as int,
        ).take(s.arena.len() as int));
    } else {
        assert(s.arena.take(s.arena.len() as int) =~= s.arena);
    }
}

pub proof fn lemma_round_arena(s: Search, scene: Scene)
    ensures
        s.round(scene).arena.len() >= s.arena.len(),
        s.round(scene).arena.take(s.arena.len() as int) == s.arena,
{
    reveal(Search::round);
    let children = s.children(scene, s.incumbent(scene), scene.size());
    let cleared = Search { frontier: Seq::empty(), ..s };
    lemma_inserted_all_arena(cleared, children, scene.beam);
}

/// Rounds only append records.
pub proof fn lemma_rounds_arena(s: Search, scene: Scene, n: nat)
    ensures
        s.rounds(scene, n).arena.len() >= s.arena.len(),
        s.rounds(scene, n).arena.take(s.arena.len() as int) == s.arena,
    decreases n,
{
    if n > 0 {
        let next = s.round(scene);
        lemma_round_arena(s, scene);
        if next.frontier.len() > 0 {
            lemma_rounds_arena(next, scene, (n - 1) as nat);
            let last = next.rounds(scene, (n - 1) as nat);
            assert(last.arena.take(s.arena.len() as int) =~= last.arena.take(
                next.arena.len() as int,
            ).take(s.arena.len() as int));
        }
    } else {
        assert(s.arena.take(s.arena.len() as int) =~= s.arena);
    }
}

// ---------------------------------------------------------------------
// Records are what their trees say
// ---------------------------------------------------------------------
pub proof fn lemma_all_missing(b: Seq<Seq<char>>)
    ensures
        missing(Seq::empty(), b) == b.len(),
    decreases b.len(),
{
    if b.len() > 0 {
        lemma_all_missing(b.drop_last());
    }
}

impl Question {
    /// A record and the tree that led to it agree.
    pub open spec fn agrees(self, r: Record, t: PlanTree) -> bool {
        let names = self.world().names;
        &&& r.species < names.len()
        &&& names[r.species as int] == t.root_species()
        &&& r.carried == self.carried(t)
        &&& r.iv_met == self.ivs(t)
        &&& r.cost_in(Gender::Male) == self.eggs_as(t, Gender::Male)
        &&& r.cost_in(Gender::Female) == self.eggs_as(t, Gender::Female)
        &&& r.cost == self.eggs(t)
        &&& r.bred_count == t.steps()
        &&& r.bred_count <= self.config.max_breeding_steps
        &&& match r.source {
            Source::Owned(p) => p < self.owned.len() && t == PlanTree::Owned(self.owned[p as int]),
            Source::Bred { male, female } => t is Bred,
            _ => t is Wild || t is Progenitor,
        }
    }

    /// The progenitors of a record are leaves of its tree.
    pub open spec fn anchored(self, r: Record, t: PlanTree) -> bool {
        forall|i: u8|
            i < self.goal.progenitors.len() && #[trigger] has_bit(r.required, i)
                ==> self.breeds_through(t, self.goal.progenitors[i as int])
    }

    pub proof fn lemma_leaf(self, arena: Seq<Record>, id: int)
        requires
            self.sound(),
            0 <= id < self.seeds().len(),
            self.seeds().len() <= arena.len(),
            arena.take(self.seeds().len() as int) == self.seeds(),
        ensures
            self.agrees(arena[id], self.tree(arena, id as nat)),
            self.anchored(arena[id], self.tree(arena, id as nat)),
            self.feasible(self.tree(arena, id as nat)),
            !(self.tree(arena, id as nat) is Bred),
    {
        let seeds = self.seeds();
        let world = self.world();
        let scene = self.scene();
        let r = arena[id];
        let t = self.tree(arena, id as nat);
        assert(r == seeds[id]) by {
            assert(arena.take(seeds.len() as int)[id] == arena[id]);
        }
        self.lemma_scene();
        lemma_checked(self.db, self.index, self.owned, self.goal);
        let zero = 0u8;
        assert forall|i: u8| i < 8 implies !#[trigger] has_bit(zero, i) by {
            assert((0u8 >> i) & 1 != 1) by (bit_vector)
                requires
                    i < 8,
            ;
        }
        if id < self.owned.len() {
            let pal = self.owned[id];
            assert(r == owned_leaf(world.names, self.goal, pal, id as usize));
            lemma_known_id(world.names, pal.species);
            assert(t == PlanTree::Owned(pal));
        } else if id < self.owned.len() + self.goal.progenitors.len() {
            let p = id - self.owned.len();
            let species = self.goal.progenitors[p];
            assert(r == progenitor_leaf(world.names, species, p as usize));
            lemma_known_id(world.names, species);
            assert(t == PlanTree::Progenitor(species));
            assert forall|i: u8|
                i < self.goal.progenitors.len() && #[trigger] has_bit(
                    r.required,
                    i,
                ) implies self.breeds_through(t, self.goal.progenitors[i as int]) by {
                let q = p as u8;
                assert(((1u8 << q) >> i) & 1 == 1 ==> i == q) by (bit_vector)
                    requires
                        i < 8,
                        q < 8,
                ;
            }
        } else {
            let wild = wild_leaves(
                world,
                scene.distance,
                self.config.max_breeding_steps,
                world.names.len(),
            );
            let p = id - self.owned.len() - self.goal.progenitors.len();
            assert(r == wild[p]);
            lemma_wild_leaf(
                world,
                scene.distance,
                self.config.max_breeding_steps,
                world.names.len(),
                p,
            );
            let species = world.names[r.species as int];
            assert(t == PlanTree::Wild(species));
            self.lemma_species(r.species as int);
        }
    }

    pub proof fn lemma_record(self, arena: Seq<Record>, id: int)
        requires
            self.sound(),
            0 <= id < arena.len(),
            self.seeds().len() <= arena.len(),
            arena.take(self.seeds().len() as int) == self.seeds(),
            forall|k: int|
                self.seeds().len() <= k < arena.len() ==> self.is_child(
                    arena.take(k),
                    #[trigger] arena[k],
                ),
        ensures
            self.agrees(arena[id], self.tree(arena, id as nat)),
            self.anchored(arena[id], self.tree(arena, id as nat)),
            self.feasible(self.tree(arena, id as nat)),
        decreases id,
    {
        if id < self.seeds().len() {
            self.lemma_leaf(arena, id);
        } else {
            let few = arena.take(id);
            let r = arena[id];
            assert(self.is_child(few, r));
            self.lemma_scene();
            match r.source {
                Source::Bred { male, female } => {
                    assert(male < id && female < id) by {
                        reveal(Question::is_child);
                    }
                    self.lemma_record(arena, male as int);
                    self.lemma_record(arena, female as int);
                    assert(few[male as int] == arena[male as int]);
                    assert(few[female as int] == arena[female as int]);
                    self.lemma_bred(arena, few, id, male, female);
                },
                _ => {
                    assert(false) by {
                        reveal(Question::is_child);
                    }
                },
            }
        }
    }

    /// The odds of a pair of records are those of their trees.
    proof fn lemma_pair_chance(
        self,
        arena: Seq<Record>,
        male: int,
        female: int,
        mt: PlanTree,
        ft: PlanTree,
    )
        requires
            self.agrees(arena[male], mt),
            self.agrees(arena[female], ft),
        ensures
            crate::search::breed::pair_chance(self.scene(), arena, male, female) == self.chance(
                mt,
                ft,
            ),
    {
        let scene = self.scene();
        let m = arena[male];
        let f = arena[female];
        assert(scene.junk == crate::search::seed::junk_table(self.owned, self.goal.passives));
        lemma_all_missing(self.junk(ft));
        assert(crate::search::breed::junk_count(scene, m, f) == self.junk(mt).len() + missing(
            self.junk(mt),
            self.junk(ft),
        ));
        let bits = m.carried | f.carried;
        assert(bit_count(bits) >= 0) by (bit_vector);
    }

    #[verifier::rlimit(30)]
    proof fn lemma_bred(
        self,
        arena: Seq<Record>,
        few: Seq<Record>,
        id: int,
        male: usize,
        female: usize,
    )
        requires
            self.sound(),
            self.scene().wf(),
            self.world().wf(),
            0 <= id < arena.len(),
            few == arena.take(id),
            arena[id].source == (Source::Bred { male, female }),
            male < id,
            female < id,
            few[male as int] == arena[male as int],
            few[female as int] == arena[female as int],
            self.is_child(few, arena[id]),
            self.agrees(arena[male as int], self.tree(arena, male as nat)),
            self.anchored(arena[male as int], self.tree(arena, male as nat)),
            self.feasible(self.tree(arena, male as nat)),
            self.agrees(arena[female as int], self.tree(arena, female as nat)),
            self.anchored(arena[female as int], self.tree(arena, female as nat)),
            self.feasible(self.tree(arena, female as nat)),
        ensures
            self.agrees(arena[id], self.tree(arena, id as nat)),
            self.anchored(arena[id], self.tree(arena, id as nat)),
            self.feasible(self.tree(arena, id as nat)),
    {
        reveal(Question::is_child);
        let scene = self.scene();
        let world = self.world();
        let r = arena[id];
        let m = arena[male as int];
        let f = arena[female as int];
        let mt = self.tree(arena, male as nat);
        let ft = self.tree(arena, female as nat);
        let t = self.tree(arena, id as nat);
        let species = world.names[r.species as int];
        assert(t == PlanTree::Bred {
            male: Box::new(mt),
            female: Box::new(ft),
            species,
            carried: picked(r.carried, self.goal.passives),
        });
        let distance = scene.distance[r.species as int]->0;
        let c = bred(scene, few, distance, male, female)->0;
        assert(r == record_of(scene, r.species, c));
        // the child is the one of its parents
        let child = self.index.child(world.names[m.species as int], world.names[f.species as int]);
        assert(world.child[m.species as int][f.species as int] == small_id(world.names, child));
        crate::seqs::lemma_first_where(world.names, crate::search::world::equals(child->0));
        assert(child == Some(species));
        self.lemma_pair_chance(few, male as int, female as int, mt, ft);
        assert(c.chance == self.chance(mt, ft));
        self.lemma_species(r.species as int);
        assert(scene.male[r.species as int] == self.db.lookup(species)->0.gender_probability.part(
            Gender::Male,
        ));
        assert(scene.female[r.species as int] == self.db.lookup(species)->0.gender_probability.part(
            Gender::Female,
        ));
        assert(self.agrees(r, t));
        assert forall|i: u8|
            i < self.goal.progenitors.len() && #[trigger] has_bit(
                r.required,
                i,
            ) implies self.breeds_through(t, self.goal.progenitors[i as int]) by {
            lemma_checked(self.db, self.index, self.owned, self.goal);
            lemma_union_bit(m.required, f.required, i);
            if has_bit(m.required, i) {
                assert(self.breeds_through(mt, self.goal.progenitors[i as int]));
            } else {
                assert(has_bit(f.required, i));
                assert(self.breeds_through(ft, self.goal.progenitors[i as int]));
            }
        }
    }

    /// The carried passives of a tree come from its owned pals.
    pub proof fn lemma_supplied(self, t: PlanTree, i: u8)
        requires
            i < self.goal.passives.len() <= 8,
        ensures
            has_bit(self.carried(t), i) == self.supplies(t, self.goal.passives[i as int]),
        decreases t,
    {
        match t {
            PlanTree::Owned(pal) => {
                lemma_bits_of(
                    carries(self.goal.passives, pal.passives),
                    self.goal.passives.len(),
                    i,
                );
            },
            PlanTree::Bred { male, female, species, carried } => {
                self.lemma_supplied(*male, i);
                self.lemma_supplied(*female, i);
                lemma_union_bit(self.carried(*male), self.carried(*female), i);
            },
            _ => {
                assert((0u8 >> i) & 1 != 1) by (bit_vector)
                    requires
                        i < 8,
                ;
            },
        }
    }

    /// The IV minimums that a tree meets come from its owned pals.
    pub proof fn lemma_provided(self, t: PlanTree, i: u8)
        requires
            i < self.goal.iv_thresholds.requirements().len(),
        ensures
            has_bit(self.ivs(t), i) == self.provides_iv(t, i as int),
        decreases t,
    {
        let n = self.goal.iv_thresholds.requirements().len();
        match t {
            PlanTree::Owned(pal) => {
                lemma_bits_of(reaches(self.goal.iv_thresholds, pal.ivs), n, i);
            },
            PlanTree::Bred { male, female, species, carried } => {
                self.lemma_provided(*male, i);
                self.lemma_provided(*female, i);
                lemma_union_bit(self.ivs(*male), self.ivs(*female), i);
            },
            _ => {
                assert((0u8 >> i) & 1 != 1) by (bit_vector)
                    requires
                        i < 8,
                ;
            },
        }
    }

    // -----------------------------------------------------------------
    // The laws
    // -----------------------------------------------------------------
    /// A plan is what was asked for: the player can carry it out, it
    /// ends in the goal species within the allowed steps, its owned pals
    /// supply every wanted passive and every IV minimum, it breeds
    /// through every progenitor, and its cost is that of its tree. A plan
    /// that breeds anything hatches for exactly the wanted passives and
    /// costs at least one egg.
    pub open spec fn answered_by(self, plan: PlanView) -> bool {
        &&& self.feasible(plan.tree)
        &&& plan.tree.root_species() == self.goal.species
        &&& plan.steps == plan.tree.steps()
        &&& plan.steps <= self.config.max_breeding_steps
        &&& plan.expected_eggs == self.eggs(plan.tree)
        &&& plan.tree matches PlanTree::Bred { male, female, species, carried } ==> carried
            == self.goal.passives && plan.expected_eggs >= EGG
        &&& forall|i: int|
            0 <= i < self.goal.passives.len() ==> self.supplies(
                plan.tree,
                #[trigger] self.goal.passives[i],
            )
        &&& forall|i: int|
            0 <= i < self.goal.progenitors.len() ==> self.breeds_through(
                plan.tree,
                #[trigger] self.goal.progenitors[i],
            )
        &&& forall|i: int|
            0 <= i < self.goal.iv_thresholds.requirements().len() ==> #[trigger] self.provides_iv(
                plan.tree,
                i,
            )
    }

    /// Ids that are ranked are records that meet the goal.
    pub proof fn lemma_ranked(self, k: int)
        requires
            self.sound(),
            self.outcome().arena.len() <= usize::MAX,
            0 <= k < ranked_ids(self.scene(), self.seeds().len(), self.outcome()).len(),
        ensures
            ({
                let id = ranked_ids(self.scene(), self.seeds().len(), self.outcome())[k];
                &&& id < self.outcome().arena.len()
                &&& meets_goal(self.scene(), self.outcome().arena[id as int])
                &&& goal_ids(self.scene(), self.seeds().len(), self.outcome()).contains(id)
            }),
    {
        self.lemma_outcome();
        let scene = self.scene();
        let search = self.outcome();
        let n = self.seeds().len();
        let ids = goal_ids(scene, n, search);
        let lt = ranks_before(search.arena);
        let sorted = sorted_by(ids, lt);
        lemma_rank_order(search.arena);
        crate::seqs::lemma_sorted_by(ids, lt);
        broadcast use vstd::seq_lib::group_to_multiset_ensures;

        let id = ranked_ids(scene, n, search)[k];
        assert(sorted[k] == id);
        assert(sorted.contains(id));
        assert(sorted.to_multiset().count(id) > 0);
        assert(ids.contains(id));
        let j = choose|j: int| 0 <= j < ids.len() && ids[j] == id;
        let own = goal_leaves(scene, search.arena, n);
        lemma_goal_leaves(scene, search.arena, n);
        if j < own.len() {
            assert(own[j] == id);
        } else {
            let bucket = bucket_of(search.buckets, goal_key(scene));
            assert(bucket[j - own.len()] == id);
            let r = search.arena[id as int];
            assert(state_key(r) == goal_key(scene));
            assert(r.species < scene.size()) by {
                reveal(Question::is_child);
                assert(self.is_child(search.arena.take(id as int), search.arena[id as int]));
            }
            lemma_goal_key(scene, r);
        }
    }

    /// Every record of a grown search fits the scene.
    pub proof fn lemma_fits(self, s: Search, id: int)
        requires
            self.scene().wf(),
            self.scene().fit(self.seeds()),
            self.grown(s),
            0 <= id < s.arena.len(),
        ensures
            self.scene().fits(s.arena[id], id),
            id >= self.seeds().len() ==> s.arena[id].source is Bred && s.arena[id].cost >= EGG,
        decreases id,
    {
        let scene = self.scene();
        let n = self.seeds().len() as int;
        if id < n {
            assert(s.arena.take(n)[id] == self.seeds()[id]);
        } else {
            let few = s.arena.take(id);
            let r = s.arena[id];
            assert(self.is_child(few, r));
            reveal(Question::is_child);
            if let Source::Bred { male, female } = r.source {
                self.lemma_fits(s, male as int);
                self.lemma_fits(s, female as int);
                assert(few[male as int] == s.arena[male as int]);
                assert(few[female as int] == s.arena[female as int]);
                lemma_pair_chance_sound(scene, few, male as int, female as int);
                crate::search::mask::lemma_four_entries(
                    few[male as int].carried,
                    few[female as int].carried,
                );
                crate::search::mask::lemma_three_entries(
                    few[male as int].iv_met,
                    few[female as int].iv_met,
                );
                crate::chance::law_a_wanted_egg_costs_at_least_one(
                    pair_chance(scene, few, male as int, female as int),
                    CERTAIN,
                );
            }
        }
    }

    /// Every plan that a search answers is what was asked for.
    pub proof fn law_plans_are_what_was_asked_for(self)
        requires
            self.sound(),
            self.outcome().arena.len() <= usize::MAX,
        ensures
            forall|k: int|
                0 <= k < self.answers().len() ==> self.answered_by(#[trigger] self.answers()[k]),
    {
        self.lemma_outcome();
        lemma_checked(self.db, self.index, self.owned, self.goal);
        let scene = self.scene();
        let search = self.outcome();
        let ids = ranked_ids(scene, self.seeds().len(), search);
        let world = self.world();
        assert forall|k: int| 0 <= k < self.answers().len() implies self.answered_by(
            #[trigger] self.answers()[k],
        ) by {
            let plan = self.answers()[k];
            let id = ids[k];
            assert(plan == plan_of(
                world.names,
                self.owned,
                self.goal.passives,
                search.arena,
                id,
            ));
            self.lemma_ranked(k);
            self.lemma_record(search.arena, id as int);
            let r = search.arena[id as int];
            let t = self.tree(search.arena, id as nat);
            assert(plan.tree == t);
            lemma_known_id(world.names, self.goal.species);
            self.lemma_fits(search, id as int);
            lemma_picked_all(self.goal.passives, self.goal.passives.len());
            if id < self.seeds().len() {
                self.lemma_leaf(search.arena, id as int);
            }
            assert(t matches PlanTree::Bred { male, female, species, carried } ==> carried
                == picked(r.carried, self.goal.passives));
            assert forall|i: int| 0 <= i < self.goal.passives.len() implies self.supplies(
                t,
                #[trigger] self.goal.passives[i],
            ) by {
                lemma_bits_of(|i: int| true, self.goal.passives.len(), i as u8);
                self.lemma_supplied(t, i as u8);
            }
            assert forall|i: int|
                0 <= i < self.goal.progenitors.len() implies self.breeds_through(
                t,
                #[trigger] self.goal.progenitors[i],
            ) by {
                lemma_bits_of(|i: int| true, self.goal.progenitors.len(), i as u8);
                assert(has_bit(r.required, i as u8));
            }
            assert forall|i: int|
                0 <= i
                    < self.goal.iv_thresholds.requirements().len() implies #[trigger] self.provides_iv(
            t, i) by {
                lemma_bits_of(
                    |i: int| true,
                    self.goal.iv_thresholds.requirements().len(),
                    i as u8,
                );
                self.lemma_provided(t, i as u8);
            }
        }
    }

    /// Plans come in order: fewer expected eggs first, then fewer steps,
    /// and no more than were asked for.
    pub proof fn law_plans_are_ranked(self)
        requires
            self.sound(),
        ensures
            self.answers().len() <= self.config.max_results,
            forall|i: int, j: int|
                0 <= i < j < self.answers().len() ==> {
                    let a = #[trigger] self.answers()[i];
                    let b = #[trigger] self.answers()[j];
                    a.expected_eggs < b.expected_eggs || (a.expected_eggs == b.expected_eggs
                        && a.steps <= b.steps)
                },
    {
        let scene = self.scene();
        let search = self.outcome();
        let all = goal_ids(scene, self.seeds().len(), search);
        let lt = ranks_before(search.arena);
        let sorted = sorted_by(all, lt);
        lemma_rank_order(search.arena);
        crate::seqs::lemma_sorted_by(all, lt);
        let ids = ranked_ids(scene, self.seeds().len(), search);
        assert forall|i: int, j: int| 0 <= i < j < self.answers().len() implies ({
            let a = #[trigger] self.answers()[i];
            let b = #[trigger] self.answers()[j];
            a.expected_eggs < b.expected_eggs || (a.expected_eggs == b.expected_eggs && a.steps
                <= b.steps)
        }) by {
            assert(ids[i] == sorted[i] && ids[j] == sorted[j]);
            assert(!lt(sorted[j], sorted[i]));
        }
    }
}

/// The whole of a list picks the list.
proof fn lemma_picked_all(list: Seq<Seq<char>>, n: nat)
    requires
        list.len() <= n <= 8,
    ensures
        picked(all_bits(n), list) == list,
    decreases list.len(),
{
    if list.len() > 0 {
        lemma_picked_all(list.drop_last(), n);
        lemma_bits_of(|i: int| true, n, (list.len() - 1) as u8);
        assert(list.drop_last().push(list.last()) =~= list);
    }
}

/// Ranking is a strict weak order.
pub proof fn lemma_rank_order(arena: Seq<Record>)
    ensures
        crate::seqs::weak_order(ranks_before(arena)),
{
}

proof fn lemma_goal_leaves(scene: Scene, arena: Seq<Record>, n: nat)
    requires
        n <= arena.len(),
        n <= usize::MAX,
    ensures
        forall|i: int|
            0 <= i < goal_leaves(scene, arena, n).len() ==> (#[trigger] goal_leaves(
                scene,
                arena,
                n,
            )[i]) < n && meets_goal(scene, arena[goal_leaves(scene, arena, n)[i] as int]),
    decreases n,
{
    if n > 0 {
        lemma_goal_leaves(scene, arena, (n - 1) as nat);
        let rest = goal_leaves(scene, arena, (n - 1) as nat);
        let all = goal_leaves(scene, arena, n);
        assert forall|i: int| 0 <= i < all.len() implies (#[trigger] all[i]) < n && meets_goal(
            scene,
            arena[all[i] as int],
        ) by {
            if i < rest.len() {
                assert(all[i] == rest[i]);
            }
        }
    }
}

/// A record in the goal's state meets the goal.
proof fn lemma_goal_key(scene: Scene, r: Record)
    requires
        scene.wf(),
        r.species < scene.size(),
        state_key(r) == goal_key(scene),
    ensures
        meets_goal(scene, r),
{
}

proof fn lemma_wild_leaf(
    world: WorldView,
    distance: Seq<Option<u32>>,
    max_steps: usize,
    n: nat,
    i: int,
)
    requires
        n <= world.names.len() <= u32::MAX,
        0 <= i < wild_leaves(world, distance, max_steps, n).len(),
    ensures
        ({
            let r = wild_leaves(world, distance, max_steps, n)[i];
            &&& r.species < n
            &&& r == bare_leaf(Source::Wild, r.species, Availability::AnyFree)
            &&& world.wild[r.species as int]
        }),
    decreases n,
{
    if n > 0 {
        let rest = wild_leaves(world, distance, max_steps, (n - 1) as nat);
        if i < rest.len() {
            lemma_wild_leaf(world, distance, max_steps, (n - 1) as nat, i);
        }
    }
}

} // verus!
