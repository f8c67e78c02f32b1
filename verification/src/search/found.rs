//! Plans that a search cannot miss: every plan whose parents are leaves,
//! or bred from leaves, is answered or beaten.

use vstd::prelude::*;

use crate::chance::cost_sum;
use crate::chance::EggChance;
use crate::chance::EGG;
use crate::chance::ENDLESS;
use crate::model::Gender;
use crate::model::CERTAIN;
use crate::search::beam::candidate_key;
use crate::search::breed::bred;
use crate::search::breed::junk_count;
use crate::search::breed::lemma_pair_chance_sound;
use crate::search::breed::missing;
use crate::search::breed::pair_chance;
use crate::search::complete::lemma_pair_tried;
use crate::search::complete::lemma_round_leads;
use crate::search::complete::lemma_round_orderly;
use crate::search::complete::lemma_state_parts;
use crate::search::laws::lemma_inserted_arena;
use crate::search::laws::lemma_round_arena;
use crate::search::laws::Question;
use crate::search::mask::all_bits;
use crate::search::mask::bits_of;
use crate::search::mask::has_bit;
use crate::search::mask::lemma_bits_of;
use crate::search::mask::lemma_same_bits;
use crate::search::mask::lemma_union_bit;
use crate::search::plan::PlanTree;
use crate::search::reach::held;
use crate::search::record::record_of;
use crate::search::record::Availability;
use crate::search::record::Candidate;
use crate::search::record::Record;
use crate::search::record::Source;
use crate::search::rounds::bucket_of;
use crate::search::rounds::Search;
use crate::search::seed::known_id;
use crate::search::seed::wild_leaves;
use crate::search::solver::lemma_checked;
use crate::search::solver::lemma_known_id;
use crate::search::solver::start;
use crate::search::world::lemma_sorted_names;
use crate::search::world::small_id;
use crate::seqs::lemma_first_where;
use crate::steps::breeding_edges;
use crate::steps::steps_apart;

verus! {

// ---------------------------------------------------------------------
// Costs
// ---------------------------------------------------------------------
/// A cost is no more than the exact quotient, even where it is endless.
proof fn lemma_cost_below(chance: EggChance, part: u32)
    requires
        chance.wf(),
        0 < part,
    ensures
        chance.eggs(part) * (chance.hits * part) <= EGG * CERTAIN * (chance.passive_cases
            * chance.iv_cases),
{
    let t = EGG * CERTAIN * (chance.passive_cases * chance.iv_cases);
    let a = chance.hits * part;
    assert(0 < a) by (nonlinear_arith)
        requires
            a == chance.hits * part,
            0 < chance.hits,
            0 < part,
    ;
    assert(t >= 0) by (nonlinear_arith)
        requires
            t == EGG * CERTAIN * (chance.passive_cases * chance.iv_cases),
    ;
    vstd::arithmetic::div_mod::lemma_fundamental_div_mod(t, a);
    vstd::arithmetic::div_mod::lemma_mod_bound(t, a);
    vstd::arithmetic::div_mod::lemma_div_pos_is_pos(t, a);
    let q = t / a;
    let e = chance.eggs(part) as int;
    assert(e * a <= t) by (nonlinear_arith)
        requires
            t == a * q + t % a,
            0 <= t % a,
            0 <= e <= q,
            0 < a,
    ;
}

/// Of two chances, the one that costs no more eggs costs no more with a
/// gender either, but for rounding.
proof fn lemma_rounding(one: EggChance, other: EggChance, part: u32)
    requires
        one.wf(),
        other.wf(),
        0 < part <= CERTAIN,
        one.eggs(CERTAIN) <= other.eggs(CERTAIN),
    ensures
        one.eggs(part) <= other.eggs(part) + CERTAIN / part + 1,
{
    if other.eggs(part) < ENDLESS {
        crate::chance::law_rarer_costs_more(other, part, CERTAIN);
        let x = EGG * CERTAIN * (one.passive_cases * one.iv_cases);
        let y = EGG * CERTAIN * (other.passive_cases * other.iv_cases);
        let (h, g) = (one.hits as int, other.hits as int);
        let (p, c) = (part as int, CERTAIN as int);
        let (e, f) = (one.eggs(CERTAIN) as int, other.eggs(CERTAIN) as int);
        let (u, v) = (one.eggs(part) as int, other.eggs(part) as int);
        crate::chance::law_cost_is_exact_to_the_unit(one, CERTAIN);
        crate::chance::law_cost_is_exact_to_the_unit(other, part);
        lemma_cost_below(one, part);
        lemma_cost_below(other, CERTAIN);
        assert(u * p < (e + 1) * c) by (nonlinear_arith)
            requires
                u * (h * p) <= x,
                x < (e + 1) * (h * c),
                0 < h,
        {
            assert(u * (h * p) == (u * p) * h) by (nonlinear_arith);
            assert((e + 1) * (h * c) == ((e + 1) * c) * h) by (nonlinear_arith);
            assert(u * p < (e + 1) * c) by (nonlinear_arith)
                requires
                    (u * p) * h < ((e + 1) * c) * h,
                    0 < h,
            ;
        }
        assert(f * c < (v + 1) * p) by (nonlinear_arith)
            requires
                f * (g * c) <= y,
                y < (v + 1) * (g * p),
                0 < g,
        {
            assert(f * (g * c) == (f * c) * g) by (nonlinear_arith);
            assert((v + 1) * (g * p) == ((v + 1) * p) * g) by (nonlinear_arith);
            assert(f * c < (v + 1) * p) by (nonlinear_arith)
                requires
                    (f * c) * g < ((v + 1) * p) * g,
                    0 < g,
            ;
        }
        let more = u - v - 1;
        assert(more * p < c) by (nonlinear_arith)
            requires
                u * p < (e + 1) * c,
                f * c < (v + 1) * p,
                e <= f,
                0 < c,
                more == u - v - 1,
        ;
        let whole = c / p;
        assert(more <= whole) by (nonlinear_arith)
            requires
                more * p < c,
                0 < p,
                whole == c / p,
        {
            assert(c < (whole + 1) * p) by (nonlinear_arith)
                requires
                    0 < p,
                    whole == c / p,
            ;
            if more > whole {
                assert(more * p >= (whole + 1) * p) by (nonlinear_arith)
                    requires
                        more >= whole + 1,
                        0 < p,
                ;
            }
        }
    }
}

// ---------------------------------------------------------------------
// Leaves
// ---------------------------------------------------------------------
proof fn lemma_one_bit(p: u8, i: u8)
    by (bit_vector)
    requires
        p < 8,
        i < 8,
    ensures
        has_bit(1u8 << p, i) == (i == p),
{
}

/// Records that a round adds are among those offered.
proof fn lemma_inserted_all_from(s: Search, records: Seq<Record>, beam: usize)
    ensures
        forall|id: int|
            s.arena.len() <= id < s.inserted_all(records, beam).arena.len() ==> records.contains(
                #[trigger] s.inserted_all(records, beam).arena[id],
            ),
    decreases records.len(),
{
    if records.len() > 0 {
        let rest = records.drop_last();
        let mid = s.inserted_all(rest, beam);
        let next = s.inserted_all(records, beam);
        lemma_inserted_all_from(s, rest, beam);
        lemma_inserted_arena(mid, records.last(), beam);
        assert forall|id: int| s.arena.len() <= id < next.arena.len() implies records.contains(
            #[trigger] next.arena[id],
        ) by {
            if id < mid.arena.len() {
                assert(next.arena[id] == mid.arena[id]) by {
                    assert(next.arena.take(mid.arena.len() as int)[id] == next.arena[id]);
                }
                let q = choose|q: int| 0 <= q < rest.len() && rest[q] == mid.arena[id];
                assert(records[q] == next.arena[id]);
            } else {
                assert(records[records.len() - 1] == next.arena[id]);
            }
        }
    }
}

impl Question {
    /// The progenitors that the plan breeds through.
    pub open spec fn anchors(self, tree: PlanTree) -> u8
        decreases tree,
    {
        match tree {
            PlanTree::Progenitor(species) => bits_of(
                |i: int| self.goal.progenitors[i] == species,
                self.goal.progenitors.len(),
            ),
            PlanTree::Bred { male, female, species, carried } => self.anchors(*male)
                | self.anchors(*female),
            _ => 0,
        }
    }

    proof fn lemma_anchor_bit(self, t: PlanTree, i: u8)
        requires
            i < 8,
            self.goal.progenitors.len() <= 8,
        ensures
            has_bit(self.anchors(t), i) == (i < self.goal.progenitors.len()
                && self.breeds_through(t, self.goal.progenitors[i as int])),
        decreases t,
    {
        match t {
            PlanTree::Progenitor(species) => {
                lemma_bits_of(
                    |i: int| self.goal.progenitors[i] == species,
                    self.goal.progenitors.len(),
                    i,
                );
            },
            PlanTree::Bred { male, female, species, carried } => {
                self.lemma_anchor_bit(*male, i);
                self.lemma_anchor_bit(*female, i);
                lemma_union_bit(self.anchors(*male), self.anchors(*female), i);
            },
            _ => {
                lemma_bits_of(|i: int| true, 0, i);
            },
        }
    }

    /// The plan gives everything asked for: its owned pals supply every
    /// wanted passive and meet every minimum, and it breeds through
    /// every progenitor.
    pub open spec fn gives_all(self, tree: PlanTree) -> bool {
        &&& forall|i: int|
            0 <= i < self.goal.passives.len() ==> self.supplies(
                tree,
                #[trigger] self.goal.passives[i],
            )
        &&& forall|i: int|
            0 <= i < self.goal.progenitors.len() ==> self.breeds_through(
                tree,
                #[trigger] self.goal.progenitors[i],
            )
        &&& forall|i: int|
            0 <= i < self.goal.iv_thresholds.requirements().len() ==> #[trigger] self.provides_iv(
                tree,
                i,
            )
    }

    proof fn lemma_full(self, tree: PlanTree)
        requires
            self.sound(),
            self.gives_all(tree),
        ensures
            self.carried(tree) == self.scene().full,
            self.anchors(tree) == self.scene().all_required,
            self.ivs(tree) == self.scene().iv_full,
    {
        lemma_checked(self.db, self.index, self.owned, self.goal);
        let all = |i: int| true;
        let (a, b, c) = (
            self.goal.passives.len(),
            self.goal.progenitors.len(),
            self.goal.iv_thresholds.requirements().len(),
        );
        assert forall|i: u8| i < 8 implies #[trigger] has_bit(self.carried(tree), i) == has_bit(
            all_bits(a),
            i,
        ) by {
            self.lemma_carried_bit(tree, i);
            lemma_bits_of(|i: int| true, a, i);
            if i < a {
                assert(self.supplies(tree, self.goal.passives[i as int]));
            }
        }
        lemma_same_bits(self.carried(tree), all_bits(a));
        assert forall|i: u8| i < 8 implies #[trigger] has_bit(self.anchors(tree), i) == has_bit(
            all_bits(b),
            i,
        ) by {
            self.lemma_anchor_bit(tree, i);
            lemma_bits_of(|i: int| true, b, i);
            if i < b {
                assert(self.breeds_through(tree, self.goal.progenitors[i as int]));
            }
        }
        lemma_same_bits(self.anchors(tree), all_bits(b));
        assert forall|i: u8| i < 8 implies #[trigger] has_bit(self.ivs(tree), i) == has_bit(
            all_bits(c),
            i,
        ) by {
            self.lemma_iv_bit(tree, i);
            lemma_bits_of(|i: int| true, c, i);
            if i < c {
                assert(self.provides_iv(tree, i as int));
            }
        }
        lemma_same_bits(self.ivs(tree), all_bits(c));
    }

    /// A record can take the place of a plan as a parent: it is of the
    /// species, brings what the plan brings, takes no more steps, and
    /// costs at most `slack` more.
    pub open spec fn stands_for(self, r: Record, t: PlanTree, gender: Gender, slack: int) -> bool {
        let names = self.world().names;
        &&& r.species < names.len()
        &&& names[r.species as int] == t.root_species()
        &&& r.carried == self.carried(t)
        &&& r.required == self.anchors(t)
        &&& r.iv_met == self.ivs(t)
        &&& r.bred_count <= t.steps()
        &&& match r.source {
            Source::Owned(p) => p < self.owned.len() && t == PlanTree::Owned(self.owned[p as int]),
            Source::Bred { male, female } => t is Bred,
            _ => t is Wild || t is Progenitor,
        }
        &&& self.eggs_as(t, gender) is Some
        &&& r.cost_in(gender) is Some
        &&& r.cost_in(gender)->0 <= self.eggs_as(t, gender)->0 + slack
    }

    /// A pair that stands for two plans breeds what they breed.
    proof fn lemma_pair_stands(
        self,
        arena: Seq<Record>,
        male: usize,
        female: usize,
        mt: PlanTree,
        ft: PlanTree,
        a: int,
        b: int,
        distance: u32,
    ) -> (c: Candidate)
        requires
            male < arena.len(),
            female < arena.len(),
            a >= 0,
            b >= 0,
            self.stands_for(arena[male as int], mt, Gender::Male, a),
            self.stands_for(arena[female as int], ft, Gender::Female, b),
            mt.steps() + ft.steps() + 1 + distance <= self.config.max_breeding_steps,
            self.chance(mt, ft).hits != 0,
        ensures
            bred(self.scene(), arena, distance, male, female) == Some(c),
            pair_chance(self.scene(), arena, male as int, female as int) == self.chance(mt, ft),
            c.chance == self.chance(mt, ft),
            c.carried == self.carried(mt) | self.carried(ft),
            c.required == self.anchors(mt) | self.anchors(ft),
            c.iv_met == self.ivs(mt) | self.ivs(ft),
            c.cost <= cost_sum(
                cost_sum(
                    self.eggs_as(mt, Gender::Male)->0,
                    self.eggs_as(ft, Gender::Female)->0,
                ),
                self.chance(mt, ft).eggs(CERTAIN),
            ) + a + b,
    {
        let scene = self.scene();
        let m = arena[male as int];
        let f = arena[female as int];
        assert(scene.junk == crate::search::seed::junk_table(self.owned, self.goal.passives));
        crate::search::laws::lemma_all_missing(self.junk(ft));
        assert(junk_count(scene, m, f) == self.junk(mt).len() + missing(
            self.junk(mt),
            self.junk(ft),
        ));
        let bits = m.carried | f.carried;
        crate::search::mask::lemma_bit_count(bits);
        bred(scene, arena, distance, male, female)->0
    }

    // -----------------------------------------------------------------
    // Species
    // -----------------------------------------------------------------
    proof fn lemma_known(self, species: Seq<char>)
        requires
            self.sound(),
            self.db.knows(species),
        ensures
            known_id(self.world().names, species) < self.world().names.len(),
            self.world().names[known_id(self.world().names, species) as int] == species,
            small_id(self.world().names, Some(species)) == Some(
                known_id(self.world().names, species),
            ),
            self.world().names.len() == self.scene().size(),
            self.world().names.no_duplicates(),
    {
        let names = self.world().names;
        self.lemma_scene();
        lemma_sorted_names(self.db);
        assert(names.contains(species));
        lemma_known_id(names, species);
        lemma_first_where(names, crate::search::world::equals(species));
        let k = choose|k: int| 0 <= k < names.len() && names[k] == species;
        assert(crate::search::world::equals(species)(names[k]));
    }

    proof fn lemma_leaf_known(self, t: PlanTree)
        requires
            self.sound(),
            !(t is Bred),
            self.feasible(t),
        ensures
            self.db.knows(t.root_species()),
    {
        lemma_checked(self.db, self.index, self.owned, self.goal);
        lemma_sorted_names(self.db);
        match t {
            PlanTree::Owned(pal) => {
                let i = choose|i: int| 0 <= i < self.owned.len() && self.owned[i] == pal;
                assert(self.world().names.contains(self.owned[i].species));
            },
            PlanTree::Progenitor(species) => {
                let i = choose|i: int|
                    0 <= i < self.goal.progenitors.len() && self.goal.progenitors[i] == species;
                assert(self.world().names.contains(self.goal.progenitors[i]));
            },
            _ => {},
        }
    }

    /// A parent is one step further than its child.
    proof fn lemma_near(self, male: Seq<char>, female: Seq<char>, child: Seq<char>, d: nat)
        requires
            self.db.knows(male),
            self.db.knows(female),
            self.index.child(male, female) == Some(child),
            steps_apart(breeding_edges(self.db, self.index), child, self.goal.species) matches Some(
                k,
            ) && k <= d,
        ensures
            steps_apart(breeding_edges(self.db, self.index), male, self.goal.species) matches Some(
                k,
            ) && k <= d + 1,
            steps_apart(
                breeding_edges(self.db, self.index),
                female,
                self.goal.species,
            ) matches Some(k) && k <= d + 1,
    {
        let edges = breeding_edges(self.db, self.index);
        assert(edges(male, child)) by {
            assert(self.db.knows(female));
        }
        assert(edges(female, child)) by {
            assert(self.db.knows(male));
        }
        crate::steps::law_parent_is_one_step_further(edges, male, child, self.goal.species);
        crate::steps::law_parent_is_one_step_further(edges, female, child, self.goal.species);
    }

    /// The child of two records of known species.
    proof fn lemma_child_id(self, ms: usize, fs: usize, child: Seq<char>)
        requires
            self.sound(),
            ms < self.world().names.len(),
            fs < self.world().names.len(),
            self.index.child(self.world().names[ms as int], self.world().names[fs as int]) == Some(
                child,
            ),
            self.db.knows(child),
        ensures
            self.scene().child[ms as int][fs as int] == Some(
                known_id(self.world().names, child),
            ),
    {
        self.lemma_known(child);
        let names = self.world().names;
        assert(self.world().child[ms as int][fs as int] == small_id(
            names,
            self.index.child(names[ms as int], names[fs as int]),
        ));
    }

    /// A leaf of a plan is one of the search.
    proof fn lemma_seed_of(self, t: PlanTree, gender: Gender) -> (id: usize)
        requires
            self.sound(),
            self.seeds().len() <= usize::MAX,
            !(t is Bred),
            self.feasible(t),
            self.eggs_as(t, gender) is Some,
            steps_apart(
                breeding_edges(self.db, self.index),
                t.root_species(),
                self.goal.species,
            ) matches Some(k) && k <= 2 && k <= self.config.max_breeding_steps,
        ensures
            id < self.seeds().len(),
            self.stands_for(self.seeds()[id as int], t, gender, 0),
            self.eggs_as(t, gender) == Some(0u128),
    {
        let seeds = self.seeds();
        let world = self.world();
        let scene = self.scene();
        self.lemma_scene();
        self.lemma_leaf_known(t);
        self.lemma_known(t.root_species());
        lemma_checked(self.db, self.index, self.owned, self.goal);
        assert(seeds.take(seeds.len() as int) =~= seeds);
        match t {
            PlanTree::Owned(pal) => {
                let i = choose|i: int| 0 <= i < self.owned.len() && self.owned[i] == pal;
                self.lemma_leaf(seeds, i);
                assert(self.tree(seeds, i as nat) == t);
                i as usize
            },
            PlanTree::Progenitor(species) => {
                let p = choose|p: int|
                    0 <= p < self.goal.progenitors.len() && self.goal.progenitors[p] == species;
                let i = self.owned.len() + p;
                self.lemma_leaf(seeds, i);
                lemma_known_id(world.names, self.goal.progenitors[p]);
                assert(seeds[i] == crate::search::seed::progenitor_leaf(
                    world.names,
                    self.goal.progenitors[p],
                    p as usize,
                ));
                assert(self.tree(seeds, i as nat) == t);
                let own = |i: int| self.goal.progenitors[i] == species;
                assert forall|k: u8| k < 8 implies #[trigger] has_bit(1u8 << (p as u8), k)
                    == has_bit(self.anchors(t), k) by {
                    lemma_one_bit(p as u8, k);
                    self.lemma_anchor_bit(t, k);
                }
                lemma_same_bits(1u8 << (p as u8), self.anchors(t));
                i as usize
            },
            PlanTree::Wild(species) => {
                let s = known_id(world.names, species);
                let w = crate::search::seed::lemma_wild_listed(
                    world,
                    scene.distance,
                    self.config.max_breeding_steps,
                    world.names.len(),
                    s as int,
                );
                let i = self.owned.len() + self.goal.progenitors.len() + w;
                let wild = wild_leaves(
                    world,
                    scene.distance,
                    self.config.max_breeding_steps,
                    world.names.len(),
                );
                assert(seeds[i] == wild[w]);
                self.lemma_leaf(seeds, i);
                assert(self.tree(seeds, i as nat) == t);
                i as usize
            },
            _ => 0,
        }
    }

    // -----------------------------------------------------------------
    // Plans of one and two rounds
    // -----------------------------------------------------------------
    /// A leaf, or bred from two leaves.
    pub open spec fn shallow(self, t: PlanTree) -> bool {
        t matches PlanTree::Bred { male, female, species, carried } ==> !(*male is Bred) && !(
        *female is Bred)
    }

    /// The pal at the root can be had with the gender.
    pub open spec fn hatches(self, t: PlanTree, gender: Gender) -> bool {
        &&& self.eggs_as(t, gender) is Some
        &&& t matches PlanTree::Bred { male, female, species, carried } ==> self.db.knows(species)
            && self.chance(*male, *female).hits != 0
    }

    /// What rounding may cost where a bred pal must have a gender: with
    /// even odds, three units of a trillionth of an egg.
    pub open spec fn rounding(self, t: PlanTree, gender: Gender) -> int {
        match t {
            PlanTree::Bred { male, female, species, carried } => CERTAIN / self.db.lookup(
                species,
            )->0.gender_probability.part(gender) + 1,
            _ => 0,
        }
    }

    /// After the first round, something stands for every pal that two
    /// leaves can breed, and is expanded next.
    #[verifier::rlimit(40)]
    proof fn lemma_bred_in_round_one(
        self,
        t: PlanTree,
        mt: PlanTree,
        ft: PlanTree,
        gender: Gender,
    ) -> (id: usize)
        requires
            self.sound(),
            self.outcome().arena.len() <= usize::MAX,
            self.config.max_breeding_steps >= 2,
            t matches PlanTree::Bred { male, female, species, carried } && *male == mt && *female
                == ft,
            !(mt is Bred),
            !(ft is Bred),
            self.feasible(t),
            self.hatches(t, gender),
            steps_apart(
                breeding_edges(self.db, self.index),
                t.root_species(),
                self.goal.species,
            ) matches Some(k) && k <= 1,
        ensures
            ({
                let next = start(self.seeds()).round(self.scene());
                &&& id < next.arena.len()
                &&& next.live[id as int]
                &&& next.frontier.contains(id)
                &&& self.stands_for(next.arena[id as int], t, gender, self.rounding(t, gender))
            }),
    {
        let scene = self.scene();
        let seeds = self.seeds();
        let begin = start(seeds);
        let next = begin.round(scene);
        let names = self.world().names;
        let edges = breeding_edges(self.db, self.index);
        let species = t.root_species();
        self.lemma_scene();
        self.lemma_after(0);
        assert(self.after(0) == begin);
        self.lemma_leaf_known(mt);
        self.lemma_leaf_known(ft);
        self.lemma_known(species);
        let sid = known_id(names, species);
        self.lemma_near(mt.root_species(), ft.root_species(), species, 1);
        let d = steps_apart(edges, species, self.goal.species)->0;
        assert(scene.distance[sid as int] == Some(d as u32));
        let male = self.lemma_seed_of(mt, Gender::Male);
        let female = self.lemma_seed_of(ft, Gender::Female);
        assert(mt.steps() == 0 && ft.steps() == 0);
        let c = self.lemma_pair_stands(seeds, male, female, mt, ft, 0, 0, d as u32);
        let m = seeds[male as int];
        let f = seeds[female as int];
        self.lemma_child_id(m.species, f.species, species);
        assert(begin.frontier[male as int] == male);
        assert(begin.frontier.contains(male));
        assert(begin.incumbent(scene) is None);
        lemma_pair_tried(begin, scene, male, female, sid, d as u32, c);
        let masks = candidate_key(c);
        let key = (sid * 0x100_0000 + masks) as u64;
        self.lemma_children_are_kept(0, sid, masks, c.cost);
        assert(!held(begin, key, c.cost)) by {
            assert(bucket_of(begin.buckets, key).len() == 0);
        }
        let id = lemma_round_leads(begin, scene, seeds.len(), key, c.cost);
        let r = next.arena[id as int];
        // the record comes from two leaves
        let children = begin.children(scene, begin.incumbent(scene), scene.size());
        assert(children.contains(r)) by {
            reveal(Search::round);
            let cleared = Search { frontier: Seq::empty(), ..begin };
            lemma_inserted_all_from(cleared, children, scene.beam);
        }
        self.lemma_children(begin, begin.incumbent(scene), scene.size());
        let q = choose|q: int| 0 <= q < children.len() && children[q] == r;
        assert(self.is_child(seeds, children[q]));
        lemma_round_orderly(begin, scene, seeds.len());
        self.lemma_leaf_child(r, seeds);
        lemma_state_parts(scene, r, sid, c);
        let part = self.db.lookup(species)->0.gender_probability.part(gender);
        self.lemma_species(sid as int);
        lemma_pair_chance_sound(scene, seeds, male as int, female as int);
        assert(c.cost == self.chance(mt, ft).eggs(CERTAIN));
        lemma_rounding(r.chance, self.chance(mt, ft), part);
        assert(r.cost_in(gender) == Some(r.chance.eggs(part)));
        assert(self.eggs_as(t, gender) == Some(self.chance(mt, ft).eggs(part)));
        id
    }

    /// A child of two leaves costs its own eggs alone.
    proof fn lemma_leaf_child(self, r: Record, seeds: Seq<Record>)
        requires
            self.sound(),
            seeds == self.seeds(),
            self.is_child(seeds, r),
            seeds.len() <= usize::MAX,
        ensures
            r.source is Bred,
            r.species < self.scene().size(),
            r.parents_cost == 0,
            r.bred_count == 1,
            r.chance.wf(),
            r.cost == r.chance.eggs(CERTAIN),
            r.gender == (Availability::Flexible {
                male: self.scene().male[r.species as int],
                female: self.scene().female[r.species as int],
            }),
    {
        reveal(Question::is_child);
        let scene = self.scene();
        self.lemma_scene();
        if let Source::Bred { male, female } = r.source {
            assert(seeds.take(seeds.len() as int) =~= seeds);
            self.lemma_leaf(seeds, male as int);
            self.lemma_leaf(seeds, female as int);
            self.lemma_seed_free(male as int);
            self.lemma_seed_free(female as int);
            let d = scene.distance[r.species as int]->0;
            let c = bred(scene, seeds, d, male, female)->0;
            assert(r == record_of(scene, r.species, c));
            assert(seeds[male as int].cost_in(Gender::Male) == Some(0u128));
            assert(seeds[female as int].cost_in(Gender::Female) == Some(0u128));
            assert(scene.fits(seeds[male as int], male as int));
            assert(scene.fits(seeds[female as int], female as int));
            lemma_pair_chance_sound(scene, seeds, male as int, female as int);
        }
    }

    /// What stands for a parent of a plan after the first round.
    proof fn lemma_parent(self, t: PlanTree, gender: Gender) -> (id: usize)
        requires
            self.sound(),
            self.outcome().arena.len() <= usize::MAX,
            self.config.max_breeding_steps >= 2,
            self.shallow(t),
            self.feasible(t),
            self.hatches(t, gender),
            steps_apart(
                breeding_edges(self.db, self.index),
                t.root_species(),
                self.goal.species,
            ) matches Some(k) && k <= 1,
        ensures
            ({
                let next = start(self.seeds()).round(self.scene());
                &&& id < next.arena.len()
                &&& next.live[id as int]
                &&& t is Bred ==> next.frontier.contains(id)
                &&& self.stands_for(next.arena[id as int], t, gender, self.rounding(t, gender))
            }),
    {
        let scene = self.scene();
        let begin = start(self.seeds());
        let next = begin.round(scene);
        self.lemma_after(0);
        assert(self.after(0) == begin);
        lemma_round_orderly(begin, scene, self.seeds().len());
        lemma_round_arena(begin, scene);
        match t {
            PlanTree::Bred { male, female, species, carried } => {
                self.lemma_bred_in_round_one(t, *male, *female, gender)
            },
            _ => {
                let id = self.lemma_seed_of(t, gender);
                assert(next.arena.take(begin.arena.len() as int)[id as int]
                    == next.arena[id as int]);
                id
            },
        }
    }

    /// Every plan that pairs leaves, or pals bred from leaves, in either
    /// role, and gives everything asked for within the allowed steps, is
    /// answered or beaten: there is an answer, and the best one costs no
    /// more than the plan, but for the rounding of costs where a bred
    /// parent must have a gender.
    pub proof fn law_no_plan_of_two_rounds_is_missed(
        self,
        tree: PlanTree,
        mt: PlanTree,
        ft: PlanTree,
    )
        requires
            self.sound(),
            self.outcome().arena.len() <= usize::MAX,
            tree matches PlanTree::Bred { male, female, species, carried } && *male == mt
                && *female == ft,
            self.feasible(tree),
            tree.root_species() == self.goal.species,
            tree.steps() <= self.config.max_breeding_steps,
            self.gives_all(tree),
            self.shallow(mt),
            self.shallow(ft),
            self.hatches(mt, Gender::Male),
            self.hatches(ft, Gender::Female),
            self.chance(mt, ft).hits != 0,
        ensures
            self.answers().len() > 0,
            self.answers()[0].expected_eggs <= self.eggs(tree) + self.rounding(mt, Gender::Male)
                + self.rounding(ft, Gender::Female),
    {
        let scene = self.scene();
        let seeds = self.seeds();
        let begin = start(seeds);
        let edges = breeding_edges(self.db, self.index);
        self.lemma_scene();
        self.lemma_after(0);
        assert(self.after(0) == begin);
        lemma_checked(self.db, self.index, self.owned, self.goal);
        lemma_sorted_names(self.db);
        assert(self.db.knows(self.goal.species));
        if !(mt is Bred) {
            self.lemma_leaf_known(mt);
        }
        if !(ft is Bred) {
            self.lemma_leaf_known(ft);
        }
        crate::steps::law_no_steps_to_itself(edges, self.goal.species, self.goal.species);
        self.lemma_near(mt.root_species(), ft.root_species(), self.goal.species, 0);
        self.lemma_full(tree);
        self.lemma_known(self.goal.species);
        if mt is Bred || ft is Bred {
            assert(mt.steps() + ft.steps() >= 1);
            let s = begin.round(scene);
            assert(self.after(1) == s) by {
                assert(begin.rounds(scene, 1) == s) by {
                    reveal_with_fuel(Search::rounds, 2);
                }
            }
            let male = self.lemma_parent(mt, Gender::Male);
            let female = self.lemma_parent(ft, Gender::Female);
            let c = self.lemma_pair_stands(
                s.arena,
                male,
                female,
                mt,
                ft,
                self.rounding(mt, Gender::Male),
                self.rounding(ft, Gender::Female),
                0,
            );
            self.lemma_child_id(
                s.arena[male as int].species,
                s.arena[female as int].species,
                self.goal.species,
            );
            self.law_no_fresh_pair_is_missed(1, male, female, c);
        } else {
            let male = self.lemma_seed_of(mt, Gender::Male);
            let female = self.lemma_seed_of(ft, Gender::Female);
            let c = self.lemma_pair_stands(seeds, male, female, mt, ft, 0, 0, 0);
            self.lemma_child_id(
                seeds[male as int].species,
                seeds[female as int].species,
                self.goal.species,
            );
            assert(begin.frontier[male as int] == male);
            assert(begin.frontier.contains(male));
            self.law_no_fresh_pair_is_missed(0, male, female, c);
        }
    }
}

} // verus!
