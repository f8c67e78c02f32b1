//! One breeding attempt.

use vstd::arithmetic::div_mod::lemma_div_is_ordered;
use vstd::arithmetic::div_mod::lemma_div_multiples_vanish;
use vstd::prelude::*;

use crate::chance::capped;
use crate::chance::cost_sum;
use crate::chance::expected_eggs;
use crate::chance::EggChance;
use crate::chance::EGG;
use crate::iv::IvOdds;
use crate::model::passive_texts;
use crate::model::Gender;
use crate::model::PassiveName;
use crate::model::CERTAIN;
use crate::passives::PassiveOdds;
use crate::search::mask::bit_count;
use crate::search::mask::lemma_bit_count;
use crate::search::mask::lemma_four_entries;
use crate::search::mask::lemma_three_entries;
use crate::search::mask::DesiredMask;
use crate::search::record::Availability;
use crate::search::record::Candidate;
use crate::search::record::Record;
use crate::search::record::Scene;
use crate::search::record::Source;
use crate::search::seed::junk_texts;
use crate::search::world::table_rows;
use crate::search::world::World;

verus! {

/// What every step of one search reads.
pub struct ExpandContext<'a> {
    pub world: &'a World,
    pub distance: &'a Vec<Option<u32>>,
    pub odds: &'a PassiveOdds,
    pub iv_odds: &'a IvOdds,
    pub junk: &'a Vec<Vec<PassiveName>>,
    pub max_steps: usize,
    pub beam: usize,
    pub goal: usize,
    pub full: u8,
    pub all_required: u8,
    pub iv_full: u8,
}

impl<'a> View for ExpandContext<'a> {
    type V = Scene;

    open spec fn view(&self) -> Scene {
        Scene {
            child: table_rows(self.world.child@),
            distance: self.distance@,
            male: self.world.male@,
            female: self.world.female@,
            odds: *self.odds,
            iv_odds: *self.iv_odds,
            junk: junk_texts(self.junk@),
            max_steps: self.max_steps,
            beam: self.beam,
            goal: self.goal,
            full: self.full,
            all_required: self.all_required,
            iv_full: self.iv_full,
        }
    }
}

/// How many entries of `b` are not in `a`.
pub open spec fn missing(a: Seq<Seq<char>>, b: Seq<Seq<char>>) -> nat
    decreases b.len(),
{
    if b.len() == 0 {
        0
    } else {
        missing(a, b.drop_last()) + if a.contains(b.last()) {
            0nat
        } else {
            1nat
        }
    }
}

/// Distinct passives that nobody wants and the pair brings into the
/// child's inheritance pool. Only owned leaves bring any.
pub open spec fn junk_count(scene: Scene, male: Record, female: Record) -> nat {
    match (male.source, female.source) {
        (Source::Owned(left), Source::Owned(right)) => {
            scene.junk[left as int].len() + missing(
                scene.junk[left as int],
                scene.junk[right as int],
            )
        },
        (Source::Owned(position), _) => scene.junk[position as int].len(),
        (_, Source::Owned(position)) => scene.junk[position as int].len(),
        _ => 0,
    }
}

proof fn lemma_missing(a: Seq<Seq<char>>, b: Seq<Seq<char>>)
    ensures
        missing(a, b) <= b.len(),
    decreases b.len(),
{
    if b.len() > 0 {
        lemma_missing(a, b.drop_last());
    }
}

/// Distinct unwanted passives of the pair.
fn junk_union(context: &ExpandContext, male: &Record, female: &Record) -> (r: u128)
    requires
        context@.wf(),
        match male.source {
            Source::Owned(p) => p < context.junk@.len(),
            _ => true,
        },
        match female.source {
            Source::Owned(p) => p < context.junk@.len(),
            _ => true,
        },
    ensures
        r == junk_count(context@, *male, *female),
        r <= 2 * usize::MAX,
{
    match (male.source, female.source) {
        (Source::Owned(left), Source::Owned(right)) => {
            let a = &context.junk[left];
            let b = &context.junk[right];
            let ghost ta = passive_texts(a@);
            let ghost tb = passive_texts(b@);
            proof {
                assert(context@.junk[left as int] == ta);
                assert(context@.junk[right as int] == tb);
            }
            let mut extra: usize = 0;
            let mut i: usize = 0;
            while i < b.len()
                invariant
                    ta == passive_texts(a@),
                    tb == passive_texts(b@),
                    i <= b@.len(),
                    extra <= i,
                    extra == missing(ta, tb.take(i as int)),
                decreases b@.len() - i,
            {
                proof {
                    assert(tb.take(i + 1).drop_last() =~= tb.take(i as int));
                    assert(tb.take(i + 1).last() == b@[i as int]@);
                }
                if !crate::model::holds_passive(a, &b[i]) {
                    extra = extra + 1;
                }
                i = i + 1;
            }
            proof {
                assert(tb.take(i as int) =~= tb);
            }
            a.len() as u128 + extra as u128
        },
        (Source::Owned(position), _) => {
            proof {
                assert(context@.junk[position as int] == passive_texts(
                    context.junk@[position as int]@,
                ));
            }
            context.junk[position].len() as u128
        },
        (_, Source::Owned(position)) => {
            proof {
                assert(context@.junk[position as int] == passive_texts(
                    context.junk@[position as int]@,
                ));
            }
            context.junk[position].len() as u128
        },
        _ => 0,
    }
}

/// A single owned individual would breed with itself; free leaves
/// represent obtainable pairs.
pub open spec fn selfing(arena: Seq<Record>, male: int, female: int) -> bool {
    male == female && arena[male].gender is Fixed
}

/// The passives both parents carry together.
pub open spec fn pair_carried(arena: Seq<Record>, male: int, female: int) -> u8 {
    arena[male].carried | arena[female].carried
}

/// The size of the pair's inheritance pool.
pub open spec fn pair_pool(scene: Scene, arena: Seq<Record>, male: int, female: int) -> int {
    bit_count(pair_carried(arena, male, female)) + junk_count(scene, arena[male], arena[female])
}

/// The chance that one egg of the pair carries all carried passives and
/// meets every minimum that a parent meets.
pub open spec fn pair_chance(scene: Scene, arena: Seq<Record>, male: int, female: int) -> EggChance {
    let wanted = bit_count(pair_carried(arena, male, female)) as nat;
    let pool = pair_pool(scene, arena, male, female);
    let single = bit_count(arena[male].iv_met ^ arena[female].iv_met) as nat;
    let both = bit_count(arena[male].iv_met & arena[female].iv_met) as nat;
    chance_of(scene.odds, scene.iv_odds, pool, wanted, single, both)
}

/// The candidate that a pair gives, `distance` steps from the goal;
/// nothing when the pair cannot breed it or would exceed the steps.
pub open spec fn bred(
    scene: Scene,
    arena: Seq<Record>,
    distance: u32,
    male: usize,
    female: usize,
) -> Option<Candidate> {
    let m = arena[male as int];
    let f = arena[female as int];
    let count = m.bred_count + f.bred_count + 1;
    let chance = pair_chance(scene, arena, male as int, female as int);
    if selfing(arena, male as int, female as int) || count + distance > scene.max_steps {
        None
    } else {
        match (m.cost_in(Gender::Male), f.cost_in(Gender::Female)) {
            (Some(a), Some(b)) => if chance.hits == 0 {
                None
            } else {
                Some(
                    Candidate {
                        male,
                        female,
                        carried: m.carried | f.carried,
                        required: m.required | f.required,
                        iv_met: m.iv_met | f.iv_met,
                        parents_cost: cost_sum(a, b),
                        chance,
                        cost: cost_sum(cost_sum(a, b), chance.eggs(CERTAIN)),
                        bred_count: count as usize,
                    },
                )
            },
            _ => None,
        }
    }
}

/// The chance that one egg carries `wanted` passives of a pool and meets
/// the minimums that one or both parents meet.
pub open spec fn chance_of(
    odds: PassiveOdds,
    iv_odds: IvOdds,
    pool: int,
    wanted: nat,
    single: nat,
    both: nat,
) -> EggChance {
    EggChance {
        hits: (odds.wanted_cases(pool, wanted) * iv_odds.pair_cases(single, both)) as u128,
        passive_cases: capped(odds.choice_cases(pool, wanted)),
        iv_cases: (odds.adds_any() * iv_odds.pair_total(single, both)) as u128,
    }
}

/// The counts of a chance that is not nothing stay within the bounds in
/// which costs are computed exactly.
pub proof fn lemma_chance_sound(
    odds: PassiveOdds,
    iv_odds: IvOdds,
    pool: int,
    wanted: nat,
    single: nat,
    both: nat,
)
    requires
        odds.wf(),
        iv_odds.wf(),
        wanted <= pool,
        wanted <= 4,
        single + both <= 3,
        odds.wanted_cases(pool, wanted) * iv_odds.pair_cases(single, both) != 0,
    ensures
        chance_of(odds, iv_odds, pool, wanted, single, both).wf(),
        ({
            let c = chance_of(odds, iv_odds, pool, wanted, single, both);
            &&& c.hits == odds.wanted_cases(pool, wanted) * iv_odds.pair_cases(single, both)
            &&& c.hits <= 24 * odds.inherits_any() * c.iv_cases
            &&& c.iv_cases == odds.adds_any() * iv_odds.pair_total(single, both)
        }),
{
    odds.lemma_case_bounds(pool, wanted);
    odds.law_probability_is_at_most_one(pool, wanted);
    iv_odds.lemma_pair_bounds(single, both);
    iv_odds.law_probability_is_at_most_one(single, both);
    let p = odds.wanted_cases(pool, wanted);
    let x = odds.choice_cases(pool, wanted);
    let a = odds.inherits_any();
    let b = odds.adds_any();
    let q = iv_odds.pair_cases(single, both);
    let t = iv_odds.pair_total(single, both);
    let hits = p * q;
    let rest = b * t;
    assert(0 <= hits <= 0x18_0000_0000_0000_0000 * 0x30_0000_0000) by (nonlinear_arith)
        requires
            hits == p * q,
            0 <= p <= 0x18_0000_0000_0000_0000,
            0 <= q <= 0x30_0000_0000,
    ;
    assert(0 < rest <= 0x100_0000_0000_0000_0000) by (nonlinear_arith)
        requires
            rest == b * t,
            0 < b <= u32::MAX,
            0 < t <= 0x30_0000_0000,
    ;
    assert(hits <= x * rest) by (nonlinear_arith)
        requires
            hits == p * q,
            rest == b * t,
            0 <= p <= x * b,
            0 <= q <= t,
    {
        assert(p * q <= (x * b) * t) by (nonlinear_arith)
            requires
                0 <= p <= x * b,
                0 <= q <= t,
        ;
        assert((x * b) * t == x * (b * t)) by (nonlinear_arith);
    }
    assert(hits <= 24 * a * rest) by (nonlinear_arith)
        requires
            hits == p * q,
            rest == b * t,
            0 <= p <= 24 * (a * b),
            0 <= q <= t,
    {
        assert(p * q <= (24 * (a * b)) * t) by (nonlinear_arith)
            requires
                0 <= p <= 24 * (a * b),
                0 <= q <= t,
        ;
        assert((24 * (a * b)) * t == 24 * a * (b * t)) by (nonlinear_arith);
    }
    if x > u128::MAX {
        let most: int = u128::MAX as int;
        assert(hits <= most * rest) by (nonlinear_arith)
            requires
                0 <= hits <= most,
                1 <= rest,
        ;
    }
}

/// Counting stops only where the cost is endless anyway: however large
/// the pool, an egg costs what the exact number of cases says.
pub proof fn law_large_pools_are_priced_exactly(
    odds: PassiveOdds,
    iv_odds: IvOdds,
    pool: int,
    wanted: nat,
    single: nat,
    both: nat,
    part: u32,
)
    requires
        odds.wf(),
        iv_odds.wf(),
        wanted <= pool,
        wanted <= 4,
        single + both <= 3,
        odds.wanted_cases(pool, wanted) * iv_odds.pair_cases(single, both) != 0,
        0 < part <= CERTAIN,
    ensures
        chance_of(odds, iv_odds, pool, wanted, single, both).eggs(part) == capped(
            (EGG * CERTAIN * (odds.all_cases(pool, wanted) * iv_odds.pair_total(single, both))) / (
            odds.wanted_cases(pool, wanted) * iv_odds.pair_cases(single, both) * part),
        ),
{
    lemma_chance_sound(odds, iv_odds, pool, wanted, single, both);
    odds.lemma_case_bounds(pool, wanted);
    let c = chance_of(odds, iv_odds, pool, wanted, single, both);
    let x = odds.choice_cases(pool, wanted);
    let a = odds.inherits_any();
    let b = odds.adds_any();
    let t = iv_odds.pair_total(single, both);
    let rest = c.iv_cases as int;
    let div = c.hits * part;
    assert((x * b) * t == x * (b * t)) by (nonlinear_arith);
    assert(0 < div) by (nonlinear_arith)
        requires
            div == c.hits * part,
            0 < c.hits,
            0 < part,
    ;
    if x > u128::MAX {
        lemma_endless(u128::MAX as int, a, rest, c.hits as int, part as int);
        lemma_endless(x, a, rest, c.hits as int, part as int);
    }
}

/// Where a choice has more cases than can be counted, the cost cannot be
/// counted either.
proof fn lemma_endless(cases: int, a: int, rest: int, hits: int, part: int)
    requires
        u128::MAX <= cases,
        0 < a <= u32::MAX,
        0 < rest,
        0 < hits <= 24 * a * rest,
        0 < part <= CERTAIN,
    ensures
        (EGG * CERTAIN * (cases * rest)) / (hits * part) > u128::MAX,
{
    let most: int = u128::MAX + 1;
    let div = hits * part;
    let top = EGG * CERTAIN * (cases * rest);
    assert(0 < div <= (24 * a * rest) * CERTAIN) by (nonlinear_arith)
        requires
            div == hits * part,
            0 < hits <= 24 * a * rest,
            0 < part <= CERTAIN,
    ;
    assert(most * (24 * a) <= EGG * cases) by (nonlinear_arith)
        requires
            most == u128::MAX + 1,
            u128::MAX <= cases,
            0 < a <= u32::MAX,
            EGG == 1_000_000_000_000,
    ;
    assert(most * div <= top) by {
        let rc = rest * CERTAIN;
        assert(0 < rc) by (nonlinear_arith)
            requires
                rc == rest * CERTAIN,
                0 < rest,
                CERTAIN == 1_000_000_000,
        ;
        assert(most * div <= most * ((24 * a * rest) * CERTAIN)) by (nonlinear_arith)
            requires
                0 < most,
                div <= (24 * a * rest) * CERTAIN,
        ;
        assert(most * ((24 * a * rest) * CERTAIN) == (most * (24 * a)) * rc) by (nonlinear_arith)
            requires
                rc == rest * CERTAIN,
        ;
        assert((most * (24 * a)) * rc <= (EGG * cases) * rc) by (nonlinear_arith)
            requires
                most * (24 * a) <= EGG * cases,
                0 < rc,
        ;
        assert((EGG * cases) * rc == top) by (nonlinear_arith)
            requires
                rc == rest * CERTAIN,
                top == EGG * CERTAIN * (cases * rest),
        ;
    }
    lemma_div_is_ordered(most * div, top, div);
    lemma_div_multiples_vanish(most, div);
    assert(div * most == most * div) by (nonlinear_arith);
}

/// The odds of a pair that can breed stay within the bounds in which
/// costs are computed exactly.
pub proof fn lemma_pair_chance_sound(scene: Scene, arena: Seq<Record>, male: int, female: int)
    requires
        scene.wf(),
        0 <= male < arena.len(),
        0 <= female < arena.len(),
        scene.fits(arena[male], male),
        scene.fits(arena[female], female),
        pair_chance(scene, arena, male, female).hits != 0,
    ensures
        pair_chance(scene, arena, male, female).wf(),
{
    let m = arena[male];
    let f = arena[female];
    lemma_four_entries(m.carried, f.carried);
    lemma_three_entries(m.iv_met, f.iv_met);
    lemma_bit_count(m.carried | f.carried);
    if let (Source::Owned(left), Source::Owned(right)) = (m.source, f.source) {
        lemma_missing(scene.junk[left as int], scene.junk[right as int]);
    }
    let wanted = bit_count(m.carried | f.carried) as nat;
    let pool = pair_pool(scene, arena, male, female);
    let single = bit_count(m.iv_met ^ f.iv_met) as nat;
    let both = bit_count(m.iv_met & f.iv_met) as nat;
    lemma_chance_sound(scene.odds, scene.iv_odds, pool, wanted, single, both);
}

/// Attempts one breeding arrangement.
pub fn breed(
    context: &ExpandContext,
    arena: &Vec<Record>,
    distance: u32,
    male_id: usize,
    female_id: usize,
) -> (r: Option<Candidate>)
    requires
        context@.wf(),
        context@.fit(arena@),
        male_id < arena@.len(),
        female_id < arena@.len(),
    ensures
        r == bred(context@, arena@, distance, male_id, female_id),
        r is Some ==> r->0.chance.wf() && r->0.carried < 16 && r->0.iv_met < 8,
{
    let male = arena[male_id];
    let female = arena[female_id];
    proof {
        assert(context@.fits(arena@[male_id as int], male_id as int));
        assert(context@.fits(arena@[female_id as int], female_id as int));
    }
    if male_id == female_id {
        if let Availability::Fixed(_) = male.gender {
            return None;
        }
    }
    // bred_count + distance must stay within the budget
    let budget: usize = context.max_steps;
    if male.bred_count >= budget || female.bred_count > budget - 1 - male.bred_count {
        return None;
    }
    let bred_count: usize = male.bred_count + female.bred_count + 1;
    if distance as u64 > (budget - bred_count) as u64 {
        return None;
    }
    let male_cost: u128 = match male.cost_as(Gender::Male) {
        Some(cost) => cost,
        None => {
            return None;
        },
    };
    let female_cost: u128 = match female.cost_as(Gender::Female) {
        Some(cost) => cost,
        None => {
            return None;
        },
    };
    let carried = DesiredMask(male.carried).union(DesiredMask(female.carried));
    let wanted: usize = carried.count();
    proof {
        lemma_four_entries(male.carried, female.carried);
    }
    let pool: u128 = wanted as u128 + junk_union(context, &male, &female);
    let carrying: u128 = context.odds.carrying_cases(pool, wanted);
    // A successful egg also inherits every supplyable goal IV: stats met
    // by one parent flip the extra right-parent coin, stats met by both
    // do not.
    let male_iv = DesiredMask(male.iv_met);
    let female_iv = DesiredMask(female.iv_met);
    proof {
        lemma_three_entries(male.iv_met, female.iv_met);
    }
    let iv_met = male_iv.union(female_iv);
    let both: usize = male_iv.intersection(female_iv).count();
    let single: usize = male_iv.symmetric_difference(female_iv).count();
    let ivs = context.iv_odds.pair_probability(single, both);
    proof {
        let q = ivs.favourable;
        assert(0 <= carrying * q <= 0x258_0000_0000_0000_0000 * 0x9_0000_0000) by (nonlinear_arith)
            requires
                0 <= carrying <= 0x258_0000_0000_0000_0000,
                0 <= q <= 0x9_0000_0000,
        ;
    }
    let hits: u128 = carrying * ivs.favourable;
    if hits == 0 {
        return None;
    }
    let random: u128 = context.odds.random_rolls() as u128;
    proof {
        let t = ivs.total;
        assert(0 <= random * t <= 0x100_0000_0000_0000_0000) by (nonlinear_arith)
            requires
                0 <= random <= u32::MAX,
                0 <= t <= 0x30_0000_0000,
        ;
        lemma_pair_chance_sound(context@, arena@, male_id as int, female_id as int);
    }
    let chance = EggChance {
        hits,
        passive_cases: context.odds.choice_cases_within(pool, wanted),
        iv_cases: random * ivs.total,
    };
    let parents_cost: u128 = crate::chance::add_costs(male_cost, female_cost);
    let cost: u128 = crate::chance::add_costs(parents_cost, expected_eggs(chance, CERTAIN));
    Some(
        Candidate {
            male: male_id,
            female: female_id,
            carried: carried.0,
            required: male.required | female.required,
            iv_met: iv_met.0,
            parents_cost,
            chance,
            cost,
            bred_count,
        },
    )
}

} // verus!
