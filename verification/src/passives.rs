//! Passive-skill inheritance probabilities for a single breeding pair.
//!
//! A child rolls how many passives it inherits from the combined pool
//! of its parents, then how many random ones are added. Which passives
//! it inherits is a uniform choice among the sets of that size, so the
//! share of the sets that hold all of `d` wanted passives is a quotient
//! of ordered choices (see [`crate::chance::law_share_of_sets`]).

use vstd::prelude::*;

use crate::chance::capped;
use crate::chance::choices_within;
use crate::chance::falling;
use crate::chance::lemma_falling_grows;
use crate::chance::lemma_falling_small;
use crate::chance::lemma_weight_below_grows;
use crate::chance::total_weight;
use crate::chance::weight;
use crate::chance::weight_below;
use crate::chance::weight_of;
use crate::chance::weight_total;
use crate::chance::PoolProbability;
use crate::chance::Probability;
use crate::model::passive_texts;
use crate::model::BreedingMechanics;
use crate::model::PassiveName;
use crate::seqs::distinct;

verus! {

/// A pal carries at most this many passive skills.
pub const MAX_TOTAL_PASSIVES: usize = 4;

/// Inheritance tables by passive count, from none to
/// [`MAX_TOTAL_PASSIVES`], as weights beside the weight of everything.
#[derive(Clone, Copy, Debug)]
pub struct PassiveOdds {
    direct: [u32; 5],
    direct_total: u32,
    random: [u32; 5],
    random_total: u32,
}

#[derive(Debug, PartialEq, Eq)]
pub enum PassiveOddsError {
    /// The weights of a table sum to zero.
    ZeroWeightSum { table: &'static str },
}

impl PassiveOddsError {
    pub fn message(&self) -> (r: String)
        ensures
            match *self {
                PassiveOddsError::ZeroWeightSum { table } => r@ == table@
                    + " weights sum to zero; cannot normalize"@,
            },
    {
        match self {
            PassiveOddsError::ZeroWeightSum { table } => {
                let mut out = (*table).to_owned();
                out.append(" weights sum to zero; cannot normalize");
                out
            },
        }
    }
}

#[derive(Debug, PartialEq, Eq)]
pub enum DesiredPassivesError {
    NotInPool(PassiveName),
    Duplicate(PassiveName),
    TooMany { count: usize },
}

impl DesiredPassivesError {
    pub fn message(&self) -> (r: String)
        ensures
            match *self {
                DesiredPassivesError::NotInPool(name) => r@ == "desired passive "@ + name@
                    + " is not in the parent pool"@,
                DesiredPassivesError::Duplicate(name) => r@ == "desired passive "@ + name@
                    + " listed more than once"@,
                DesiredPassivesError::TooMany { count } => r@ == crate::text::decimal(count as nat)
                    + " desired passives exceed the 4-passive cap"@,
            },
    {
        match self {
            DesiredPassivesError::NotInPool(name) => {
                let mut out = "desired passive ".to_owned();
                out.append(name.as_str());
                out.append(" is not in the parent pool");
                out
            },
            DesiredPassivesError::Duplicate(name) => {
                let mut out = "desired passive ".to_owned();
                out.append(name.as_str());
                out.append(" listed more than once");
                out
            },
            DesiredPassivesError::TooMany { count } => {
                let mut out = crate::text::decimal_of(*count as u128);
                out.append(" desired passives exceed the 4-passive cap");
                out
            },
        }
    }
}

/// The deduplicated union of the two parents' passive skills: what a
/// child can inherit from.
#[derive(PartialEq, Eq, Debug)]
pub struct ParentPool(Vec<PassiveName>);

impl View for ParentPool {
    type V = Seq<Seq<char>>;

    closed spec fn view(&self) -> Seq<Seq<char>> {
        passive_texts(self.0@)
    }
}

/// Appends the names that the list does not hold yet.
fn add_distinct(out: &mut Vec<PassiveName>, names: &[PassiveName], Ghost(seen): Ghost<Seq<Seq<char>>>)
    requires
        passive_texts(old(out)@) == distinct(seen),
    ensures
        passive_texts(final(out)@) == distinct(seen + passive_texts(names@)),
{
    let ghost texts = passive_texts(names@);
    let mut i: usize = 0;
    proof {
        assert(seen + texts.take(0) =~= seen);
    }
    while i < names.len()
        invariant
            i <= names@.len(),
            texts == passive_texts(names@),
            passive_texts(out@) == distinct(seen + texts.take(i as int)),
        decreases names@.len() - i,
    {
        let ghost next = seen + texts.take(i + 1);
        proof {
            assert(next.drop_last() =~= seen + texts.take(i as int));
            assert(next.last() == names@[i as int]@);
        }
        if !crate::model::holds_passive(out, &names[i]) {
            let ghost before = passive_texts(out@);
            out.push(names[i].clone());
            proof {
                assert(passive_texts(out@) =~= before.push(names@[i as int]@));
            }
        }
        i = i + 1;
    }
    proof {
        assert(texts.take(i as int) =~= texts);
    }
}

impl ParentPool {
    pub fn from_parents(first: &[PassiveName], second: &[PassiveName]) -> (r: Self)
        ensures
            r@ == distinct(passive_texts(first@) + passive_texts(second@)),
            r@.no_duplicates(),
    {
        proof {
            crate::seqs::lemma_distinct(passive_texts(first@) + passive_texts(second@));
        }
        let mut names: Vec<PassiveName> = Vec::new();
        proof {
            assert(passive_texts(names@) =~= distinct(Seq::<Seq<char>>::empty()));
            assert(Seq::<Seq<char>>::empty() + passive_texts(first@) =~= passive_texts(first@));
        }
        add_distinct(&mut names, first, Ghost(Seq::empty()));
        add_distinct(&mut names, second, Ghost(passive_texts(first@)));
        ParentPool(names)
    }

    pub fn len(&self) -> (r: usize)
        ensures
            r == self@.len(),
    {
        self.0.len()
    }

    pub fn is_empty(&self) -> (r: bool)
        ensures
            r == (self@.len() == 0),
    {
        self.0.len() == 0
    }

    pub fn contains(&self, passive: &PassiveName) -> (r: bool)
        ensures
            r == self@.contains(passive@),
    {
        crate::model::holds_passive(&self.0, passive)
    }
}

/// The smaller of two numbers.
pub open spec fn least(a: int, b: int) -> int {
    if a <= b {
        a
    } else {
        b
    }
}

impl PassiveOdds {
    /// The weight of inheriting exactly `n` passives.
    pub closed spec fn inherits(self, n: int) -> int {
        if 0 <= n <= 4 {
            self.direct@[n] as int
        } else {
            0
        }
    }

    /// The weight of every inherit roll together.
    pub closed spec fn inherits_any(self) -> int {
        self.direct_total as int
    }

    /// The weight of adding exactly `n` random passives.
    pub closed spec fn adds(self, n: int) -> int {
        if 0 <= n <= 4 {
            self.random@[n] as int
        } else {
            0
        }
    }

    /// The weight of every random roll together.
    pub closed spec fn adds_any(self) -> int {
        self.random_total as int
    }

    /// The weight of adding at least `n` random passives.
    pub open spec fn adds_from(self, n: int) -> int
        decreases 5 - n,
    {
        if n > 4 {
            0
        } else {
            self.adds(n) + self.adds_from(n + 1)
        }
    }

    /// The weight of inheriting at least `n` passives.
    pub open spec fn inherits_from(self, n: int) -> int
        decreases 5 - n,
    {
        if n > 4 {
            0
        } else {
            self.inherits(n) + self.inherits_from(n + 1)
        }
    }

    /// The invariant: something can be rolled, and no roll weighs more
    /// than everything.
    pub open spec fn wf(self) -> bool {
        &&& 0 < self.inherits_any() <= u32::MAX
        &&& 0 < self.adds_any() <= u32::MAX
        &&& self.inherits_from(0) <= self.inherits_any()
        &&& self.adds_from(0) <= self.adds_any()
        &&& forall|n: int| 0 <= #[trigger] self.inherits(n)
        &&& forall|n: int| 0 <= #[trigger] self.adds(n)
    }

    /// The weight with which the random roll fills the child up by
    /// `added` passives to `total`: at the cap, surplus is discarded.
    pub open spec fn fills(self, total: int, added: int) -> int {
        if total == 4 {
            self.adds_from(added)
        } else {
            self.adds(added)
        }
    }

    /// The cases in which the child rolls `n` inherited passives, all
    /// `d` wanted ones among them, and ends with `total`. A roll beyond
    /// the pool inherits the whole pool.
    pub open spec fn roll_cases(self, pool: int, d: nat, total: int, n: int) -> int {
        let inherited = least(n, pool);
        if inherited > total {
            0
        } else {
            self.inherits(n) * falling(inherited, d) * self.fills(total, total - inherited)
        }
    }

    /// The same for all rolls from `n` on.
    pub open spec fn rolls_from(self, pool: int, d: nat, total: int, n: int) -> int
        decreases 5 - n,
    {
        if n > 4 {
            0
        } else {
            self.roll_cases(pool, d, total, n) + self.rolls_from(pool, d, total, n + 1)
        }
    }

    /// The cases in which the child ends with exactly `total` passives,
    /// all `d` wanted ones among them.
    pub open spec fn exact_cases(self, pool: int, d: nat, total: int) -> int {
        self.rolls_from(pool, d, total, d as int)
    }

    /// The same for all final counts from `total` on, over the rolls
    /// from `n` on.
    pub open spec fn totals_from(self, pool: int, d: nat, total: int, n: int) -> int
        decreases 5 - total,
    {
        if total > 4 {
            0
        } else {
            self.rolls_from(pool, d, total, n) + self.totals_from(pool, d, total + 1, n)
        }
    }

    /// The cases in which the child carries all `d` wanted passives.
    pub open spec fn wanted_cases(self, pool: int, d: nat) -> int {
        self.totals_from(pool, d, d as int, d as int)
    }

    /// All cases.
    pub open spec fn all_cases(self, pool: int, d: nat) -> int {
        self.inherits_any() * self.adds_any() * falling(pool, least(d as int, 4) as nat)
    }

    /// The cases of the inherit roll and the choice from the pool alone.
    pub open spec fn choice_cases(self, pool: int, d: nat) -> int {
        self.inherits_any() * falling(pool, least(d as int, 4) as nat)
    }

    /// Fails if either weight table sums to zero.
    pub fn from_mechanics(mechanics: &BreedingMechanics) -> (r: Result<Self, PassiveOddsError>)
        requires
            weight_total(mechanics.passive_inheritance_weights@) <= u32::MAX,
            weight_total(mechanics.passive_random_weights@) <= u32::MAX,
        ensures
            match r {
                Ok(odds) => {
                    &&& weight_total(mechanics.passive_inheritance_weights@) > 0
                    &&& weight_total(mechanics.passive_random_weights@) > 0
                    &&& odds.wf()
                    &&& odds.inherits_any() == weight_total(mechanics.passive_inheritance_weights@)
                    &&& odds.adds_any() == weight_total(mechanics.passive_random_weights@)
                    &&& forall|n: int|
                        0 <= n <= 4 ==> #[trigger] odds.inherits(n) == weight(
                            mechanics.passive_inheritance_weights@,
                            n,
                        )
                    &&& forall|n: int|
                        0 <= n <= 4 ==> #[trigger] odds.adds(n) == weight(
                            mechanics.passive_random_weights@,
                            n,
                        )
                },
                Err(PassiveOddsError::ZeroWeightSum { table }) => {
                    if weight_total(mechanics.passive_inheritance_weights@) == 0 {
                        table@ == "passive inheritance"@
                    } else {
                        weight_total(mechanics.passive_random_weights@) == 0 && table@
                            == "passive random"@
                    }
                },
            },
    {
        let inherit = &mechanics.passive_inheritance_weights;
        let add = &mechanics.passive_random_weights;
        let direct_total: u32 = total_weight(inherit);
        if direct_total == 0 {
            return Err(PassiveOddsError::ZeroWeightSum { table: "passive inheritance" });
        }
        let random_total: u32 = total_weight(add);
        if random_total == 0 {
            return Err(PassiveOddsError::ZeroWeightSum { table: "passive random" });
        }
        let direct: [u32; 5] = [
            weight_of(inherit, 0),
            weight_of(inherit, 1),
            weight_of(inherit, 2),
            weight_of(inherit, 3),
            weight_of(inherit, 4),
        ];
        let random: [u32; 5] = [
            weight_of(add, 0),
            weight_of(add, 1),
            weight_of(add, 2),
            weight_of(add, 3),
            weight_of(add, 4),
        ];
        let odds = PassiveOdds { direct, direct_total, random, random_total };
        proof {
            reveal_with_fuel(weight_below, 6);
            reveal_with_fuel(PassiveOdds::inherits_from, 6);
            reveal_with_fuel(PassiveOdds::adds_from, 6);
            lemma_weight_below_grows(inherit@, 5, 256);
            lemma_weight_below_grows(add@, 5, 256);
        }
        Ok(odds)
    }

    /// P(the inherit roll selects exactly `n` passives).
    pub fn direct(&self, n: usize) -> (r: Probability)
        requires
            n <= MAX_TOTAL_PASSIVES,
        ensures
            r.favourable == self.inherits(n as int),
            r.total == self.inherits_any(),
    {
        Probability { favourable: self.direct[n] as u128, total: self.direct_total as u128 }
    }

    /// P(exactly `n` random passives are added).
    pub fn random_exact(&self, n: usize) -> (r: Probability)
        requires
            n <= MAX_TOTAL_PASSIVES,
        ensures
            r.favourable == self.adds(n as int),
            r.total == self.adds_any(),
    {
        Probability { favourable: self.random[n] as u128, total: self.random_total as u128 }
    }

    /// P(at least `n` random passives are added).
    pub fn random_at_least(&self, n: usize) -> (r: Probability)
        requires
            self.wf(),
            n <= MAX_TOTAL_PASSIVES,
        ensures
            r.favourable == self.adds_from(n as int),
            r.total == self.adds_any(),
    {
        Probability { favourable: self.added_from(n), total: self.random_total as u128 }
    }

    fn added_from(&self, n: usize) -> (r: u128)
        requires
            self.wf(),
        ensures
            r == self.adds_from(n as int),
            r <= self.adds_any(),
    {
        let mut sum: u128 = 0;
        let mut k: usize = n;
        while k <= 4
            invariant
                n <= k,
                n <= 4 ==> k <= 5,
                self.wf(),
                sum + self.adds_from(k as int) == self.adds_from(n as int),
                sum <= 5 * u32::MAX,
                n <= 4 ==> sum <= (k - n) * u32::MAX,
                n > 4 ==> sum == 0,
            decreases 5 - k,
        {
            sum = sum + self.random[k] as u128;
            k = k + 1;
        }
        proof {
            self.lemma_adds_from(n as int);
        }
        sum
    }

    proof fn lemma_adds_from(self, n: int)
        requires
            self.wf(),
            0 <= n,
        ensures
            0 <= self.adds_from(n) <= self.adds_any(),
    {
        reveal_with_fuel(PassiveOdds::adds_from, 6);
    }

    proof fn lemma_inherits(self, n: int)
        requires
            self.wf(),
        ensures
            0 <= self.inherits(n) <= self.inherits_any(),
    {
        reveal_with_fuel(PassiveOdds::inherits_from, 6);
    }

    /// One roll has few enough cases to count.
    proof fn lemma_roll_cases(self, pool: int, d: nat, total: int, n: int)
        requires
            self.wf(),
            d <= n <= 4,
            d <= pool,
            0 <= total <= 4,
        ensures
            0 <= self.roll_cases(pool, d, total, n) <= 0x18_0000_0000_0000_0000,
            least(n, pool) <= total ==> 1 <= falling(least(n, pool), d) <= 24,
            least(n, pool) <= total ==> 0 <= self.fills(total, total - least(n, pool))
                <= u32::MAX,
    {
        let a = least(n, pool);
        if a <= total {
            self.lemma_inherits(n);
            self.lemma_adds_from(total - a);
            reveal_with_fuel(PassiveOdds::adds_from, 6);
            lemma_falling_grows(a, 4, d);
            lemma_falling_small(4);
            lemma_falling_small(a);
            let w = self.inherits(n);
            let f = falling(a, d);
            let g = self.fills(total, total - a);
            assert(0 <= w * f * g <= 0x18_0000_0000_0000_0000) by (nonlinear_arith)
                requires
                    0 <= w <= u32::MAX,
                    1 <= f <= 24,
                    0 <= g <= u32::MAX,
            ;
        }
    }

    /// The ordered choices of up to four from a pool, in two parts.
    fn count_choices(pool: usize, d: usize) -> (r: (u128, u128))
        requires
            d <= pool,
        ensures
            r.0 * r.1 == falling(pool as int, least(d as int, 4) as nat),
            r.0 * r.1 > 0,
    {
        let n: u128 = pool as u128;
        proof {
            lemma_falling_small(pool as int);
            lemma_falling_grows(pool as int, pool as int, least(d as int, 4) as nat);
        }
        if d == 0 {
            return (1, 1);
        }
        if d == 1 {
            return (n, 1);
        }
        proof {
            assert(0 <= n * (n - 1) <= u128::MAX) by (nonlinear_arith)
                requires
                    2 <= n <= 0xffff_ffff_ffff_ffff,
            ;
        }
        let upper: u128 = n * (n - 1);
        if d == 2 {
            return (upper, 1);
        }
        if d == 3 {
            proof {
                assert(n * ((n - 1) * (n - 2)) == (n * (n - 1)) * (n - 2)) by (nonlinear_arith);
            }
            return (upper, n - 2);
        }
        proof {
            assert(0 <= (n - 2) * (n - 3) <= u128::MAX) by (nonlinear_arith)
                requires
                    4 <= n <= 0xffff_ffff_ffff_ffff,
            ;
            assert(n * ((n - 1) * ((n - 2) * (n - 3))) == (n * (n - 1)) * ((n - 2) * (n - 3)))
                by (nonlinear_arith);
        }
        (upper, (n - 2) * (n - 3))
    }

    /// A chance among all cases of a pool.
    fn among(&self, favourable: u128, pool: usize, d: usize) -> (r: PoolProbability)
        requires
            self.wf(),
            d <= pool,
        ensures
            r.favourable == favourable,
            r.total() == self.all_cases(pool as int, d as nat),
            r.total() > 0,
    {
        let a: u128 = self.direct_total as u128;
        let b: u128 = self.random_total as u128;
        let (first, second): (u128, u128) = Self::count_choices(pool, d);
        proof {
            assert(0 < a * b <= u32::MAX * u32::MAX) by (nonlinear_arith)
                requires
                    0 < a <= u32::MAX,
                    0 < b <= u32::MAX,
            ;
            let ab = a * b;
            let f = first * second;
            assert(0 < ab * f) by (nonlinear_arith)
                requires
                    0 < ab,
                    0 < f,
            ;
        }
        PoolProbability { favourable, rolls: a * b, first, second }
    }

    /// The cases in which the child ends with exactly `total` passives,
    /// all `d` wanted ones among them.
    fn count_exact(&self, pool: u128, d: usize, total: usize) -> (r: u128)
        requires
            self.wf(),
            d <= pool,
            total <= 4,
        ensures
            r == self.exact_cases(pool as int, d as nat, total as int),
            r <= 0x78_0000_0000_0000_0000,
    {
        let mut sum: u128 = 0;
        let mut n: usize = d;
        if d > 4 {
            return 0;
        }
        while n <= 4
            invariant
                self.wf(),
                d <= pool,
                total <= 4,
                d <= n <= 5,
                sum + self.rolls_from(pool as int, d as nat, total as int, n as int)
                    == self.exact_cases(pool as int, d as nat, total as int),
                sum <= (n - d) * 0x18_0000_0000_0000_0000,
            decreases 5 - n,
        {
            proof {
                self.lemma_roll_cases(pool as int, d as nat, total as int, n as int);
            }
            // The roll can exceed what the parents have; the surplus
            // inherits nothing.
            let inherited: usize = if n as u128 <= pool {
                n
            } else {
                pool as usize
            };
            if inherited <= total {
                let fill: u128 = if total == 4 {
                    self.added_from(total - inherited)
                } else {
                    self.random[total - inherited] as u128
                };
                let w: u128 = self.direct[n] as u128;
                let f: u128 = ordered_choices(inherited, d);
                proof {
                    self.lemma_inherits(n as int);
                    assert(0 <= w * f <= 24 * u32::MAX) by (nonlinear_arith)
                        requires
                            0 <= w <= u32::MAX,
                            1 <= f <= 24,
                    ;
                    let wf = w * f;
                    assert(0 <= wf * fill <= 0x18_0000_0000_0000_0000) by (nonlinear_arith)
                        requires
                            0 <= wf <= 24 * u32::MAX,
                            0 <= fill <= u32::MAX,
                    ;
                }
                sum = sum + w * f * fill;
            }
            n = n + 1;
        }
        sum
    }

    /// Probability that the child ends with exactly `num_final`
    /// passives, all `desired_count` targets among them, given
    /// `pool_size` distinct passives across both parents.
    pub fn exact_total_probability(
        &self,
        pool_size: usize,
        desired_count: usize,
        num_final: usize,
    ) -> (r: PoolProbability)
        requires
            self.wf(),
            desired_count <= pool_size,
            num_final <= MAX_TOTAL_PASSIVES,
        ensures
            r.favourable == self.exact_cases(
                pool_size as int,
                desired_count as nat,
                num_final as int,
            ),
            r.total() == self.all_cases(pool_size as int, desired_count as nat),
            r.total() > 0,
    {
        let favourable: u128 = self.count_exact(pool_size as u128, desired_count, num_final);
        self.among(favourable, pool_size, desired_count)
    }

    /// The cases in which the child carries all `desired_count` targets,
    /// at any final passive count.
    pub fn carrying_cases(&self, pool_size: u128, desired_count: usize) -> (r: u128)
        requires
            self.wf(),
            desired_count <= pool_size,
        ensures
            r == self.wanted_cases(pool_size as int, desired_count as nat),
            r <= 0x258_0000_0000_0000_0000,
    {
        let mut sum: u128 = 0;
        let mut total: usize = desired_count;
        while total <= 4
            invariant
                self.wf(),
                desired_count <= pool_size,
                desired_count <= total,
                desired_count <= 4 ==> total <= 5,
                desired_count > 4 ==> total == desired_count && sum == 0,
                sum + self.totals_from(
                    pool_size as int,
                    desired_count as nat,
                    total as int,
                    desired_count as int,
                ) == self.wanted_cases(pool_size as int, desired_count as nat),
                desired_count <= 4 ==> sum <= (total - desired_count) * 0x78_0000_0000_0000_0000,
            decreases 5 - total,
        {
            sum = sum + self.count_exact(pool_size, desired_count, total);
            total = total + 1;
        }
        sum
    }

    /// The cases of the inherit roll and the choice from the pool, as far
    /// as they can be counted.
    pub fn choice_cases_within(&self, pool_size: u128, desired_count: usize) -> (r: u128)
        requires
            self.wf(),
            desired_count <= pool_size,
        ensures
            r == capped(self.choice_cases(pool_size as int, desired_count as nat)),
            r > 0,
    {
        let d: usize = if desired_count <= 4 {
            desired_count
        } else {
            4
        };
        proof {
            lemma_falling_grows(pool_size as int, pool_size as int, d as nat);
            let a = self.inherits_any();
            let f = falling(pool_size as int, d as nat);
            assert(0 < a * f) by (nonlinear_arith)
                requires
                    0 < a,
                    1 <= f,
            ;
        }
        choices_within(self.direct_total as u128, pool_size, d)
    }

    /// The weight of every random roll together.
    pub fn random_rolls(&self) -> (r: u32)
        ensures
            r == self.adds_any(),
    {
        self.random_total
    }

    /// Probability that the child carries all `desired_count` targets,
    /// at any final passive count.
    pub fn carrying_probability(&self, pool_size: usize, desired_count: usize) -> (r:
        PoolProbability)
        requires
            self.wf(),
            desired_count <= pool_size,
        ensures
            r.favourable == self.wanted_cases(pool_size as int, desired_count as nat),
            r.total() == self.all_cases(pool_size as int, desired_count as nat),
            r.total() > 0,
    {
        let favourable: u128 = self.carrying_cases(pool_size as u128, desired_count);
        self.among(favourable, pool_size, desired_count)
    }

    /// Probability that a child of parents whose combined pool is `pool`
    /// carries all `desired` passives, at any final passive count. Fails
    /// if `desired` has duplicates, exceeds the passive cap, or names a
    /// passive outside the pool.
    pub fn all_desired_probability(&self, pool: &ParentPool, desired: &[PassiveName]) -> (r: Result<
        PoolProbability,
        DesiredPassivesError,
    >)
        requires
            self.wf(),
        ensures
            match r {
                Ok(p) => {
                    &&& desired@.len() <= MAX_TOTAL_PASSIVES
                    &&& forall|i: int|
                        0 <= i < desired@.len() ==> !#[trigger] unusable(
                            pool@,
                            passive_texts(desired@),
                            i,
                        )
                    &&& p.favourable == self.wanted_cases(pool@.len() as int, desired@.len())
                    &&& p.total() == self.all_cases(pool@.len() as int, desired@.len())
                },
                Err(DesiredPassivesError::TooMany { count }) => count == desired@.len() && count
                    > MAX_TOTAL_PASSIVES,
                Err(DesiredPassivesError::Duplicate(name)) => {
                    &&& desired@.len() <= MAX_TOTAL_PASSIVES
                    &&& exists|i: int|
                        #[trigger] first_unusable(pool@, passive_texts(desired@), i)
                            && repeated(passive_texts(desired@), i) && name@ == desired@[i]@
                },
                Err(DesiredPassivesError::NotInPool(name)) => {
                    &&& desired@.len() <= MAX_TOTAL_PASSIVES
                    &&& exists|i: int|
                        #[trigger] first_unusable(pool@, passive_texts(desired@), i)
                            && !repeated(passive_texts(desired@), i) && name@ == desired@[i]@
                },
            },
    {
        if desired.len() > MAX_TOTAL_PASSIVES {
            return Err(DesiredPassivesError::TooMany { count: desired.len() });
        }
        let ghost texts = passive_texts(desired@);
        let mut i: usize = 0;
        while i < desired.len()
            invariant
                i <= desired@.len(),
                desired@.len() <= MAX_TOTAL_PASSIVES,
                texts == passive_texts(desired@),
                forall|j: int| 0 <= j < i ==> !#[trigger] unusable(pool@, texts, j),
            decreases desired@.len() - i,
        {
            let passive = &desired[i];
            let mut j: usize = 0;
            while j < i
                invariant
                    i < desired@.len(),
                    j <= i,
                    desired@.len() <= MAX_TOTAL_PASSIVES,
                    *passive == desired@[i as int],
                    texts == passive_texts(desired@),
                    forall|k: int| 0 <= k < i ==> !#[trigger] unusable(pool@, texts, k),
                    forall|k: int| 0 <= k < j ==> texts[k] != texts[i as int],
                decreases i - j,
            {
                if desired[j] == *passive {
                    proof {
                        assert(texts[j as int] == texts[i as int]);
                        assert(repeated(texts, i as int));
                        assert(first_unusable(pool@, texts, i as int));
                    }
                    return Err(DesiredPassivesError::Duplicate(passive.clone()));
                }
                j = j + 1;
            }
            proof {
                assert(!repeated(texts, i as int));
            }
            if !pool.contains(passive) {
                proof {
                    assert(unusable(pool@, texts, i as int));
                    assert(first_unusable(pool@, texts, i as int));
                }
                return Err(DesiredPassivesError::NotInPool(passive.clone()));
            }
            i = i + 1;
        }
        proof {
            assert forall|a: int, b: int| 0 <= a < b < texts.len() implies texts[a] != texts[b] by {
                assert(!unusable(pool@, texts, b));
            }
            assert forall|a: int| 0 <= a < texts.len() implies pool@.contains(texts[a]) by {
                assert(!unusable(pool@, texts, a));
            }
            lemma_fits(texts, pool@);
        }
        Ok(self.carrying_probability(pool.len(), desired.len()))
    }
}

/// A wanted passive stands in the list before already.
pub open spec fn repeated(desired: Seq<Seq<char>>, i: int) -> bool {
    exists|j: int| 0 <= j < i && #[trigger] desired[j] == desired[i]
}

/// A wanted passive is repeated or not to be had from the pool.
pub open spec fn unusable(pool: Seq<Seq<char>>, desired: Seq<Seq<char>>, i: int) -> bool {
    repeated(desired, i) || !pool.contains(desired[i])
}

/// Position `i` holds the first unusable passive.
pub open spec fn first_unusable(pool: Seq<Seq<char>>, desired: Seq<Seq<char>>, i: int) -> bool {
    0 <= i < desired.len() && unusable(pool, desired, i) && forall|j: int|
        0 <= j < i ==> !#[trigger] unusable(pool, desired, j)
}

/// Distinct members of a list are no more than the list holds.
proof fn lemma_fits(part: Seq<Seq<char>>, whole: Seq<Seq<char>>)
    requires
        part.no_duplicates(),
        forall|a: int| 0 <= a < part.len() ==> whole.contains(#[trigger] part[a]),
    ensures
        part.len() <= whole.len(),
{
    part.unique_seq_to_set();
    whole.lemma_cardinality_of_set();
    assert(part.to_set().subset_of(whole.to_set()));
    vstd::set_lib::lemma_len_subset(part.to_set(), whole.to_set());
}

/// The ordered choices of `d` out of at most four things.
fn ordered_choices(n: usize, d: usize) -> (r: u128)
    requires
        d <= n <= 4,
    ensures
        r == falling(n as int, d as nat),
        1 <= r <= 24,
{
    proof {
        lemma_falling_small(n as int);
        lemma_falling_small(4);
        lemma_falling_grows(n as int, 4, d as nat);
    }
    let n: u128 = n as u128;
    if d == 0 {
        1
    } else if d == 1 {
        n
    } else if d == 2 {
        if n == 2 {
            2
        } else if n == 3 {
            6
        } else {
            12
        }
    } else if d == 3 {
        if n == 3 {
            6
        } else {
            24
        }
    } else {
        24
    }
}

// ---------------------------------------------------------------------
// Laws
// ---------------------------------------------------------------------
impl PassiveOdds {
    /// The cases of one roll over all final counts from `total` on.
    spec fn roll_from(self, pool: int, d: nat, total: int, n: int) -> int
        decreases 5 - total,
    {
        if total > 4 {
            0
        } else {
            self.roll_cases(pool, d, total, n) + self.roll_from(pool, d, total + 1, n)
        }
    }

    /// The random weight over all final counts from `total` on, when
    /// `inherited` passives are inherited.
    spec fn fill_from(self, total: int, inherited: int) -> int
        decreases 5 - total,
    {
        if total > 4 {
            0
        } else {
            (if inherited > total {
                0
            } else {
                self.fills(total, total - inherited)
            }) + self.fill_from(total + 1, inherited)
        }
    }

    proof fn lemma_swap(self, pool: int, d: nat, total: int, n: int)
        requires
            n <= 4,
        ensures
            self.totals_from(pool, d, total, n) == self.roll_from(pool, d, total, n)
                + self.totals_from(pool, d, total, n + 1),
        decreases 5 - total,
    {
        if total <= 4 {
            self.lemma_swap(pool, d, total + 1, n);
        }
    }

    proof fn lemma_no_rolls(self, pool: int, d: nat, total: int, n: int)
        requires
            n > 4,
        ensures
            self.totals_from(pool, d, total, n) == 0,
        decreases 5 - total,
    {
        if total <= 4 {
            self.lemma_no_rolls(pool, d, total + 1, n);
        }
    }

    proof fn lemma_roll_from(self, pool: int, d: nat, total: int, n: int)
        ensures
            self.roll_from(pool, d, total, n) == self.inherits(n) * falling(least(n, pool), d)
                * self.fill_from(total, least(n, pool)),
        decreases 5 - total,
    {
        let w = self.inherits(n) * falling(least(n, pool), d);
        if total > 4 {
            assert(w * 0 == 0);
        } else {
            self.lemma_roll_from(pool, d, total + 1, n);
            let a = if least(n, pool) > total {
                0
            } else {
                self.fills(total, total - least(n, pool))
            };
            let b = self.fill_from(total + 1, least(n, pool));
            assert(w * (a + b) == w * a + w * b) by (nonlinear_arith);
            assert(w * 0 == 0);
        }
    }

    proof fn lemma_fill_from(self, total: int, inherited: int)
        requires
            0 <= total <= inherited <= 4,
        ensures
            self.fill_from(total, inherited) == self.adds_from(0),
    {
        reveal_with_fuel(PassiveOdds::fill_from, 6);
        reveal_with_fuel(PassiveOdds::adds_from, 6);
    }

    /// The inherit rolls from `n` on, weighted by the ordered choices of
    /// the wanted passives among the inherited ones.
    pub open spec fn weighted_from(self, pool: int, d: nat, n: int) -> int
        decreases 5 - n,
    {
        if n > 4 {
            0
        } else {
            self.inherits(n) * falling(least(n, pool), d) + self.weighted_from(pool, d, n + 1)
        }
    }

    proof fn lemma_totals_from(self, pool: int, d: nat, n: int)
        requires
            d <= n,
            d <= pool,
            d <= 4,
        ensures
            self.totals_from(pool, d, d as int, n) == self.weighted_from(pool, d, n)
                * self.adds_from(0),
        decreases 5 - n,
    {
        if n > 4 {
            self.lemma_no_rolls(pool, d, d as int, n);
            assert(0 * self.adds_from(0) == 0);
        } else {
            self.lemma_swap(pool, d, d as int, n);
            self.lemma_roll_from(pool, d, d as int, n);
            self.lemma_fill_from(d as int, least(n, pool));
            self.lemma_totals_from(pool, d, n + 1);
            let a = self.inherits(n) * falling(least(n, pool), d);
            let b = self.weighted_from(pool, d, n + 1);
            let m = self.adds_from(0);
            assert((a + b) * m == a * m + b * m) by (nonlinear_arith);
        }
    }

    proof fn lemma_weighted_from(self, pool: int, d: nat, n: int)
        requires
            self.wf(),
            d <= n,
            d <= pool,
        ensures
            0 <= self.weighted_from(pool, d, n) <= self.inherits_from(n) * falling(pool, d),
        decreases 5 - n,
    {
        lemma_falling_grows(pool, pool, d);
        let f = falling(pool, d);
        if n > 4 {
            assert(0 * f == 0);
        } else {
            self.lemma_weighted_from(pool, d, n + 1);
            lemma_falling_grows(least(n, pool), pool, d);
            let g = falling(least(n, pool), d);
            let w = self.inherits(n);
            let t = self.inherits_from(n + 1);
            assert(0 <= w * g <= w * f) by (nonlinear_arith)
                requires
                    0 <= w,
                    1 <= g <= f,
            ;
            assert((w + t) * f == w * f + t * f) by (nonlinear_arith);
        }
    }

    /// What random passives are added does not change the chance of the
    /// wanted ones: only the inherit roll and the choice among the pool
    /// do.
    pub proof fn law_random_passives_do_not_matter(self, pool: int, d: nat)
        requires
            self.wf(),
            d <= pool,
            d <= MAX_TOTAL_PASSIVES,
        ensures
            self.wanted_cases(pool, d) == self.weighted_from(pool, d, d as int) * self.adds_from(0),
    {
        self.lemma_totals_from(pool, d, d as int);
    }

    /// No more cases are favourable than there are cases.
    pub proof fn law_probability_is_at_most_one(self, pool: int, d: nat)
        requires
            self.wf(),
            d <= pool,
            d <= MAX_TOTAL_PASSIVES,
        ensures
            0 <= self.wanted_cases(pool, d) <= self.all_cases(pool, d),
    {
        self.law_random_passives_do_not_matter(pool, d);
        self.lemma_weighted_from(pool, d, d as int);
        lemma_falling_grows(pool, pool, d);
        self.lemma_adds_from(0);
        let f = falling(pool, d);
        let i = self.inherits_from(d as int);
        let w = self.weighted_from(pool, d, d as int);
        let m = self.adds_from(0);
        let a = self.inherits_any();
        let b = self.adds_any();
        assert(0 <= i <= a) by {
            reveal_with_fuel(PassiveOdds::inherits_from, 6);
        }
        assert(0 <= w * m <= a * b * f) by (nonlinear_arith)
            requires
                0 <= w <= i * f,
                0 <= i <= a,
                0 <= m <= b,
                1 <= f,
        {
            assert(i * f <= a * f) by (nonlinear_arith)
                requires
                    0 <= i <= a,
                    1 <= f,
            ;
            assert(w * m <= (a * f) * b) by (nonlinear_arith)
                requires
                    0 <= w <= a * f,
                    0 <= m <= b,
            ;
            assert((a * f) * b == a * b * f) by (nonlinear_arith);
        }
    }

    proof fn lemma_weighted_small(self, pool: int, d: nat, n: int)
        requires
            self.wf(),
            d <= n,
            d <= pool,
            d <= MAX_TOTAL_PASSIVES,
        ensures
            self.weighted_from(pool, d, n) <= self.inherits_from(n) * 24,
        decreases 5 - n,
    {
        if n <= 4 {
            self.lemma_weighted_small(pool, d, n + 1);
            lemma_falling_grows(least(n, pool), 4, d);
            lemma_falling_small(4);
            let g = falling(least(n, pool), d);
            let w = self.inherits(n);
            self.lemma_inherits(n);
            assert(w * g <= w * 24) by (nonlinear_arith)
                requires
                    0 <= w,
                    1 <= g <= 24,
            ;
        }
    }

    /// Few enough cases are favourable to count them: at most twenty-four
    /// of each roll.
    pub proof fn lemma_case_bounds(self, pool: int, d: nat)
        requires
            self.wf(),
            d <= pool,
            d <= MAX_TOTAL_PASSIVES,
        ensures
            0 <= self.wanted_cases(pool, d) <= 24 * (self.inherits_any() * self.adds_any()),
            24 * (self.inherits_any() * self.adds_any()) <= 0x18_0000_0000_0000_0000,
            0 < self.choice_cases(pool, d),
            self.all_cases(pool, d) == self.choice_cases(pool, d) * self.adds_any(),
    {
        self.law_random_passives_do_not_matter(pool, d);
        self.law_probability_is_at_most_one(pool, d);
        self.lemma_weighted_from(pool, d, d as int);
        self.lemma_weighted_small(pool, d, d as int);
        self.lemma_adds_from(0);
        lemma_falling_grows(pool, pool, d);
        let w = self.weighted_from(pool, d, d as int);
        let m = self.adds_from(0);
        let i = self.inherits_from(d as int);
        let a = self.inherits_any();
        let b = self.adds_any();
        let f = falling(pool, d);
        assert(0 <= i <= a) by {
            reveal_with_fuel(PassiveOdds::inherits_from, 6);
        }
        assert(w * m <= (24 * a) * b) by (nonlinear_arith)
            requires
                0 <= w <= 24 * a,
                0 <= m <= b,
        ;
        assert((24 * a) * b == 24 * (a * b)) by (nonlinear_arith);
        assert(24 * (a * b) <= 0x18_0000_0000_0000_0000) by (nonlinear_arith)
            requires
                0 < a <= u32::MAX,
                0 < b <= u32::MAX,
        ;
        assert(0 < a * f) by (nonlinear_arith)
            requires
                0 < a,
                1 <= f,
        ;
        assert(a * b * f == (a * f) * b) by (nonlinear_arith);
    }

    /// A child of which nothing is wanted is certain, where the tables
    /// list no outcome beyond the cap.
    pub proof fn law_nothing_wanted_is_certain(self, pool: int)
        requires
            self.wf(),
            0 <= pool,
            self.inherits_from(0) == self.inherits_any(),
            self.adds_from(0) == self.adds_any(),
        ensures
            self.wanted_cases(pool, 0) == self.all_cases(pool, 0),
    {
        self.law_random_passives_do_not_matter(pool, 0);
        reveal_with_fuel(PassiveOdds::weighted_from, 6);
        reveal_with_fuel(PassiveOdds::inherits_from, 6);
        assert(self.weighted_from(pool, 0, 0) == self.inherits_any());
        assert(self.inherits_any() * self.adds_any() * 1 == self.inherits_any() * self.adds_any());
    }

    /// With every pool passive wanted the choice is forced: the child
    /// carries all exactly when the inherit roll reaches the pool size.
    pub proof fn law_whole_pool_wanted_needs_the_roll(self, d: nat)
        requires
            self.wf(),
            d <= MAX_TOTAL_PASSIVES,
            self.adds_from(0) == self.adds_any(),
        ensures
            self.wanted_cases(d as int, d) * self.inherits_any() == self.all_cases(d as int, d)
                * self.inherits_from(d as int),
    {
        self.law_random_passives_do_not_matter(d as int, d);
        self.lemma_forced(d, d as int);
        let f = falling(d as int, d);
        let i = self.inherits_from(d as int);
        let a = self.inherits_any();
        let b = self.adds_any();
        assert((i * f * b) * a == (a * b * f) * i) by (nonlinear_arith);
    }

    proof fn lemma_forced(self, d: nat, n: int)
        requires
            d <= n,
        ensures
            self.weighted_from(d as int, d, n) == self.inherits_from(n) * falling(d as int, d),
        decreases 5 - n,
    {
        let f = falling(d as int, d);
        if n > 4 {
            assert(0 * f == 0);
        } else {
            self.lemma_forced(d, n + 1);
            let w = self.inherits(n);
            let t = self.inherits_from(n + 1);
            assert((w + t) * f == w * f + t * f) by (nonlinear_arith);
        }
    }

    /// The chance of all wanted passives, in full: each inherit roll by
    /// its weight, times the share of the sets of that many passives of
    /// the pool that hold the wanted ones (a roll beyond the pool takes
    /// the whole pool), whatever is added at random.
    pub proof fn law_chance_sums_over_the_rolls(self, pool: nat, d: nat)
        requires
            self.wf(),
            d <= pool,
            d <= MAX_TOTAL_PASSIVES,
        ensures
            ({
                let share = |n: nat|
                    if n <= pool {
                        falling(n as int, d)
                    } else {
                        falling(pool as int, d)
                    };
                self.wanted_cases(pool as int, d) == (self.inherits(0) * share(0)
                    + self.inherits(1) * share(1) + self.inherits(2) * share(2) + self.inherits(3)
                    * share(3) + self.inherits(4) * share(4)) * (self.adds(0) + self.adds(1)
                    + self.adds(2) + self.adds(3) + self.adds(4))
            }),
            self.all_cases(pool as int, d) == self.inherits_any() * self.adds_any() * falling(
                pool as int,
                d,
            ),
            forall|n: nat|
                n < d ==> #[trigger] falling(n as int, d) == 0,
            forall|n: nat|
                d <= n <= pool ==> crate::chance::choose_count((pool - d) as nat, (n - d) as nat)
                    * falling(pool as int, d) == crate::chance::choose_count(pool, n)
                    * #[trigger] falling(n as int, d),
    {
        self.law_random_passives_do_not_matter(pool as int, d);
        reveal_with_fuel(PassiveOdds::weighted_from, 6);
        reveal_with_fuel(PassiveOdds::adds_from, 6);
        assert forall|n: nat| n < d implies #[trigger] falling(n as int, d) == 0 by {
            lemma_falling_none(n, d);
        }
        assert forall|n: nat|
            d <= n <= pool implies crate::chance::choose_count((pool - d) as nat, (n - d) as nat)
            * falling(pool as int, d) == crate::chance::choose_count(pool, n)
            * #[trigger] falling(n as int, d) by {
            crate::chance::law_share_of_sets(pool, n, d);
        }
        let share = |n: nat|
            if n <= pool {
                falling(n as int, d)
            } else {
                falling(pool as int, d)
            };
        assert(forall|n: nat| n < d ==> #[trigger] share(n) == 0);
        assert(forall|n: nat| #[trigger] share(n) == falling(least(n as int, pool as int), d));
        let (a, b, c, e, f) = (share(0), share(1), share(2), share(3), share(4));
        assert(d > 0 ==> self.inherits(0) * a == 0) by (nonlinear_arith)
            requires
                d > 0 ==> a == 0,
        ;
        assert(d > 1 ==> self.inherits(1) * b == 0) by (nonlinear_arith)
            requires
                d > 1 ==> b == 0,
        ;
        assert(d > 2 ==> self.inherits(2) * c == 0) by (nonlinear_arith)
            requires
                d > 2 ==> c == 0,
        ;
        assert(d > 3 ==> self.inherits(3) * e == 0) by (nonlinear_arith)
            requires
                d > 3 ==> e == 0,
        ;
        let w = self.inherits(0) * a + self.inherits(1) * b + self.inherits(2) * c
            + self.inherits(3) * e + self.inherits(4) * f;
        assert(w == self.weighted_from(pool as int, d, d as int));
        assert(self.adds_from(0) == self.adds(0) + self.adds(1) + self.adds(2) + self.adds(3)
            + self.adds(4));
    }
}

/// More things cannot be chosen than there are.
proof fn lemma_falling_none(n: nat, d: nat)
    requires
        n < d,
    ensures
        falling(n as int, d) == 0,
    decreases d,
{
    if n > 0 {
        lemma_falling_none((n - 1) as nat, (d - 1) as nat);
        assert(n * 0 == 0);
    } else {
        assert(0 * falling(-1, (d - 1) as nat) == 0);
    }
}

} // verus!
