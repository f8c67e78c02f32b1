//! IV-threshold inheritance probability for a single breeding pair.
//!
//! A child inherits one to three of its three IV stats from the parents
//! (weighted roll, uniform choice among stat combinations); each
//! inherited stat copies a uniformly random parent's value. A desired
//! stat is *met* by a parent when that parent's value reaches the
//! goal's minimum; a stat neither parent meets cannot be met by the
//! child at all, so the probability of a pair concerns only the stats
//! that a parent can supply.

use vstd::prelude::*;

use crate::chance::falling;
use crate::chance::lemma_falling_small;
use crate::chance::lemma_weight_below_grows;
use crate::chance::total_weight;
use crate::chance::weight;
use crate::chance::weight_below;
use crate::chance::weight_of;
use crate::chance::weight_total;
use crate::chance::Probability;
use crate::model::BreedingMechanics;
use crate::model::IvSpread;
use crate::model::IvStat;
use crate::model::IvValue;

verus! {

/// A pal has this many breeding-relevant IV stats.
pub const IV_STAT_COUNT: usize = 3;

/// Per-stat minimums the goal pal must meet; `None` where it does not
/// matter.
#[derive(Clone, Copy, PartialEq, Eq, Structural, Debug)]
pub struct IvThresholds {
    pub hp: Option<IvValue>,
    pub attack: Option<IvValue>,
    pub defense: Option<IvValue>,
}

impl Default for IvThresholds {
    fn default() -> (r: Self)
        ensures
            r == no_thresholds(),
    {
        IvThresholds { hp: None, attack: None, defense: None }
    }
}

/// No minimums at all.
pub open spec fn no_thresholds() -> IvThresholds {
    IvThresholds { hp: None, attack: None, defense: None }
}

/// The requirement on one stat, as a list of at most one.
pub open spec fn requirement(stat: IvStat, minimum: Option<IvValue>) -> Seq<(IvStat, IvValue)> {
    match minimum {
        Some(value) => seq![(stat, value)],
        None => seq![],
    }
}

impl IvThresholds {
    /// The minimum of one stat.
    pub open spec fn minimum(self, stat: IvStat) -> Option<IvValue> {
        match stat {
            IvStat::Hp => self.hp,
            IvStat::Attack => self.attack,
            IvStat::Defense => self.defense,
        }
    }

    /// The active requirements, in the order hit points, attack,
    /// defense.
    pub open spec fn requirements(self) -> Seq<(IvStat, IvValue)> {
        requirement(IvStat::Hp, self.hp) + requirement(IvStat::Attack, self.attack) + requirement(
            IvStat::Defense,
            self.defense,
        )
    }

    /// `ivs` reaches the minimum of one stat, if there is one.
    pub open spec fn stat_met(self, stat: IvStat, ivs: IvSpread) -> bool {
        self.minimum(stat) is Some ==> ivs.stat(stat)@ >= self.minimum(stat)->0@
    }

    /// `ivs` meets every minimum.
    pub open spec fn met(self, ivs: IvSpread) -> bool {
        self.stat_met(IvStat::Hp, ivs) && self.stat_met(IvStat::Attack, ivs) && self.stat_met(
            IvStat::Defense,
            ivs,
        )
    }

    pub fn get(self, stat: IvStat) -> (r: Option<IvValue>)
        ensures
            r == self.minimum(stat),
    {
        match stat {
            IvStat::Hp => self.hp,
            IvStat::Attack => self.attack,
            IvStat::Defense => self.defense,
        }
    }

    /// The active requirements.
    pub fn active(self) -> (r: Vec<(IvStat, IvValue)>)
        ensures
            r@ == self.requirements(),
    {
        let mut out: Vec<(IvStat, IvValue)> = Vec::new();
        if let Some(value) = self.hp {
            out.push((IvStat::Hp, value));
        }
        if let Some(value) = self.attack {
            out.push((IvStat::Attack, value));
        }
        if let Some(value) = self.defense {
            out.push((IvStat::Defense, value));
        }
        proof {
            assert(out@ =~= self.requirements());
        }
        out
    }

    pub fn is_empty(self) -> (r: bool)
        ensures
            r == (self == no_thresholds()),
    {
        self.hp.is_none() && self.attack.is_none() && self.defense.is_none()
    }

    /// Whether `ivs` meets every active minimum.
    pub fn met_by(self, ivs: IvSpread) -> (r: bool)
        ensures
            r == self.met(ivs),
    {
        self.reached(IvStat::Hp, ivs) && self.reached(IvStat::Attack, ivs) && self.reached(
            IvStat::Defense,
            ivs,
        )
    }

    fn reached(self, stat: IvStat, ivs: IvSpread) -> (r: bool)
        ensures
            r == self.stat_met(stat, ivs),
    {
        match self.get(stat) {
            Some(minimum) => ivs.get(stat).get() >= minimum.get(),
            None => true,
        }
    }
}

/// Inheritance table by stat count, as weights beside the weight of
/// everything.
#[derive(Clone, Copy, Debug)]
pub struct IvOdds {
    one: u32,
    two: u32,
    three: u32,
    total: u32,
}

#[derive(Clone, Copy, PartialEq, Eq, Structural, Debug)]
pub enum IvOddsError {
    /// The IV inheritance weights sum to zero.
    ZeroWeightSum,
}

impl IvOddsError {
    pub fn message(&self) -> (r: String)
        ensures
            r@ == "IV inheritance weights sum to zero; cannot normalize"@,
    {
        "IV inheritance weights sum to zero; cannot normalize".to_owned()
    }
}

/// Two to the power of `n`.
pub open spec fn doubled(n: nat) -> int
    decreases n,
{
    if n == 0 {
        1
    } else {
        2 * doubled((n - 1) as nat)
    }
}

impl IvOdds {
    /// The weight of inheriting exactly `k` stats.
    pub closed spec fn inherits(self, k: int) -> int {
        if k == 1 {
            self.one as int
        } else if k == 2 {
            self.two as int
        } else if k == 3 {
            self.three as int
        } else {
            0
        }
    }

    /// The weight of every roll together.
    pub closed spec fn inherits_any(self) -> int {
        self.total as int
    }

    /// The invariant: something can be rolled, and the rolls weigh no
    /// more than everything.
    pub open spec fn wf(self) -> bool {
        &&& 0 < self.inherits_any() <= u32::MAX
        &&& forall|k: int| 0 <= #[trigger] self.inherits(k) <= u32::MAX
        &&& self.inherits(1) + self.inherits(2) + self.inherits(3) <= self.inherits_any()
    }

    /// The cases in which the inherited stats hold `d` given ones: per
    /// roll, the ordered choices of the given ones among the inherited.
    pub open spec fn holding_cases(self, d: nat) -> int {
        self.inherits(1) * falling(1, d) + self.inherits(2) * falling(2, d) + self.inherits(3)
            * falling(3, d)
    }

    /// All cases of that.
    pub open spec fn holding_total(self, d: nat) -> int {
        self.inherits_any() * falling(3, d)
    }

    /// The cases in which one egg inherits every stat that can be
    /// supplied.
    pub open spec fn pair_cases(self, single_met: nat, both_met: nat) -> int {
        if single_met + both_met == 0 {
            1
        } else {
            self.holding_cases(single_met + both_met)
        }
    }

    /// All cases of that: each stat that only one parent supplies is a
    /// coin flip more.
    pub open spec fn pair_total(self, single_met: nat, both_met: nat) -> int {
        if single_met + both_met == 0 {
            1
        } else {
            self.holding_total(single_met + both_met) * doubled(single_met)
        }
    }

    /// Fails if the IV inheritance weights sum to zero.
    pub fn from_mechanics(mechanics: &BreedingMechanics) -> (r: Result<Self, IvOddsError>)
        requires
            weight_total(mechanics.iv_inheritance_weights@) <= u32::MAX,
        ensures
            match r {
                Ok(odds) => {
                    &&& weight_total(mechanics.iv_inheritance_weights@) > 0
                    &&& odds.wf()
                    &&& odds.inherits_any() == weight_total(mechanics.iv_inheritance_weights@)
                    &&& forall|k: int|
                        1 <= k <= 3 ==> #[trigger] odds.inherits(k) == weight(
                            mechanics.iv_inheritance_weights@,
                            k,
                        )
                },
                Err(_) => weight_total(mechanics.iv_inheritance_weights@) == 0,
            },
    {
        let weights = &mechanics.iv_inheritance_weights;
        let total: u32 = total_weight(weights);
        if total == 0 {
            return Err(IvOddsError::ZeroWeightSum);
        }
        proof {
            reveal_with_fuel(weight_below, 5);
            lemma_weight_below_grows(weights@, 4, 256);
        }
        Ok(
            IvOdds {
                one: weight_of(weights, 1),
                two: weight_of(weights, 2),
                three: weight_of(weights, 3),
                total,
            },
        )
    }

    /// P(the inherited stats hold `d` given ones).
    pub fn desired(&self, d: usize) -> (r: Probability)
        requires
            self.wf(),
            1 <= d <= IV_STAT_COUNT,
        ensures
            r.favourable == self.holding_cases(d as nat),
            r.total == self.holding_total(d as nat),
            0 < r.total <= 0x6_0000_0000,
            r.favourable <= 0x9_0000_0000,
    {
        proof {
            lemma_falling_small(1);
            lemma_falling_small(2);
            lemma_falling_small(3);
        }
        let a: u128 = self.one as u128;
        let b: u128 = self.two as u128;
        let c: u128 = self.three as u128;
        let t: u128 = self.total as u128;
        proof {
            assert(self.inherits(1) == a && self.inherits(2) == b && self.inherits(3) == c);
        }
        if d == 1 {
            Probability { favourable: a + 2 * b + 3 * c, total: 3 * t }
        } else if d == 2 {
            proof {
                assert(a * (1 * (1 - 1)) == 0) by (nonlinear_arith);
            }
            Probability { favourable: 2 * b + 6 * c, total: 6 * t }
        } else {
            proof {
                assert(a * (1 * ((1 - 1) * (1 - 2))) == 0) by (nonlinear_arith);
                assert(b * (2 * ((2 - 1) * (2 - 2))) == 0) by (nonlinear_arith);
            }
            Probability { favourable: 6 * c, total: 6 * t }
        }
    }

    /// Probability that one egg inherits every supplyable desired stat:
    /// `single_met` stats are met by exactly one parent, `both_met` by
    /// both. Certain when nothing is supplyable.
    pub fn pair_probability(&self, single_met: usize, both_met: usize) -> (r: Probability)
        requires
            self.wf(),
            single_met + both_met <= IV_STAT_COUNT,
        ensures
            r.favourable == self.pair_cases(single_met as nat, both_met as nat),
            r.total == self.pair_total(single_met as nat, both_met as nat),
            0 < r.total <= 0x30_0000_0000,
            r.favourable <= 0x9_0000_0000,
    {
        let required: usize = single_met + both_met;
        if required == 0 {
            return Probability { favourable: 1, total: 1 };
        }
        let base = self.desired(required);
        proof {
            reveal_with_fuel(doubled, 4);
        }
        let flips: u128 = if single_met == 0 {
            1
        } else if single_met == 1 {
            2
        } else if single_met == 2 {
            4
        } else {
            8
        };
        proof {
            let t = base.total;
            assert(0 < t * flips <= 0x30_0000_0000) by (nonlinear_arith)
                requires
                    0 < t <= 0x6_0000_0000,
                    1 <= flips <= 8,
            ;
        }
        Probability { favourable: base.favourable, total: base.total * flips }
    }

    /// No more cases are favourable than there are cases.
    pub proof fn law_probability_is_at_most_one(self, single_met: nat, both_met: nat)
        requires
            self.wf(),
            single_met + both_met <= IV_STAT_COUNT,
        ensures
            0 <= self.pair_cases(single_met, both_met) <= self.pair_total(single_met, both_met),
    {
        let d = single_met + both_met;
        if d > 0 {
            lemma_falling_small(1);
            lemma_falling_small(2);
            lemma_falling_small(3);
            reveal_with_fuel(doubled, 4);
            let (a, b, c, t) = (
                self.inherits(1),
                self.inherits(2),
                self.inherits(3),
                self.inherits_any(),
            );
            let (f1, f2, f3) = (falling(1, d), falling(2, d), falling(3, d));
            assert(0 <= f1 <= f3 && 0 <= f2 <= f3);
            assert(0 <= a * f1 + b * f2 + c * f3 <= t * f3) by (nonlinear_arith)
                requires
                    0 <= f1 <= f3,
                    0 <= f2 <= f3,
                    0 <= a,
                    0 <= b,
                    0 <= c,
                    a + b + c <= t,
            {
                assert(0 <= a * f1 <= a * f3) by (nonlinear_arith)
                    requires
                        0 <= a,
                        0 <= f1 <= f3,
                ;
                assert(0 <= b * f2 <= b * f3) by (nonlinear_arith)
                    requires
                        0 <= b,
                        0 <= f2 <= f3,
                ;
                assert(0 <= c * f3) by (nonlinear_arith)
                    requires
                        0 <= c,
                        0 <= f3,
                ;
                assert(a * f3 + b * f3 + c * f3 == (a + b + c) * f3) by (nonlinear_arith);
                assert((a + b + c) * f3 <= t * f3) by (nonlinear_arith)
                    requires
                        a + b + c <= t,
                        0 <= f3,
                ;
            }
            let h = t * f3;
            let g = doubled(single_met);
            assert(h <= h * g) by (nonlinear_arith)
                requires
                    0 <= h,
                    1 <= g,
            ;
        }
    }

    /// There are few enough cases to count.
    pub proof fn lemma_pair_bounds(self, single_met: nat, both_met: nat)
        requires
            self.wf(),
            single_met + both_met <= IV_STAT_COUNT,
        ensures
            0 < self.pair_total(single_met, both_met) <= 0x30_0000_0000,
            0 <= self.pair_cases(single_met, both_met) <= 0x30_0000_0000,
    {
        self.law_probability_is_at_most_one(single_met, both_met);
        let d = single_met + both_met;
        if d > 0 {
            lemma_falling_small(3);
            reveal_with_fuel(doubled, 4);
            let t = self.inherits_any();
            let f = falling(3, d);
            let g = doubled(single_met);
            assert(0 < t * f <= 0x6_0000_0000) by (nonlinear_arith)
                requires
                    0 < t <= u32::MAX,
                    1 <= f <= 6,
            ;
            let h = t * f;
            assert(0 < h * g <= 0x30_0000_0000) by (nonlinear_arith)
                requires
                    0 < h <= 0x6_0000_0000,
                    1 <= g <= 8,
            ;
        }
    }

    /// The chance of all supplyable stats, in full: each roll by its
    /// weight, times the share of the sets of that many of the three
    /// stats that hold the wanted ones, halved for every stat that only
    /// one parent supplies.
    pub proof fn law_chance_sums_over_the_rolls(self, single_met: nat, both_met: nat)
        requires
            self.wf(),
            single_met + both_met <= 3,
        ensures
            ({
                let (one, two, three) = (self.inherits(1), self.inherits(2), self.inherits(3));
                let flips = if single_met == 0 {
                    1int
                } else if single_met == 1 {
                    2int
                } else if single_met == 2 {
                    4int
                } else {
                    8int
                };
                let cases = self.pair_cases(single_met, both_met);
                let total = self.pair_total(single_met, both_met);
                let met = single_met + both_met;
                &&& met == 0 ==> cases == 1 && total == 1
                &&& met == 1 ==> cases == one + 2 * two + 3 * three && total == 3
                    * self.inherits_any() * flips
                &&& met == 2 ==> cases == 2 * two + 6 * three && total == 6 * self.inherits_any()
                    * flips
                &&& met == 3 ==> cases == 6 * three && total == 6 * self.inherits_any() * flips
            }),
    {
        lemma_falling_small(1);
        lemma_falling_small(2);
        lemma_falling_small(3);
        reveal_with_fuel(doubled, 4);
        let (a, b) = (self.inherits(1), self.inherits(2));
        assert(a * (1 * (1 - 1)) == 0) by (nonlinear_arith);
        assert(a * (1 * ((1 - 1) * (1 - 2))) == 0) by (nonlinear_arith);
        assert(b * (2 * ((2 - 1) * (2 - 2))) == 0) by (nonlinear_arith);
    }

    /// A stat that only one parent supplies is half as likely as one
    /// that both supply.
    pub proof fn law_single_parent_halves(self, single_met: nat, both_met: nat)
        requires
            self.wf(),
            1 <= both_met,
            single_met + both_met <= IV_STAT_COUNT,
        ensures
            self.pair_cases(single_met + 1, (both_met - 1) as nat) == self.pair_cases(
                single_met,
                both_met,
            ),
            self.pair_total(single_met + 1, (both_met - 1) as nat) == 2 * self.pair_total(
                single_met,
                both_met,
            ),
    {
        let h = self.holding_total(single_met + both_met);
        let g = doubled(single_met);
        assert(doubled(single_met + 1) == 2 * g);
        assert(h * (2 * g) == 2 * (h * g)) by (nonlinear_arith);
    }
}

/// A spread that meets the minimums reaches each of the requirements.
pub proof fn law_requirements_are_the_minimums(thresholds: IvThresholds, ivs: IvSpread)
    ensures
        thresholds.met(ivs) <==> forall|i: int|
            0 <= i < thresholds.requirements().len() ==> ivs.stat(
                (#[trigger] thresholds.requirements()[i]).0,
            )@ >= thresholds.requirements()[i].1@,
{
    let list = thresholds.requirements();
    if forall|i: int| 0 <= i < list.len() ==> ivs.stat((#[trigger] list[i]).0)@ >= list[i].1@ {
        let h = requirement(IvStat::Hp, thresholds.hp).len() as int;
        let a = requirement(IvStat::Attack, thresholds.attack).len() as int;
        if thresholds.hp is Some {
            assert(list[0] == (IvStat::Hp, thresholds.hp->0));
        }
        if thresholds.attack is Some {
            assert(list[h] == (IvStat::Attack, thresholds.attack->0));
        }
        if thresholds.defense is Some {
            assert(list[h + a] == (IvStat::Defense, thresholds.defense->0));
        }
    }
}

} // verus!
