//! Exact probabilities and the expected number of eggs they cost.
//!
//! A probability is a count of favourable cases among all cases, so
//! that nothing is rounded until a cost is computed.

use std::collections::BTreeMap;
use vstd::arithmetic::div_mod::*;
use vstd::arithmetic::mul::*;
use vstd::prelude::*;

use crate::model::CERTAIN;
use crate::text::decimal;
use crate::text::decimal_of;
use crate::text::padded;
use crate::text::padded_of;

verus! {

/// `favourable` of `total` equally likely cases.
#[derive(Clone, Copy, PartialEq, Eq, Structural, Debug)]
pub struct Probability {
    pub favourable: u128,
    pub total: u128,
}

/// `favourable` of `rolls * (first * second)` equally likely cases: the
/// rolls, each with every ordered choice from a pool. Both parts of the
/// choices are kept, so that no pool is too large to count.
#[derive(Clone, Copy, PartialEq, Eq, Structural, Debug)]
pub struct PoolProbability {
    pub favourable: u128,
    pub rolls: u128,
    pub first: u128,
    pub second: u128,
}

impl PoolProbability {
    /// The number of all cases.
    pub open spec fn total(self) -> int {
        self.rolls * (self.first * self.second)
    }
}

// ---------------------------------------------------------------------
// Weight tables
// ---------------------------------------------------------------------
/// The weight of outcome `k`; none is listed where it cannot happen.
pub open spec fn weight(table: Map<u8, u32>, k: int) -> nat {
    if 0 <= k <= 255 && table.dom().contains(k as u8) {
        table[k as u8] as nat
    } else {
        0
    }
}

/// The weights of the outcomes below `n` together.
pub open spec fn weight_below(table: Map<u8, u32>, n: nat) -> nat
    decreases n,
{
    if n == 0 {
        0
    } else {
        weight_below(table, (n - 1) as nat) + weight(table, n - 1)
    }
}

/// All weights of a table together.
pub open spec fn weight_total(table: Map<u8, u32>) -> nat {
    weight_below(table, 256)
}

/// More outcomes weigh no less.
pub proof fn lemma_weight_below_grows(table: Map<u8, u32>, m: nat, n: nat)
    requires
        m <= n,
    ensures
        weight_below(table, m) <= weight_below(table, n),
    decreases n - m,
{
    if m < n {
        lemma_weight_below_grows(table, m, (n - 1) as nat);
    }
}

/// The weight of outcome `k`.
pub fn weight_of(table: &BTreeMap<u8, u32>, k: u8) -> (r: u32)
    ensures
        r == weight(table@, k as int),
{
    match table.get(&k) {
        Some(w) => *w,
        None => 0,
    }
}

/// All weights of a table together.
pub fn total_weight(table: &BTreeMap<u8, u32>) -> (r: u32)
    requires
        weight_total(table@) <= u32::MAX,
    ensures
        r == weight_total(table@),
{
    let mut sum: u32 = 0;
    let mut k: u16 = 0;
    while k < 256
        invariant
            k <= 256,
            weight_total(table@) <= u32::MAX,
            sum == weight_below(table@, k as nat),
        decreases 256 - k,
    {
        proof {
            lemma_weight_below_grows(table@, (k + 1) as nat, 256);
        }
        sum = sum + weight_of(table, k as u8);
        k = k + 1;
    }
    sum
}

// ---------------------------------------------------------------------
// Choosing
// ---------------------------------------------------------------------
/// The number of ordered choices of `d` things out of `n`.
pub open spec fn falling(n: int, d: nat) -> int
    decreases d,
{
    if d == 0 {
        1
    } else {
        n * falling(n - 1, (d - 1) as nat)
    }
}

/// The number of sets of `k` things out of `n`.
pub open spec fn choose_count(n: nat, k: nat) -> nat
    decreases n,
{
    if k == 0 {
        1
    } else if n == 0 {
        0
    } else {
        choose_count((n - 1) as nat, (k - 1) as nat) + choose_count((n - 1) as nat, k)
    }
}

/// Ordered choices grow with what there is to choose from.
pub proof fn lemma_falling_grows(m: int, n: int, d: nat)
    requires
        d <= m <= n,
    ensures
        1 <= falling(m, d) <= falling(n, d),
    decreases d,
{
    if d > 0 {
        lemma_falling_grows(m - 1, n - 1, (d - 1) as nat);
        let a = falling(m - 1, (d - 1) as nat);
        let b = falling(n - 1, (d - 1) as nat);
        assert(1 <= m * a <= n * b) by (nonlinear_arith)
            requires
                1 <= a <= b,
                1 <= m <= n,
        ;
    }
}

/// The ordered choices of at most four things, written out.
pub proof fn lemma_falling_small(n: int)
    ensures
        falling(n, 0) == 1,
        falling(n, 1) == n,
        falling(n, 2) == n * (n - 1),
        falling(n, 3) == n * ((n - 1) * (n - 2)),
        falling(n, 4) == n * ((n - 1) * ((n - 2) * (n - 3))),
{
    reveal_with_fuel(falling, 5);
}

/// No set is larger than what it is taken from.
pub proof fn lemma_choose_too_many(n: nat, k: nat)
    requires
        n < k,
    ensures
        choose_count(n, k) == 0,
    decreases n,
{
    if n > 0 {
        lemma_choose_too_many((n - 1) as nat, (k - 1) as nat);
        lemma_choose_too_many((n - 1) as nat, k);
    }
}

/// A set of `k` out of `n` with one member singled out: the member
/// first, or the set first.
pub proof fn lemma_choose_absorbs(n: nat, k: nat)
    requires
        k >= 1,
        n >= 1,
    ensures
        k * choose_count(n, k) == n * choose_count((n - 1) as nat, (k - 1) as nat),
    decreases n,
{
    let a = choose_count((n - 1) as nat, (k - 1) as nat);
    let b = choose_count((n - 1) as nat, k);
    assert(choose_count(n, k) == a + b);
    if n == 1 {
        lemma_choose_too_many(0, k);
        if k > 1 {
            lemma_choose_too_many(0, (k - 1) as nat);
        }
        assert(k * (a + b) == n * a) by (nonlinear_arith)
            requires
                b == 0,
                n == 1,
                k == 1 || a == 0,
        ;
    } else {
        let m = (n - 1) as nat;
        let c = choose_count((m - 1) as nat, (k - 1) as nat);
        lemma_choose_absorbs(m, k);
        if k == 1 {
            assert(a == 1 && c == 1);
            assert(k * (a + b) == n * a) by (nonlinear_arith)
                requires
                    k == 1,
                    a == 1,
                    c == 1,
                    k * b == m * c,
                    n == m + 1,
            ;
        } else {
            lemma_choose_absorbs(m, (k - 1) as nat);
            let d = choose_count((m - 1) as nat, (k - 2) as nat);
            assert(a == d + c);
            assert(k * (a + b) == n * a) by (nonlinear_arith)
                requires
                    a == d + c,
                    k * b == m * c,
                    (k - 1) * a == m * d,
                    n == m + 1,
            ;
        }
    }
}

/// The share of the sets of `k` out of `n` that hold `d` given things,
/// counted with sets and with ordered choices.
pub proof fn law_share_of_sets(n: nat, k: nat, d: nat)
    requires
        d <= k <= n,
    ensures
        choose_count((n - d) as nat, (k - d) as nat) * falling(n as int, d) == choose_count(n, k)
            * falling(k as int, d),
    decreases d,
{
    if d > 0 {
        let n1 = (n - 1) as nat;
        let k1 = (k - 1) as nat;
        let d1 = (d - 1) as nat;
        law_share_of_sets(n1, k1, d1);
        lemma_choose_absorbs(n, k);
        assert((n1 - d1) as nat == (n - d) as nat);
        assert((k1 - d1) as nat == (k - d) as nat);
        let s = choose_count((n - d) as nat, (k - d) as nat) as int;
        let fn1 = falling(n1 as int, d1);
        let fk1 = falling(k1 as int, d1);
        let c1 = choose_count(n1, k1) as int;
        let c = choose_count(n, k) as int;
        assert(s * (n * fn1) == c * (k * fk1)) by (nonlinear_arith)
            requires
                s * fn1 == c1 * fk1,
                k * c == n * c1,
        {
            assert(s * (n * fn1) == n * (s * fn1)) by (nonlinear_arith);
            assert(n * (c1 * fk1) == (n * c1) * fk1) by (nonlinear_arith);
            assert((k * c) * fk1 == c * (k * fk1)) by (nonlinear_arith);
        }
    }
}

// ---------------------------------------------------------------------
// Expected eggs
// ---------------------------------------------------------------------
/// One egg, in the unit in which costs are counted.
pub const EGG: u128 = 1_000_000_000_000;

/// The cost that stands for every cost too large to count.
pub const ENDLESS: u128 = u128::MAX;

/// Costs that exceed what can be counted are endless.
pub open spec fn capped(cost: int) -> u128 {
    if cost <= u128::MAX {
        cost as u128
    } else {
        ENDLESS
    }
}

/// The sum of two costs.
pub open spec fn cost_sum(a: u128, b: u128) -> u128 {
    capped(a + b)
}

/// The sum of two costs.
pub fn add_costs(a: u128, b: u128) -> (r: u128)
    ensures
        r == cost_sum(a, b),
{
    a.saturating_add(b)
}

/// The chance that one egg is what the breeder wants: `hits` of
/// `passive_cases * iv_cases` cases. The first factor counts the inherit
/// roll and the choice from the pool, the second everything else.
#[derive(Clone, Copy, PartialEq, Eq, Structural, Debug)]
pub struct EggChance {
    pub hits: u128,
    pub passive_cases: u128,
    pub iv_cases: u128,
}

impl EggChance {
    /// The bounds within which costs are computed exactly.
    pub open spec fn wf(self) -> bool {
        &&& 0 < self.hits < 0x8000_0000_0000_0000_0000_0000_0000_0000
        &&& 0 < self.passive_cases
        &&& 0 < self.iv_cases <= 0x100_0000_0000_0000_0000
        &&& self.hits <= self.passive_cases * self.iv_cases
    }

    /// The expected number of eggs until one is wanted and also has a
    /// property that it has with `part` parts of certainty, rounded
    /// down to whole units.
    pub open spec fn eggs(self, part: u32) -> u128 {
        capped(
            (EGG * CERTAIN * (self.passive_cases * self.iv_cases)) / (self.hits * part) as int,
        )
    }
}

/// `factor` times the ordered choices of `d` things out of `n`, as far
/// as it can be counted.
pub fn choices_within(factor: u128, n: u128, d: usize) -> (r: u128)
    requires
        0 < factor,
        d <= n,
    ensures
        r == capped(factor * falling(n as int, d as nat)),
    decreases d,
{
    if d == 0 {
        return factor;
    }
    let ghost rest = falling(n - 1, (d - 1) as nat);
    let ghost wide = factor * n;
    proof {
        lemma_falling_grows(n - 1, n - 1, (d - 1) as nat);
        assert(factor * (n * rest) == wide * rest) by (nonlinear_arith)
            requires
                wide == factor * n,
        ;
        assert(0 < wide) by (nonlinear_arith)
            requires
                wide == factor * n,
                0 < factor,
                0 < n,
        ;
        assert(wide <= wide * rest) by (nonlinear_arith)
            requires
                0 < wide,
                1 <= rest,
        ;
    }
    match factor.checked_mul(n) {
        Some(next) => choices_within(next, n - 1, d - 1),
        None => ENDLESS,
    }
}

/// The chance of an egg that nothing is asked of.
pub open spec fn certain_egg() -> EggChance {
    EggChance { hits: 1, passive_cases: 1, iv_cases: 1 }
}

/// Quotient and remainder of `x * y` by `d`, unless the quotient is too
/// large to represent.
pub fn mul_div(x: u128, y: u128, d: u128) -> (r: Option<(u128, u128)>)
    requires
        0 < d < 0x8000_0000_0000_0000_0000_0000_0000_0000,
    ensures
        match r {
            Some((q, m)) => q == (x * y) / d as int && m == (x * y) % d as int,
            None => (x * y) / d as int > u128::MAX,
        },
    decreases y,
{
    if y == 0 {
        proof {
            lemma_small_mod(0, d as nat);
            assert(x * y == 0) by (nonlinear_arith)
                requires
                    y == 0,
            ;
        }
        return Some((0, 0));
    }
    if let Some(product) = x.checked_mul(y) {
        return Some((product / d, product % d));
    }
    let half: u128 = y / 2;
    let odd: u128 = y % 2;
    let ghost n = x * half;
    let ghost total = x * y;
    proof {
        assert(total == 2 * n + odd * x) by (nonlinear_arith)
            requires
                n == x * half,
                total == x * y,
                y == 2 * half + odd,
        ;
        assert(odd * x == if odd == 1 { x as int } else { 0 }) by (nonlinear_arith)
            requires
                odd == 0 || odd == 1,
        ;
        lemma_fundamental_div_mod(n, d as int);
        lemma_mod_bound(n, d as int);
    }
    match mul_div(x, half, d) {
        None => {
            proof {
                // total >= n, so its quotient is no smaller
                assert(n >= 0) by (nonlinear_arith)
                    requires
                        n == x * half,
                ;
                lemma_div_is_ordered(n, total, d as int);
            }
            None
        },
        Some((q, m)) => {
            // 2 * (q * d + m), then + x where the last bit is set
            let twice: u128 = 2 * m;
            let (carry, rest): (u128, u128) = if twice >= d {
                (1, twice - d)
            } else {
                (0, twice)
            };
            let xq: u128 = if odd == 1 {
                x / d
            } else {
                0
            };
            let xm: u128 = if odd == 1 {
                x % d
            } else {
                0
            };
            let sum: u128 = rest + xm;
            let (carry2, rest2): (u128, u128) = if sum >= d {
                (1, sum - d)
            } else {
                (0, sum)
            };
            let ghost full = 2 * q + carry + xq + carry2;
            proof {
                lemma_fundamental_div_mod(x as int, d as int);
                lemma_mod_bound(x as int, d as int);
                let di = d as int;
                assert(xq * di + xm == odd * x) by (nonlinear_arith)
                    requires
                        odd == 1 ==> xq == x as int / di && xm == x as int % di && x as int == di
                            * (x as int / di) + x as int % di,
                        odd == 0 ==> xq == 0 && xm == 0,
                        odd == 0 || odd == 1,
                        di == d,
                        d > 0,
                ;
                assert(total == full * di + rest2) by (nonlinear_arith)
                    requires
                        total == 2 * n + odd * x,
                        n == di * q + m,
                        xq * di + xm == odd * x,
                        2 * m == carry * di + rest,
                        rest + xm == carry2 * di + rest2,
                        full == 2 * q + carry + xq + carry2,
                ;
                lemma_fundamental_div_mod_converse(total, di, full, rest2 as int);
            }
            if q > u128::MAX / 2 {
                return None;
            }
            match (2 * q).checked_add(carry) {
                Some(a) => match a.checked_add(xq) {
                    Some(b) => match b.checked_add(carry2) {
                        Some(c) => Some((c, rest2)),
                        None => None,
                    },
                    None => None,
                },
                None => None,
            }
        },
    }
}

/// The expected number of eggs until one is wanted and also has a
/// property that it has with `part` parts of certainty.
pub fn expected_eggs(chance: EggChance, part: u32) -> (r: u128)
    requires
        chance.wf(),
        0 < part <= CERTAIN,
    ensures
        r == chance.eggs(part),
{
    let x: u128 = chance.passive_cases;
    let y: u128 = chance.iv_cases * EGG;
    let a: u128 = chance.hits;
    let c: u128 = CERTAIN as u128;
    let p: u128 = part as u128;
    let ghost n: int = x * y;
    let ghost t: int = EGG * CERTAIN * (chance.passive_cases * chance.iv_cases);
    proof {
        assert(t == n * c) by (nonlinear_arith)
            requires
                t == EGG * CERTAIN * (chance.passive_cases * chance.iv_cases),
                n == x * y,
                x == chance.passive_cases,
                y == chance.iv_cases * EGG,
                c == CERTAIN,
        ;
        assert(n >= 0) by (nonlinear_arith)
            requires
                n == x * y,
        ;
        // the quotient by hits * part in two stages
        assert(n * c >= 0) by (nonlinear_arith)
            requires
                n >= 0,
        ;
        lemma_div_denominator(n * c, a as int, p as int);
        lemma_fundamental_div_mod(n, a as int);
        lemma_mod_bound(n, a as int);
        let q1 = n / (a as int);
        let r1 = n % (a as int);
        assert(n * c == a * (q1 * c) + r1 * c) by (nonlinear_arith)
            requires
                n == a * q1 + r1,
        ;
        lemma_hoist_over_denominator(r1 * c, q1 * c, a as nat);
        assert((n * c) / (a as int) == (r1 * c) / (a as int) + q1 * c) by {
            assert(a * (q1 * c) == (q1 * c) * a) by (nonlinear_arith);
        }
    }
    match mul_div(x, y, a) {
        None => {
            proof {
                let q1 = n / (a as int);
                let inner = (n * c) / (a as int);
                assert(inner >= q1 * c) by {
                    assert(n % (a as int) * c >= 0) by (nonlinear_arith)
                        requires
                            n % (a as int) >= 0,
                    ;
                    lemma_div_pos_is_pos((n % (a as int)) * c, a as int);
                }
                assert(q1 * c >= q1 * p) by (nonlinear_arith)
                    requires
                        q1 >= 0,
                        c >= p,
                ;
                lemma_div_is_ordered(q1 * p, inner, p as int);
                lemma_div_multiples_vanish(q1, p as int);
                assert(p * q1 == q1 * p) by (nonlinear_arith);
            }
            ENDLESS
        },
        Some((q1, r1)) => {
            let small = mul_div(r1, c, a);
            proof {
                // r1 < hits, so this quotient is below certainty
                assert(r1 * c < a * c) by (nonlinear_arith)
                    requires
                        r1 < a,
                        c > 0,
                ;
                assert(a * c == c * a) by (nonlinear_arith);
                lemma_multiply_divide_lt(r1 * c, a as int, c as int);
            }
            match small {
                None => ENDLESS,
                Some((extra, _)) => {
                    match mul_div(q1, c, p) {
                        None => {
                            proof {
                                let inner = q1 * c + extra;
                                assert(0 <= extra);
                                lemma_div_is_ordered(q1 * c, inner, p as int);
                            }
                            ENDLESS
                        },
                        Some((q2, r2)) => {
                            proof {
                                lemma_fundamental_div_mod(q1 * c, p as int);
                                lemma_mod_bound(q1 * c, p as int);
                                lemma_hoist_over_denominator(r2 + extra, q2 as int, p as nat);
                                assert(p * q2 == q2 * p) by (nonlinear_arith);
                            }
                            let tail: u128 = (r2 + extra) / p;
                            q2.saturating_add(tail)
                        },
                    }
                },
            }
        },
    }
}

// ---------------------------------------------------------------------
// Laws
// ---------------------------------------------------------------------
/// Asking for more costs no less: the smaller the part of certainty,
/// the more eggs.
pub proof fn law_rarer_costs_more(chance: EggChance, rare: u32, common: u32)
    requires
        chance.wf(),
        0 < rare <= common,
    ensures
        chance.eggs(rare) >= chance.eggs(common),
{
    let t = EGG * CERTAIN * (chance.passive_cases * chance.iv_cases);
    let a = chance.hits * rare;
    let b = chance.hits * common;
    assert(0 < a <= b) by (nonlinear_arith)
        requires
            a == chance.hits * rare,
            b == chance.hits * common,
            0 < chance.hits,
            0 < rare <= common,
    ;
    assert(t >= 0) by (nonlinear_arith)
        requires
            t == EGG * CERTAIN * (chance.passive_cases * chance.iv_cases),
    ;
    lemma_div_is_ordered_by_denominator(t, a, b);
}

/// An egg that nothing is asked of costs one egg.
pub proof fn law_certain_egg_costs_one()
    ensures
        certain_egg().eggs(CERTAIN) == EGG,
{
    assert((EGG * CERTAIN * (1 * 1)) / (1 * CERTAIN) == EGG) by (nonlinear_arith);
}

/// No chance is better than certain, so every wanted egg costs at least
/// one.
pub proof fn law_a_wanted_egg_costs_at_least_one(chance: EggChance, part: u32)
    requires
        chance.wf(),
        0 < part <= CERTAIN,
    ensures
        chance.eggs(part) >= EGG,
{
    let cases = chance.passive_cases * chance.iv_cases;
    let t = EGG * CERTAIN * cases;
    let a = chance.hits * part;
    let h = chance.hits;
    assert(0 < a) by (nonlinear_arith)
        requires
            a == h * part,
            0 < h,
            0 < part,
    ;
    assert(EGG * a <= t) by (nonlinear_arith)
        requires
            a == h * part,
            t == EGG * CERTAIN * cases,
            0 < h <= cases,
            0 < part <= CERTAIN,
    {
        assert(h * part <= cases * CERTAIN) by (nonlinear_arith)
            requires
                0 < h <= cases,
                0 < part <= CERTAIN,
        ;
        assert(EGG * (cases * CERTAIN) == EGG * CERTAIN * cases) by (nonlinear_arith);
        assert(EGG * (h * part) <= EGG * (cases * CERTAIN)) by (nonlinear_arith)
            requires
                h * part <= cases * CERTAIN,
        ;
    }
    lemma_div_is_ordered(EGG * a, t, a);
    lemma_div_multiples_vanish(EGG as int, a);
    assert(a * EGG == EGG * a) by (nonlinear_arith);
}

/// A cost is the exact quotient rounded down: it misses it by less than
/// one unit.
pub proof fn law_cost_is_exact_to_the_unit(chance: EggChance, part: u32)
    requires
        chance.wf(),
        0 < part,
        chance.eggs(part) < ENDLESS,
    ensures
        ({
            let exact = EGG * CERTAIN * (chance.passive_cases * chance.iv_cases);
            let odds = chance.hits * part;
            chance.eggs(part) * odds <= exact < (chance.eggs(part) + 1) * odds
        }),
{
    let t = EGG * CERTAIN * (chance.passive_cases * chance.iv_cases);
    let a = chance.hits * part;
    assert(0 < a) by (nonlinear_arith)
        requires
            a == chance.hits * part,
            0 < chance.hits,
            0 < part,
    ;
    assert(t >= 0) by (nonlinear_arith)
        requires
            t == EGG * CERTAIN * (chance.passive_cases * chance.iv_cases),
    ;
    lemma_fundamental_div_mod(t, a);
    lemma_mod_bound(t, a);
    lemma_div_pos_is_pos(t, a);
    let q = t / a;
    assert(q * a <= t < (q + 1) * a) by (nonlinear_arith)
        requires
            t == a * q + t % a,
            0 <= t % a < a,
    ;
}

// ---------------------------------------------------------------------
// Costs as text
// ---------------------------------------------------------------------
/// Eggs rounded to the nearest multiple of `unit`, a tie to the even
/// one.
pub open spec fn rounded(eggs: nat, unit: nat) -> nat {
    let whole = eggs / unit;
    let rest = eggs % unit;
    if 2 * rest > unit || (2 * rest == unit && whole % 2 == 1) {
        whole + 1
    } else {
        whole
    }
}

fn round_to(eggs: u128, unit: u128) -> (r: u128)
    requires
        1 < unit <= EGG,
    ensures
        r == rounded(eggs as nat, unit as nat),
{
    let whole: u128 = eggs / unit;
    let rest: u128 = eggs % unit;
    proof {
        assert(whole <= eggs / 2) by (nonlinear_arith)
            requires
                whole == eggs / unit,
                unit > 1,
        ;
    }
    if 2 * rest > unit || (2 * rest == unit && whole % 2 == 1) {
        whole + 1
    } else {
        whole
    }
}

/// An egg count with two digits after the point.
pub open spec fn eggs_to_hundredths(eggs: nat) -> Seq<char> {
    let parts = rounded(eggs, 10_000_000_000);
    decimal(parts / 100) + "."@ + padded(parts % 100, 2)
}

/// An egg count with one digit after the point.
pub open spec fn eggs_to_tenths(eggs: nat) -> Seq<char> {
    let parts = rounded(eggs, 100_000_000_000);
    decimal(parts / 10) + "."@ + padded(parts % 10, 1)
}

/// An egg count with two digits after the point.
pub fn hundredths_text(eggs: u128) -> (r: String)
    ensures
        r@ == eggs_to_hundredths(eggs as nat),
{
    let parts: u128 = round_to(eggs, 10_000_000_000);
    let mut out = decimal_of(parts / 100);
    out.append(".");
    out.append(padded_of(parts % 100, 2).as_str());
    out
}

/// An egg count with one digit after the point.
pub fn tenths_text(eggs: u128) -> (r: String)
    ensures
        r@ == eggs_to_tenths(eggs as nat),
{
    let parts: u128 = round_to(eggs, 100_000_000_000);
    let mut out = decimal_of(parts / 10);
    out.append(".");
    out.append(padded_of(parts % 10, 1).as_str());
    out
}

} // verus!
