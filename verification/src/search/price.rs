//! What a pair brings into an egg: the passives of both parents, each
//! once, and the IV minimums that either meets.

use vstd::prelude::*;

use crate::chance::capped;
use crate::chance::EGG;
use crate::model::Gender;
use crate::model::CERTAIN;
use crate::search::breed::chance_of;
use crate::search::breed::missing;
use crate::search::laws::Question;
use crate::search::mask::bit_count;
use crate::search::mask::bits_of;
use crate::search::mask::has_bit;
use crate::search::mask::lemma_bits_of;
use crate::search::mask::lemma_same_bits;
use crate::search::mask::lemma_union_bit;
use crate::search::plan::OwnedView;
use crate::search::plan::PlanTree;
use crate::search::seed::junk_of;

verus! {

// ---------------------------------------------------------------------
// Counting subsets
// ---------------------------------------------------------------------
/// The entries of a list whose positions have the property.
spec fn entries<T>(list: Seq<T>, p: spec_fn(int) -> bool) -> Set<T> {
    Set::new(|t: T| exists|i: int| 0 <= i < list.len() && #[trigger] list[i] == t && p(i))
}

proof fn lemma_fresh_bit(x: u8, k: u8, next: u8)
    by (bit_vector)
    requires
        k < 8,
        next == k + 1,
        x >> k == 0,
    ensures
        bit_count(x | (1u8 << k)) == bit_count(x) + 1,
        k < 7 ==> (x | (1u8 << k)) >> next == 0,
        k < 7 ==> x >> next == 0,
{
}

/// A subset of a list without repeats holds as many entries as the list
/// has with the property.
proof fn lemma_entries<T>(list: Seq<T>, p: spec_fn(int) -> bool)
    requires
        list.no_duplicates(),
        list.len() <= 8,
    ensures
        entries(list, p).finite(),
        entries(list, p).len() == bit_count(bits_of(p, list.len())),
        list.len() < 8 ==> bits_of(p, list.len()) >> (list.len() as u8) == 0,
    decreases list.len(),
{
    let all = entries(list, p);
    if list.len() == 0 {
        assert(all =~= Set::empty());
        assert(bit_count(0u8) == 0 && 0u8 >> 0u8 == 0) by (bit_vector);
    } else {
        let rest = list.drop_last();
        let k = (list.len() - 1) as u8;
        lemma_entries(rest, p);
        let x = bits_of(p, rest.len());
        lemma_fresh_bit(x, k, list.len() as u8);
        let few = entries(rest, p);
        assert forall|t: T| few.contains(t) implies all.contains(t) by {
            let i = choose|i: int| 0 <= i < rest.len() && #[trigger] rest[i] == t && p(i);
            assert(list[i] == t);
        }
        if p(k as int) {
            assert(!few.contains(list[k as int])) by {
                if few.contains(list[k as int]) {
                    let i = choose|i: int|
                        0 <= i < rest.len() && #[trigger] rest[i] == list[k as int] && p(i);
                    assert(list[i] == list[k as int]);
                }
            }
            assert forall|t: T| all.contains(t) implies few.insert(list[k as int]).contains(t) by {
                let i = choose|i: int| 0 <= i < list.len() && #[trigger] list[i] == t && p(i);
                if i < rest.len() {
                    assert(rest[i] == t);
                }
            }
            assert(all.contains(list[k as int]));
            assert(all =~= few.insert(list[k as int]));
        } else {
            assert forall|t: T| all.contains(t) implies few.contains(t) by {
                let i = choose|i: int| 0 <= i < list.len() && #[trigger] list[i] == t && p(i);
                assert(rest[i] == t);
            }
            assert(all =~= few);
        }
    }
}

/// A subset without entries beyond the list is that of its entries.
proof fn lemma_own_bits(x: u8, n: nat)
    requires
        n <= 8,
        forall|i: u8| n <= i < 8 ==> !#[trigger] has_bit(x, i),
    ensures
        x == bits_of(|i: int| has_bit(x, i as u8), n),
{
    let p = |i: int| has_bit(x, i as u8);
    assert forall|i: u8| i < 8 implies #[trigger] has_bit(x, i) == has_bit(bits_of(p, n), i) by {
        lemma_bits_of(p, n, i);
    }
    lemma_same_bits(x, bits_of(p, n));
}

// ---------------------------------------------------------------------
// Junk
// ---------------------------------------------------------------------
/// The unwanted passives are the given ones without the wanted, each
/// once.
proof fn lemma_junk_of(passives: Seq<Seq<char>>, desired: Seq<Seq<char>>)
    ensures
        junk_of(passives, desired).no_duplicates(),
        junk_of(passives, desired).to_set() =~= passives.to_set().difference(desired.to_set()),
    decreases passives.len(),
{
    let junk = junk_of(passives, desired);
    if passives.len() > 0 {
        let front = passives.drop_last();
        let last = passives.last();
        lemma_junk_of(front, desired);
        let rest = junk_of(front, desired);
        assert(passives =~= front.push(last));
        assert forall|t: Seq<char>| passives.contains(t) <==> front.contains(t) || t == last by {
            if front.contains(t) {
                let i = choose|i: int| 0 <= i < front.len() && front[i] == t;
                assert(passives[i] == t);
            }
            if t == last {
                assert(passives[front.len() as int] == t);
            }
            if passives.contains(t) && t != last {
                let i = choose|i: int| 0 <= i < passives.len() && passives[i] == t;
                assert(front[i] == t);
            }
        }
        assert forall|t: Seq<char>| rest.contains(t) <==> front.contains(t) && !desired.contains(
            t,
        ) by {
            assert(rest.to_set().contains(t) <==> front.to_set().difference(
                desired.to_set(),
            ).contains(t));
        }
        if !(desired.contains(last) || rest.contains(last)) {
            assert forall|t: Seq<char>| junk.contains(t) <==> rest.contains(t) || t == last by {
                if rest.contains(t) {
                    let i = choose|i: int| 0 <= i < rest.len() && rest[i] == t;
                    assert(junk[i] == t);
                }
                if t == last {
                    assert(junk[rest.len() as int] == t);
                }
                if junk.contains(t) && t != last {
                    let i = choose|i: int| 0 <= i < junk.len() && junk[i] == t;
                    assert(rest[i] == t);
                }
            }
        }
    }
}

/// What one list holds beside another counts their union.
proof fn lemma_union_count(a: Seq<Seq<char>>, b: Seq<Seq<char>>)
    requires
        a.no_duplicates(),
        b.no_duplicates(),
    ensures
        (a.to_set() + b.to_set()).finite(),
        a.len() + missing(a, b) == (a.to_set() + b.to_set()).len(),
    decreases b.len(),
{
    broadcast use vstd::seq_lib::seq_to_set_is_finite;

    a.unique_seq_to_set();
    if b.len() == 0 {
        assert(a.to_set() + b.to_set() =~= a.to_set());
    } else {
        let front = b.drop_last();
        let last = b.last();
        lemma_union_count(a, front);
        let few = a.to_set() + front.to_set();
        let all = a.to_set() + b.to_set();
        assert(!front.contains(last)) by {
            if front.contains(last) {
                let i = choose|i: int| 0 <= i < front.len() && front[i] == last;
                assert(b[i] == b[b.len() - 1]);
            }
        }
        assert forall|t: Seq<char>| b.contains(t) <==> front.contains(t) || t == last by {
            if front.contains(t) {
                let i = choose|i: int| 0 <= i < front.len() && front[i] == t;
                assert(b[i] == t);
            }
            if t == last {
                assert(b[front.len() as int] == t);
            }
            if b.contains(t) && t != last {
                let i = choose|i: int| 0 <= i < b.len() && b[i] == t;
                assert(front[i] == t);
            }
        }
        if a.contains(last) {
            assert(all =~= few);
        } else {
            assert(all =~= few.insert(last));
            assert(!few.contains(last));
        }
    }
}

// ---------------------------------------------------------------------
// What trees bring
// ---------------------------------------------------------------------
impl Question {
    /// The passives that the pal at the root brings into a pool: all of
    /// an owned pal, and of a bred one the wanted ones that it carries.
    pub open spec fn brings(self, tree: PlanTree) -> Set<Seq<char>> {
        match tree {
            PlanTree::Owned(pal) => pal.passives.to_set(),
            _ => Set::new(
                |t: Seq<char>| self.goal.passives.contains(t) && self.supplies(tree, t),
            ),
        }
    }

    /// The wanted passives of a tree are those that it supplies.
    pub proof fn lemma_carried_bit(self, t: PlanTree, i: u8)
        requires
            i < 8,
            self.goal.passives.len() <= 8,
        ensures
            has_bit(self.carried(t), i) == (i < self.goal.passives.len() && self.supplies(
                t,
                self.goal.passives[i as int],
            )),
        decreases t,
    {
        if i < self.goal.passives.len() {
            self.lemma_supplied(t, i);
        } else {
            match t {
                PlanTree::Owned(pal) => {
                    lemma_bits_of(
                        crate::search::mask::carries(self.goal.passives, pal.passives),
                        self.goal.passives.len(),
                        i,
                    );
                },
                PlanTree::Bred { male, female, species, carried } => {
                    self.lemma_carried_bit(*male, i);
                    self.lemma_carried_bit(*female, i);
                    lemma_union_bit(self.carried(*male), self.carried(*female), i);
                },
                _ => {
                    lemma_bits_of(|i: int| true, 0, i);
                },
            }
        }
    }

    /// The minimums of a tree are those that it provides.
    pub proof fn lemma_iv_bit(self, t: PlanTree, i: u8)
        requires
            i < 8,
        ensures
            has_bit(self.ivs(t), i) == (i < self.goal.iv_thresholds.requirements().len()
                && self.provides_iv(t, i as int)),
        decreases t,
    {
        let n = self.goal.iv_thresholds.requirements().len();
        if i < n {
            self.lemma_provided(t, i);
        } else {
            match t {
                PlanTree::Owned(pal) => {
                    lemma_bits_of(
                        crate::search::seed::reaches(self.goal.iv_thresholds, pal.ivs),
                        n,
                        i,
                    );
                },
                PlanTree::Bred { male, female, species, carried } => {
                    self.lemma_iv_bit(*male, i);
                    self.lemma_iv_bit(*female, i);
                    lemma_union_bit(self.ivs(*male), self.ivs(*female), i);
                },
                _ => {
                    lemma_bits_of(|i: int| true, 0, i);
                },
            }
        }
    }

    /// The pool of a pair is the union of what both bring, and the
    /// wanted part of it what both carry together.
    proof fn lemma_pool(self, male: PlanTree, female: PlanTree)
        requires
            self.goal.passives.no_duplicates(),
            self.goal.passives.len() <= 4,
        ensures
            ({
                let pool = self.brings(male) + self.brings(female);
                let wanted = pool.intersect(self.goal.passives.to_set());
                &&& pool.finite()
                &&& wanted.len() == bit_count(self.carried(male) | self.carried(female))
                &&& pool.len() == bit_count(self.carried(male) | self.carried(female)) + self.junk(
                    male,
                ).len() + missing(self.junk(male), self.junk(female))
            }),
    {
        broadcast use vstd::seq_lib::seq_to_set_is_finite;

        let desired = self.goal.passives;
        let pool = self.brings(male) + self.brings(female);
        let wanted = pool.intersect(desired.to_set());
        let bits = self.carried(male) | self.carried(female);
        let p = |i: int| has_bit(bits, i as u8);
        assert forall|i: u8| i < 8 implies #[trigger] has_bit(bits, i) == (i < desired.len() && (
        self.supplies(male, desired[i as int]) || self.supplies(female, desired[i as int]))) by {
            lemma_union_bit(self.carried(male), self.carried(female), i);
            self.lemma_carried_bit(male, i);
            self.lemma_carried_bit(female, i);
        }
        lemma_own_bits(bits, desired.len());
        lemma_entries(desired, p);
        let some = entries(desired, p);
        assert forall|t: Seq<char>| some.contains(t) <==> wanted.contains(t) by {
            if some.contains(t) {
                let i = choose|i: int| 0 <= i < desired.len() && #[trigger] desired[i] == t && p(i);
                assert(has_bit(bits, i as u8));
                assert(desired.contains(t));
            }
            if wanted.contains(t) {
                let i = choose|i: int| 0 <= i < desired.len() && desired[i] == t;
                assert(has_bit(bits, i as u8));
                assert(p(i));
            }
        }
        assert(some =~= wanted);
        // what is not wanted comes from owned pals alone
        let a = self.junk(male);
        let b = self.junk(female);
        if let PlanTree::Owned(pal) = male {
            lemma_junk_of(pal.passives, desired);
        }
        if let PlanTree::Owned(pal) = female {
            lemma_junk_of(pal.passives, desired);
        }
        lemma_union_count(a, b);
        let junk = a.to_set() + b.to_set();
        assert(pool =~= wanted + junk) by {
            assert forall|t: Seq<char>| pool.contains(t) <==> (wanted + junk).contains(t) by {
                if let PlanTree::Owned(pal) = male {
                    assert(a.to_set().contains(t) <==> pal.passives.to_set().difference(
                        desired.to_set(),
                    ).contains(t));
                } else {
                    assert(!a.contains(t));
                }
                if let PlanTree::Owned(pal) = female {
                    assert(b.to_set().contains(t) <==> pal.passives.to_set().difference(
                        desired.to_set(),
                    ).contains(t));
                } else {
                    assert(!b.contains(t));
                }
            }
        }
        assert(wanted.disjoint(junk)) by {
            assert forall|t: Seq<char>| wanted.contains(t) implies !junk.contains(t) by {
                if let PlanTree::Owned(pal) = male {
                    assert(a.to_set().contains(t) <==> pal.passives.to_set().difference(
                        desired.to_set(),
                    ).contains(t));
                } else {
                    assert(!a.contains(t));
                }
                if let PlanTree::Owned(pal) = female {
                    assert(b.to_set().contains(t) <==> pal.passives.to_set().difference(
                        desired.to_set(),
                    ).contains(t));
                } else {
                    assert(!b.contains(t));
                }
            }
        }
        vstd::set_lib::lemma_set_disjoint_lens(wanted, junk);
    }

    /// The minimums that exactly one parent meets, and those that both
    /// do.
    proof fn lemma_shared_ivs(self, male: PlanTree, female: PlanTree)
        ensures
            ({
                let n = self.goal.iv_thresholds.requirements().len();
                let single = Set::new(
                    |i: int|
                        0 <= i < n && self.provides_iv(male, i) != self.provides_iv(female, i),
                );
                let both = Set::new(
                    |i: int| 0 <= i < n && self.provides_iv(male, i) && self.provides_iv(female, i),
                );
                &&& single.len() == bit_count(self.ivs(male) ^ self.ivs(female))
                &&& both.len() == bit_count(self.ivs(male) & self.ivs(female))
            }),
    {
        let n = self.goal.iv_thresholds.requirements().len();
        let a = self.ivs(male);
        let b = self.ivs(female);
        let numbers = Seq::new(n, |i: int| i);
        let x = a ^ b;
        let y = a & b;
        assert forall|i: u8| i < 8 implies #[trigger] has_bit(x, i) == (i < n && self.provides_iv(
            male,
            i as int,
        ) != self.provides_iv(female, i as int)) by {
            self.lemma_iv_bit(male, i);
            self.lemma_iv_bit(female, i);
            lemma_common_bits(a, b, i);
        }
        assert forall|i: u8| i < 8 implies #[trigger] has_bit(y, i) == (i < n && self.provides_iv(
            male,
            i as int,
        ) && self.provides_iv(female, i as int)) by {
            self.lemma_iv_bit(male, i);
            self.lemma_iv_bit(female, i);
            lemma_common_bits(a, b, i);
        }
        let p = |i: int| has_bit(x, i as u8);
        let q = |i: int| has_bit(y, i as u8);
        lemma_own_bits(x, n);
        lemma_own_bits(y, n);
        lemma_entries(numbers, p);
        lemma_entries(numbers, q);
        let single = Set::new(
            |i: int| 0 <= i < n && self.provides_iv(male, i) != self.provides_iv(female, i),
        );
        let both = Set::new(
            |i: int| 0 <= i < n && self.provides_iv(male, i) && self.provides_iv(female, i),
        );
        assert forall|i: int| entries(numbers, p).contains(i) <==> single.contains(i) by {
            if 0 <= i < n {
                assert(numbers[i] == i);
                assert(has_bit(x, i as u8) == (self.provides_iv(male, i) != self.provides_iv(
                    female,
                    i,
                )));
            }
        }
        assert forall|i: int| entries(numbers, q).contains(i) <==> both.contains(i) by {
            if 0 <= i < n {
                assert(numbers[i] == i);
                assert(has_bit(y, i as u8) == (self.provides_iv(male, i) && self.provides_iv(
                    female,
                    i,
                )));
            }
        }
        assert(entries(numbers, p) =~= single);
        assert(entries(numbers, q) =~= both);
    }

    // -----------------------------------------------------------------
    // The laws
    // -----------------------------------------------------------------
    /// An egg of a pair draws from the distinct passives that both
    /// parents bring, whichever is the father; the wanted ones are those
    /// of them that the goal lists. The minimums count by how many of
    /// the parents meet them.
    pub proof fn law_pools_hold_each_passive_once(self, male: PlanTree, female: PlanTree)
        requires
            self.sound(),
        ensures
            ({
                let pool = self.brings(male) + self.brings(female);
                let wanted = pool.intersect(self.goal.passives.to_set());
                let n = self.goal.iv_thresholds.requirements().len();
                let single = Set::new(
                    |i: int|
                        0 <= i < n && self.provides_iv(male, i) != self.provides_iv(female, i),
                );
                let both = Set::new(
                    |i: int| 0 <= i < n && self.provides_iv(male, i) && self.provides_iv(female, i),
                );
                &&& pool.finite()
                &&& self.chance(male, female) == chance_of(
                    self.odds,
                    self.iv_odds,
                    pool.len() as int,
                    wanted.len(),
                    single.len(),
                    both.len(),
                )
            }),
            self.chance(male, female) == self.chance(female, male),
    {
        crate::search::solver::lemma_checked(self.db, self.index, self.owned, self.goal);
        self.lemma_pool(male, female);
        self.lemma_pool(female, male);
        self.lemma_shared_ivs(male, female);
        let a = self.brings(male);
        let b = self.brings(female);
        assert(a + b =~= b + a);
        let n = self.goal.iv_thresholds.requirements().len();
        self.lemma_shared_ivs(female, male);
        assert(Set::new(
            |i: int| 0 <= i < n && self.provides_iv(male, i) != self.provides_iv(female, i),
        ) =~= Set::new(
            |i: int| 0 <= i < n && self.provides_iv(female, i) != self.provides_iv(male, i),
        ));
        assert(Set::new(
            |i: int| 0 <= i < n && self.provides_iv(male, i) && self.provides_iv(female, i),
        ) =~= Set::new(
            |i: int| 0 <= i < n && self.provides_iv(female, i) && self.provides_iv(male, i),
        ));
    }

    /// The pool of two owned pals has as many entries as they have
    /// different passives together.
    pub proof fn law_owned_pairs_pool_their_passives(self, male: OwnedView, female: OwnedView)
        requires
            self.sound(),
        ensures
            ({
                let pool = male.passives.to_set() + female.passives.to_set();
                let wanted = pool.intersect(self.goal.passives.to_set());
                let m = PlanTree::Owned(male);
                let f = PlanTree::Owned(female);
                let chance = self.chance(m, f);
                &&& pool.len() == wanted.len() + self.junk(m).len() + missing(
                    self.junk(m),
                    self.junk(f),
                )
                &&& chance.hits == (self.odds.wanted_cases(pool.len() as int, wanted.len())
                    * self.iv_odds.pair_cases(
                    bit_count(self.ivs(m) ^ self.ivs(f)) as nat,
                    bit_count(self.ivs(m) & self.ivs(f)) as nat,
                )) as u128
                &&& chance.passive_cases == capped(
                    self.odds.choice_cases(pool.len() as int, wanted.len()),
                )
            }),
    {
        let m = PlanTree::Owned(male);
        let f = PlanTree::Owned(female);
        crate::search::solver::lemma_checked(self.db, self.index, self.owned, self.goal);
        self.lemma_pool(m, f);
        self.law_pools_hold_each_passive_once(m, f);
        self.lemma_shared_ivs(m, f);
    }

    /// A plan that pairs two owned pals costs the eggs that its pool
    /// says: all cases of the inherit roll and of the choice among the
    /// distinct passives of both, by those in which the egg has every
    /// wanted passive and minimum that the pair can give.
    pub proof fn law_one_step_costs_what_its_pool_says(self, k: int, male: OwnedView, female: OwnedView)
        requires
            self.sound(),
            self.outcome().arena.len() <= usize::MAX,
            0 <= k < self.answers().len(),
            self.answers()[k].tree matches PlanTree::Bred {
                male: m,
                female: f,
                species,
                carried,
            } && *m == PlanTree::Owned(male) && *f == PlanTree::Owned(female),
        ensures
            ({
                let pool = male.passives.to_set() + female.passives.to_set();
                let wanted = pool.intersect(self.goal.passives.to_set());
                let n = self.goal.iv_thresholds.requirements().len();
                let m = PlanTree::Owned(male);
                let f = PlanTree::Owned(female);
                let single = Set::new(
                    |i: int| 0 <= i < n && self.provides_iv(m, i) != self.provides_iv(f, i),
                );
                let both = Set::new(
                    |i: int| 0 <= i < n && self.provides_iv(m, i) && self.provides_iv(f, i),
                );
                let hits = self.odds.wanted_cases(pool.len() as int, wanted.len())
                    * self.iv_odds.pair_cases(single.len(), both.len());
                &&& male.gender is Male && female.gender is Female
                &&& hits > 0 ==> self.answers()[k].expected_eggs == capped(
                    (EGG * CERTAIN * (self.odds.all_cases(pool.len() as int, wanted.len())
                        * self.iv_odds.pair_total(single.len(), both.len()))) / (hits * CERTAIN),
                )
            }),
    {
        let m = PlanTree::Owned(male);
        let f = PlanTree::Owned(female);
        self.law_plans_are_what_was_asked_for();
        let plan = self.answers()[k];
        assert(self.answered_by(plan));
        self.law_pools_hold_each_passive_once(m, f);
        crate::search::solver::lemma_checked(self.db, self.index, self.owned, self.goal);
        let pool = male.passives.to_set() + female.passives.to_set();
        let wanted = pool.intersect(self.goal.passives.to_set());
        let n = self.goal.iv_thresholds.requirements().len();
        let single = Set::new(
            |i: int| 0 <= i < n && self.provides_iv(m, i) != self.provides_iv(f, i),
        );
        let both = Set::new(
            |i: int| 0 <= i < n && self.provides_iv(m, i) && self.provides_iv(f, i),
        );
        let hits = self.odds.wanted_cases(pool.len() as int, wanted.len())
            * self.iv_odds.pair_cases(single.len(), both.len());
        assert(self.eggs_as(m, Gender::Male) == Some(0u128));
        assert(self.eggs_as(f, Gender::Female) == Some(0u128));
        assert(plan.expected_eggs == self.chance(m, f).eggs(CERTAIN));
        vstd::set_lib::lemma_len_subset(wanted, pool);
        self.lemma_pool(m, f);
        self.lemma_shared_ivs(m, f);
        self.lemma_few(m, f);
        if hits > 0 {
            crate::search::breed::law_large_pools_are_priced_exactly(
                self.odds,
                self.iv_odds,
                pool.len() as int,
                wanted.len(),
                single.len(),
                both.len(),
                CERTAIN,
            );
        }
    }

    /// A bred pal costs its parents, each in the gender of its place, and
    /// its own eggs: as many as its chance says, by the part of
    /// certainty with which a child of the species has the gender. Leaves
    /// cost nothing, and an owned pal has its own gender only.
    pub proof fn law_parents_pay_for_their_gender(self, tree: PlanTree, gender: Gender)
        ensures
            match tree {
                PlanTree::Owned(pal) => self.eggs_as(tree, gender) == if pal.gender == gender {
                    Some(0u128)
                } else {
                    None
                },
                PlanTree::Bred { male, female, species, carried } => {
                    let chance = self.chance(*male, *female);
                    let part = self.db.lookup(species)->0.gender_probability.part(gender);
                    let parents = (
                        self.eggs_as(*male, Gender::Male),
                        self.eggs_as(*female, Gender::Female),
                    );
                    let all = chance.passive_cases * chance.iv_cases;
                    &&& self.eggs_as(tree, gender) is Some <==> part > 0 && parents.0 is Some
                        && parents.1 is Some
                    &&& self.eggs_as(tree, gender) matches Some(eggs) ==> eggs == capped(
                        capped(parents.0->0 + parents.1->0) + capped(
                            (EGG * 1_000_000_000 * all) / (chance.hits * part) as int,
                        ),
                    )
                    &&& parents.0 is Some && parents.1 is Some ==> self.eggs(tree) == capped(
                        capped(parents.0->0 + parents.1->0) + capped(
                            (EGG * 1_000_000_000 * all) / (chance.hits * 1_000_000_000) as int,
                        ),
                    )
                },
                _ => self.eggs_as(tree, gender) == Some(0u128),
            },
            !(tree is Bred) ==> self.eggs(tree) == 0,
    {
    }

    /// A pair has at most four wanted passives and three minimums.
    pub proof fn lemma_few(self, male: PlanTree, female: PlanTree)
        requires
            self.goal.passives.len() <= 4,
        ensures
            bit_count(self.carried(male) | self.carried(female)) <= 4,
            bit_count(self.ivs(male) ^ self.ivs(female)) + bit_count(
                self.ivs(male) & self.ivs(female),
            ) <= 3,
    {
        self.lemma_small(male);
        self.lemma_small(female);
        crate::search::mask::lemma_four_entries(self.carried(male), self.carried(female));
        crate::search::mask::lemma_three_entries(self.ivs(male), self.ivs(female));
    }

    proof fn lemma_small(self, t: PlanTree)
        requires
            self.goal.passives.len() <= 4,
        ensures
            self.carried(t) < 16,
            self.ivs(t) < 8,
        decreases t,
    {
        match t {
            PlanTree::Owned(pal) => {
                crate::search::mask::lemma_four_bits(
                    crate::search::mask::carries(self.goal.passives, pal.passives),
                    self.goal.passives.len(),
                );
                crate::search::mask::lemma_three_bits(
                    crate::search::seed::reaches(self.goal.iv_thresholds, pal.ivs),
                    self.goal.iv_thresholds.requirements().len(),
                );
            },
            PlanTree::Bred { male, female, species, carried } => {
                self.lemma_small(*male);
                self.lemma_small(*female);
                crate::search::mask::lemma_four_entries(
                    self.carried(*male),
                    self.carried(*female),
                );
                crate::search::mask::lemma_three_entries(self.ivs(*male), self.ivs(*female));
            },
            _ => {},
        }
    }
}

proof fn lemma_common_bits(a: u8, b: u8, i: u8)
    by (bit_vector)
    requires
        i < 8,
    ensures
        has_bit(a ^ b, i) == (has_bit(a, i) != has_bit(b, i)),
        has_bit(a & b, i) == (has_bit(a, i) && has_bit(b, i)),
{
}

} // verus!
