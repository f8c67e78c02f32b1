//! Search candidates and what they cost.

use vstd::prelude::*;

use crate::chance::certain_egg;
use crate::chance::cost_sum;
use crate::chance::expected_eggs;
use crate::chance::EggChance;
use crate::iv::IvOdds;
use crate::model::Gender;
use crate::model::CERTAIN;
use crate::passives::PassiveOdds;

verus! {

/// Which genders a candidate can be had in, and at what odds.
#[derive(Clone, Copy, PartialEq, Eq, Structural, Debug)]
pub enum Availability {
    /// An owned individual's fixed gender.
    Fixed(Gender),
    /// A bred pal can be re-hatched to either gender at egg cost.
    Flexible { male: u32, female: u32 },
    /// A wild pal or progenitor: whichever gender is needed, at no egg
    /// cost.
    AnyFree,
}

/// How a record entered the search.
#[derive(Clone, Copy, PartialEq, Eq, Structural, Debug)]
pub enum Source {
    /// The owned pal at this position.
    Owned(usize),
    Wild,
    Progenitor,
    /// Bred from the records with these ids.
    Bred { male: usize, female: usize },
}

/// One candidate. Records are append-only, so the position of a record
/// is its id for the whole search.
#[derive(Clone, Copy, PartialEq, Eq, Structural, Debug)]
pub struct Record {
    pub source: Source,
    /// Position of the species in the sorted list of names.
    pub species: usize,
    pub gender: Availability,
    /// Desired passives carried.
    pub carried: u8,
    /// Required progenitors in the tree.
    pub required: u8,
    /// Active goal IV minimums met. For bred pals this is every stat
    /// either parent met.
    pub iv_met: u8,
    /// Expected eggs spent producing the parents.
    pub parents_cost: u128,
    /// The chance that one egg is as wanted.
    pub chance: EggChance,
    /// Expected eggs when the candidate's own gender is irrelevant.
    pub cost: u128,
    pub bred_count: usize,
}

/// What every step of one search reads.
pub struct Scene {
    /// Child species by male and female species.
    pub child: Seq<Seq<Option<usize>>>,
    /// Fewest breeding steps from each species to the goal.
    pub distance: Seq<Option<u32>>,
    /// Parts of certainty with which a child of a species is male.
    pub male: Seq<u32>,
    /// Parts of certainty with which a child of a species is female.
    pub female: Seq<u32>,
    pub odds: PassiveOdds,
    pub iv_odds: IvOdds,
    /// Per owned pal, its distinct passives that are not goal passives.
    pub junk: Seq<Seq<Seq<char>>>,
    pub max_steps: usize,
    pub beam: usize,
    /// The goal species and the masks of the whole goal.
    pub goal: usize,
    pub full: u8,
    pub all_required: u8,
    pub iv_full: u8,
}

impl Scene {
    /// The number of species.
    pub open spec fn size(self) -> nat {
        self.child.len()
    }

    /// The tables agree in size and hold valid entries.
    pub open spec fn wf(self) -> bool {
        &&& self.size() <= u32::MAX
        &&& self.distance.len() == self.size()
        &&& self.male.len() == self.size()
        &&& self.female.len() == self.size()
        &&& self.odds.wf()
        &&& self.iv_odds.wf()
        &&& self.goal < self.size()
        &&& self.beam > 0
        &&& forall|m: int|
            0 <= m < self.size() ==> (#[trigger] self.child[m]).len() == self.size()
        &&& forall|m: int, f: int|
            0 <= m < self.size() && 0 <= f < self.size() && (
            #[trigger] self.child[m][f]) is Some ==> self.child[m][f]->0 < self.size()
        &&& forall|s: int| 0 <= s < self.size() ==> #[trigger] self.male[s] <= CERTAIN
        &&& forall|s: int| 0 <= s < self.size() ==> #[trigger] self.female[s] <= CERTAIN
    }

    /// A record that fits the scene.
    pub open spec fn fits(self, r: Record, id: int) -> bool {
        &&& r.species < self.size()
        &&& r.carried < 16
        &&& r.iv_met < 8
        &&& r.chance.wf()
        &&& match r.gender {
            Availability::Flexible { male, female } => male <= CERTAIN && female <= CERTAIN,
            _ => true,
        }
        &&& match r.source {
            Source::Owned(p) => p < self.junk.len(),
            Source::Bred { male, female } => male < id && female < id,
            _ => true,
        }
    }

    /// Every record fits.
    pub open spec fn fit(self, arena: Seq<Record>) -> bool {
        forall|id: int| 0 <= id < arena.len() ==> self.fits(#[trigger] arena[id], id)
    }
}

/// The parts of certainty with which a bred pal has the gender.
pub open spec fn gender_part(male: u32, female: u32, required: Gender) -> u32 {
    match required {
        Gender::Male => male,
        Gender::Female => female,
    }
}

impl Record {
    /// Expected eggs to obtain this candidate with the given gender;
    /// nothing when that is impossible.
    pub open spec fn cost_in(self, required: Gender) -> Option<u128> {
        match self.gender {
            Availability::Fixed(gender) => if gender == required {
                Some(0u128)
            } else {
                None
            },
            Availability::Flexible { male, female } => {
                let part = gender_part(male, female, required);
                if part > 0 {
                    Some(cost_sum(self.parents_cost, self.chance.eggs(part)))
                } else {
                    None
                }
            },
            Availability::AnyFree => Some(0u128),
        }
    }

    /// Expected eggs to obtain this candidate with the given gender.
    pub fn cost_as(&self, required: Gender) -> (r: Option<u128>)
        requires
            self.chance.wf(),
            match self.gender {
                Availability::Flexible { male, female } => male <= CERTAIN && female <= CERTAIN,
                _ => true,
            },
        ensures
            r == self.cost_in(required),
    {
        match self.gender {
            Availability::Fixed(gender) => if gender == required {
                Some(0)
            } else {
                None
            },
            Availability::Flexible { male, female } => {
                let part: u32 = match required {
                    Gender::Male => male,
                    Gender::Female => female,
                };
                if part > 0 {
                    Some(
                        crate::chance::add_costs(
                            self.parents_cost,
                            expected_eggs(self.chance, part),
                        ),
                    )
                } else {
                    None
                }
            },
            Availability::AnyFree => Some(0),
        }
    }
}

/// A leaf that carries nothing and costs nothing.
pub open spec fn bare_leaf(source: Source, species: usize, gender: Availability) -> Record {
    Record {
        source,
        species,
        gender,
        carried: 0,
        required: 0,
        iv_met: 0,
        parents_cost: 0,
        chance: certain_egg(),
        cost: 0,
        bred_count: 0,
    }
}

/// A leaf that carries nothing and costs nothing.
pub fn leaf_record(source: Source, species: usize, gender: Availability) -> (r: Record)
    ensures
        r == bare_leaf(source, species, gender),
{
    Record {
        source,
        species,
        gender,
        carried: 0,
        required: 0,
        iv_met: 0,
        parents_cost: 0,
        chance: EggChance { hits: 1, passive_cases: 1, iv_cases: 1 },
        cost: 0,
        bred_count: 0,
    }
}

/// A beam-pruning state without its species, as one number.
pub open spec fn mask_key(carried: u8, required: u8, iv_met: u8) -> u32 {
    (carried * 65536 + required * 256 + iv_met) as u32
}

/// A beam-pruning state, as one number.
pub open spec fn state_key(r: Record) -> u64 {
    (r.species * 0x100_0000 + mask_key(r.carried, r.required, r.iv_met)) as u64
}

/// The number of a state.
pub fn key_of_masks(carried: u8, required: u8, iv_met: u8) -> (r: u32)
    ensures
        r == mask_key(carried, required, iv_met),
        r < 0x100_0000,
{
    (carried as u32) * 65536 + (required as u32) * 256 + (iv_met as u32)
}

/// The number of a state.
pub fn key_of(r: &Record) -> (k: u64)
    requires
        r.species < u32::MAX,
    ensures
        k == state_key(*r),
{
    (r.species as u64) * 0x100_0000 + key_of_masks(r.carried, r.required, r.iv_met) as u64
}

/// A bred candidate before it is admitted anywhere: what a [`Record`]
/// holds except the species and gender odds, which the whole species
/// group shares.
#[derive(Clone, Copy, PartialEq, Eq, Structural, Debug)]
pub struct Candidate {
    pub male: usize,
    pub female: usize,
    pub carried: u8,
    pub required: u8,
    pub iv_met: u8,
    pub parents_cost: u128,
    pub chance: EggChance,
    pub cost: u128,
    pub bred_count: usize,
}

/// The record of an admitted candidate.
pub open spec fn record_of(scene: Scene, child: usize, c: Candidate) -> Record {
    Record {
        source: Source::Bred { male: c.male, female: c.female },
        species: child,
        gender: Availability::Flexible {
            male: scene.male[child as int],
            female: scene.female[child as int],
        },
        carried: c.carried,
        required: c.required,
        iv_met: c.iv_met,
        parents_cost: c.parents_cost,
        chance: c.chance,
        cost: c.cost,
        bred_count: c.bred_count,
    }
}

} // verus!
