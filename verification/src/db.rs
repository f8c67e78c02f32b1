//! From database files to the model.
//!
//! What the files hold arrives here as plain values, exactly once.
//! Cross-references are checked on the way (gender probabilities exist
//! for every pal, guaranteed passives and breeding names resolve), so
//! everything downstream trusts the model without checking again.

use std::collections::BTreeMap;
use vstd::hash_map::StringHashMap;
use vstd::prelude::*;

use crate::model::entry;
use crate::model::gender_parts_valid;
use crate::model::indexes;
use crate::model::pal_names;
use crate::model::skill_names;
use crate::model::BreedingCombo;
use crate::model::BreedingDb;
use crate::model::BreedingMechanics;
use crate::model::BreedingParent;
use crate::model::DbVersion;
use crate::model::Gender;
use crate::model::GenderProbability;
use crate::model::InvalidGenderProbability;
use crate::model::ItemName;
use crate::model::Pal;
use crate::model::PalDb;
use crate::model::PalId;
use crate::model::PalName;
use crate::model::ParentGender;
use crate::model::PassiveName;
use crate::model::PassiveSkill;
use crate::model::Surgery;
use crate::model::WildLevels;
use crate::model::CERTAIN;
use crate::text::decimal;
use crate::text::decimal_of;
use crate::text::drop_zeros;
use crate::text::padded;
use crate::text::padded_of;
use crate::text::without_zeros;

verus! {

/// The database version this loader understands.
pub const SUPPORTED_VERSION: &'static str = "v27";

#[derive(Debug)]
pub enum ParseError {
    UnsupportedVersion { found: String },
    MissingGenderProbability { pal: String },
    GenderProbability { pal: String, source: InvalidGenderProbability },
    UnknownPassive { pal: String, passive: String },
    UnknownPal { name: String },
}

/// Parts of certainty as a decimal fraction.
pub open spec fn fraction(parts: u32) -> Seq<char> {
    let rest = parts as nat % CERTAIN as nat;
    decimal(parts as nat / CERTAIN as nat) + if rest == 0 {
        Seq::empty()
    } else {
        "."@ + without_zeros(padded(rest, 9))
    }
}

/// Parts of certainty as a decimal fraction.
pub fn fraction_text(parts: u32) -> (r: String)
    ensures
        r@ == fraction(parts),
{
    let mut out = decimal_of((parts / CERTAIN) as u128);
    let rest: u32 = parts % CERTAIN;
    if rest == 0 {
        proof {
            assert(out@ + Seq::<char>::empty() =~= out@);
        }
        out
    } else {
        let digits = padded_of(rest as u128, 9);
        let tail = drop_zeros(digits.as_str());
        let ghost front = out@;
        out.append(".");
        out.append(tail.as_str());
        proof {
            assert(out@ =~= front + ("."@ + tail@));
        }
        out
    }
}

impl InvalidGenderProbability {
    /// What a user is told.
    pub open spec fn text(self) -> Seq<char> {
        "gender probabilities must lie in [0, 1] and sum to 1 (male="@ + fraction(self.male)
            + ", female="@ + fraction(self.female) + ")"@
    }

    pub fn message(&self) -> (r: String)
        ensures
            r@ == self.text(),
    {
        let mut out = "gender probabilities must lie in [0, 1] and sum to 1 (male=".to_owned();
        out.append(fraction_text(self.male).as_str());
        out.append(", female=");
        out.append(fraction_text(self.female).as_str());
        out.append(")");
        out
    }
}

impl ParseError {
    /// What a user is told.
    pub open spec fn text(self) -> Seq<char> {
        match self {
            ParseError::UnsupportedVersion { found } => "unsupported database version "@ + found@
                + " (this loader supports v27)"@,
            ParseError::MissingGenderProbability { pal } => "pal "@ + pal@
                + " has no gender-probability entry"@,
            ParseError::GenderProbability { pal, source } => "pal "@ + pal@ + ": "@
                + source.text(),
            ParseError::UnknownPassive { pal, passive } => "pal "@ + pal@
                + " references unknown passive "@ + passive@,
            ParseError::UnknownPal { name } => "breeding entry references pal "@ + name@
                + " absent from the pal database"@,
        }
    }

    pub fn message(&self) -> (r: String)
        ensures
            r@ == self.text(),
    {
        match self {
            ParseError::UnsupportedVersion { found } => {
                let mut out = "unsupported database version ".to_owned();
                out.append(found.as_str());
                out.append(" (this loader supports v27)");
                out
            },
            ParseError::MissingGenderProbability { pal } => {
                let mut out = "pal ".to_owned();
                out.append(pal.as_str());
                out.append(" has no gender-probability entry");
                out
            },
            ParseError::GenderProbability { pal, source } => {
                let mut out = "pal ".to_owned();
                out.append(pal.as_str());
                out.append(": ");
                out.append(source.message().as_str());
                out
            },
            ParseError::UnknownPassive { pal, passive } => {
                let mut out = "pal ".to_owned();
                out.append(pal.as_str());
                out.append(" references unknown passive ");
                out.append(passive.as_str());
                out
            },
            ParseError::UnknownPal { name } => {
                let mut out = "breeding entry references pal ".to_owned();
                out.append(name.as_str());
                out.append(" absent from the pal database");
                out
            },
        }
    }
}

// ---------------------------------------------------------------------
// What the files hold
// ---------------------------------------------------------------------
/// A pal and passive database as its file holds it.
pub struct RawDb {
    pub version: String,
    pub pals: Vec<RawPal>,
    pub passive_skills: Vec<RawPassiveSkill>,
    pub breeding_gender_probability: Vec<RawGenderProbability>,
    pub breeding_mechanics: RawBreedingMechanics,
}

pub struct RawPalId {
    pub pal_dex_no: u16,
    pub is_variant: bool,
}

pub struct RawPal {
    pub id: RawPalId,
    pub name: String,
    pub internal_name: String,
    pub breeding_power: u32,
    pub breeding_power_priority: u32,
    pub guaranteed_passives_internal_ids: Vec<String>,
    pub min_wild_level: Option<u8>,
    pub max_wild_level: Option<u8>,
}

pub struct RawPassiveSkill {
    pub name: String,
    pub internal_name: String,
    pub rank: i8,
    pub is_standard_passive_skill: bool,
    pub random_inheritance_allowed: bool,
    pub random_inheritance_weight: u32,
    /// The gold that surgery costs; none is zero.
    pub surgery_cost: u32,
    pub surgery_item: Option<String>,
}

/// Gender probabilities of one pal, in parts of certainty.
pub struct RawGenderProbability {
    pub pal: String,
    pub male: u32,
    pub female: u32,
}

pub struct RawBreedingMechanics {
    pub iv_inheritance_weights: BTreeMap<u8, u32>,
    pub passive_inheritance_weights: BTreeMap<u8, u32>,
    pub passive_random_weights: BTreeMap<u8, u32>,
}

impl RawBreedingMechanics {
    fn into_model(self) -> (r: BreedingMechanics)
        ensures
            r.iv_inheritance_weights == self.iv_inheritance_weights,
            r.passive_inheritance_weights == self.passive_inheritance_weights,
            r.passive_random_weights == self.passive_random_weights,
    {
        BreedingMechanics {
            iv_inheritance_weights: self.iv_inheritance_weights,
            passive_inheritance_weights: self.passive_inheritance_weights,
            passive_random_weights: self.passive_random_weights,
        }
    }
}

// ---------------------------------------------------------------------
// Passive skills
// ---------------------------------------------------------------------
/// Surgery takes the gold and the item that the raw form names; where it
/// names neither, there is none.
pub open spec fn surgery_of(surgery: Option<Surgery>, cost: u32, item: Option<String>) -> bool {
    match (surgery, item) {
        (None, None) => cost == 0,
        (Some(Surgery::Gold { cost: c }), None) => cost > 0 && c == cost,
        (Some(Surgery::GoldAndItem { cost: c, item: i }), Some(name)) => cost > 0 && c == cost
            && i@ == name@,
        (Some(Surgery::Item { item: i }), Some(name)) => cost == 0 && i@ == name@,
        _ => false,
    }
}

/// A skill says what its raw form says.
pub open spec fn skill_of(skill: PassiveSkill, raw: RawPassiveSkill) -> bool {
    &&& skill.name@ == raw.internal_name@
    &&& skill.display_name@ == raw.name@
    &&& skill.rank == raw.rank
    &&& skill.standard == raw.is_standard_passive_skill
    &&& skill.random_inheritance_allowed == raw.random_inheritance_allowed
    &&& skill.random_inheritance_weight == raw.random_inheritance_weight
    &&& surgery_of(skill.surgery, raw.surgery_cost, raw.surgery_item)
}

impl RawPassiveSkill {
    fn surgery(&self) -> (r: Option<Surgery>)
        ensures
            surgery_of(r, self.surgery_cost, self.surgery_item),
    {
        let cost: u32 = self.surgery_cost;
        match &self.surgery_item {
            Some(name) => {
                let item = ItemName::new(name.as_str());
                if cost > 0 {
                    Some(Surgery::GoldAndItem { cost, item })
                } else {
                    Some(Surgery::Item { item })
                }
            },
            None => if cost > 0 {
                Some(Surgery::Gold { cost })
            } else {
                None
            },
        }
    }

    fn into_model(&self) -> (r: PassiveSkill)
        ensures
            skill_of(r, *self),
    {
        PassiveSkill {
            name: PassiveName::new(self.internal_name.as_str()),
            display_name: self.name.clone(),
            rank: self.rank,
            standard: self.is_standard_passive_skill,
            random_inheritance_allowed: self.random_inheritance_allowed,
            random_inheritance_weight: self.random_inheritance_weight,
            surgery: self.surgery(),
        }
    }
}

/// A raw skill has this internal name.
pub open spec fn raw_skill_named(name: Seq<char>) -> spec_fn(RawPassiveSkill) -> bool {
    |s: RawPassiveSkill| s.internal_name@ == name
}

/// The skills of a list, a later entry of the same name taking the place
/// of an earlier one.
pub open spec fn latest_skills(raws: Seq<RawPassiveSkill>) -> Seq<RawPassiveSkill>
    decreases raws.len(),
{
    if raws.len() == 0 {
        raws
    } else {
        let rest = latest_skills(raws.drop_last());
        match crate::seqs::first_where(rest, raw_skill_named(raws.last().internal_name@)) {
            Some(i) => rest.update(i, raws.last()),
            None => rest.push(raws.last()),
        }
    }
}

/// Every skill says what its raw form says.
pub open spec fn skills_of(skills: Seq<PassiveSkill>, raws: Seq<RawPassiveSkill>) -> bool {
    &&& skills.len() == raws.len()
    &&& forall|i: int| 0 <= i < skills.len() ==> skill_of(#[trigger] skills[i], raws[i])
}

fn load_skills(raws: &Vec<RawPassiveSkill>) -> (r: (Vec<PassiveSkill>, StringHashMap<usize>))
    ensures
        skills_of(r.0@, latest_skills(raws@)),
        indexes(r.1@, skill_names(r.0@)),
{
    let mut skills: Vec<PassiveSkill> = Vec::new();
    let mut index: StringHashMap<usize> = StringHashMap::new();
    let mut i: usize = 0;
    proof {
        assert(raws@.take(0) =~= Seq::empty());
    }
    while i < raws.len()
        invariant
            i <= raws@.len(),
            skills_of(skills@, latest_skills(raws@.take(i as int))),
            indexes(index@, skill_names(skills@)),
        decreases raws@.len() - i,
    {
        let raw = &raws[i];
        let skill = raw.into_model();
        let ghost rest = latest_skills(raws@.take(i as int));
        let ghost p = raw_skill_named(raw.internal_name@);
        let ghost before = skills@;
        proof {
            assert(raws@.take(i + 1).drop_last() =~= raws@.take(i as int));
            assert(raws@.take(i + 1).last() == *raw);
            crate::seqs::lemma_first_where(rest, p);
        }
        let known: Option<usize> = match index.get(raw.internal_name.as_str()) {
            Some(at) => Some(*at),
            None => None,
        };
        match known {
            Some(at) => {
                proof {
                    let k = at as int;
                    assert(skill_names(before)[k] == raw.internal_name@);
                    assert(skill_of(before[k], rest[k]));
                    assert(p(rest[k]));
                    let j = crate::seqs::first_where(rest, p)->0;
                    assert(skill_of(before[j], rest[j]));
                    assert(skill_names(before)[j] == raw.internal_name@);
                    assert(j == k);
                }
                skills.set(at, skill);
                proof {
                    assert(skill_names(skills@) =~= skill_names(before));
                }
            },
            None => {
                proof {
                    if let Some(j) = crate::seqs::first_where(rest, p) {
                        assert(skill_of(before[j], rest[j]));
                        assert(skill_names(before)[j] == raw.internal_name@);
                    }
                }
                index.insert(raw.internal_name.as_str().to_owned(), skills.len());
                skills.push(skill);
                proof {
                    let names = skill_names(skills@);
                    assert(names =~= skill_names(before).push(raw.internal_name@));
                    assert forall|j: int| 0 <= j < names.len() implies index@.dom().contains(
                        #[trigger] names[j],
                    ) && index@[names[j]] == j by {
                        if j < before.len() {
                            assert(names[j] == skill_names(before)[j]);
                        }
                    }
                }
            },
        }
        i = i + 1;
    }
    proof {
        assert(raws@.take(i as int) =~= raws@);
    }
    (skills, index)
}

// ---------------------------------------------------------------------
// Pals
// ---------------------------------------------------------------------
/// The gender probabilities by pal, a later entry deciding.
pub open spec fn gender_table(raws: Seq<RawGenderProbability>) -> Map<Seq<char>, (u32, u32)>
    decreases raws.len(),
{
    if raws.len() == 0 {
        Map::empty()
    } else {
        gender_table(raws.drop_last()).insert(raws.last().pal@, (raws.last().male, raws.last().female))
    }
}

/// The guaranteed passive at a position is not a known skill.
pub open spec fn unknown_passive(raw: RawPal, skills: Seq<Seq<char>>) -> spec_fn(int) -> bool {
    |k: int| !skills.contains(raw.guaranteed_passives_internal_ids@[k]@)
}

/// A pal with the same internal name comes earlier.
pub open spec fn repeated_pal(raws: Seq<RawPal>, i: int) -> bool {
    named_before(raws, i, raws[i].internal_name@)
}

/// A pal before position `i` has this internal name.
pub open spec fn named_before(raws: Seq<RawPal>, i: int, name: Seq<char>) -> bool {
    exists|j: int| 0 <= j < i && (#[trigger] raws[j]).internal_name@ == name
}

/// `error` is what is wrong with the pal at `i`: its probabilities are
/// missing (each entry serves one pal) or invalid, or it names a passive
/// that does not exist.
pub open spec fn pal_fault(
    raws: Seq<RawPal>,
    table: Map<Seq<char>, (u32, u32)>,
    skills: Seq<Seq<char>>,
    i: int,
    error: ParseError,
) -> bool {
    let raw = raws[i];
    let name = raw.internal_name@;
    if !table.dom().contains(name) || repeated_pal(raws, i) {
        error matches ParseError::MissingGenderProbability { pal } && pal@ == name
    } else if !gender_parts_valid(table[name].0, table[name].1) {
        error matches ParseError::GenderProbability { pal, source } && pal@ == name && source == (
        InvalidGenderProbability { male: table[name].0, female: table[name].1 })
    } else {
        match crate::seqs::first_number(
            unknown_passive(raw, skills),
            raw.guaranteed_passives_internal_ids@.len() as int,
        ) {
            Some(k) => error matches ParseError::UnknownPassive { pal, passive } && pal@ == name
                && passive@ == raw.guaranteed_passives_internal_ids@[k]@,
            None => false,
        }
    }
}

/// Nothing is wrong with the pal at `i`.
pub open spec fn pal_fine(
    raws: Seq<RawPal>,
    table: Map<Seq<char>, (u32, u32)>,
    skills: Seq<Seq<char>>,
    i: int,
) -> bool {
    let raw = raws[i];
    let name = raw.internal_name@;
    &&& table.dom().contains(name)
    &&& !repeated_pal(raws, i)
    &&& gender_parts_valid(table[name].0, table[name].1)
    &&& forall|k: int|
        0 <= k < raw.guaranteed_passives_internal_ids@.len() ==> skills.contains(
            (#[trigger] raw.guaranteed_passives_internal_ids@[k])@,
        )
}

/// A pal says what its raw form says.
pub open spec fn pal_of(pal: Pal, raw: RawPal, table: Map<Seq<char>, (u32, u32)>) -> bool {
    &&& pal.id == (PalId { dex: raw.id.pal_dex_no, variant: raw.id.is_variant })
    &&& pal.name@ == raw.internal_name@
    &&& pal.display_name@ == raw.name@
    &&& pal.breeding_power == raw.breeding_power
    &&& pal.breeding_power_priority == raw.breeding_power_priority
    &&& pal.gender_probability.part(Gender::Male) == table[raw.internal_name@].0
    &&& pal.gender_probability.part(Gender::Female) == table[raw.internal_name@].1
    &&& pal.guaranteed_passives@.len() == raw.guaranteed_passives_internal_ids@.len()
    &&& forall|k: int|
        0 <= k < pal.guaranteed_passives@.len() ==> (#[trigger] pal.guaranteed_passives@[k])@
            == raw.guaranteed_passives_internal_ids@[k]@
    &&& pal.wild_levels == WildLevels::range(raw.min_wild_level, raw.max_wild_level)
}

fn load_genders(raws: &Vec<RawGenderProbability>) -> (r: StringHashMap<(u32, u32)>)
    ensures
        r@ == gender_table(raws@),
{
    let mut table: StringHashMap<(u32, u32)> = StringHashMap::new();
    let mut i: usize = 0;
    proof {
        assert(raws@.take(0) =~= Seq::empty());
    }
    while i < raws.len()
        invariant
            i <= raws@.len(),
            table@ == gender_table(raws@.take(i as int)),
        decreases raws@.len() - i,
    {
        proof {
            assert(raws@.take(i + 1).drop_last() =~= raws@.take(i as int));
        }
        table.insert(raws[i].pal.as_str().to_owned(), (raws[i].male, raws[i].female));
        i = i + 1;
    }
    proof {
        assert(raws@.take(i as int) =~= raws@);
    }
    table
}

/// What is left of the gender table after the first `i` pals took their
/// entries.
spec fn left_over(
    table: Map<Seq<char>, (u32, u32)>,
    raws: Seq<RawPal>,
    i: int,
) -> Map<Seq<char>, (u32, u32)> {
    Map::new(
        |n: Seq<char>| table.dom().contains(n) && !named_before(raws, i, n),
        |n: Seq<char>| table[n],
    )
}

impl RawPal {
    /// Takes the pal's entry out of the gender table and builds its
    /// model.
    fn into_model(
        &self,
        gender_probabilities: &mut StringHashMap<(u32, u32)>,
        passives: &StringHashMap<usize>,
        Ghost(raws): Ghost<Seq<RawPal>>,
        Ghost(table): Ghost<Map<Seq<char>, (u32, u32)>>,
        Ghost(skills): Ghost<Seq<Seq<char>>>,
        Ghost(i): Ghost<int>,
    ) -> (r: Result<Pal, ParseError>)
        requires
            0 <= i < raws.len(),
            *self == raws[i],
            old(gender_probabilities)@ == left_over(table, raws, i),
            indexes(passives@, skills),
        ensures
            final(gender_probabilities)@ == left_over(table, raws, i + 1),
            match r {
                Ok(pal) => {
                    &&& pal_fine(raws, table, skills, i)
                    &&& pal_of(pal, raws[i], table)
                    &&& pal.gender_probability.wf()
                },
                Err(error) => !pal_fine(raws, table, skills, i) && pal_fault(
                    raws,
                    table,
                    skills,
                    i,
                    error,
                ),
            },
    {
        let name = &self.internal_name;
        let found: Option<(u32, u32)> = match gender_probabilities.get(name.as_str()) {
            Some(parts) => Some(*parts),
            None => None,
        };
        gender_probabilities.remove(name.as_str());
        proof {
            assert forall|n: Seq<char>| #[trigger]
                named_before(raws, i + 1, n) == (n == raws[i].internal_name@ || named_before(
                    raws,
                    i,
                    n,
                )) by {
                if n == raws[i].internal_name@ {
                    assert(raws[i].internal_name@ == n);
                }
                if named_before(raws, i, n) {
                    let j = choose|j: int| 0 <= j < i && (#[trigger] raws[j]).internal_name@ == n;
                    assert(0 <= j < i + 1 && raws[j].internal_name@ == n);
                }
            }
            assert(gender_probabilities@ =~= left_over(table, raws, i + 1));
        }
        let parts: (u32, u32) = match found {
            Some(parts) => parts,
            None => {
                return Err(ParseError::MissingGenderProbability { pal: name.clone() });
            },
        };
        let gender_probability = match GenderProbability::new(parts.0, parts.1) {
            Ok(p) => p,
            Err(source) => {
                return Err(ParseError::GenderProbability { pal: name.clone(), source });
            },
        };
        let ids = &self.guaranteed_passives_internal_ids;
        let ghost strange = unknown_passive(*self, skills);
        proof {
            crate::seqs::lemma_first_number(strange, ids@.len() as int);
        }
        let mut guaranteed_passives: Vec<PassiveName> = Vec::new();
        let mut k: usize = 0;
        while k < ids.len()
            invariant
                *ids == self.guaranteed_passives_internal_ids,
                strange == unknown_passive(*self, skills),
                indexes(passives@, skills),
                *name == self.internal_name,
                *self == raws[i],
                gender_probabilities@ == left_over(table, raws, i + 1),
                table.dom().contains(name@),
                !repeated_pal(raws, i),
                gender_parts_valid(table[name@].0, table[name@].1),
                k <= ids@.len(),
                guaranteed_passives@.len() == k,
                forall|j: int| 0 <= j < k ==> !#[trigger] strange(j),
                forall|j: int|
                    0 <= j < k ==> (#[trigger] guaranteed_passives@[j])@ == ids@[j]@,
            decreases ids@.len() - k,
        {
            if !passives.contains_key(ids[k].as_str()) {
                proof {
                    if skills.contains(ids@[k as int]@) {
                        let q = choose|q: int| 0 <= q < skills.len() && skills[q] == ids@[k as int]@;
                        assert(passives@.dom().contains(skills[q]));
                    }
                    assert(strange(k as int));
                    crate::seqs::lemma_first_number(strange, ids@.len() as int);
                }
                return Err(
                    ParseError::UnknownPassive { pal: name.clone(), passive: ids[k].clone() },
                );
            }
            proof {
                let at = passives@[ids@[k as int]@] as int;
                assert(skills[at] == ids@[k as int]@);
                assert(!strange(k as int));
            }
            guaranteed_passives.push(PassiveName::new(ids[k].as_str()));
            k = k + 1;
        }
        proof {
            assert forall|j: int| 0 <= j < ids@.len() implies skills.contains(
                (#[trigger] ids@[j])@,
            ) by {
                assert(!strange(j));
            }
        }
        Ok(
            Pal {
                id: PalId { dex: self.id.pal_dex_no, variant: self.id.is_variant },
                name: PalName::new(name.as_str()),
                display_name: self.name.clone(),
                breeding_power: self.breeding_power,
                breeding_power_priority: self.breeding_power_priority,
                gender_probability,
                guaranteed_passives,
                wild_levels: WildLevels::between(self.min_wild_level, self.max_wild_level),
            },
        )
    }
}

/// What a database file must be for a database to come of it.
pub open spec fn loadable(raw: RawDb) -> bool {
    let table = gender_table(raw.breeding_gender_probability@);
    let skills = raw_names(latest_skills(raw.passive_skills@));
    &&& raw.version@ == SUPPORTED_VERSION@
    &&& forall|i: int|
        0 <= i < raw.pals@.len() ==> #[trigger] pal_fine(raw.pals@, table, skills, i)
}

/// The internal names of raw skills.
pub open spec fn raw_names(raws: Seq<RawPassiveSkill>) -> Seq<Seq<char>> {
    raws.map_values(|s: RawPassiveSkill| s.internal_name@)
}

/// The database says what its file says.
pub open spec fn loaded(db: PalDb, raw: RawDb) -> bool {
    let table = gender_table(raw.breeding_gender_probability@);
    &&& db.tag() == raw.version@
    &&& db.all().len() == raw.pals@.len()
    &&& forall|i: int|
        0 <= i < db.all().len() ==> pal_of(#[trigger] db.all()[i], raw.pals@[i], table)
    &&& skills_of(db.skills(), latest_skills(raw.passive_skills@))
    &&& db.tables().iv_inheritance_weights == raw.breeding_mechanics.iv_inheritance_weights
    &&& db.tables().passive_inheritance_weights
        == raw.breeding_mechanics.passive_inheritance_weights
    &&& db.tables().passive_random_weights == raw.breeding_mechanics.passive_random_weights
}

/// The first thing wrong with a database file.
pub open spec fn load_fault(raw: RawDb, error: ParseError) -> bool {
    let table = gender_table(raw.breeding_gender_probability@);
    let skills = raw_names(latest_skills(raw.passive_skills@));
    if raw.version@ != SUPPORTED_VERSION@ {
        error matches ParseError::UnsupportedVersion { found } && found@ == raw.version@
    } else {
        exists|i: int|
            {
                &&& 0 <= i < raw.pals@.len()
                &&& #[trigger] pal_fault(raw.pals@, table, skills, i, error)
                &&& !pal_fine(raw.pals@, table, skills, i)
                &&& forall|j: int|
                    0 <= j < i ==> #[trigger] pal_fine(raw.pals@, table, skills, j)
            }
    }
}

/// Builds a [`PalDb`] from what a database file holds.
///
/// Fails on a version other than [`SUPPORTED_VERSION`], a pal without a
/// gender-probability entry, an invalid probability pair, or a
/// guaranteed passive that no passive-skill entry defines.
pub fn parse_pal_db(raw: RawDb) -> (r: Result<PalDb, ParseError>)
    requires
        raw.pals@.len() <= u32::MAX,
    ensures
        match r {
            Ok(db) => loadable(raw) && db.wf() && loaded(db, raw),
            Err(error) => !loadable(raw) && load_fault(raw, error),
        },
{
    if raw.version.as_str().to_owned() != SUPPORTED_VERSION.to_owned() {
        return Err(ParseError::UnsupportedVersion { found: raw.version });
    }
    let (passives, passive_index) = load_skills(&raw.passive_skills);
    let ghost table = gender_table(raw.breeding_gender_probability@);
    let ghost skills = skill_names(passives@);
    let ghost raws = raw.pals@;
    proof {
        let latest = latest_skills(raw.passive_skills@);
        assert forall|i: int| 0 <= i < skills.len() implies skills[i] == raw_names(latest)[i] by {
            assert(skill_of(passives@[i], latest[i]));
        }
        assert(skills =~= raw_names(latest));
    }
    let mut genders = load_genders(&raw.breeding_gender_probability);
    proof {
        assert(genders@ =~= left_over(table, raws, 0));
    }
    let mut pals: Vec<Pal> = Vec::new();
    let mut pal_index: StringHashMap<usize> = StringHashMap::new();
    let mut i: usize = 0;
    while i < raw.pals.len()
        invariant
            raws == raw.pals@,
            raw.version@ == SUPPORTED_VERSION@,
            table == gender_table(raw.breeding_gender_probability@),
            skills == raw_names(latest_skills(raw.passive_skills@)),
            i <= raws.len(),
            genders@ == left_over(table, raws, i as int),
            indexes(passive_index@, skills),
            pals@.len() == i,
            indexes(pal_index@, pal_names(pals@)),
            forall|j: int| 0 <= j < i ==> #[trigger] pal_fine(raws, table, skills, j),
            forall|j: int|
                0 <= j < i ==> pal_of(#[trigger] pals@[j], raws[j], table)
                    && pals@[j].gender_probability.wf(),
        decreases raws.len() - i,
    {
        let ghost before = pals@;
        let pal = match raw.pals[i].into_model(
            &mut genders,
            &passive_index,
            Ghost(raws),
            Ghost(table),
            Ghost(skills),
            Ghost(i as int),
        ) {
            Ok(pal) => pal,
            Err(error) => {
                proof {
                    assert(pal_fault(raws, table, skills, i as int, error));
                }
                return Err(error);
            },
        };
        pal_index.insert(pal.name.as_str().to_owned(), i);
        pals.push(pal);
        proof {
            let names = pal_names(pals@);
            let name = raws[i as int].internal_name@;
            assert(names =~= pal_names(before).push(name));
            assert forall|j: int| 0 <= j < i implies #[trigger] pal_names(before)[j] != name by {
                assert(pal_of(before[j], raws[j], table));
                assert(raws[j].internal_name@ == before[j].name@);
            }
            assert forall|j: int| 0 <= j < names.len() implies pal_index@.dom().contains(
                #[trigger] names[j],
            ) && pal_index@[names[j]] == j by {
                if j < i {
                    assert(names[j] == pal_names(before)[j]);
                }
            }
        }
        i = i + 1;
    }
    proof {
        assert forall|a: int, k: int|
            0 <= a < pals@.len() && 0 <= k
                < pals@[a].guaranteed_passives@.len() implies skill_names(passives@).contains(
            (#[trigger] pals@[a].guaranteed_passives@[k])@,
        ) by {
            assert(pal_fine(raws, table, skills, a));
            assert(pal_of(pals@[a], raws[a], table));
            assert(skills.contains(raws[a].guaranteed_passives_internal_ids@[k]@));
        }
    }
    let version = DbVersion::new(raw.version.as_str());
    Ok(
        PalDb::new(
            version,
            pals,
            pal_index,
            passives,
            passive_index,
            raw.breeding_mechanics.into_model(),
        ),
    )
}

// ---------------------------------------------------------------------
// Breeding rules
// ---------------------------------------------------------------------
#[derive(Clone, Copy, PartialEq, Eq, Structural, Debug)]
pub enum RawParentGender {
    Wildcard,
    Male,
    Female,
}

/// The requirement that a raw one stands for.
pub open spec fn parent_gender(raw: RawParentGender) -> ParentGender {
    match raw {
        RawParentGender::Wildcard => ParentGender::Wildcard,
        RawParentGender::Male => ParentGender::Exactly(Gender::Male),
        RawParentGender::Female => ParentGender::Exactly(Gender::Female),
    }
}

impl From<RawParentGender> for ParentGender {
    fn from(raw: RawParentGender) -> (r: Self) {
        match raw {
            RawParentGender::Wildcard => ParentGender::Wildcard,
            RawParentGender::Male => ParentGender::Exactly(Gender::Male),
            RawParentGender::Female => ParentGender::Exactly(Gender::Female),
        }
    }
}

impl vstd::std_specs::convert::FromSpecImpl<RawParentGender> for ParentGender {
    open spec fn obeys_from_spec() -> bool {
        true
    }

    open spec fn from_spec(raw: RawParentGender) -> Self {
        parent_gender(raw)
    }
}

pub struct RawBreedingEntry {
    pub parent1_internal_name: String,
    pub parent1_gender: RawParentGender,
    pub parent2_internal_name: String,
    pub parent2_gender: RawParentGender,
    pub child_internal_name: String,
}

/// Stated steps from one species to another.
pub struct RawSteps {
    pub to: String,
    pub steps: u32,
}

/// Stated steps from one species.
pub struct RawStepsRow {
    pub from: String,
    pub to: Vec<RawSteps>,
}

/// Breeding rules as their file holds them.
pub struct RawBreedingFile {
    pub breeding: Vec<RawBreedingEntry>,
    pub min_breeding_steps: Vec<RawStepsRow>,
}

/// The name, if the database knows it.
pub fn known_pal(pal_db: &PalDb, name: &String) -> (r: Result<PalName, ParseError>)
    requires
        pal_db.wf(),
    ensures
        match r {
            Ok(n) => pal_db.knows(name@) && n@ == name@,
            Err(error) => !pal_db.knows(name@) && error == (ParseError::UnknownPal { name: *name }),
        },
{
    let pal = PalName::new(name.as_str());
    if pal_db.pal(&pal).is_some() {
        Ok(pal)
    } else {
        Err(ParseError::UnknownPal { name: name.clone() })
    }
}

/// The first name of a rule that the database does not know.
pub open spec fn stranger(db: PalDb, raw: RawBreedingEntry) -> Option<String> {
    if !db.knows(raw.parent1_internal_name@) {
        Some(raw.parent1_internal_name)
    } else if !db.knows(raw.parent2_internal_name@) {
        Some(raw.parent2_internal_name)
    } else if !db.knows(raw.child_internal_name@) {
        Some(raw.child_internal_name)
    } else {
        None
    }
}

/// A rule says what its raw form says.
pub open spec fn combo_of(combo: BreedingCombo, raw: RawBreedingEntry) -> bool {
    &&& combo.parents@[0].name@ == raw.parent1_internal_name@
    &&& combo.parents@[0].gender == parent_gender(raw.parent1_gender)
    &&& combo.parents@[1].name@ == raw.parent2_internal_name@
    &&& combo.parents@[1].gender == parent_gender(raw.parent2_gender)
    &&& combo.child@ == raw.child_internal_name@
}

impl RawBreedingEntry {
    fn into_model(&self, pal_db: &PalDb) -> (r: Result<BreedingCombo, ParseError>)
        requires
            pal_db.wf(),
        ensures
            match r {
                Ok(combo) => stranger(*pal_db, *self) is None && combo_of(combo, *self),
                Err(error) => stranger(*pal_db, *self) is Some && error == (
                ParseError::UnknownPal { name: stranger(*pal_db, *self)->0 }),
            },
    {
        let first = match known_pal(pal_db, &self.parent1_internal_name) {
            Ok(name) => name,
            Err(error) => {
                return Err(error);
            },
        };
        let second = match known_pal(pal_db, &self.parent2_internal_name) {
            Ok(name) => name,
            Err(error) => {
                return Err(error);
            },
        };
        let child = match known_pal(pal_db, &self.child_internal_name) {
            Ok(name) => name,
            Err(error) => {
                return Err(error);
            },
        };
        Ok(
            BreedingCombo {
                parents: [
                    BreedingParent { name: first, gender: ParentGender::from(self.parent1_gender) },
                    BreedingParent { name: second, gender: ParentGender::from(self.parent2_gender) },
                ],
                child,
            },
        )
    }
}

/// The stated steps of one row. A path that exists is shorter than the
/// number of species, so a larger number marks a pair without one and is
/// left out.
pub open spec fn row_steps(entries: Seq<RawSteps>, species: nat) -> Map<Seq<char>, u32>
    decreases entries.len(),
{
    if entries.len() == 0 {
        Map::empty()
    } else {
        let rest = row_steps(entries.drop_last(), species);
        if entries.last().steps < species {
            rest.insert(entries.last().to@, entries.last().steps)
        } else {
            rest
        }
    }
}

/// The stated steps by origin, a later row deciding.
pub open spec fn steps_table(rows: Seq<RawStepsRow>, species: nat) -> Map<
    Seq<char>,
    Map<Seq<char>, u32>,
>
    decreases rows.len(),
{
    if rows.len() == 0 {
        Map::empty()
    } else {
        steps_table(rows.drop_last(), species).insert(
            rows.last().from@,
            row_steps(rows.last().to@, species),
        )
    }
}

/// The entry of a table of tables.
pub open spec fn table_entry(
    table: Map<Seq<char>, Map<Seq<char>, u32>>,
    from: Seq<char>,
    to: Seq<char>,
) -> Option<u32> {
    if table.dom().contains(from) && table[from].dom().contains(to) {
        Some(table[from][to])
    } else {
        None
    }
}

/// The destination at a position is not known.
pub open spec fn strange_target(db: PalDb, row: RawStepsRow) -> spec_fn(int) -> bool {
    |k: int| !db.knows(row.to@[k].to@)
}

/// The first name of a row that the database does not know: a
/// destination, or else the origin.
pub open spec fn row_stranger(db: PalDb, row: RawStepsRow) -> Option<String> {
    match crate::seqs::first_number(strange_target(db, row), row.to@.len() as int) {
        Some(k) => Some(row.to@[k].to),
        None => if db.knows(row.from@) {
            None
        } else {
            Some(row.from)
        },
    }
}

/// The rule at a position has a name that is not known.
pub open spec fn bad_entry(db: PalDb, raw: RawBreedingFile) -> spec_fn(int) -> bool {
    |i: int| stranger(db, raw.breeding@[i]) is Some
}

/// The row at a position has a name that is not known.
pub open spec fn bad_row(db: PalDb, raw: RawBreedingFile) -> spec_fn(int) -> bool {
    |i: int| row_stranger(db, raw.min_breeding_steps@[i]) is Some
}

/// The first name in a breeding file that the database does not know.
pub open spec fn file_stranger(db: PalDb, raw: RawBreedingFile) -> Option<String> {
    match crate::seqs::first_number(bad_entry(db, raw), raw.breeding@.len() as int) {
        Some(i) => stranger(db, raw.breeding@[i]),
        None => match crate::seqs::first_number(
            bad_row(db, raw),
            raw.min_breeding_steps@.len() as int,
        ) {
            Some(i) => row_stranger(db, raw.min_breeding_steps@[i]),
            None => None,
        },
    }
}

/// The breeding rules say what their file says.
pub open spec fn bred_loaded(breeding: BreedingDb, raw: RawBreedingFile, species: nat) -> bool {
    &&& breeding.rules().len() == raw.breeding@.len()
    &&& forall|i: int|
        0 <= i < breeding.rules().len() ==> combo_of(
            #[trigger] breeding.rules()[i],
            raw.breeding@[i],
        )
    &&& forall|from: Seq<char>, to: Seq<char>| #[trigger]
        breeding.stated_steps(from, to) == table_entry(
            steps_table(raw.min_breeding_steps@, species),
            from,
            to,
        )
}

fn load_row(pal_db: &PalDb, row: &RawStepsRow) -> (r: Result<StringHashMap<u32>, ParseError>)
    requires
        pal_db.wf(),
    ensures
        match r {
            Ok(map) => row_stranger(*pal_db, *row) is None && map@ == row_steps(
                row.to@,
                pal_db.all().len(),
            ),
            Err(error) => row_stranger(*pal_db, *row) is Some && error == (
            ParseError::UnknownPal { name: row_stranger(*pal_db, *row)->0 }),
        },
{
    let ghost strange = strange_target(*pal_db, *row);
    let species: usize = pal_db.pals().len();
    let mut map: StringHashMap<u32> = StringHashMap::new();
    let mut k: usize = 0;
    proof {
        assert(row.to@.take(0) =~= Seq::empty());
        crate::seqs::lemma_first_number(strange, row.to@.len() as int);
    }
    while k < row.to.len()
        invariant
            pal_db.wf(),
            species == pal_db.all().len(),
            strange == strange_target(*pal_db, *row),
            k <= row.to@.len(),
            forall|j: int| 0 <= j < k ==> !#[trigger] strange(j),
            map@ == row_steps(row.to@.take(k as int), pal_db.all().len()),
        decreases row.to@.len() - k,
    {
        let item = &row.to[k];
        match known_pal(pal_db, &item.to) {
            Ok(_) => {},
            Err(error) => {
                proof {
                    assert(strange(k as int));
                    crate::seqs::lemma_first_number(strange, row.to@.len() as int);
                }
                return Err(error);
            },
        }
        proof {
            assert(row.to@.take(k + 1).drop_last() =~= row.to@.take(k as int));
            assert(row.to@.take(k + 1).last() == *item);
            assert(!strange(k as int));
        }
        if (item.steps as u64) < species as u64 {
            map.insert(item.to.as_str().to_owned(), item.steps);
        }
        k = k + 1;
    }
    proof {
        assert(row.to@.take(k as int) =~= row.to@);
    }
    match known_pal(pal_db, &row.from) {
        Ok(_) => Ok(map),
        Err(error) => Err(error),
    }
}

/// Builds a [`BreedingDb`] from what a breeding file holds, resolving
/// every pal name against `pal_db`.
///
/// Fails on any name that does not resolve in `pal_db`.
pub fn parse_breeding_db(raw: RawBreedingFile, pal_db: &PalDb) -> (r: Result<
    BreedingDb,
    ParseError,
>)
    requires
        pal_db.wf(),
    ensures
        match r {
            Ok(breeding) => file_stranger(*pal_db, raw) is None && bred_loaded(
                breeding,
                raw,
                pal_db.all().len(),
            ),
            Err(error) => file_stranger(*pal_db, raw) is Some && error == (
            ParseError::UnknownPal { name: file_stranger(*pal_db, raw)->0 }),
        },
{
    let ghost bad = bad_entry(*pal_db, raw);
    proof {
        crate::seqs::lemma_first_number(bad, raw.breeding@.len() as int);
    }
    let mut combos: Vec<BreedingCombo> = Vec::new();
    let mut i: usize = 0;
    while i < raw.breeding.len()
        invariant
            pal_db.wf(),
            bad == bad_entry(*pal_db, raw),
            i <= raw.breeding@.len(),
            combos@.len() == i,
            forall|j: int| 0 <= j < i ==> !#[trigger] bad(j),
            forall|j: int| 0 <= j < i ==> combo_of(#[trigger] combos@[j], raw.breeding@[j]),
        decreases raw.breeding@.len() - i,
    {
        match raw.breeding[i].into_model(pal_db) {
            Ok(combo) => {
                proof {
                    assert(!bad(i as int));
                }
                combos.push(combo);
            },
            Err(error) => {
                proof {
                    assert(bad(i as int));
                    crate::seqs::lemma_first_number(bad, raw.breeding@.len() as int);
                }
                return Err(error);
            },
        }
        i = i + 1;
    }
    let ghost rows = raw.min_breeding_steps@;
    let ghost odd = bad_row(*pal_db, raw);
    let ghost n = pal_db.all().len();
    proof {
        crate::seqs::lemma_first_number(odd, rows.len() as int);
        assert(rows.take(0) =~= Seq::empty());
    }
    let mut table: StringHashMap<StringHashMap<u32>> = StringHashMap::new();
    let mut i: usize = 0;
    while i < raw.min_breeding_steps.len()
        invariant
            pal_db.wf(),
            n == pal_db.all().len(),
            rows == raw.min_breeding_steps@,
            odd == bad_row(*pal_db, raw),
            crate::seqs::first_number(
                bad_entry(*pal_db, raw),
                raw.breeding@.len() as int,
            ) is None,
            i <= rows.len(),
            forall|j: int| 0 <= j < i ==> !#[trigger] odd(j),
            table@.dom() == steps_table(rows.take(i as int), n).dom(),
            forall|from: Seq<char>| #[trigger]
                table@.dom().contains(from) ==> table@[from]@ == steps_table(
                    rows.take(i as int),
                    n,
                )[from],
        decreases rows.len() - i,
    {
        let row = &raw.min_breeding_steps[i];
        match load_row(pal_db, row) {
            Ok(map) => {
                proof {
                    assert(rows.take(i + 1).drop_last() =~= rows.take(i as int));
                    assert(rows.take(i + 1).last() == *row);
                    assert(!odd(i as int));
                }
                table.insert(row.from.as_str().to_owned(), map);
            },
            Err(error) => {
                proof {
                    assert(odd(i as int));
                    crate::seqs::lemma_first_number(odd, rows.len() as int);
                }
                return Err(error);
            },
        }
        i = i + 1;
    }
    proof {
        assert(rows.take(i as int) =~= rows);
    }
    Ok(BreedingDb::new(combos, table))
}

/// A database whose every rule resolves: what a loaded breeding database
/// names, the pal database knows.
pub proof fn law_loaded_rules_resolve(db: PalDb, breeding: BreedingDb, raw: RawBreedingFile, i: int)
    requires
        file_stranger(db, raw) is None,
        bred_loaded(breeding, raw, db.all().len()),
        0 <= i < breeding.rules().len(),
    ensures
        db.knows(breeding.rules()[i].parents@[0].name@),
        db.knows(breeding.rules()[i].parents@[1].name@),
        db.knows(breeding.rules()[i].child@),
{
    let bad = bad_entry(db, raw);
    crate::seqs::lemma_first_number(bad, raw.breeding@.len() as int);
    assert(!bad(i));
    assert(combo_of(breeding.rules()[i], raw.breeding@[i]));
}

/// Every pal of a file is loaded in its place, with all that its entry
/// says, its gender probabilities from the last entry of its name, and
/// wild levels exactly when both bounds are given.
pub proof fn law_loaded_pals_keep_their_entries(db: PalDb, raw: RawDb, i: int, g: int)
    requires
        loaded(db, raw),
        0 <= i < raw.pals@.len(),
        0 <= g < raw.breeding_gender_probability@.len(),
        raw.breeding_gender_probability@[g].pal@ == raw.pals@[i].internal_name@,
        forall|j: int|
            g < j < raw.breeding_gender_probability@.len() ==> (
            #[trigger] raw.breeding_gender_probability@[j]).pal@ != raw.pals@[i].internal_name@,
    ensures
        ({
            let pal = db.all()[i];
            let entry = raw.pals@[i];
            let odds = raw.breeding_gender_probability@[g];
            &&& db.all().len() == raw.pals@.len()
            &&& pal.name@ == entry.internal_name@
            &&& pal.display_name@ == entry.name@
            &&& pal.id.dex == entry.id.pal_dex_no
            &&& pal.id.variant == entry.id.is_variant
            &&& pal.breeding_power == entry.breeding_power
            &&& pal.breeding_power_priority == entry.breeding_power_priority
            &&& pal.gender_probability.part(Gender::Male) == odds.male
            &&& pal.gender_probability.part(Gender::Female) == odds.female
            &&& pal.guaranteed_passives@.len() == entry.guaranteed_passives_internal_ids@.len()
            &&& forall|k: int|
                0 <= k < pal.guaranteed_passives@.len() ==> (
                #[trigger] pal.guaranteed_passives@[k])@
                    == entry.guaranteed_passives_internal_ids@[k]@
            &&& pal.wild_levels is Some <==> entry.min_wild_level is Some && entry.max_wild_level
                is Some
            &&& pal.wild_levels matches Some(levels) ==> Some(levels.min) == entry.min_wild_level
                && Some(levels.max) == entry.max_wild_level
        }),
{
    lemma_last_odds(raw.breeding_gender_probability@, g);
    assert(pal_of(
        db.all()[i],
        raw.pals@[i],
        gender_table(raw.breeding_gender_probability@),
    ));
}

/// The last entry of a name decides its probabilities.
proof fn lemma_last_odds(raws: Seq<RawGenderProbability>, g: int)
    requires
        0 <= g < raws.len(),
        forall|j: int| g < j < raws.len() ==> (#[trigger] raws[j]).pal@ != raws[g].pal@,
    ensures
        gender_table(raws).dom().contains(raws[g].pal@),
        gender_table(raws)[raws[g].pal@] == (raws[g].male, raws[g].female),
    decreases raws.len(),
{
    if g < raws.len() - 1 {
        let rest = raws.drop_last();
        assert(raws[raws.len() - 1].pal@ != raws[g].pal@);
        assert(rest[g] == raws[g]);
        assert forall|j: int| g < j < rest.len() implies (#[trigger] rest[j]).pal@ != rest[g].pal@ by {
            assert(rest[j] == raws[j]);
        }
        lemma_last_odds(rest, g);
    }
}

/// Every passive of a file is loaded, as the last entry of its name
/// says.
pub proof fn law_loaded_passives_keep_their_entries(db: PalDb, raw: RawDb, g: int) -> (i: int)
    requires
        loaded(db, raw),
        0 <= g < raw.passive_skills@.len(),
        forall|j: int|
            g < j < raw.passive_skills@.len() ==> (#[trigger] raw.passive_skills@[j]).internal_name@
                != raw.passive_skills@[g].internal_name@,
    ensures
        ({
            let skill = db.skills()[i];
            let entry = raw.passive_skills@[g];
            &&& 0 <= i < db.skills().len()
            &&& skill.name@ == entry.internal_name@
            &&& skill.display_name@ == entry.name@
            &&& skill.rank == entry.rank
            &&& skill.standard == entry.is_standard_passive_skill
            &&& skill.random_inheritance_allowed == entry.random_inheritance_allowed
            &&& skill.random_inheritance_weight == entry.random_inheritance_weight
            &&& skill.surgery is None <==> entry.surgery_cost == 0 && entry.surgery_item is None
        }),
{
    let i = lemma_last_skill(raw.passive_skills@, g);
    assert(skill_of(db.skills()[i], latest_skills(raw.passive_skills@)[i]));
    i
}

/// The last entry of a name stands among the latest ones.
proof fn lemma_last_skill(raws: Seq<RawPassiveSkill>, g: int) -> (i: int)
    requires
        0 <= g < raws.len(),
        forall|j: int|
            g < j < raws.len() ==> (#[trigger] raws[j]).internal_name@ != raws[g].internal_name@,
    ensures
        0 <= i < latest_skills(raws).len(),
        latest_skills(raws)[i] == raws[g],
    decreases raws.len(),
{
    let rest = latest_skills(raws.drop_last());
    let named = raw_skill_named(raws.last().internal_name@);
    crate::seqs::lemma_first_where(rest, named);
    if g == raws.len() - 1 {
        match crate::seqs::first_where(rest, named) {
            Some(i) => i,
            None => rest.len() as int,
        }
    } else {
        let before = raws.drop_last();
        assert(raws[raws.len() - 1].internal_name@ != raws[g].internal_name@);
        assert(before[g] == raws[g]);
        assert forall|j: int| g < j < before.len() implies (#[trigger] before[j]).internal_name@
            != before[g].internal_name@ by {
            assert(before[j] == raws[j]);
        }
        let i = lemma_last_skill(before, g);
        match crate::seqs::first_where(rest, named) {
            Some(k) => {
                assert(named(rest[k]));
                assert(k != i);
            },
            None => {},
        }
        i
    }
}

/// Every rule of a file is loaded in its place: both parents, each with
/// its own gender, and the child.
pub proof fn law_loaded_rules_keep_their_entries(
    breeding: BreedingDb,
    raw: RawBreedingFile,
    species: nat,
    i: int,
)
    requires
        bred_loaded(breeding, raw, species),
        0 <= i < raw.breeding@.len(),
    ensures
        ({
            let rule = breeding.rules()[i];
            let entry = raw.breeding@[i];
            let (one, two) = (rule.parents@[0], rule.parents@[1]);
            &&& breeding.rules().len() == raw.breeding@.len()
            &&& one.name@ == entry.parent1_internal_name@
            &&& two.name@ == entry.parent2_internal_name@
            &&& rule.child@ == entry.child_internal_name@
            &&& one.gender == ParentGender::Exactly(Gender::Male) <==> entry.parent1_gender is Male
            &&& one.gender == ParentGender::Exactly(Gender::Female) <==> entry.parent1_gender
                is Female
            &&& two.gender == ParentGender::Exactly(Gender::Male) <==> entry.parent2_gender is Male
            &&& two.gender == ParentGender::Exactly(Gender::Female) <==> entry.parent2_gender
                is Female
        }),
{
    assert(combo_of(breeding.rules()[i], raw.breeding@[i]));
}

/// The steps that the last entry of the last row of an origin states are
/// loaded as they stand, unless there are as many of them as species:
/// then there is no path.
pub proof fn law_stated_steps_are_kept(
    breeding: BreedingDb,
    raw: RawBreedingFile,
    species: nat,
    row: int,
    k: int,
)
    requires
        bred_loaded(breeding, raw, species),
        0 <= row < raw.min_breeding_steps@.len(),
        forall|j: int|
            row < j < raw.min_breeding_steps@.len() ==> (
            #[trigger] raw.min_breeding_steps@[j]).from@ != raw.min_breeding_steps@[row].from@,
        0 <= k < raw.min_breeding_steps@[row].to@.len(),
        forall|j: int|
            0 <= j < raw.min_breeding_steps@[row].to@.len() && j != k ==> (
            #[trigger] raw.min_breeding_steps@[row].to@[j]).to@
                != raw.min_breeding_steps@[row].to@[k].to@,
    ensures
        ({
            let from = raw.min_breeding_steps@[row];
            let to = from.to@[k];
            breeding.stated_steps(from.from@, to.to@) == if to.steps < species {
                Some(to.steps)
            } else {
                None
            }
        }),
{
    lemma_last_row(raw.min_breeding_steps@, species, row);
    lemma_only_steps(raw.min_breeding_steps@[row].to@, species, k);
}

proof fn lemma_last_row(rows: Seq<RawStepsRow>, species: nat, row: int)
    requires
        0 <= row < rows.len(),
        forall|j: int| row < j < rows.len() ==> (#[trigger] rows[j]).from@ != rows[row].from@,
    ensures
        steps_table(rows, species).dom().contains(rows[row].from@),
        steps_table(rows, species)[rows[row].from@] == row_steps(rows[row].to@, species),
    decreases rows.len(),
{
    if row < rows.len() - 1 {
        let rest = rows.drop_last();
        assert(rows[rows.len() - 1].from@ != rows[row].from@);
        assert(rest[row] == rows[row]);
        assert forall|j: int| row < j < rest.len() implies (#[trigger] rest[j]).from@
            != rest[row].from@ by {
            assert(rest[j] == rows[j]);
        }
        lemma_last_row(rest, species, row);
    }
}

proof fn lemma_only_steps(entries: Seq<RawSteps>, species: nat, k: int)
    requires
        0 <= k < entries.len(),
        forall|j: int|
            0 <= j < entries.len() && j != k ==> (#[trigger] entries[j]).to@ != entries[k].to@,
    ensures
        row_steps(entries, species).dom().contains(entries[k].to@) <==> entries[k].steps < species,
        entries[k].steps < species ==> row_steps(entries, species)[entries[k].to@]
            == entries[k].steps,
    decreases entries.len(),
{
    let rest = entries.drop_last();
    if k < entries.len() - 1 {
        assert(entries[entries.len() - 1].to@ != entries[k].to@);
        assert(rest[k] == entries[k]);
        assert forall|j: int| 0 <= j < rest.len() && j != k implies (#[trigger] rest[j]).to@
            != rest[k].to@ by {
            assert(rest[j] == entries[j]);
        }
        lemma_only_steps(rest, species, k);
    } else {
        assert forall|j: int| 0 <= j < rest.len() implies (#[trigger] rest[j]).to@
            != entries[k].to@ by {
            assert(rest[j] == entries[j]);
        }
        lemma_no_steps(rest, species, entries[k].to@);
    }
}

proof fn lemma_no_steps(entries: Seq<RawSteps>, species: nat, to: Seq<char>)
    requires
        forall|j: int| 0 <= j < entries.len() ==> (#[trigger] entries[j]).to@ != to,
    ensures
        !row_steps(entries, species).dom().contains(to),
    decreases entries.len(),
{
    if entries.len() > 0 {
        let rest = entries.drop_last();
        assert(entries[entries.len() - 1].to@ != to);
        assert forall|j: int| 0 <= j < rest.len() implies (#[trigger] rest[j]).to@ != to by {
            assert(rest[j] == entries[j]);
        }
        lemma_no_steps(rest, species, to);
    }
}

} // verus!
