//! Domain types for the Palworld game database.
//!
//! A [`PalName`] stored inside a [`Pal`], [`BreedingCombo`] or
//! min-steps table of a database that [`crate::db`] built resolves in
//! its [`PalDb`]. A free-standing name carries no such guarantee:
//! resolve it with [`PalDb::pal`].

use std::collections::BTreeMap;
use vstd::hash_map::StringHashMap;
use vstd::prelude::*;

use crate::seqs::first_where;
use crate::seqs::lemma_first_where;
use crate::text::eq_ignoring_case;
use crate::text::same_ignoring_case;

verus! {

/// Canonical pal identifier: the game's internal name (`SheepBall` for
/// Lamball). Every table of the database keys on it.
#[derive(Eq, Hash, Debug)]
pub struct PalName(String);

impl View for PalName {
    type V = Seq<char>;

    closed spec fn view(&self) -> Seq<char> {
        self.0@
    }
}

impl PalName {
    pub fn new(name: &str) -> (r: Self)
        ensures
            r@ == name@,
    {
        PalName(name.to_owned())
    }

    pub fn as_str(&self) -> (r: &str)
        ensures
            r@ == self@,
    {
        self.0.as_str()
    }
}

impl Clone for PalName {
    fn clone(&self) -> (r: Self)
        ensures
            r == *self,
    {
        PalName(self.0.clone())
    }
}

impl PartialEq for PalName {
    fn eq(&self, other: &Self) -> (r: bool) {
        self.0 == other.0
    }
}

impl vstd::std_specs::cmp::PartialEqSpecImpl for PalName {
    open spec fn obeys_eq_spec() -> bool {
        true
    }

    open spec fn eq_spec(&self, other: &Self) -> bool {
        self@ == other@
    }
}

/// Canonical passive-skill identifier: the game's internal name.
#[derive(Eq, Hash, Debug)]
pub struct PassiveName(String);

impl View for PassiveName {
    type V = Seq<char>;

    closed spec fn view(&self) -> Seq<char> {
        self.0@
    }
}

impl PassiveName {
    pub fn new(name: &str) -> (r: Self)
        ensures
            r@ == name@,
    {
        PassiveName(name.to_owned())
    }

    pub fn as_str(&self) -> (r: &str)
        ensures
            r@ == self@,
    {
        self.0.as_str()
    }
}

impl Clone for PassiveName {
    fn clone(&self) -> (r: Self)
        ensures
            r == *self,
    {
        PassiveName(self.0.clone())
    }
}

impl PartialEq for PassiveName {
    fn eq(&self, other: &Self) -> (r: bool) {
        self.0 == other.0
    }
}

impl vstd::std_specs::cmp::PartialEqSpecImpl for PassiveName {
    open spec fn obeys_eq_spec() -> bool {
        true
    }

    open spec fn eq_spec(&self, other: &Self) -> bool {
        self@ == other@
    }
}

/// Version tag of a database.
#[derive(Eq, Hash, Debug)]
pub struct DbVersion(String);

impl View for DbVersion {
    type V = Seq<char>;

    closed spec fn view(&self) -> Seq<char> {
        self.0@
    }
}

impl DbVersion {
    pub fn new(name: &str) -> (r: Self)
        ensures
            r@ == name@,
    {
        DbVersion(name.to_owned())
    }

    pub fn as_str(&self) -> (r: &str)
        ensures
            r@ == self@,
    {
        self.0.as_str()
    }
}

impl Clone for DbVersion {
    fn clone(&self) -> (r: Self)
        ensures
            r == *self,
    {
        DbVersion(self.0.clone())
    }
}

impl PartialEq for DbVersion {
    fn eq(&self, other: &Self) -> (r: bool) {
        self.0 == other.0
    }
}

impl vstd::std_specs::cmp::PartialEqSpecImpl for DbVersion {
    open spec fn obeys_eq_spec() -> bool {
        true
    }

    open spec fn eq_spec(&self, other: &Self) -> bool {
        self@ == other@
    }
}

/// The texts of a list of pal names.
pub open spec fn pal_texts(names: Seq<PalName>) -> Seq<Seq<char>> {
    names.map_values(|n: PalName| n@)
}

/// The texts of a list of passive names.
pub open spec fn passive_texts(names: Seq<PassiveName>) -> Seq<Seq<char>> {
    names.map_values(|n: PassiveName| n@)
}

/// Whether a list of passive names holds `name`.
pub fn holds_passive(names: &Vec<PassiveName>, name: &PassiveName) -> (r: bool)
    ensures
        r == passive_texts(names@).contains(name@),
{
    let mut i: usize = 0;
    while i < names.len()
        invariant
            i <= names@.len(),
            forall|j: int| 0 <= j < i ==> names@[j]@ != name@,
        decreases names@.len() - i,
    {
        if names[i] == *name {
            proof {
                assert(passive_texts(names@)[i as int] == name@);
            }
            return true;
        }
        i = i + 1;
    }
    proof {
        if passive_texts(names@).contains(name@) {
            let k = choose|k: int|
                0 <= k < passive_texts(names@).len() && passive_texts(names@)[k] == name@;
            assert(names@[k]@ == name@);
        }
    }
    false
}

/// Whether a list of pal names holds `name`.
pub fn holds_pal(names: &Vec<PalName>, name: &PalName) -> (r: bool)
    ensures
        r == pal_texts(names@).contains(name@),
{
    let mut i: usize = 0;
    while i < names.len()
        invariant
            i <= names@.len(),
            forall|j: int| 0 <= j < i ==> names@[j]@ != name@,
        decreases names@.len() - i,
    {
        if names[i] == *name {
            proof {
                assert(pal_texts(names@)[i as int] == name@);
            }
            return true;
        }
        i = i + 1;
    }
    proof {
        if pal_texts(names@).contains(name@) {
            let k = choose|k: int|
                0 <= k < pal_texts(names@).len() && pal_texts(names@)[k] == name@;
            assert(names@[k]@ == name@);
        }
    }
    false
}

/// Whether two lists hold the same names in the same order.
pub fn same_passives(a: &Vec<PassiveName>, b: &Vec<PassiveName>) -> (r: bool)
    ensures
        r == (passive_texts(a@) == passive_texts(b@)),
{
    let ghost left = passive_texts(a@);
    let ghost right = passive_texts(b@);
    if a.len() != b.len() {
        proof {
            assert(left.len() != right.len());
        }
        return false;
    }
    let mut i: usize = 0;
    while i < a.len()
        invariant
            a@.len() == b@.len(),
            i <= a@.len(),
            left == passive_texts(a@),
            right == passive_texts(b@),
            forall|j: int| 0 <= j < i ==> #[trigger] left[j] == right[j],
        decreases a@.len() - i,
    {
        proof {
            assert(left[i as int] == a@[i as int]@);
            assert(right[i as int] == b@[i as int]@);
        }
        if a[i] != b[i] {
            return false;
        }
        i = i + 1;
    }
    proof {
        assert(left =~= right);
    }
    true
}

/// A copy of a list of passive names.
pub fn copy_passives(names: &Vec<PassiveName>) -> (r: Vec<PassiveName>)
    ensures
        r@ == names@,
{
    let mut out: Vec<PassiveName> = Vec::new();
    let mut i: usize = 0;
    while i < names.len()
        invariant
            i <= names@.len(),
            out@ == names@.take(i as int),
        decreases names@.len() - i,
    {
        out.push(names[i].clone());
        proof {
            assert(names@.take(i + 1) =~= names@.take(i as int).push(names@[i as int]));
        }
        i = i + 1;
    }
    proof {
        assert(names@.take(i as int) =~= names@);
    }
    out
}

/// A copy of a list of pal names.
pub fn copy_pals(names: &Vec<PalName>) -> (r: Vec<PalName>)
    ensures
        r@ == names@,
{
    let mut out: Vec<PalName> = Vec::new();
    let mut i: usize = 0;
    while i < names.len()
        invariant
            i <= names@.len(),
            out@ == names@.take(i as int),
        decreases names@.len() - i,
    {
        out.push(names[i].clone());
        proof {
            assert(names@.take(i + 1) =~= names@.take(i as int).push(names@[i as int]));
        }
        i = i + 1;
    }
    proof {
        assert(names@.take(i as int) =~= names@);
    }
    out
}

#[derive(Clone, Copy, PartialEq, Eq, Structural, Hash, Debug)]
pub enum Gender {
    Male,
    Female,
}

/// Gender requirement on one parent slot of a [`BreedingCombo`]. Most
/// combos accept either gender; a few (Katress with Wixen) produce
/// different children depending on which parent is which.
#[derive(Clone, Copy, PartialEq, Eq, Structural, Hash, Debug)]
pub enum ParentGender {
    Wildcard,
    Exactly(Gender),
}

impl ParentGender {
    /// The slot takes a parent of this gender.
    pub open spec fn admits(self, gender: Gender) -> bool {
        self == ParentGender::Wildcard || self == ParentGender::Exactly(gender)
    }

    pub fn accepts(self, gender: Gender) -> (r: bool)
        ensures
            r == self.admits(gender),
    {
        match self {
            ParentGender::Wildcard => true,
            ParentGender::Exactly(required) => required == gender,
        }
    }
}

/// Paldex entry: dex number plus the variant flag. Alternate forms
/// share a dex number with `variant` set.
#[derive(Clone, Copy, PartialEq, Eq, Structural, Hash, Debug)]
pub struct PalId {
    pub dex: u16,
    pub variant: bool,
}

/// Certainty, in the parts in which gender probabilities are counted.
pub const CERTAIN: u32 = 1_000_000_000;

/// How far the two gender probabilities may miss certainty together.
pub const GENDER_TOLERANCE: u32 = 1_000;

/// Probability that a bred child of a species is male or female, in
/// parts of [`CERTAIN`]. Invariant: neither part exceeds certainty and
/// the two sum to it within [`GENDER_TOLERANCE`].
#[derive(Clone, Copy, PartialEq, Eq, Structural, Debug)]
pub struct GenderProbability {
    male: u32,
    female: u32,
}

#[derive(Clone, Copy, PartialEq, Eq, Structural, Debug)]
pub struct InvalidGenderProbability {
    pub male: u32,
    pub female: u32,
}

/// Neither part exceeds certainty and the two sum to it.
pub open spec fn gender_parts_valid(male: u32, female: u32) -> bool {
    &&& male <= CERTAIN
    &&& female <= CERTAIN
    &&& CERTAIN - GENDER_TOLERANCE <= male + female <= CERTAIN + GENDER_TOLERANCE
}

impl GenderProbability {
    /// The parts of certainty with which a child has this gender.
    pub closed spec fn part(self, gender: Gender) -> u32 {
        match gender {
            Gender::Male => self.male,
            Gender::Female => self.female,
        }
    }

    /// The invariant.
    pub open spec fn wf(self) -> bool {
        gender_parts_valid(self.part(Gender::Male), self.part(Gender::Female))
    }

    /// Rejects components above certainty or a pair not summing to it.
    pub fn new(male: u32, female: u32) -> (r: Result<Self, InvalidGenderProbability>)
        ensures
            r is Ok <==> gender_parts_valid(male, female),
            match r {
                Ok(p) => p.wf() && p.part(Gender::Male) == male && p.part(Gender::Female)
                    == female,
                Err(e) => e == (InvalidGenderProbability { male, female }),
            },
    {
        if male <= CERTAIN && female <= CERTAIN && male + female >= CERTAIN - GENDER_TOLERANCE
            && male + female <= CERTAIN + GENDER_TOLERANCE {
            Ok(GenderProbability { male, female })
        } else {
            Err(InvalidGenderProbability { male, female })
        }
    }

    pub fn of(self, gender: Gender) -> (r: u32)
        ensures
            r == self.part(gender),
    {
        match gender {
            Gender::Male => self.male,
            Gender::Female => self.female,
        }
    }
}

// ---------------------------------------------------------------------
// Individual values
// ---------------------------------------------------------------------
/// One breeding-relevant individual value, at most 100.
#[derive(Clone, Copy, PartialEq, Eq, Structural, Hash, Debug)]
pub struct IvValue(u8);

/// A number above the largest individual value.
#[derive(Clone, Copy, PartialEq, Eq, Structural, Debug)]
pub struct IvOutOfRange {
    pub value: u8,
}

impl IvOutOfRange {
    /// What a user is told.
    pub open spec fn text(self) -> Seq<char> {
        "IV "@ + crate::text::decimal(self.value as nat) + " is out of range (0-100)"@
    }

    pub fn message(&self) -> (r: String)
        ensures
            r@ == self.text(),
    {
        let mut out = "IV ".to_owned();
        out.append(crate::text::decimal_of(self.value as u128).as_str());
        out.append(" is out of range (0-100)");
        out
    }
}

/// The largest individual value.
pub const MAX_IV: u8 = 100;

impl View for IvValue {
    type V = u8;

    closed spec fn view(&self) -> u8 {
        self.0
    }
}

impl IvValue {
    #[verifier::type_invariant]
    spec fn in_range(self) -> bool {
        self.0 <= MAX_IV
    }

    pub fn get(self) -> (r: u8)
        ensures
            r == self@,
            r <= MAX_IV,
    {
        proof {
            use_type_invariant(&self);
        }
        self.0
    }

    /// The value `value`, or nothing above the largest one.
    pub fn from_number(value: u8) -> (r: Option<Self>)
        ensures
            r is Some <==> value <= MAX_IV,
            r is Some ==> r->0@ == value,
    {
        if value <= MAX_IV {
            Some(IvValue(value))
        } else {
            None
        }
    }

    /// The largest value.
    pub fn max() -> (r: Self)
        ensures
            r@ == MAX_IV,
    {
        IvValue(MAX_IV)
    }
}

impl Default for IvValue {
    fn default() -> (r: Self)
        ensures
            r@ == 0,
    {
        IvValue(0)
    }
}

/// The individual value a number stands for.
pub closed spec fn iv_of(value: u8) -> IvValue {
    IvValue(value)
}

/// Two individual values of the same size are the same.
pub broadcast proof fn lemma_iv_of(v: IvValue)
    ensures
        #[trigger] iv_of(v@) == v,
{
}

pub broadcast proof fn lemma_iv_of_view(value: u8)
    ensures
        (#[trigger] iv_of(value))@ == value,
{
}

impl TryFrom<u8> for IvValue {
    type Error = IvOutOfRange;

    fn try_from(value: u8) -> (r: Result<Self, IvOutOfRange>) {
        if value <= MAX_IV {
            Ok(IvValue(value))
        } else {
            Err(IvOutOfRange { value })
        }
    }
}

impl vstd::std_specs::convert::TryFromSpecImpl<u8> for IvValue {
    open spec fn obeys_try_from_spec() -> bool {
        true
    }

    open spec fn try_from_spec(value: u8) -> Result<Self, IvOutOfRange> {
        if value <= MAX_IV {
            Ok(iv_of(value))
        } else {
            Err(IvOutOfRange { value })
        }
    }
}

#[derive(Clone, Copy, PartialEq, Eq, Structural, Hash, Debug)]
pub enum IvStat {
    Hp,
    Attack,
    Defense,
}

/// The individual values of one pal.
#[derive(Clone, Copy, PartialEq, Eq, Structural, Hash, Debug)]
pub struct IvSpread {
    pub hp: IvValue,
    pub attack: IvValue,
    pub defense: IvValue,
}

impl IvSpread {
    /// The value of one stat.
    pub open spec fn stat(self, stat: IvStat) -> IvValue {
        match stat {
            IvStat::Hp => self.hp,
            IvStat::Attack => self.attack,
            IvStat::Defense => self.defense,
        }
    }

    pub fn get(self, stat: IvStat) -> (r: IvValue)
        ensures
            r == self.stat(stat),
    {
        match stat {
            IvStat::Hp => self.hp,
            IvStat::Attack => self.attack,
            IvStat::Defense => self.defense,
        }
    }
}

impl Default for IvSpread {
    fn default() -> (r: Self)
        ensures
            r.hp@ == 0,
            r.attack@ == 0,
            r.defense@ == 0,
    {
        IvSpread { hp: IvValue(0), attack: IvValue(0), defense: IvValue(0) }
    }
}

// ---------------------------------------------------------------------
// The pal database
// ---------------------------------------------------------------------
/// The levels at which a species is found in the wild.
#[derive(Clone, Copy, PartialEq, Eq, Structural, Debug)]
pub struct WildLevels {
    pub min: u8,
    pub max: u8,
}

impl WildLevels {
    /// The levels between two bounds: a species spawns in the wild only
    /// where both are given.
    pub open spec fn range(low: Option<u8>, high: Option<u8>) -> Option<WildLevels> {
        match (low, high) {
            (Some(min), Some(max)) => Some(WildLevels { min, max }),
            _ => None,
        }
    }

    /// The levels between two bounds, where both are given.
    pub fn between(low: Option<u8>, high: Option<u8>) -> (r: Option<Self>)
        ensures
            r == Self::range(low, high),
    {
        match (low, high) {
            (Some(min), Some(max)) => Some(WildLevels { min, max }),
            _ => None,
        }
    }
}

#[derive(Debug)]
pub struct Pal {
    pub id: PalId,
    pub name: PalName,
    pub display_name: String,
    pub breeding_power: u32,
    pub breeding_power_priority: u32,
    pub gender_probability: GenderProbability,
    pub guaranteed_passives: Vec<PassiveName>,
    /// Where the species spawns in the wild; `None` when it does not.
    pub wild_levels: Option<WildLevels>,
}

#[derive(Debug)]
pub struct PassiveSkill {
    pub name: PassiveName,
    pub display_name: String,
    pub rank: i8,
    pub standard: bool,
    pub random_inheritance_allowed: bool,
    pub random_inheritance_weight: u32,
    /// How the passive is installed by surgery; `None` when it cannot be.
    pub surgery: Option<Surgery>,
}

/// Canonical item identifier (the game's internal name).
#[derive(PartialEq, Eq, Hash, Debug)]
pub struct ItemName(String);

impl View for ItemName {
    type V = Seq<char>;

    closed spec fn view(&self) -> Seq<char> {
        self.0@
    }
}

impl ItemName {
    pub fn new(name: &str) -> (r: Self)
        ensures
            r@ == name@,
    {
        ItemName(name.to_owned())
    }

    pub fn as_str(&self) -> (r: &str)
        ensures
            r@ == self@,
    {
        self.0.as_str()
    }
}

/// What installing a passive by surgery takes.
#[derive(PartialEq, Eq, Debug)]
pub enum Surgery {
    Gold { cost: u32 },
    GoldAndItem { cost: u32, item: ItemName },
    Item { item: ItemName },
}

/// Inheritance weight tables, each keyed by outcome count (the weight
/// of a child inheriting exactly that many passives).
#[derive(Debug)]
pub struct BreedingMechanics {
    pub iv_inheritance_weights: BTreeMap<u8, u32>,
    pub passive_inheritance_weights: BTreeMap<u8, u32>,
    pub passive_random_weights: BTreeMap<u8, u32>,
}

/// No two pals share an internal name.
pub open spec fn pals_distinct(pals: Seq<Pal>) -> bool {
    forall|i: int, j: int|
        0 <= i < j < pals.len() ==> #[trigger] pals[i].name@ != #[trigger] pals[j].name@
}

/// No two passives share an internal name.
pub open spec fn skills_distinct(skills: Seq<PassiveSkill>) -> bool {
    forall|i: int, j: int|
        0 <= i < j < skills.len() ==> #[trigger] skills[i].name@ != #[trigger] skills[j].name@
}

/// A pal has this internal name.
pub open spec fn pal_named(name: Seq<char>) -> spec_fn(Pal) -> bool {
    |p: Pal| p.name@ == name
}

/// A passive has this internal name.
pub open spec fn skill_named(name: Seq<char>) -> spec_fn(PassiveSkill) -> bool {
    |p: PassiveSkill| p.name@ == name
}

/// A user-facing name stands for a pal: its internal or its display
/// name, whatever the letter case.
pub open spec fn pal_answering(name: Seq<char>) -> spec_fn(Pal) -> bool {
    |p: Pal| same_ignoring_case(p.name@, name) || same_ignoring_case(p.display_name@, name)
}

/// A user-facing name stands for a passive.
pub open spec fn skill_answering(name: Seq<char>) -> spec_fn(PassiveSkill) -> bool {
    |p: PassiveSkill|
        same_ignoring_case(p.name@, name) || same_ignoring_case(p.display_name@, name)
}

/// The position of the pal with this internal name.
pub open spec fn pal_position(pals: Seq<Pal>, name: Seq<char>) -> Option<int> {
    first_where(pals, pal_named(name))
}

/// The position of the passive with this internal name.
pub open spec fn skill_position(skills: Seq<PassiveSkill>, name: Seq<char>) -> Option<int> {
    first_where(skills, skill_named(name))
}

/// What `pal_position` is.
pub proof fn lemma_pal_position(pals: Seq<Pal>, name: Seq<char>)
    ensures
        match pal_position(pals, name) {
            Some(i) => 0 <= i < pals.len() && pals[i].name@ == name && forall|j: int|
                0 <= j < i ==> (#[trigger] pals[j]).name@ != name,
            None => forall|j: int| 0 <= j < pals.len() ==> (#[trigger] pals[j]).name@ != name,
        },
{
    lemma_first_where(pals, pal_named(name));
}

/// What `skill_position` is.
pub proof fn lemma_skill_position(skills: Seq<PassiveSkill>, name: Seq<char>)
    ensures
        match skill_position(skills, name) {
            Some(i) => 0 <= i < skills.len() && skills[i].name@ == name && forall|j: int|
                0 <= j < i ==> (#[trigger] skills[j]).name@ != name,
            None => forall|j: int| 0 <= j < skills.len() ==> (#[trigger] skills[j]).name@ != name,
        },
{
    lemma_first_where(skills, skill_named(name));
}

/// The map from name to position that a list of names gives.
pub open spec fn indexes(index: Map<Seq<char>, usize>, names: Seq<Seq<char>>) -> bool {
    &&& forall|i: int|
        0 <= i < names.len() ==> index.dom().contains(#[trigger] names[i]) && index[names[i]] == i
    &&& forall|n: Seq<char>| #[trigger]
        index.dom().contains(n) ==> index[n] < names.len() && names[index[n] as int] == n
}

/// The internal names of a list of pals.
pub open spec fn pal_names(pals: Seq<Pal>) -> Seq<Seq<char>> {
    pals.map_values(|p: Pal| p.name@)
}

/// The internal names of a list of passives.
pub open spec fn skill_names(skills: Seq<PassiveSkill>) -> Seq<Seq<char>> {
    skills.map_values(|p: PassiveSkill| p.name@)
}

/// The pal and passive database: species, skills, and breeding
/// mechanics. Built only by [`crate::db::parse_pal_db`].
pub struct PalDb {
    version: DbVersion,
    pals: Vec<Pal>,
    pal_index: StringHashMap<usize>,
    passives: Vec<PassiveSkill>,
    passive_index: StringHashMap<usize>,
    mechanics: BreedingMechanics,
}

impl PalDb {
    /// The version tag.
    pub closed spec fn tag(&self) -> Seq<char> {
        self.version@
    }

    /// Every pal of the database, in its order.
    pub closed spec fn all(&self) -> Seq<Pal> {
        self.pals@
    }

    /// Every passive of the database, in its order.
    pub closed spec fn skills(&self) -> Seq<PassiveSkill> {
        self.passives@
    }

    /// The inheritance weight tables.
    pub closed spec fn tables(&self) -> BreedingMechanics {
        self.mechanics
    }

    /// The name indexes agree with the lists.
    pub closed spec fn indexed(&self) -> bool {
        &&& indexes(self.pal_index@, pal_names(self.pals@))
        &&& indexes(self.passive_index@, skill_names(self.passives@))
    }

    /// The invariant: names are unique, probabilities valid, and every
    /// guaranteed passive is in the database.
    pub open spec fn wf(&self) -> bool {
        &&& self.indexed()
        &&& self.all().len() <= u32::MAX
        &&& pals_distinct(self.all())
        &&& skills_distinct(self.skills())
        &&& forall|i: int|
            0 <= i < self.all().len() ==> (#[trigger] self.all()[i]).gender_probability.wf()
        &&& forall|i: int, k: int|
            0 <= i < self.all().len() && 0 <= k < self.all()[i].guaranteed_passives@.len() ==> {
                skill_names(self.skills()).contains(
                    (#[trigger] self.all()[i].guaranteed_passives@[k])@,
                )
            }
    }

    /// The pal with this internal name.
    pub open spec fn lookup(&self, name: Seq<char>) -> Option<Pal> {
        match pal_position(self.all(), name) {
            Some(i) => Some(self.all()[i]),
            None => None,
        }
    }

    /// The database has a pal with this internal name.
    pub open spec fn knows(&self, name: Seq<char>) -> bool {
        pal_position(self.all(), name) is Some
    }

    /// The passive with this internal name.
    pub open spec fn lookup_skill(&self, name: Seq<char>) -> Option<PassiveSkill> {
        match skill_position(self.skills(), name) {
            Some(i) => Some(self.skills()[i]),
            None => None,
        }
    }

    /// The first pal that a user-facing name stands for.
    pub open spec fn found(&self, name: Seq<char>) -> Option<Pal> {
        match first_where(self.all(), pal_answering(name)) {
            Some(i) => Some(self.all()[i]),
            None => None,
        }
    }

    /// The first passive that a user-facing name stands for.
    pub open spec fn found_skill(&self, name: Seq<char>) -> Option<PassiveSkill> {
        match first_where(self.skills(), skill_answering(name)) {
            Some(i) => Some(self.skills()[i]),
            None => None,
        }
    }

    pub(crate) fn new(
        version: DbVersion,
        pals: Vec<Pal>,
        pal_index: StringHashMap<usize>,
        passives: Vec<PassiveSkill>,
        passive_index: StringHashMap<usize>,
        mechanics: BreedingMechanics,
    ) -> (r: Self)
        requires
            indexes(pal_index@, pal_names(pals@)),
            indexes(passive_index@, skill_names(passives@)),
            pals@.len() <= u32::MAX,
            forall|i: int| 0 <= i < pals@.len() ==> (#[trigger] pals@[i]).gender_probability.wf(),
            forall|i: int, k: int|
                0 <= i < pals@.len() && 0 <= k < pals@[i].guaranteed_passives@.len() ==> {
                    skill_names(passives@).contains(
                        (#[trigger] pals@[i].guaranteed_passives@[k])@,
                    )
                },
        ensures
            r.wf(),
            r.tag() == version@,
            r.all() == pals@,
            r.skills() == passives@,
            r.tables() == mechanics,
    {
        proof {
            assert forall|i: int, j: int| 0 <= i < j < pals@.len() implies #[trigger] pals@[i].name@
                != #[trigger] pals@[j].name@ by {
                assert(pal_names(pals@)[i] == pals@[i].name@);
                assert(pal_names(pals@)[j] == pals@[j].name@);
            }
            assert forall|i: int, j: int|
                0 <= i < j < passives@.len() implies #[trigger] passives@[i].name@
                != #[trigger] passives@[j].name@ by {
                assert(skill_names(passives@)[i] == passives@[i].name@);
                assert(skill_names(passives@)[j] == passives@[j].name@);
            }
        }
        PalDb { version, pals, pal_index, passives, passive_index, mechanics }
    }

    pub fn version(&self) -> (r: &DbVersion)
        ensures
            r@ == self.tag(),
    {
        &self.version
    }

    pub fn pal(&self, name: &PalName) -> (r: Option<&Pal>)
        requires
            self.wf(),
        ensures
            match r {
                Some(p) => self.lookup(name@) == Some(*p),
                None => self.lookup(name@) is None,
            },
    {
        proof {
            lemma_pal_position(self.pals@, name@);
        }
        match self.pal_index.get(name.as_str()) {
            Some(i) => {
                proof {
                    assert(pal_names(self.pals@)[*i as int] == self.pals@[*i as int].name@);
                }
                Some(&self.pals[*i])
            },
            None => {
                proof {
                    if let Some(i) = pal_position(self.all(), name@) {
                        assert(pal_names(self.pals@)[i] == name@);
                    }
                }
                None
            },
        }
    }

    /// Every pal, in the order of the database.
    pub fn pals(&self) -> (r: &Vec<Pal>)
        ensures
            r@ == self.all(),
    {
        &self.pals
    }

    pub fn passive(&self, name: &PassiveName) -> (r: Option<&PassiveSkill>)
        requires
            self.wf(),
        ensures
            match r {
                Some(p) => self.lookup_skill(name@) == Some(*p),
                None => self.lookup_skill(name@) is None,
            },
    {
        proof {
            lemma_skill_position(self.passives@, name@);
        }
        match self.passive_index.get(name.as_str()) {
            Some(i) => {
                proof {
                    assert(skill_names(self.passives@)[*i as int] == self.passives@[*i as int].name@);
                }
                Some(&self.passives[*i])
            },
            None => {
                proof {
                    if let Some(i) = skill_position(self.skills(), name@) {
                        assert(skill_names(self.passives@)[i] == name@);
                    }
                }
                None
            },
        }
    }

    /// Every passive, in the order of the database.
    pub fn passives(&self) -> (r: &Vec<PassiveSkill>)
        ensures
            r@ == self.skills(),
    {
        &self.passives
    }

    pub fn mechanics(&self) -> (r: &BreedingMechanics)
        ensures
            *r == self.tables(),
    {
        &self.mechanics
    }

    /// The first pal whose internal or display name is `name`, whatever
    /// the letter case.
    pub fn find_pal(&self, name: &str) -> (r: Option<&Pal>)
        ensures
            match r {
                Some(p) => self.found(name@) == Some(*p),
                None => self.found(name@) is None,
            },
    {
        let ghost answers = pal_answering(name@);
        proof {
            lemma_first_where(self.pals@, answers);
        }
        let mut i: usize = 0;
        while i < self.pals.len()
            invariant
                i <= self.pals@.len(),
                answers == pal_answering(name@),
                forall|j: int| 0 <= j < i ==> !answers(self.pals@[j]),
            decreases self.pals@.len() - i,
        {
            let pal = &self.pals[i];
            if eq_ignoring_case(pal.name.as_str(), name) || eq_ignoring_case(
                pal.display_name.as_str(),
                name,
            ) {
                proof {
                    assert(answers(self.pals@[i as int]));
                    lemma_first_where(self.pals@, answers);
                }
                return Some(pal);
            }
            i = i + 1;
        }
        None
    }

    /// The first passive whose internal or display name is `name`,
    /// whatever the letter case.
    pub fn find_passive(&self, name: &str) -> (r: Option<&PassiveSkill>)
        ensures
            match r {
                Some(p) => self.found_skill(name@) == Some(*p),
                None => self.found_skill(name@) is None,
            },
    {
        let ghost answers = skill_answering(name@);
        proof {
            lemma_first_where(self.passives@, answers);
        }
        let mut i: usize = 0;
        while i < self.passives.len()
            invariant
                i <= self.passives@.len(),
                answers == skill_answering(name@),
                forall|j: int| 0 <= j < i ==> !answers(self.passives@[j]),
            decreases self.passives@.len() - i,
        {
            let skill = &self.passives[i];
            if eq_ignoring_case(skill.name.as_str(), name) || eq_ignoring_case(
                skill.display_name.as_str(),
                name,
            ) {
                proof {
                    assert(answers(self.passives@[i as int]));
                    lemma_first_where(self.passives@, answers);
                }
                return Some(skill);
            }
            i = i + 1;
        }
        None
    }
}

// ---------------------------------------------------------------------
// Breeding rules
// ---------------------------------------------------------------------
#[derive(Debug)]
pub struct BreedingParent {
    pub name: PalName,
    pub gender: ParentGender,
}

/// One breeding rule: the two parent slots and the resulting child
/// species.
#[derive(Debug)]
pub struct BreedingCombo {
    pub parents: [BreedingParent; 2],
    pub child: PalName,
}

/// Breeding rules plus the minimum number of breeding steps between any
/// two species. Built only by [`crate::db::parse_breeding_db`].
pub struct BreedingDb {
    combos: Vec<BreedingCombo>,
    min_steps: StringHashMap<StringHashMap<u32>>,
}

/// The entry of a two-level table.
pub open spec fn entry(
    table: Map<Seq<char>, StringHashMap<u32>>,
    from: Seq<char>,
    to: Seq<char>,
) -> Option<u32> {
    if table.dom().contains(from) && table[from]@.dom().contains(to) {
        Some(table[from]@[to])
    } else {
        None
    }
}

impl BreedingDb {
    /// The breeding rules, in their order.
    pub closed spec fn rules(&self) -> Seq<BreedingCombo> {
        self.combos@
    }

    /// The stated minimum number of steps.
    pub closed spec fn stated_steps(&self, from: Seq<char>, to: Seq<char>) -> Option<u32> {
        entry(self.min_steps@, from, to)
    }

    pub(crate) fn new(
        combos: Vec<BreedingCombo>,
        min_steps: StringHashMap<StringHashMap<u32>>,
    ) -> (r: Self)
        ensures
            r.rules() == combos@,
            forall|from: Seq<char>, to: Seq<char>|
                #![trigger r.stated_steps(from, to)]
                r.stated_steps(from, to) == entry(min_steps@, from, to),
    {
        BreedingDb { combos, min_steps }
    }

    pub fn combos(&self) -> (r: &[BreedingCombo])
        ensures
            r@ == self.rules(),
    {
        self.combos.as_slice()
    }

    /// Minimum breeding steps from `from` to `to`; `None` when `to`
    /// cannot be bred into from `from`.
    pub fn min_steps(&self, from: &PalName, to: &PalName) -> (r: Option<u32>)
        ensures
            r == self.stated_steps(from@, to@),
    {
        match self.min_steps.get(from.as_str()) {
            Some(row) => match row.get(to.as_str()) {
                Some(steps) => Some(*steps),
                None => None,
            },
            None => None,
        }
    }
}

/// A pal answers to its internal and its display name, whatever the
/// letter case; whoever is found answers to the name, and none before it
/// does.
pub proof fn law_names_answer_in_any_case(db: PalDb, i: int, name: Seq<char>)
    requires
        0 <= i < db.all().len(),
        crate::text::lower(name) == crate::text::lower(db.all()[i].name@) || crate::text::lower(
            name,
        ) == crate::text::lower(db.all()[i].display_name@),
    ensures
        db.found(name) matches Some(pal) && (crate::text::lower(pal.name@) == crate::text::lower(
            name,
        ) || crate::text::lower(pal.display_name@) == crate::text::lower(name)),
        (forall|j: int|
            0 <= j < i ==> crate::text::lower((#[trigger] db.all()[j]).name@)
                != crate::text::lower(name) && crate::text::lower(db.all()[j].display_name@)
                != crate::text::lower(name)) ==> db.found(name) == Some(db.all()[i]),
{
    let answers = pal_answering(name);
    crate::seqs::lemma_first_where(db.all(), answers);
    assert(answers(db.all()[i]));
    match first_where(db.all(), answers) {
        Some(k) => {
            assert(answers(db.all()[k]));
            if forall|j: int|
                0 <= j < i ==> crate::text::lower((#[trigger] db.all()[j]).name@)
                    != crate::text::lower(name) && crate::text::lower(db.all()[j].display_name@)
                    != crate::text::lower(name) {
                if k < i {
                    assert(crate::text::lower(db.all()[k].name@) != crate::text::lower(name));
                }
            }
        },
        None => {},
    }
}

/// A passive answers to its internal and its display name, whatever the
/// letter case; whoever is found answers to the name, and none before it
/// does.
pub proof fn law_passive_names_answer_in_any_case(db: PalDb, i: int, name: Seq<char>)
    requires
        0 <= i < db.skills().len(),
        crate::text::lower(name) == crate::text::lower(db.skills()[i].name@) || crate::text::lower(
            name,
        ) == crate::text::lower(db.skills()[i].display_name@),
    ensures
        db.found_skill(name) matches Some(skill) && (crate::text::lower(skill.name@)
            == crate::text::lower(name) || crate::text::lower(skill.display_name@)
            == crate::text::lower(name)),
        (forall|j: int|
            0 <= j < i ==> crate::text::lower((#[trigger] db.skills()[j]).name@)
                != crate::text::lower(name) && crate::text::lower(db.skills()[j].display_name@)
                != crate::text::lower(name)) ==> db.found_skill(name) == Some(db.skills()[i]),
{
    let answers = skill_answering(name);
    crate::seqs::lemma_first_where(db.skills(), answers);
    assert(answers(db.skills()[i]));
    match first_where(db.skills(), answers) {
        Some(k) => {
            assert(answers(db.skills()[k]));
            if forall|j: int|
                0 <= j < i ==> crate::text::lower((#[trigger] db.skills()[j]).name@)
                    != crate::text::lower(name) && crate::text::lower(db.skills()[j].display_name@)
                    != crate::text::lower(name) {
                if k < i {
                    assert(crate::text::lower(db.skills()[k].name@) != crate::text::lower(name));
                }
            }
        },
        None => {},
    }
}

} // verus!
