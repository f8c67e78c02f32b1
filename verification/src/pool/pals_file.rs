//! A hand-written owned-pal pool, the file alternative to save import.
//!
//! Species and passive names accept internal or display names, whatever
//! the letter case; resolution happens here so callers only see typed
//! [`OwnedPal`]s.
//!
//! ```toml
//! [[pals]]
//! species = "Lamball"
//! gender = "male"
//! passives = ["Swift"]
//! ivs = { hp = 85, attack = 92, defense = 70 }  # optional; 0 if omitted
//! ```

use vstd::prelude::*;

use crate::model::passive_texts;
use crate::model::Gender;
use crate::model::IvOutOfRange;
use crate::model::IvSpread;
use crate::model::IvValue;
use crate::model::PalDb;
use crate::model::PassiveName;
use crate::model::MAX_IV;
use crate::search::plan::OwnedPal;
use crate::search::plan::OwnedView;
use crate::seqs::first_where;
use crate::seqs::lemma_first_where;
use crate::text::debug_quoted;
use crate::text::lower;
use crate::text::quoted;
use crate::text::same_text;

verus! {

/// The individual values of an entry, as written.
#[derive(Clone, Copy, PartialEq, Eq, Structural, Debug)]
pub struct RawIvs {
    pub hp: u8,
    pub attack: u8,
    pub defense: u8,
}

/// One entry of the file, as written.
#[derive(PartialEq, Eq, Debug)]
pub struct RawPal {
    pub species: String,
    pub gender: String,
    pub passives: Vec<String>,
    pub ivs: RawIvs,
}

/// Why a pals file is rejected.
#[derive(PartialEq, Eq, Debug)]
pub enum PalsFileError {
    InvalidToml(String),
    UnknownSpecies { species: String },
    InvalidGender { gender: String },
    UnknownPassive { passive: String, species: String },
}

/// Why a pals file is rejected, as plain values.
pub enum FileFault {
    InvalidToml(Seq<char>),
    UnknownSpecies(Seq<char>),
    InvalidGender(Seq<char>),
    UnknownPassive { passive: Seq<char>, species: Seq<char> },
}

impl View for PalsFileError {
    type V = FileFault;

    open spec fn view(&self) -> FileFault {
        match *self {
            PalsFileError::InvalidToml(cause) => FileFault::InvalidToml(cause@),
            PalsFileError::UnknownSpecies { species } => FileFault::UnknownSpecies(species@),
            PalsFileError::InvalidGender { gender } => FileFault::InvalidGender(gender@),
            PalsFileError::UnknownPassive { passive, species } => FileFault::UnknownPassive {
                passive: passive@,
                species: species@,
            },
        }
    }
}

impl FileFault {
    /// What a user is told.
    pub open spec fn text(self) -> Seq<char> {
        match self {
            FileFault::InvalidToml(cause) => "pals file is not valid TOML: "@ + cause,
            FileFault::UnknownSpecies(species) => "unknown species "@ + debug_quoted(species),
            FileFault::InvalidGender(gender) => "gender must be male or female, got "@
                + debug_quoted(gender),
            FileFault::UnknownPassive { passive, species } => "unknown passive "@ + debug_quoted(
                passive,
            ) + " on "@ + debug_quoted(species),
        }
    }
}

impl PalsFileError {
    pub fn message(&self) -> (r: String)
        ensures
            r@ == self@.text(),
    {
        match self {
            PalsFileError::InvalidToml(cause) => {
                let mut out = "pals file is not valid TOML: ".to_owned();
                out.append(cause.as_str());
                out
            },
            PalsFileError::UnknownSpecies { species } => {
                let mut out = "unknown species ".to_owned();
                out.append(quoted(species.as_str()).as_str());
                out
            },
            PalsFileError::InvalidGender { gender } => {
                let mut out = "gender must be male or female, got ".to_owned();
                out.append(quoted(gender.as_str()).as_str());
                out
            },
            PalsFileError::UnknownPassive { passive, species } => {
                let mut out = "unknown passive ".to_owned();
                out.append(quoted(passive.as_str()).as_str());
                out.append(" on ");
                out.append(quoted(species.as_str()).as_str());
                out
            },
        }
    }
}

// ---------------------------------------------------------------------
// What an entry means
// ---------------------------------------------------------------------
/// The gender a word stands for, whatever the letter case.
pub open spec fn spoken_gender(word: Seq<char>) -> Option<Gender> {
    let word = lower(word);
    if word == "male"@ || word == "m"@ {
        Some(Gender::Male)
    } else if word == "female"@ || word == "f"@ {
        Some(Gender::Female)
    } else {
        None
    }
}

/// The gender a word stands for: `male`, `m`, `female` or `f`.
pub fn gender_of(word: &str) -> (r: Option<Gender>)
    ensures
        r == spoken_gender(word@),
{
    let word = word.to_ascii_lowercase();
    let word = word.as_str();
    if same_text(word, "male") || same_text(word, "m") {
        Some(Gender::Male)
    } else if same_text(word, "female") || same_text(word, "f") {
        Some(Gender::Female)
    } else {
        None
    }
}

/// The first value of an entry that is too large.
pub open spec fn excess(ivs: RawIvs) -> Option<u8> {
    if ivs.hp > MAX_IV {
        Some(ivs.hp)
    } else if ivs.attack > MAX_IV {
        Some(ivs.attack)
    } else if ivs.defense > MAX_IV {
        Some(ivs.defense)
    } else {
        None
    }
}

/// An entry has a value that is too large.
pub open spec fn excessive() -> spec_fn(RawPal) -> bool {
    |raw: RawPal| excess(raw.ivs) is Some
}

/// A passive name stands for nothing in the database.
pub open spec fn strange_passive(db: PalDb) -> spec_fn(String) -> bool {
    |name: String| db.found_skill(name@) is None
}

/// What is wrong with an entry whose values are in range.
pub open spec fn fault_of(db: PalDb, raw: RawPal) -> Option<FileFault> {
    if db.found(raw.species@) is None {
        Some(FileFault::UnknownSpecies(raw.species@))
    } else if spoken_gender(raw.gender@) is None {
        Some(FileFault::InvalidGender(raw.gender@))
    } else {
        match first_where(raw.passives@, strange_passive(db)) {
            Some(k) => Some(
                FileFault::UnknownPassive { passive: raw.passives@[k]@, species: raw.species@ },
            ),
            None => None,
        }
    }
}

/// An entry is faulty.
pub open spec fn faulty(db: PalDb) -> spec_fn(RawPal) -> bool {
    |raw: RawPal| fault_of(db, raw) is Some
}

/// What is wrong with a file: values out of range come before names
/// that do not resolve.
pub open spec fn file_fault(db: PalDb, raws: Seq<RawPal>) -> Option<FileFault> {
    match first_where(raws, excessive()) {
        Some(i) => Some(
            FileFault::InvalidToml((IvOutOfRange { value: excess(raws[i].ivs)->0 }).text()),
        ),
        None => match first_where(raws, faulty(db)) {
            Some(i) => fault_of(db, raws[i]),
            None => None,
        },
    }
}

/// `pal` is what a faultless entry means.
pub open spec fn means(db: PalDb, raw: RawPal, pal: OwnedView) -> bool {
    &&& pal.species == db.found(raw.species@)->0.name@
    &&& pal.gender == spoken_gender(raw.gender@)->0
    &&& pal.passives == raw.passives@.map_values(|name: String| db.found_skill(name@)->0.name@)
    &&& pal.ivs.hp@ == raw.ivs.hp
    &&& pal.ivs.attack@ == raw.ivs.attack
    &&& pal.ivs.defense@ == raw.ivs.defense
}

/// The values of an entry that are in range.
fn ivs_of(raw: RawIvs) -> (r: Result<IvSpread, IvOutOfRange>)
    ensures
        match r {
            Ok(ivs) => excess(raw) is None && ivs.hp@ == raw.hp && ivs.attack@ == raw.attack
                && ivs.defense@ == raw.defense,
            Err(error) => excess(raw) == Some(error.value),
        },
{
    let hp = match IvValue::from_number(raw.hp) {
        Some(value) => value,
        None => {
            return Err(IvOutOfRange { value: raw.hp });
        },
    };
    let attack = match IvValue::from_number(raw.attack) {
        Some(value) => value,
        None => {
            return Err(IvOutOfRange { value: raw.attack });
        },
    };
    let defense = match IvValue::from_number(raw.defense) {
        Some(value) => value,
        None => {
            return Err(IvOutOfRange { value: raw.defense });
        },
    };
    Ok(IvSpread { hp, attack, defense })
}

fn resolve(raw: &RawPal, ivs: IvSpread, db: &PalDb) -> (r: Result<OwnedPal, PalsFileError>)
    requires
        ivs.hp@ == raw.ivs.hp,
        ivs.attack@ == raw.ivs.attack,
        ivs.defense@ == raw.ivs.defense,
    ensures
        match r {
            Ok(pal) => fault_of(*db, *raw) is None && means(*db, *raw, pal@),
            Err(error) => fault_of(*db, *raw) == Some(error@),
        },
{
    let pal = match db.find_pal(raw.species.as_str()) {
        Some(pal) => pal,
        None => {
            return Err(PalsFileError::UnknownSpecies { species: raw.species.clone() });
        },
    };
    let gender = match gender_of(raw.gender.as_str()) {
        Some(gender) => gender,
        None => {
            return Err(PalsFileError::InvalidGender { gender: raw.gender.clone() });
        },
    };
    let ghost strange = strange_passive(*db);
    proof {
        lemma_first_where(raw.passives@, strange);
    }
    let mut passives: Vec<PassiveName> = Vec::new();
    let mut i: usize = 0;
    while i < raw.passives.len()
        invariant
            strange == strange_passive(*db),
            i <= raw.passives@.len(),
            passives@.len() == i,
            forall|j: int| 0 <= j < i ==> !strange(#[trigger] raw.passives@[j]),
            forall|j: int|
                0 <= j < i ==> (#[trigger] passives@[j])@ == db.found_skill(
                    raw.passives@[j]@,
                )->0.name@,
            db.found(raw.species@) is Some,
            spoken_gender(raw.gender@) is Some,
        decreases raw.passives@.len() - i,
    {
        let name = &raw.passives[i];
        match db.find_passive(name.as_str()) {
            Some(skill) => {
                passives.push(skill.name.clone());
            },
            None => {
                proof {
                    assert(strange(raw.passives@[i as int]));
                    lemma_first_where(raw.passives@, strange);
                }
                return Err(
                    PalsFileError::UnknownPassive {
                        passive: name.clone(),
                        species: raw.species.clone(),
                    },
                );
            },
        }
        i = i + 1;
    }
    proof {
        assert(passive_texts(passives@) =~= raw.passives@.map_values(
            |name: String| db.found_skill(name@)->0.name@,
        ));
    }
    Ok(OwnedPal { species: pal.name.clone(), gender, passives, ivs })
}

/// Resolves the entries of a pals file against `db`.
///
/// Fails on values out of range or on any species, passive, or gender
/// that does not resolve.
pub fn parse(raws: &Vec<RawPal>, db: &PalDb) -> (r: Result<Vec<OwnedPal>, PalsFileError>)
    ensures
        match r {
            Ok(pals) => {
                &&& file_fault(*db, raws@) is None
                &&& pals@.len() == raws@.len()
                &&& forall|i: int|
                    0 <= i < pals@.len() ==> means(*db, raws@[i], (#[trigger] pals@[i])@)
                &&& forall|i: int|
                    0 <= i < pals@.len() ==> (#[trigger] pals@[i]).ivs.hp@ == raws@[i].ivs.hp
                        && pals@[i].ivs.attack@ == raws@[i].ivs.attack && pals@[i].ivs.defense@
                        == raws@[i].ivs.defense
            },
            Err(error) => file_fault(*db, raws@) == Some(error@),
        },
{
    let ghost too_large = excessive();
    let ghost bad = faulty(*db);
    proof {
        lemma_first_where(raws@, too_large);
    }
    let mut spreads: Vec<IvSpread> = Vec::new();
    let mut i: usize = 0;
    while i < raws.len()
        invariant
            too_large == excessive(),
            i <= raws@.len(),
            spreads@.len() == i,
            forall|j: int| 0 <= j < i ==> !too_large(#[trigger] raws@[j]),
            forall|j: int|
                0 <= j < i ==> (#[trigger] spreads@[j]).hp@ == raws@[j].ivs.hp
                    && spreads@[j].attack@ == raws@[j].ivs.attack && spreads@[j].defense@
                    == raws@[j].ivs.defense,
        decreases raws@.len() - i,
    {
        match ivs_of(raws[i].ivs) {
            Ok(ivs) => {
                spreads.push(ivs);
            },
            Err(error) => {
                proof {
                    assert(too_large(raws@[i as int]));
                    lemma_first_where(raws@, too_large);
                }
                return Err(PalsFileError::InvalidToml(error.message()));
            },
        }
        i = i + 1;
    }
    proof {
        lemma_first_where(raws@, too_large);
        lemma_first_where(raws@, bad);
    }
    let mut pals: Vec<OwnedPal> = Vec::new();
    let mut k: usize = 0;
    while k < raws.len()
        invariant
            bad == faulty(*db),
            first_where(raws@, excessive()) is None,
            k <= raws@.len(),
            spreads@.len() == raws@.len(),
            pals@.len() == k,
            forall|j: int| 0 <= j < k ==> !bad(#[trigger] raws@[j]),
            forall|j: int|
                0 <= j < spreads@.len() ==> (#[trigger] spreads@[j]).hp@ == raws@[j].ivs.hp
                    && spreads@[j].attack@ == raws@[j].ivs.attack && spreads@[j].defense@
                    == raws@[j].ivs.defense,
            forall|j: int| 0 <= j < k ==> means(*db, raws@[j], (#[trigger] pals@[j])@),
        decreases raws@.len() - k,
    {
        match resolve(&raws[k], spreads[k], db) {
            Ok(pal) => {
                pals.push(pal);
            },
            Err(error) => {
                proof {
                    assert(bad(raws@[k as int]));
                    lemma_first_where(raws@, bad);
                }
                return Err(error);
            },
        }
        k = k + 1;
    }
    proof {
        lemma_first_where(raws@, bad);
    }
    Ok(pals)
}

/// Every pal of a file that parses is of a species of the database.
pub proof fn law_listed_species_resolve(db: PalDb, raw: RawPal, pal: OwnedView)
    requires
        db.wf(),
        fault_of(db, raw) is None,
        means(db, raw, pal),
    ensures
        db.knows(pal.species),
{
    let p = crate::model::pal_answering(raw.species@);
    lemma_first_where(db.all(), p);
    let i = first_where(db.all(), p)->0;
    crate::model::lemma_pal_position(db.all(), pal.species);
    assert(db.all()[i].name@ == pal.species);
}

/// Loading keeps what is written: the pal of an entry has each of its
/// three values, the gender that its word stands for, the name of the
/// species that its name stands for, and for each of its passives, in
/// order, the name of the skill.
pub proof fn law_loading_keeps_what_is_written(
    db: PalDb,
    raws: Seq<RawPal>,
    pals: Seq<OwnedView>,
    i: int,
)
    requires
        file_fault(db, raws) is None,
        pals.len() == raws.len(),
        forall|j: int| 0 <= j < pals.len() ==> means(db, raws[j], #[trigger] pals[j]),
        0 <= i < pals.len(),
    ensures
        pals[i].ivs.hp@ == raws[i].ivs.hp,
        pals[i].ivs.attack@ == raws[i].ivs.attack,
        pals[i].ivs.defense@ == raws[i].ivs.defense,
        pals[i].gender is Male <==> lower(raws[i].gender@) == "male"@ || lower(raws[i].gender@)
            == "m"@,
        pals[i].gender is Female <==> lower(raws[i].gender@) == "female"@ || lower(
            raws[i].gender@,
        ) == "f"@,
        db.found(raws[i].species@) matches Some(pal) && pals[i].species == pal.name@,
        pals[i].passives.len() == raws[i].passives@.len(),
        forall|k: int|
            0 <= k < raws[i].passives@.len() ==> (db.found_skill(
                (#[trigger] raws[i].passives@[k])@,
            ) matches Some(skill) && pals[i].passives[k] == skill.name@),
{
    let bad = faulty(db);
    lemma_first_where(raws, bad);
    assert(!bad(raws[i]));
    assert(means(db, raws[i], pals[i]));
    reveal_strlit("male");
    reveal_strlit("m");
    reveal_strlit("female");
    reveal_strlit("f");
    assert("m"@.len() == 1 && "f"@.len() == 1 && "m"@[0] != "f"@[0]);
    assert("male"@.len() == 4 && "female"@.len() == 6);
    let strange = strange_passive(db);
    lemma_first_where(raws[i].passives@, strange);
    assert forall|k: int| 0 <= k < raws[i].passives@.len() implies (db.found_skill(
        (#[trigger] raws[i].passives@[k])@,
    ) matches Some(skill) && pals[i].passives[k] == skill.name@) by {
        assert(!strange(raws[i].passives@[k]));
    }
}

/// A file is refused only for what it says: with every value at most one
/// hundred, every species and passive known and every gender word
/// understood, it loads; and one bad entry is enough to refuse it.
pub proof fn law_files_are_refused_for_a_reason(db: PalDb, raws: Seq<RawPal>)
    ensures
        file_fault(db, raws) is None <==> forall|i: int|
            #![trigger raws[i]]
            0 <= i < raws.len() ==> {
                &&& raws[i].ivs.hp <= 100 && raws[i].ivs.attack <= 100 && raws[i].ivs.defense
                    <= 100
                &&& db.found(raws[i].species@) is Some
                &&& spoken_gender(raws[i].gender@) is Some
                &&& forall|k: int|
                    0 <= k < raws[i].passives@.len() ==> db.found_skill(
                        (#[trigger] raws[i].passives@[k])@,
                    ) is Some
            },
{
    let bad = faulty(db);
    let large = excessive();
    let strange = strange_passive(db);
    lemma_first_where(raws, bad);
    lemma_first_where(raws, large);
    assert forall|i: int|
        #![trigger raws[i]]
        0 <= i < raws.len() implies (bad(raws[i]) || large(raws[i])) == !({
        &&& raws[i].ivs.hp <= 100 && raws[i].ivs.attack <= 100 && raws[i].ivs.defense <= 100
        &&& db.found(raws[i].species@) is Some
        &&& spoken_gender(raws[i].gender@) is Some
        &&& forall|k: int|
            0 <= k < raws[i].passives@.len() ==> db.found_skill(
                (#[trigger] raws[i].passives@[k])@,
            ) is Some
    }) by {
        lemma_first_where(raws[i].passives@, strange);
        assert forall|k: int| 0 <= k < raws[i].passives@.len() implies strange(
            #[trigger] raws[i].passives@[k],
        ) == (db.found_skill(raws[i].passives@[k]@) is None) by {}
    }
}

} // verus!
