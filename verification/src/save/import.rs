//! Resolution of raw save characters against the pal database: species,
//! gender, and passives become typed values; everything that cannot
//! resolve is reported, never silently dropped.

use vstd::prelude::*;

use crate::model::passive_texts;
use crate::model::Gender;
use crate::model::IvSpread;
use crate::model::PalDb;
use crate::model::PalName;
use crate::model::PassiveName;
use crate::save::level::character_views;
use crate::save::level::plain_texts;
use crate::save::level::CharacterView;
use crate::save::level::RawCharacter;
use crate::save::wire::text_view;
use crate::search::plan::OwnedView;
use crate::text::chars_of;
use crate::text::ends_with;
use crate::text::eq_ignoring_case;
use crate::text::has_tail;
use crate::text::same_ignoring_case;
use crate::text::text_of;

verus! {

/// A pal imported from a save, in solver-ready terms. Saves carry no
/// individual values here; they import as zero.
#[derive(PartialEq, Eq, Debug)]
pub struct ImportedPal {
    pub species: PalName,
    pub gender: Gender,
    pub passives: Vec<PassiveName>,
    pub ivs: IvSpread,
}

impl View for ImportedPal {
    type V = OwnedView;

    open spec fn view(&self) -> OwnedView {
        OwnedView {
            species: self.species@,
            gender: self.gender,
            passives: passive_texts(self.passives@),
            ivs: self.ivs,
        }
    }
}

/// Imported pals as plain values.
pub open spec fn imported_views(pals: Seq<ImportedPal>) -> Seq<OwnedView> {
    pals.map_values(|p: ImportedPal| p@)
}

/// Why a character entry did not become an [`ImportedPal`].
#[derive(PartialEq, Eq, Debug)]
pub enum SkipReason {
    /// The entry is a player character, not a pal.
    Player,
    /// No character id present (system entries).
    NoCharacterId,
    /// The species does not resolve in the database.
    UnknownSpecies(String),
    /// The gender value is absent or unrecognized.
    UnknownGender(Option<String>),
}

/// A skip reason as plain values.
pub enum Skip {
    Player,
    NoCharacterId,
    UnknownSpecies(Seq<char>),
    UnknownGender(Option<Seq<char>>),
}

impl View for SkipReason {
    type V = Skip;

    open spec fn view(&self) -> Skip {
        match *self {
            SkipReason::Player => Skip::Player,
            SkipReason::NoCharacterId => Skip::NoCharacterId,
            SkipReason::UnknownSpecies(id) => Skip::UnknownSpecies(id@),
            SkipReason::UnknownGender(value) => Skip::UnknownGender(text_view(value)),
        }
    }
}

/// Skip reasons as plain values.
pub open spec fn skip_views(reasons: Seq<SkipReason>) -> Seq<Skip> {
    reasons.map_values(|r: SkipReason| r@)
}

#[derive(Debug)]
pub struct ImportReport {
    pub pals: Vec<ImportedPal>,
    pub skipped: Vec<SkipReason>,
    /// Passive ids that did not resolve; their pals are kept without
    /// the unknown passive.
    pub unknown_passives: Vec<String>,
}

/// A report as plain values.
pub struct Report {
    pub pals: Seq<OwnedView>,
    pub skipped: Seq<Skip>,
    pub unknown_passives: Seq<Seq<char>>,
}

impl View for ImportReport {
    type V = Report;

    open spec fn view(&self) -> Report {
        Report {
            pals: imported_views(self.pals@),
            skipped: skip_views(self.skipped@),
            unknown_passives: plain_texts(self.unknown_passives@),
        }
    }
}

/// A report on nothing.
pub open spec fn empty_report() -> Report {
    Report { pals: Seq::empty(), skipped: Seq::empty(), unknown_passives: Seq::empty() }
}

impl Default for ImportReport {
    fn default() -> (r: Self)
        ensures
            r@ == empty_report(),
    {
        let r = ImportReport {
            pals: Vec::new(),
            skipped: Vec::new(),
            unknown_passives: Vec::new(),
        };
        proof {
            assert(r@.pals =~= Seq::empty());
            assert(r@.skipped =~= Seq::empty());
            assert(r@.unknown_passives =~= Seq::empty());
        }
        r
    }
}

/// How many entries were players.
pub open spec fn players(skipped: Seq<Skip>) -> nat
    decreases skipped.len(),
{
    if skipped.len() == 0 {
        0
    } else if skipped.last() is Player {
        players(skipped.drop_last()) + 1
    } else {
        players(skipped.drop_last())
    }
}

/// No more entries were players than were skipped.
pub proof fn lemma_players(skipped: Seq<Skip>)
    ensures
        players(skipped) <= skipped.len(),
    decreases skipped.len(),
{
    if skipped.len() > 0 {
        lemma_players(skipped.drop_last());
    }
}

impl ImportReport {
    /// Skipped-entry count for a compact status line.
    pub fn skipped_players(&self) -> (r: usize)
        ensures
            r == players(self@.skipped),
            r <= self.skipped@.len(),
    {
        let ghost views = skip_views(self.skipped@);
        let mut count: usize = 0;
        let mut i: usize = 0;
        proof {
            assert(views.take(0) =~= Seq::empty());
        }
        while i < self.skipped.len()
            invariant
                views == skip_views(self.skipped@),
                i <= self.skipped@.len(),
                count <= i,
                count == players(views.take(i as int)),
            decreases self.skipped@.len() - i,
        {
            proof {
                assert(views.take(i + 1).drop_last() =~= views.take(i as int));
                assert(views.take(i + 1).last() == self.skipped@[i as int]@);
            }
            match &self.skipped[i] {
                SkipReason::Player => {
                    count = count + 1;
                },
                _ => {},
            }
            i = i + 1;
        }
        proof {
            assert(views.take(i as int) =~= views);
        }
        count
    }
}

// ---------------------------------------------------------------------
// Species ids
// ---------------------------------------------------------------------
/// An id begins with a role prefix, whatever the letter case, and goes
/// on after it.
pub open spec fn has_role(id: Seq<char>, prefix: Seq<char>) -> bool {
    id.len() > prefix.len() && same_ignoring_case(id.take(prefix.len() as int), prefix)
}

/// The species part of a character id: ids carry role prefixes for
/// special spawns, and the species name follows the prefix.
pub open spec fn species_part(id: Seq<char>) -> Seq<char> {
    if has_role(id, "BOSS_"@) {
        id.skip("BOSS_"@.len() as int)
    } else if has_role(id, "PREDATOR_"@) {
        id.skip("PREDATOR_"@.len() as int)
    } else if has_role(id, "RAID_"@) {
        id.skip("RAID_"@.len() as int)
    } else if has_role(id, "GYM_"@) {
        id.skip("GYM_"@.len() as int)
    } else {
        id
    }
}

/// What follows the prefix, if the id has it.
fn after_role(id: &str, prefix: &str) -> (r: Option<String>)
    ensures
        match r {
            Some(rest) => has_role(id@, prefix@) && rest@ == id@.skip(prefix@.len() as int),
            None => !has_role(id@, prefix@),
        },
{
    let chars = chars_of(id);
    let n: usize = chars_of(prefix).len();
    if chars.len() <= n {
        return None;
    }
    let front = text_of(&chars, 0, n);
    proof {
        assert(front@ =~= id@.take(n as int));
    }
    if eq_ignoring_case(front.as_str(), prefix) {
        let rest = text_of(&chars, n, chars.len());
        proof {
            assert(rest@ =~= id@.skip(n as int));
        }
        Some(rest)
    } else {
        None
    }
}

fn strip_role_prefix(id: &str) -> (r: String)
    ensures
        r@ == species_part(id@),
{
    if let Some(rest) = after_role(id, "BOSS_") {
        return rest;
    }
    if let Some(rest) = after_role(id, "PREDATOR_") {
        return rest;
    }
    if let Some(rest) = after_role(id, "RAID_") {
        return rest;
    }
    if let Some(rest) = after_role(id, "GYM_") {
        return rest;
    }
    id.to_owned()
}

// ---------------------------------------------------------------------
// One character
// ---------------------------------------------------------------------
/// The gender that a save value names by its ending.
pub open spec fn named_gender(value: Option<Seq<char>>) -> Option<Gender> {
    match value {
        Some(text) => if has_tail(text, "Female"@) {
            Some(Gender::Female)
        } else if has_tail(text, "Male"@) {
            Some(Gender::Male)
        } else {
            None
        },
        None => None,
    }
}

/// The names of the passives that resolve, in their order.
pub open spec fn known_passives(db: PalDb, ids: Seq<Seq<char>>) -> Seq<Seq<char>>
    decreases ids.len(),
{
    if ids.len() == 0 {
        Seq::empty()
    } else {
        match db.found_skill(ids.last()) {
            Some(skill) => known_passives(db, ids.drop_last()).push(skill.name@),
            None => known_passives(db, ids.drop_last()),
        }
    }
}

/// The passive ids that do not resolve, in their order.
pub open spec fn unknown_passives(db: PalDb, ids: Seq<Seq<char>>) -> Seq<Seq<char>>
    decreases ids.len(),
{
    if ids.len() == 0 {
        Seq::empty()
    } else {
        match db.found_skill(ids.last()) {
            Some(_) => unknown_passives(db, ids.drop_last()),
            None => unknown_passives(db, ids.drop_last()).push(ids.last()),
        }
    }
}

/// Why a character does not import, if it does not.
pub open spec fn skip_of(db: PalDb, c: CharacterView) -> Option<Skip> {
    if c.is_player {
        Some(Skip::Player)
    } else if c.character_id is None || c.character_id->0.len() == 0 {
        Some(Skip::NoCharacterId)
    } else if db.found(species_part(c.character_id->0)) is None {
        Some(Skip::UnknownSpecies(c.character_id->0))
    } else if named_gender(c.gender) is None {
        Some(Skip::UnknownGender(c.gender))
    } else {
        None
    }
}

/// The values of a pal of which none are known.
pub open spec fn zero_ivs(ivs: IvSpread) -> bool {
    ivs.hp@ == 0 && ivs.attack@ == 0 && ivs.defense@ == 0
}

/// `pal` is what a character that does import becomes.
pub open spec fn imports_as(db: PalDb, c: CharacterView, pal: OwnedView) -> bool {
    &&& pal.species == db.found(species_part(c.character_id->0))->0.name@
    &&& pal.gender == named_gender(c.gender)->0
    &&& pal.passives == known_passives(db, c.passives)
    &&& zero_ivs(pal.ivs)
}

fn resolve(pal_db: &PalDb, character: &RawCharacter, unknown: &mut Vec<String>) -> (r: Result<
    ImportedPal,
    SkipReason,
>)
    ensures
        match r {
            Ok(pal) => {
                &&& skip_of(*pal_db, character@) is None
                &&& imports_as(*pal_db, character@, pal@)
                &&& plain_texts(final(unknown)@) == plain_texts(old(unknown)@) + unknown_passives(
                    *pal_db,
                    character@.passives,
                )
            },
            Err(reason) => skip_of(*pal_db, character@) == Some(reason@) && final(unknown)@ == old(
                unknown,
            )@,
        },
{
    if character.is_player {
        return Err(SkipReason::Player);
    }
    let raw_id = match &character.character_id {
        Some(id) => id,
        None => {
            return Err(SkipReason::NoCharacterId);
        },
    };
    if chars_of(raw_id.as_str()).len() == 0 {
        return Err(SkipReason::NoCharacterId);
    }
    let species_id = strip_role_prefix(raw_id.as_str());
    let pal = match pal_db.find_pal(species_id.as_str()) {
        Some(pal) => pal,
        None => {
            return Err(SkipReason::UnknownSpecies(raw_id.clone()));
        },
    };
    let gender = match &character.gender {
        Some(value) => if ends_with(value.as_str(), "Female") {
            Gender::Female
        } else if ends_with(value.as_str(), "Male") {
            Gender::Male
        } else {
            return Err(SkipReason::UnknownGender(Some(value.clone())));
        },
        None => {
            return Err(SkipReason::UnknownGender(None));
        },
    };
    let ghost ids = plain_texts(character.passives@);
    let ghost before = plain_texts(unknown@);
    let mut passives: Vec<PassiveName> = Vec::new();
    let mut i: usize = 0;
    proof {
        assert(ids.take(0) =~= Seq::empty());
        assert(passive_texts(passives@) =~= Seq::empty());
        assert(before + Seq::<Seq<char>>::empty() =~= before);
    }
    while i < character.passives.len()
        invariant
            ids == plain_texts(character.passives@),
            i <= character.passives@.len(),
            passive_texts(passives@) == known_passives(*pal_db, ids.take(i as int)),
            plain_texts(unknown@) == before + unknown_passives(*pal_db, ids.take(i as int)),
        decreases character.passives@.len() - i,
    {
        let id = &character.passives[i];
        proof {
            assert(ids.take(i + 1).drop_last() =~= ids.take(i as int));
            assert(ids.take(i + 1).last() == id@);
        }
        let ghost known = passive_texts(passives@);
        let ghost missing = plain_texts(unknown@);
        match pal_db.find_passive(id.as_str()) {
            Some(skill) => {
                passives.push(skill.name.clone());
                proof {
                    assert(passive_texts(passives@) =~= known.push(skill.name@));
                }
            },
            None => {
                unknown.push(id.clone());
                proof {
                    assert(plain_texts(unknown@) =~= missing.push(id@));
                    assert(missing.push(id@) =~= before + unknown_passives(
                        *pal_db,
                        ids.take(i as int),
                    ).push(id@));
                }
            },
        }
        i = i + 1;
    }
    proof {
        assert(ids.take(i as int) =~= ids);
    }
    Ok(ImportedPal { species: pal.name.clone(), gender, passives, ivs: IvSpread::default() })
}

// ---------------------------------------------------------------------
// All characters
// ---------------------------------------------------------------------
/// The characters that import, in their order.
pub open spec fn importable(db: PalDb, characters: Seq<CharacterView>) -> Seq<CharacterView>
    decreases characters.len(),
{
    if characters.len() == 0 {
        Seq::empty()
    } else if skip_of(db, characters.last()) is None {
        importable(db, characters.drop_last()).push(characters.last())
    } else {
        importable(db, characters.drop_last())
    }
}

/// The reasons for the characters that do not import, in their order.
pub open spec fn skips(db: PalDb, characters: Seq<CharacterView>) -> Seq<Skip>
    decreases characters.len(),
{
    if characters.len() == 0 {
        Seq::empty()
    } else {
        match skip_of(db, characters.last()) {
            Some(reason) => skips(db, characters.drop_last()).push(reason),
            None => skips(db, characters.drop_last()),
        }
    }
}

/// The passive ids of the importing characters that do not resolve.
pub open spec fn strange_passives(db: PalDb, characters: Seq<CharacterView>) -> Seq<Seq<char>>
    decreases characters.len(),
{
    if characters.len() == 0 {
        Seq::empty()
    } else if skip_of(db, characters.last()) is None {
        strange_passives(db, characters.drop_last()) + unknown_passives(
            db,
            characters.last().passives,
        )
    } else {
        strange_passives(db, characters.drop_last())
    }
}

/// A report says what became of each character.
pub open spec fn reports_on(report: Report, db: PalDb, characters: Seq<CharacterView>) -> bool {
    &&& report.pals.len() == importable(db, characters).len()
    &&& forall|k: int|
        0 <= k < report.pals.len() ==> imports_as(
            db,
            importable(db, characters)[k],
            #[trigger] report.pals[k],
        )
    &&& report.skipped == skips(db, characters)
    &&& report.unknown_passives == strange_passives(db, characters)
}

/// Resolves raw characters into solver-ready pals.
pub fn import_pals(pal_db: &PalDb, characters: &[RawCharacter]) -> (r: ImportReport)
    ensures
        reports_on(r@, *pal_db, character_views(characters@)),
{
    let mut report = ImportReport::default();
    let ghost views = character_views(characters@);
    let mut i: usize = 0;
    proof {
        assert(views.take(0) =~= Seq::empty());
    }
    while i < characters.len()
        invariant
            views == character_views(characters@),
            i <= characters@.len(),
            reports_on(report@, *pal_db, views.take(i as int)),
        decreases characters@.len() - i,
    {
        let ghost so_far = report@;
        proof {
            assert(views.take(i + 1).drop_last() =~= views.take(i as int));
            assert(views.take(i + 1).last() == characters@[i as int]@);
        }
        match resolve(pal_db, &characters[i], &mut report.unknown_passives) {
            Ok(pal) => {
                report.pals.push(pal);
                proof {
                    assert(report@.pals =~= so_far.pals.push(pal@));
                    let list = importable(*pal_db, views.take(i + 1));
                    assert forall|k: int| 0 <= k < report@.pals.len() implies imports_as(
                        *pal_db,
                        list[k],
                        #[trigger] report@.pals[k],
                    ) by {
                        if k < so_far.pals.len() {
                            assert(report@.pals[k] == so_far.pals[k]);
                        }
                    }
                }
            },
            Err(reason) => {
                report.skipped.push(reason);
                proof {
                    assert(report@.skipped =~= so_far.skipped.push(reason@));
                    assert(report@.pals =~= so_far.pals);
                    assert(report@.unknown_passives =~= so_far.unknown_passives);
                }
            },
        }
        i = i + 1;
    }
    proof {
        assert(views.take(i as int) =~= views);
    }
    report
}

// ---------------------------------------------------------------------
// Laws
// ---------------------------------------------------------------------
/// Nothing is silently dropped: every character becomes a pal or a skip
/// reason.
pub proof fn law_every_character_is_accounted_for(
    report: Report,
    db: PalDb,
    characters: Seq<CharacterView>,
)
    requires
        reports_on(report, db, characters),
    ensures
        report.pals.len() + report.skipped.len() == characters.len(),
{
    lemma_accounted(db, characters);
}

proof fn lemma_accounted(db: PalDb, characters: Seq<CharacterView>)
    ensures
        importable(db, characters).len() + skips(db, characters).len() == characters.len(),
    decreases characters.len(),
{
    if characters.len() > 0 {
        lemma_accounted(db, characters.drop_last());
    }
}

/// Every passive id of a character either resolves or is listed as
/// unknown.
pub proof fn law_every_passive_is_accounted_for(db: PalDb, ids: Seq<Seq<char>>)
    ensures
        known_passives(db, ids).len() + unknown_passives(db, ids).len() == ids.len(),
    decreases ids.len(),
{
    if ids.len() > 0 {
        law_every_passive_is_accounted_for(db, ids.drop_last());
    }
}

proof fn lemma_importable(db: PalDb, characters: Seq<CharacterView>)
    ensures
        forall|k: int|
            0 <= k < importable(db, characters).len() ==> skip_of(
                db,
                #[trigger] importable(db, characters)[k],
            ) is None,
    decreases characters.len(),
{
    if characters.len() > 0 {
        lemma_importable(db, characters.drop_last());
        let rest = importable(db, characters.drop_last());
        let list = importable(db, characters);
        assert forall|k: int| 0 <= k < list.len() implies skip_of(db, #[trigger] list[k])
            is None by {
            if k < rest.len() {
                assert(list[k] == rest[k]);
            }
        }
    }
}

/// Every imported pal is of a species of the database.
pub proof fn law_imported_species_resolve(
    report: Report,
    db: PalDb,
    characters: Seq<CharacterView>,
    k: int,
)
    requires
        db.wf(),
        reports_on(report, db, characters),
        0 <= k < report.pals.len(),
    ensures
        db.knows(report.pals[k].species),
{
    lemma_importable(db, characters);
    let c = importable(db, characters)[k];
    assert(skip_of(db, c) is None);
    let name = species_part(c.character_id->0);
    let p = crate::model::pal_answering(name);
    crate::seqs::lemma_first_where(db.all(), p);
    let i = crate::seqs::first_where(db.all(), p)->0;
    assert(imports_as(db, c, report.pals[k]));
    crate::model::lemma_pal_position(db.all(), report.pals[k].species);
    assert(db.all()[i].name@ == report.pals[k].species);
}

/// Keeping the ids that resolve and naming them is what is known of
/// them.
proof fn lemma_known_passives(
    db: PalDb,
    ids: Seq<Seq<char>>,
    resolves: spec_fn(Seq<char>) -> bool,
    named: spec_fn(Seq<char>) -> Seq<char>,
)
    requires
        forall|id: Seq<char>| #[trigger] resolves(id) == (db.found_skill(id) is Some),
        forall|id: Seq<char>| #[trigger] named(id) == db.found_skill(id)->0.name@,
    ensures
        known_passives(db, ids) == ids.filter(resolves).map_values(named),
    decreases ids.len(),
{
    reveal(Seq::filter);
    if ids.len() > 0 {
        let rest = ids.drop_last();
        lemma_known_passives(db, rest, resolves, named);
        assert(resolves(ids.last()) == (db.found_skill(ids.last()) is Some));
        assert(named(ids.last()) == db.found_skill(ids.last())->0.name@);
        assert(rest.filter(resolves).push(ids.last()).map_values(named) =~= rest.filter(
            resolves,
        ).map_values(named).push(named(ids.last())));
    } else {
        assert(ids.filter(resolves).map_values(named) =~= Seq::empty());
    }
}

/// Keeping the ids that do not resolve is what is unknown of them.
proof fn lemma_unknown_passives(
    db: PalDb,
    ids: Seq<Seq<char>>,
    strange: spec_fn(Seq<char>) -> bool,
)
    requires
        forall|id: Seq<char>| #[trigger] strange(id) == (db.found_skill(id) is None),
    ensures
        unknown_passives(db, ids) == ids.filter(strange),
    decreases ids.len(),
{
    reveal(Seq::filter);
    if ids.len() > 0 {
        lemma_unknown_passives(db, ids.drop_last(), strange);
        assert(strange(ids.last()) == (db.found_skill(ids.last()) is None));
    } else {
        assert(ids.filter(strange) =~= Seq::empty());
    }
}

/// Where the importing characters stand among all.
proof fn lemma_origin(db: PalDb, characters: Seq<CharacterView>) -> (origin: Seq<int>)
    ensures
        origin.len() == importable(db, characters).len(),
        forall|k: int|
            0 <= k < origin.len() ==> 0 <= #[trigger] origin[k] < characters.len()
                && characters[origin[k]] == importable(db, characters)[k],
        forall|a: int, b: int| 0 <= a < b < origin.len() ==> origin[a] < origin[b],
        forall|i: int|
            #![trigger origin.contains(i)]
            0 <= i < characters.len() ==> (origin.contains(i) <==> skip_of(
                db,
                characters[i],
            ) is None),
        ({
            let lists = Seq::new(
                origin.len(),
                |k: int| unknown_passives(db, characters[origin[k]].passives),
            );
            strange_passives(db, characters) == lists.flatten_alt()
        }),
    decreases characters.len(),
{
    if characters.len() == 0 {
        Seq::empty()
    } else {
        let front = characters.drop_last();
        let rest = lemma_origin(db, front);
        let n = front.len() as int;
        let before = Seq::new(
            rest.len(),
            |k: int| unknown_passives(db, front[rest[k]].passives),
        );
        if skip_of(db, characters.last()) is None {
            let origin = rest.push(n);
            assert forall|i: int|
                #![trigger origin.contains(i)]
                0 <= i < characters.len() implies (origin.contains(i) <==> skip_of(
                db,
                characters[i],
            ) is None) by {
                if i < n {
                    assert(rest.contains(i) <==> skip_of(db, front[i]) is None);
                    if rest.contains(i) {
                        let q = choose|q: int| 0 <= q < rest.len() && rest[q] == i;
                        assert(origin[q] == i);
                    }
                    if origin.contains(i) {
                        let q = choose|q: int| 0 <= q < origin.len() && origin[q] == i;
                        assert(rest[q] == i);
                    }
                } else {
                    assert(origin[rest.len() as int] == i);
                }
            }
            let lists = Seq::new(
                origin.len(),
                |k: int| unknown_passives(db, characters[origin[k]].passives),
            );
            assert(lists.drop_last() =~= before);
            assert(lists.last() == unknown_passives(db, characters.last().passives));
            origin
        } else {
            assert forall|i: int|
                #![trigger rest.contains(i)]
                0 <= i < characters.len() implies (rest.contains(i) <==> skip_of(
                db,
                characters[i],
            ) is None) by {
                if i < n {
                    assert(rest.contains(i) <==> skip_of(db, front[i]) is None);
                } else if rest.contains(i) {
                    let q = choose|q: int| 0 <= q < rest.len() && rest[q] == i;
                    assert(rest[q] < front.len());
                }
            }
            let lists = Seq::new(
                rest.len(),
                |k: int| unknown_passives(db, characters[rest[k]].passives),
            );
            assert(lists =~= before);
            rest
        }
    }
}

/// A report names its pals in the order of the characters, exactly those
/// that are no players and whose species and gender resolve. Each pal
/// has the species and the gender of its character, every passive of it
/// that resolves, in order, and no individual values; the ids that do
/// not resolve are listed, each as often as it stands there. `origin`
/// are the positions of the characters that became pals.
pub proof fn law_pals_are_their_characters(
    report: Report,
    db: PalDb,
    characters: Seq<CharacterView>,
) -> (origin: Seq<int>)
    requires
        reports_on(report, db, characters),
    ensures
        origin.len() == report.pals.len(),
        forall|a: int, b: int| 0 <= a < b < origin.len() ==> origin[a] < origin[b],
        forall|i: int|
            #![trigger origin.contains(i)]
            origin.contains(i) <==> {
                let c = characters[i];
                &&& 0 <= i < characters.len()
                &&& !c.is_player
                &&& c.character_id is Some && c.character_id->0.len() > 0
                &&& db.found(species_part(c.character_id->0)) is Some
                &&& c.gender is Some
                &&& has_tail(c.gender->0, "Male"@) || has_tail(c.gender->0, "Female"@)
            },
        forall|k: int|
            0 <= k < report.pals.len() ==> {
                let c = characters[origin[k]];
                let pal = #[trigger] report.pals[k];
                &&& pal.species == db.found(species_part(c.character_id->0))->0.name@
                &&& pal.gender is Female <==> has_tail(c.gender->0, "Female"@)
                &&& pal.passives == c.passives.filter(
                    |id: Seq<char>| db.found_skill(id) is Some,
                ).map_values(|id: Seq<char>| db.found_skill(id)->0.name@)
                &&& pal.ivs.hp@ == 0 && pal.ivs.attack@ == 0 && pal.ivs.defense@ == 0
            },
        report.unknown_passives == Seq::new(
            origin.len(),
            |k: int|
                characters[origin[k]].passives.filter(
                    |id: Seq<char>| db.found_skill(id) is None,
                ),
        ).flatten_alt(),
{
    let origin = lemma_origin(db, characters);
    assert forall|i: int|
        #![trigger origin.contains(i)]
        origin.contains(i) implies 0 <= i < characters.len() by {
        let q = choose|q: int| 0 <= q < origin.len() && origin[q] == i;
        assert(0 <= origin[q] < characters.len());
    }
    assert forall|k: int| 0 <= k < report.pals.len() implies ({
        let c = characters[origin[k]];
        let pal = #[trigger] report.pals[k];
        &&& pal.species == db.found(species_part(c.character_id->0))->0.name@
        &&& pal.gender is Female <==> has_tail(c.gender->0, "Female"@)
        &&& pal.passives == c.passives.filter(
            |id: Seq<char>| db.found_skill(id) is Some,
        ).map_values(|id: Seq<char>| db.found_skill(id)->0.name@)
        &&& pal.ivs.hp@ == 0 && pal.ivs.attack@ == 0 && pal.ivs.defense@ == 0
    }) by {
        let c = characters[origin[k]];
        assert(origin.contains(origin[k]));
        assert(skip_of(db, c) is None);
        assert(imports_as(db, c, report.pals[k]));
        lemma_known_passives(
            db,
            c.passives,
            |id: Seq<char>| db.found_skill(id) is Some,
            |id: Seq<char>| db.found_skill(id)->0.name@,
        );
    }
    let own = Seq::new(
        origin.len(),
        |k: int| unknown_passives(db, characters[origin[k]].passives),
    );
    let lists = Seq::new(
        origin.len(),
        |k: int|
            characters[origin[k]].passives.filter(|id: Seq<char>| db.found_skill(id) is None),
    );
    assert forall|k: int| 0 <= k < own.len() implies own[k] == #[trigger] lists[k] by {
        lemma_unknown_passives(
            db,
            characters[origin[k]].passives,
            |id: Seq<char>| db.found_skill(id) is None,
        );
    }
    assert(own =~= lists);
    origin
}

/// No passive of an imported pal is lost: what its character lists is
/// carried under the name of the skill or reported as unknown, and the
/// pal carries as many passives as its character lists, less the unknown
/// ones.
pub proof fn law_no_passive_is_lost(
    report: Report,
    db: PalDb,
    characters: Seq<CharacterView>,
    k: int,
) -> (i: int)
    requires
        reports_on(report, db, characters),
        0 <= k < report.pals.len(),
    ensures
        0 <= i < characters.len(),
        report.pals[k].species == db.found(
            species_part(characters[i].character_id->0),
        )->0.name@,
        forall|j: int|
            0 <= j < characters[i].passives.len() ==> match db.found_skill(
                #[trigger] characters[i].passives[j],
            ) {
                Some(skill) => report.pals[k].passives.contains(skill.name@),
                None => report.unknown_passives.contains(characters[i].passives[j]),
            },
        report.pals[k].passives.len() + characters[i].passives.filter(
            |id: Seq<char>| db.found_skill(id) is None,
        ).len() == characters[i].passives.len(),
{
    let origin = law_pals_are_their_characters(report, db, characters);
    let i = origin[k];
    assert(origin.contains(i));
    let c = characters[i];
    let resolves = |id: Seq<char>| db.found_skill(id) is Some;
    let named = |id: Seq<char>| db.found_skill(id)->0.name@;
    let strange = |id: Seq<char>| db.found_skill(id) is None;
    lemma_known_passives(db, c.passives, resolves, named);
    lemma_unknown_passives(db, c.passives, strange);
    law_every_passive_is_accounted_for(db, c.passives);
    let lists = Seq::new(
        origin.len(),
        |k: int|
            characters[origin[k]].passives.filter(|id: Seq<char>| db.found_skill(id) is None),
    );
    lemma_unknown_passives(db, c.passives, |id: Seq<char>| db.found_skill(id) is None);
    assert forall|j: int| 0 <= j < c.passives.len() implies match db.found_skill(
        #[trigger] c.passives[j],
    ) {
        Some(skill) => report.pals[k].passives.contains(skill.name@),
        None => report.unknown_passives.contains(c.passives[j]),
    } by {
        let id = c.passives[j];
        if db.found_skill(id) is Some {
            c.passives.lemma_filter_contains(resolves, j);
            let q = choose|q: int|
                0 <= q < c.passives.filter(resolves).len() && c.passives.filter(resolves)[q] == id;
            assert(c.passives.filter(resolves).map_values(named)[q] == named(id));
        } else {
            c.passives.lemma_filter_contains(strange, j);
            assert(lists[k].contains(id));
            lemma_flat_holds(lists, k, id);
        }
    }
    i
}

proof fn lemma_flat_holds(lists: Seq<Seq<Seq<char>>>, k: int, id: Seq<char>)
    requires
        0 <= k < lists.len(),
        lists[k].contains(id),
    ensures
        lists.flatten_alt().contains(id),
    decreases lists.len(),
{
    let front = lists.drop_last();
    let flat = lists.flatten_alt();
    if k < front.len() {
        assert(front[k] == lists[k]);
        lemma_flat_holds(front, k, id);
        let q = choose|q: int|
            0 <= q < front.flatten_alt().len() && front.flatten_alt()[q] == id;
        assert(flat[q] == id);
    } else {
        let q = choose|q: int| 0 <= q < lists[k].len() && lists[k][q] == id;
        assert(flat[front.flatten_alt().len() + q] == id);
    }
}

/// Where the skipped characters stand among all.
proof fn lemma_skipped(db: PalDb, characters: Seq<CharacterView>) -> (origin: Seq<int>)
    ensures
        origin.len() == skips(db, characters).len(),
        forall|k: int|
            0 <= k < origin.len() ==> 0 <= #[trigger] origin[k] < characters.len() && skip_of(
                db,
                characters[origin[k]],
            ) == Some(skips(db, characters)[k]),
        forall|a: int, b: int| 0 <= a < b < origin.len() ==> origin[a] < origin[b],
    decreases characters.len(),
{
    if characters.len() == 0 {
        Seq::empty()
    } else {
        let front = characters.drop_last();
        let rest = lemma_skipped(db, front);
        if skip_of(db, characters.last()) is Some {
            rest.push(front.len() as int)
        } else {
            rest
        }
    }
}

/// Each skipped character is reported with what kept it out, in order:
/// that it is a player, else that it has no id, else that its species is
/// unknown, else that its gender is.
pub proof fn law_skips_say_why(
    report: Report,
    db: PalDb,
    characters: Seq<CharacterView>,
) -> (origin: Seq<int>)
    requires
        reports_on(report, db, characters),
    ensures
        origin.len() == report.skipped.len(),
        forall|a: int, b: int| 0 <= a < b < origin.len() ==> origin[a] < origin[b],
        forall|k: int|
            0 <= k < report.skipped.len() ==> {
                let c = characters[origin[k]];
                let id = c.character_id;
                &&& 0 <= origin[k] < characters.len()
                &&& match #[trigger] report.skipped[k] {
                    Skip::Player => c.is_player,
                    Skip::NoCharacterId => !c.is_player && (id is None || id->0 =~= Seq::empty()),
                    Skip::UnknownSpecies(text) => !c.is_player && id == Some(text) && text.len()
                        > 0 && db.found(species_part(text)) is None,
                    Skip::UnknownGender(value) => !c.is_player && id is Some && db.found(
                        species_part(id->0),
                    ) is Some && value == c.gender && (value matches Some(text) ==> !has_tail(
                        text,
                        "Male"@,
                    ) && !has_tail(text, "Female"@)),
                }
            },
{
    lemma_skipped(db, characters)
}

/// A boss of a species imports as the species itself.
pub proof fn law_boss_prefix_is_ignored(id: Seq<char>)
    requires
        id.len() > 0,
    ensures
        species_part("BOSS_"@ + id) == id,
{
    let whole = "BOSS_"@ + id;
    assert(whole.take("BOSS_"@.len() as int) =~= "BOSS_"@);
    assert(whole.skip("BOSS_"@.len() as int) =~= id);
}

/// A special spawn of a species imports as the species itself, whatever
/// its role and its letter case.
pub proof fn law_role_prefixes_are_ignored(prefix: Seq<char>, id: Seq<char>)
    requires
        id.len() > 0,
        crate::text::lower(prefix) == crate::text::lower("BOSS_"@) || crate::text::lower(prefix)
            == crate::text::lower("PREDATOR_"@) || crate::text::lower(prefix)
            == crate::text::lower("RAID_"@) || crate::text::lower(prefix) == crate::text::lower(
            "GYM_"@,
        ),
    ensures
        species_part(prefix + id) == id,
{
    reveal_strlit("BOSS_");
    reveal_strlit("PREDATOR_");
    reveal_strlit("RAID_");
    reveal_strlit("GYM_");
    let whole = prefix + id;
    assert(whole.take(prefix.len() as int) =~= prefix);
    assert(whole.skip(prefix.len() as int) =~= id);
    assert(prefix.len() == crate::text::lower(prefix).len());
    assert("BOSS_"@.len() == crate::text::lower("BOSS_"@).len());
    assert("PREDATOR_"@.len() == crate::text::lower("PREDATOR_"@).len());
    assert("RAID_"@.len() == crate::text::lower("RAID_"@).len());
    assert("GYM_"@.len() == crate::text::lower("GYM_"@).len());
    let first = crate::text::lower(prefix)[0];
    assert(first == crate::text::lower_char(whole[0]));
    assert(crate::text::lower("BOSS_"@)[0] == 'b');
    assert(crate::text::lower("PREDATOR_"@)[0] == 'p');
    assert(crate::text::lower("RAID_"@)[0] == 'r');
    assert(crate::text::lower("GYM_"@)[0] == 'g');
    assert(crate::text::lower(whole.take(5))[0] == first);
    if whole.len() > 9 {
        assert(crate::text::lower(whole.take(9))[0] == first);
    }
    assert(crate::text::lower(whole.take(4))[0] == first);
}

} // verus!
