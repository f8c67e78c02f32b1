//! Turning the bytes of a pool file into the pool itself.

use vstd::prelude::*;
use vstd::utf8::decode_utf8;
use vstd::utf8::valid_utf8;

use crate::model::PalDb;
use crate::pool::pals_file::file_fault;
use crate::pool::pals_file::means;
use crate::pool::pals_file::FileFault;
use crate::pool::pals_file::parse;
use crate::pool::pals_file::PalsFileError;
use crate::pool::pals_file::RawPal;
use crate::save::container::contained;
use crate::save::import::import_pals;
use crate::save::import::imported_views;
use crate::save::import::players;
use crate::save::import::reports_on;
use crate::save::import::ImportReport;
use crate::save::import::ImportedPal;
use crate::save::import::Report;
use crate::save::level::level_of;
use crate::save::level::looks_like_sav;
use crate::save::level::read_level_sav;
use crate::save::level::reports;
use crate::save::level::Level;
use crate::save::level::SaveError;
use crate::search::plan::owned_views;
use crate::search::plan::OwnedPal;
use crate::search::plan::OwnedView;
use crate::seqs::distinct;
use crate::text::decimal;
use crate::text::decimal_of;

verus! {

/// What loading a pool file gives.
#[derive(Debug)]
pub enum Loaded {
    Pool { owned: Vec<OwnedPal>, status: String },
    Missing,
}

/// Why a pool file that exists cannot be loaded.
#[allow(inconsistent_fields)]
#[derive(Debug)]
pub enum PoolError {
    Read { path: String, source: String },
    Save { path: String, source: SaveError },
    NotUtf8 { path: String },
    PalsFile { path: String, source: PalsFileError },
}

impl PoolError {
    /// What a user is told.
    pub open spec fn text(self) -> Seq<char> {
        match self {
            PoolError::Read { path, source } => "reading "@ + path@ + ": "@ + source@,
            PoolError::Save { path, source } => "parsing save file "@ + path@ + ": "@
                + source.text(),
            PoolError::NotUtf8 { path } => path@ + " is neither a save file nor UTF-8 TOML"@,
            PoolError::PalsFile { path, source } => "in "@ + path@ + ": "@ + source@.text(),
        }
    }

    pub fn message(&self) -> (r: String)
        ensures
            r@ == self.text(),
    {
        match self {
            PoolError::Read { path, source } => {
                let mut out = "reading ".to_owned();
                out.append(path.as_str());
                out.append(": ");
                out.append(source.as_str());
                out
            },
            PoolError::Save { path, source } => {
                let mut out = "parsing save file ".to_owned();
                out.append(path.as_str());
                out.append(": ");
                out.append(source.message().as_str());
                out
            },
            PoolError::NotUtf8 { path } => {
                let mut out = path.clone();
                out.append(" is neither a save file nor UTF-8 TOML");
                out
            },
            PoolError::PalsFile { path, source } => {
                let mut out = "in ".to_owned();
                out.append(path.as_str());
                out.append(": ");
                out.append(source.message().as_str());
                out
            },
        }
    }
}

// ---------------------------------------------------------------------
// From a save
// ---------------------------------------------------------------------

fn holds_profile(owned: &Vec<OwnedPal>, candidate: &OwnedPal) -> (r: bool)
    ensures
        r == owned_views(owned@).contains(candidate@),
{
    let ghost views = owned_views(owned@);
    let mut i: usize = 0;
    while i < owned.len()
        invariant
            views == owned_views(owned@),
            i <= owned@.len(),
            forall|j: int| 0 <= j < i ==> #[trigger] views[j] != candidate@,
        decreases owned@.len() - i,
    {
        proof {
            assert(views[i as int] == owned@[i as int]@);
        }
        if owned[i].same_profile(candidate) {
            return true;
        }
        i = i + 1;
    }
    false
}

/// The different breeding profiles among imported pals, each once:
/// identical profiles are interchangeable to the solver.
pub fn dedupe_profiles(pals: &Vec<ImportedPal>) -> (r: Vec<OwnedPal>)
    ensures
        owned_views(r@) == distinct(imported_views(pals@)),
{
    let ghost views = imported_views(pals@);
    let mut owned: Vec<OwnedPal> = Vec::new();
    let mut i: usize = 0;
    proof {
        assert(views.take(0) =~= Seq::empty());
        assert(owned_views(owned@) =~= Seq::empty());
    }
    while i < pals.len()
        invariant
            views == imported_views(pals@),
            i <= pals@.len(),
            owned_views(owned@) == distinct(views.take(i as int)),
        decreases pals@.len() - i,
    {
        let pal = &pals[i];
        let candidate = OwnedPal {
            species: pal.species.clone(),
            gender: pal.gender,
            passives: crate::model::copy_passives(&pal.passives),
            ivs: pal.ivs,
        };
        proof {
            assert(views.take(i + 1).drop_last() =~= views.take(i as int));
            assert(views.take(i + 1).last() == candidate@);
        }
        if !holds_profile(&owned, &candidate) {
            let ghost so_far = owned_views(owned@);
            owned.push(candidate);
            proof {
                assert(owned_views(owned@) =~= so_far.push(candidate@));
            }
        }
        i = i + 1;
    }
    proof {
        assert(views.take(i as int) =~= views);
    }
    owned
}

/// The status line of a pool imported from a save.
pub open spec fn import_status(path: Seq<char>, report: Report) -> Seq<char> {
    decimal(report.pals.len()) + " pal(s) imported from "@ + path + " ("@ + decimal(
        players(report.skipped),
    ) + " player(s), "@ + decimal((report.skipped.len() - players(report.skipped)) as nat)
        + " other entries skipped); "@ + decimal(distinct(report.pals).len())
        + " unique breeding profile(s)"@
}

/// A pool is the import `report`, with its status line.
pub open spec fn pools_report(loaded: Loaded, path: Seq<char>, report: Report) -> bool {
    loaded matches Loaded::Pool { owned, status } && owned_views(owned@) == distinct(report.pals)
        && status@ == import_status(path, report)
}

/// The pool that an import gives, with its status line.
pub fn pool_of_report(path: &str, report: &ImportReport) -> (r: Loaded)
    ensures
        pools_report(r, path@, report@),
{
    let owned = dedupe_profiles(&report.pals);
    let pals: usize = report.pals.len();
    let skipped_players: usize = report.skipped_players();
    let others: usize = report.skipped.len() - skipped_players;
    let mut status = decimal_of(pals as u128);
    status.append(" pal(s) imported from ");
    status.append(path);
    status.append(" (");
    status.append(decimal_of(skipped_players as u128).as_str());
    status.append(" player(s), ");
    status.append(decimal_of(others as u128).as_str());
    status.append(" other entries skipped); ");
    let profiles: usize = owned.len();
    proof {
        assert(owned_views(owned@).len() == profiles);
        assert(report@.pals.len() == pals);
        assert(report@.skipped.len() == report.skipped@.len());
    }
    status.append(decimal_of(profiles as u128).as_str());
    status.append(" unique breeding profile(s)");
    Loaded::Pool { owned, status }
}

/// `report` is the import of the save that `bytes` hold.
pub open spec fn imported(bytes: Seq<u8>, db: PalDb, report: Report) -> bool {
    level_of(bytes) matches Level::Read { characters, hints } && reports_on(
        report,
        db,
        characters,
    )
}

/// What loading the bytes of a save gives: the pool of its import, or
/// why it cannot be read.
pub open spec fn pools_save(
    r: Result<Loaded, PoolError>,
    path: Seq<char>,
    bytes: Seq<u8>,
    db: PalDb,
) -> bool {
    if level_of(bytes) is Read {
        exists|report: Report|
            #[trigger] imported(bytes, db, report) && (r matches Ok(loaded) && pools_report(
                loaded,
                path,
                report,
            ))
    } else {
        r matches Err(PoolError::Save { path: p, source }) && p@ == path && reports(
            source,
            level_of(bytes),
        )
    }
}

/// The pool in the bytes of a save.
///
/// Fails when the bytes cannot be read as a save.
pub fn pool_of_save(path: &str, bytes: &[u8], db: &PalDb) -> (r: Result<Loaded, PoolError>)
    ensures
        pools_save(r, path@, bytes@, *db),
{
    match read_level_sav(bytes) {
        Ok(save) => {
            let report = import_pals(db, save.characters.as_slice());
            proof {
                assert(imported(bytes@, *db, report@));
            }
            Ok(pool_of_report(path, &report))
        },
        Err(source) => Err(PoolError::Save { path: path.to_owned(), source }),
    }
}

// ---------------------------------------------------------------------
// From a pals file
// ---------------------------------------------------------------------
/// The status line of a pool listed in a pals file.
pub open spec fn listed_status(path: Seq<char>, count: nat) -> Seq<char> {
    decimal(count) + " owned pal(s) loaded from "@ + path
}

/// What loading the entries of a pals file gives: each entry's pal, in
/// order, or why it cannot be resolved.
pub open spec fn pools_pals(
    r: Result<Loaded, PoolError>,
    path: Seq<char>,
    raws: Seq<RawPal>,
    db: PalDb,
) -> bool {
    match r {
        Ok(loaded) => {
            &&& file_fault(db, raws) is None
            &&& loaded matches Loaded::Pool { owned, status } && owned@.len() == raws.len() && (
            forall|i: int| 0 <= i < owned@.len() ==> means(db, raws[i], (#[trigger] owned@[i])@))
                && status@ == listed_status(path, raws.len())
        },
        Err(PoolError::PalsFile { path: p, source }) => p@ == path && file_fault(db, raws) == Some(
            source@,
        ),
        Err(_) => false,
    }
}

/// The pool in the entries of a pals file.
pub fn pool_of_pals(path: &str, raws: &Vec<RawPal>, db: &PalDb) -> (r: Result<Loaded, PoolError>)
    ensures
        pools_pals(r, path@, raws@, *db),
{
    match parse(raws, db) {
        Ok(owned) => {
            let count: usize = owned.len();
            let mut status = decimal_of(count as u128);
            status.append(" owned pal(s) loaded from ");
            status.append(path);
            Ok(Loaded::Pool { owned, status })
        },
        Err(source) => Err(PoolError::PalsFile { path: path.to_owned(), source }),
    }
}

/// The pool in a pals file, given what its TOML holds or why it is none.
pub fn pool_of_parsed(
    path: &str,
    parsed: Result<Vec<RawPal>, String>,
    db: &PalDb,
) -> (r: Result<Loaded, PoolError>)
    ensures
        match parsed {
            Ok(raws) => pools_pals(r, path@, raws@, *db),
            Err(text) => r matches Err(PoolError::PalsFile { path: p, source }) && p@ == path@
                && source@ == FileFault::InvalidToml(text@),
        },
{
    match parsed {
        Ok(raws) => pool_of_pals(path, &raws, db),
        Err(text) => Err(
            PoolError::PalsFile {
                path: path.to_owned(),
                source: PalsFileError::InvalidToml(text),
            },
        ),
    }
}

// ---------------------------------------------------------------------
// What was read
// ---------------------------------------------------------------------
/// Why a file could not be read.
#[derive(Debug)]
pub enum ReadFailure {
    NotFound,
    /// Anything else, in words.
    Other(String),
}

/// What a file that was read, or was not, holds.
#[derive(Debug)]
pub enum Sorted {
    /// The outcome stands.
    Done(Loaded),
    /// The text of a pals file, still to be parsed.
    Text(String),
}

/// `String::from_utf8`: the text that the bytes encode; nothing when
/// they are not UTF-8.
#[verifier::external_body]
fn utf8_text(bytes: Vec<u8>) -> (r: Option<String>)
    ensures
        match r {
            Some(text) => valid_utf8(bytes@) && text@ == decode_utf8(bytes@),
            None => !valid_utf8(bytes@),
        },
{
    String::from_utf8(bytes).ok()
}

/// What the outcome of reading the pool file means: a missing file is
/// told apart, a save is imported, and other bytes are the text of a
/// pals file if they are text at all.
pub fn sort_read(path: &str, read: Result<Vec<u8>, ReadFailure>, db: &PalDb) -> (r: Result<
    Sorted,
    PoolError,
>)
    ensures
        match read {
            Err(ReadFailure::NotFound) => r == Ok::<Sorted, PoolError>(
                Sorted::Done(Loaded::Missing),
            ),
            Err(ReadFailure::Other(text)) => r matches Err(PoolError::Read { path: p, source })
                && p@ == path@ && source@ == text@,
            Ok(bytes) => if contained(bytes@) {
                match r {
                    Ok(Sorted::Done(loaded)) => pools_save(Ok(loaded), path@, bytes@, *db),
                    Ok(Sorted::Text(_)) => false,
                    Err(error) => pools_save(Err(error), path@, bytes@, *db),
                }
            } else if valid_utf8(bytes@) {
                r matches Ok(Sorted::Text(text)) && text@ == decode_utf8(bytes@)
            } else {
                r matches Err(PoolError::NotUtf8 { path: p }) && p@ == path@
            },
        },
{
    match read {
        Err(ReadFailure::NotFound) => Ok(Sorted::Done(Loaded::Missing)),
        Err(ReadFailure::Other(text)) => Err(
            PoolError::Read { path: path.to_owned(), source: text },
        ),
        Ok(bytes) => {
            if looks_like_sav(bytes.as_slice()) {
                match pool_of_save(path, bytes.as_slice(), db) {
                    Ok(loaded) => Ok(Sorted::Done(loaded)),
                    Err(error) => Err(error),
                }
            } else {
                match utf8_text(bytes) {
                    Some(text) => Ok(Sorted::Text(text)),
                    None => Err(PoolError::NotUtf8 { path: path.to_owned() }),
                }
            }
        },
    }
}

// ---------------------------------------------------------------------
// A missing file
// ---------------------------------------------------------------------
/// The status line when there is no file to start from.
pub fn empty_pool_status(path: &str) -> (r: String)
    ensures
        r@ == path@ + " not found — searching from an empty pool"@,
{
    let mut out = path.to_owned();
    out.append(" not found — searching from an empty pool");
    out
}

/// The status line when there is no file to reload from.
pub fn kept_pool_status(path: &str) -> (r: String)
    ensures
        r@ == path@ + " not found — keeping the current pool"@,
{
    let mut out = path.to_owned();
    out.append(" not found — keeping the current pool");
    out
}

/// The pool of a save holds no profile twice and loses none.
pub proof fn law_profiles_are_unique_and_complete(pals: Seq<OwnedView>)
    ensures
        distinct(pals).no_duplicates(),
        forall|p: OwnedView| pals.contains(p) <==> #[trigger] distinct(pals).contains(p),
{
    crate::seqs::lemma_distinct(pals);
}

/// The pool of a pals file is the file: as many pals as entries, in
/// order, each with the values, the species and the passives that its
/// entry writes.
pub proof fn law_listed_pools_are_their_files(
    owned: Vec<OwnedPal>,
    status: String,
    path: Seq<char>,
    raws: Seq<RawPal>,
    db: PalDb,
)
    requires
        pools_pals(Ok(Loaded::Pool { owned, status }), path, raws, db),
    ensures
        owned@.len() == raws.len(),
        forall|i: int|
            0 <= i < raws.len() ==> {
                let pal = #[trigger] owned@[i];
                &&& pal.ivs.hp@ == raws[i].ivs.hp
                &&& pal.ivs.attack@ == raws[i].ivs.attack
                &&& pal.ivs.defense@ == raws[i].ivs.defense
                &&& db.found(raws[i].species@) matches Some(entry) && pal.species@ == entry.name@
                &&& pal.passives@.len() == raws[i].passives@.len()
                &&& forall|k: int|
                    0 <= k < raws[i].passives@.len() ==> (db.found_skill(
                        (#[trigger] raws[i].passives@[k])@,
                    ) matches Some(skill) && pal.passives@[k]@ == skill.name@)
            },
{
    let views = owned_views(owned@);
    assert forall|i: int| 0 <= i < raws.len() implies ({
        let pal = #[trigger] owned@[i];
        &&& pal.ivs.hp@ == raws[i].ivs.hp
        &&& pal.ivs.attack@ == raws[i].ivs.attack
        &&& pal.ivs.defense@ == raws[i].ivs.defense
        &&& db.found(raws[i].species@) matches Some(entry) && pal.species@ == entry.name@
        &&& pal.passives@.len() == raws[i].passives@.len()
        &&& forall|k: int|
            0 <= k < raws[i].passives@.len() ==> (db.found_skill(
                (#[trigger] raws[i].passives@[k])@,
            ) matches Some(skill) && pal.passives@[k]@ == skill.name@)
    }) by {
        assert forall|j: int| 0 <= j < views.len() implies means(
            db,
            raws[j],
            #[trigger] views[j],
        ) by {
            assert(views[j] == owned@[j]@);
        }
        crate::pool::pals_file::law_loading_keeps_what_is_written(db, raws, views, i);
        let pal = owned@[i];
        assert(views[i] == pal@);
        assert forall|k: int| 0 <= k < raws[i].passives@.len() implies (db.found_skill(
            (#[trigger] raws[i].passives@[k])@,
        ) matches Some(skill) && pal.passives@[k]@ == skill.name@) by {
            assert(pal@.passives[k] == pal.passives@[k]@);
        }
    }
}

/// The pool of a save holds a pal for every character that imports, with
/// its species, its gender and each of its passives that resolves, and
/// nothing else; no profile twice.
pub proof fn law_saved_characters_are_in_the_pool(
    owned: Vec<OwnedPal>,
    status: String,
    path: Seq<char>,
    bytes: Seq<u8>,
    db: PalDb,
    i: int,
) -> (k: int)
    requires
        pools_save(Ok(Loaded::Pool { owned, status }), path, bytes, db),
        level_of(bytes) matches Level::Read { characters, hints } && 0 <= i < characters.len() && {
            let c = characters[i];
            &&& !c.is_player
            &&& c.character_id is Some && c.character_id->0.len() > 0
            &&& db.found(crate::save::import::species_part(c.character_id->0)) is Some
            &&& c.gender is Some
            &&& crate::text::has_tail(c.gender->0, "Male"@) || crate::text::has_tail(
                c.gender->0,
                "Female"@,
            )
        },
    ensures
        0 <= k < owned@.len(),
        level_of(bytes) matches Level::Read { characters, hints } && {
            let c = characters[i];
            let pal = owned@[k]@;
            &&& pal.species == db.found(
                crate::save::import::species_part(c.character_id->0),
            )->0.name@
            &&& pal.gender is Female <==> crate::text::has_tail(c.gender->0, "Female"@)
            &&& pal.passives == c.passives.filter(
                |id: Seq<char>| db.found_skill(id) is Some,
            ).map_values(|id: Seq<char>| db.found_skill(id)->0.name@)
        },
        owned_views(owned@).no_duplicates(),
{
    let report = choose|report: Report|
        #[trigger] imported(bytes, db, report) && (Ok::<Loaded, PoolError>(
            Loaded::Pool { owned, status },
        ) matches Ok(loaded) && pools_report(loaded, path, report));
    let characters = level_of(bytes)->characters;
    let origin = crate::save::import::law_pals_are_their_characters(report, db, characters);
    assert(origin.contains(i));
    let q = choose|q: int| 0 <= q < origin.len() && origin[q] == i;
    let pal = report.pals[q];
    law_profiles_are_unique_and_complete(report.pals);
    assert(report.pals.contains(pal));
    let views = owned_views(owned@);
    assert(views.contains(pal));
    let k = choose|k: int| 0 <= k < views.len() && views[k] == pal;
    assert(owned@[k]@ == pal);
    k
}

} // verus!
