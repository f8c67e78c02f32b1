//! Names as users see and type them.

use vstd::prelude::*;

use crate::model::PalDb;
use crate::model::PalName;
use crate::model::PassiveName;
use crate::text::contains_part;
use crate::text::has_part;
use crate::text::lower;

verus! {

/// The display name of a species, its internal name when the database
/// does not know it.
pub open spec fn shown(db: PalDb, name: Seq<char>) -> Seq<char> {
    match db.lookup(name) {
        Some(pal) => pal.display_name@,
        None => name,
    }
}

/// The display name of a passive, its internal name when the database
/// does not know it.
pub open spec fn shown_passive(db: PalDb, name: Seq<char>) -> Seq<char> {
    match db.lookup_skill(name) {
        Some(skill) => skill.display_name@,
        None => name,
    }
}

/// The display name of a species.
pub fn display<'a>(db: &'a PalDb, name: &'a PalName) -> (r: &'a str)
    requires
        db.wf(),
    ensures
        r@ == shown(*db, name@),
{
    match db.pal(name) {
        Some(pal) => pal.display_name.as_str(),
        None => name.as_str(),
    }
}

/// The display name of a passive.
pub fn display_passive<'a>(db: &'a PalDb, name: &'a PassiveName) -> (r: &'a str)
    requires
        db.wf(),
    ensures
        r@ == shown_passive(*db, name@),
{
    match db.passive(name) {
        Some(skill) => skill.display_name.as_str(),
        None => name.as_str(),
    }
}

/// `query` is part of the internal or the display name, whatever the
/// letter case.
pub open spec fn mentions(internal: Seq<char>, shown: Seq<char>, query: Seq<char>) -> bool {
    has_part(lower(shown), lower(query)) || has_part(lower(internal), lower(query))
}

/// Whether a query is part of an internal or display name.
pub fn name_mentions(internal: &str, shown: &str, query: &str) -> (r: bool)
    ensures
        r == mentions(internal@, shown@, query@),
{
    let query = query.to_ascii_lowercase();
    contains_part(shown.to_ascii_lowercase().as_str(), query.as_str()) || contains_part(
        internal.to_ascii_lowercase().as_str(),
        query.as_str(),
    )
}

} // verus!
