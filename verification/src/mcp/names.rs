//! Raw strings at the boundary: names, genders and minimums.

use vstd::prelude::*;

use crate::iv::no_thresholds;
use crate::iv::IvThresholds;
use crate::model::Gender;
use crate::model::IvOutOfRange;
use crate::model::IvValue;
use crate::model::Pal;
use crate::model::PalDb;
use crate::model::PassiveSkill;
use crate::model::MAX_IV;
use crate::names::mentions;
use crate::names::name_mentions;
use crate::pool::pals_file::gender_of;
use crate::pool::pals_file::spoken_gender;
use crate::seqs::distinct;
use crate::seqs::kept;
use crate::seqs::pick;
use crate::seqs::referents;
use crate::seqs::sort_refs;
use crate::seqs::sorted_by;
use crate::text::before;
use crate::text::comes_before;
use crate::text::debug_quoted;
use crate::text::join;
use crate::text::joined;
use crate::text::lower;
use crate::text::quoted;
use crate::text::same_text;
use crate::text::text_list;

verus! {

// ---------------------------------------------------------------------
// Suggestions
// ---------------------------------------------------------------------
/// A species mentions the query.
pub open spec fn pal_mentions(query: Seq<char>) -> spec_fn(Pal) -> bool {
    |p: Pal| mentions(p.name@, p.display_name@, query)
}

/// A passive mentions the query.
pub open spec fn skill_mentions(query: Seq<char>) -> spec_fn(PassiveSkill) -> bool {
    |p: PassiveSkill| mentions(p.name@, p.display_name@, query)
}

/// The order of display names among species.
pub open spec fn by_pal_display() -> spec_fn(Pal, Pal) -> bool {
    |a: Pal, b: Pal| before(a.display_name@, b.display_name@)
}

/// The order of display names among passives.
pub open spec fn by_skill_display() -> spec_fn(PassiveSkill, PassiveSkill) -> bool {
    |a: PassiveSkill, b: PassiveSkill| before(a.display_name@, b.display_name@)
}

/// The first `n` elements, or all when there are fewer.
pub open spec fn at_most<T>(s: Seq<T>, n: nat) -> Seq<T> {
    if s.len() <= n {
        s
    } else {
        s.take(n as int)
    }
}

/// The suggestion out of display names in order: at most five different
/// ones.
pub open spec fn suggestion(displays: Seq<Seq<char>>) -> Seq<char> {
    joined(at_most(distinct(displays), 5), ", "@)
}

/// What is suggested for a species that does not exist.
pub open spec fn species_suggestion(db: PalDb, query: Seq<char>) -> Seq<char> {
    suggestion(
        sorted_by(kept(db.all(), pal_mentions(query)), by_pal_display()).map_values(
            |p: Pal| p.display_name@,
        ),
    )
}

/// What is suggested for a passive that does not exist.
pub open spec fn passive_suggestion(db: PalDb, query: Seq<char>) -> Seq<char> {
    suggestion(
        sorted_by(kept(db.skills(), skill_mentions(query)), by_skill_display()).map_values(
            |p: PassiveSkill| p.display_name@,
        ),
    )
}

fn holds_text(texts: &Vec<&str>, text: &str) -> (r: bool)
    ensures
        r == text_list(texts@).contains(text@),
{
    let ghost list = text_list(texts@);
    let mut i: usize = 0;
    while i < texts.len()
        invariant
            list == text_list(texts@),
            i <= texts@.len(),
            forall|j: int| 0 <= j < i ==> #[trigger] list[j] != text@,
        decreases texts@.len() - i,
    {
        proof {
            assert(list[i as int] == texts@[i as int]@);
        }
        if same_text(texts[i], text) {
            return true;
        }
        i = i + 1;
    }
    false
}

/// At most five different texts of a list, joined for an error message.
fn suggest(displays: &Vec<&str>) -> (r: String)
    ensures
        r@ == suggestion(text_list(displays@)),
{
    let ghost list = text_list(displays@);
    let mut different: Vec<&str> = Vec::new();
    let mut i: usize = 0;
    proof {
        assert(list.take(0) =~= Seq::empty());
        assert(text_list(different@) =~= Seq::empty());
    }
    while i < displays.len()
        invariant
            list == text_list(displays@),
            i <= displays@.len(),
            text_list(different@) == distinct(list.take(i as int)),
        decreases displays@.len() - i,
    {
        proof {
            assert(list.take(i + 1).drop_last() =~= list.take(i as int));
            assert(list.take(i + 1).last() == displays@[i as int]@);
        }
        if !holds_text(&different, displays[i]) {
            let ghost so_far = text_list(different@);
            different.push(displays[i]);
            proof {
                assert(text_list(different@) =~= so_far.push(displays@[i as int]@));
            }
        }
        i = i + 1;
    }
    let ghost all = text_list(different@);
    proof {
        assert(list.take(i as int) =~= list);
    }
    if different.len() > 5 {
        different.truncate(5);
        proof {
            assert(text_list(different@) =~= all.take(5));
        }
    }
    join(&different, ", ")
}

fn suggest_species(db: &PalDb, query: &str) -> (r: String)
    ensures
        r@ == species_suggestion(*db, query@),
{
    let keep = |p: &Pal| -> (b: bool)
        ensures
            b == pal_mentions(query@)(*p),
        { name_mentions(p.name.as_str(), p.display_name.as_str(), query) };
    let matching = pick(db.pals(), keep, Ghost(pal_mentions(query@)));
    let earlier = |a: &Pal, b: &Pal| -> (o: bool)
        ensures
            o == by_pal_display()(*a, *b),
        { comes_before(a.display_name.as_str(), b.display_name.as_str()) };
    let sorted = sort_refs(&matching, earlier, Ghost(by_pal_display()));
    let ghost list = referents(sorted@);
    let mut displays: Vec<&str> = Vec::new();
    let mut i: usize = 0;
    while i < sorted.len()
        invariant
            list == referents(sorted@),
            i <= sorted@.len(),
            displays@.len() == i,
            forall|j: int| 0 <= j < i ==> (#[trigger] displays@[j])@ == list[j].display_name@,
        decreases sorted@.len() - i,
    {
        proof {
            assert(list[i as int] == *sorted@[i as int]);
        }
        displays.push(sorted[i].display_name.as_str());
        i = i + 1;
    }
    proof {
        assert(text_list(displays@) =~= list.map_values(|p: Pal| p.display_name@));
    }
    suggest(&displays)
}

fn suggest_passives(db: &PalDb, query: &str) -> (r: String)
    ensures
        r@ == passive_suggestion(*db, query@),
{
    let keep = |p: &PassiveSkill| -> (b: bool)
        ensures
            b == skill_mentions(query@)(*p),
        { name_mentions(p.name.as_str(), p.display_name.as_str(), query) };
    let matching = pick(db.passives(), keep, Ghost(skill_mentions(query@)));
    let earlier = |a: &PassiveSkill, b: &PassiveSkill| -> (o: bool)
        ensures
            o == by_skill_display()(*a, *b),
        { comes_before(a.display_name.as_str(), b.display_name.as_str()) };
    let sorted = sort_refs(&matching, earlier, Ghost(by_skill_display()));
    let ghost list = referents(sorted@);
    let mut displays: Vec<&str> = Vec::new();
    let mut i: usize = 0;
    while i < sorted.len()
        invariant
            list == referents(sorted@),
            i <= sorted@.len(),
            displays@.len() == i,
            forall|j: int| 0 <= j < i ==> (#[trigger] displays@[j])@ == list[j].display_name@,
        decreases sorted@.len() - i,
    {
        proof {
            assert(list[i as int] == *sorted@[i as int]);
        }
        displays.push(sorted[i].display_name.as_str());
        i = i + 1;
    }
    proof {
        assert(text_list(displays@) =~= list.map_values(|p: PassiveSkill| p.display_name@));
    }
    suggest(&displays)
}

// ---------------------------------------------------------------------
// Species and passives
// ---------------------------------------------------------------------
/// What is said of a name that stands for nothing.
pub open spec fn unknown_text(kind: Seq<char>, raw: Seq<char>, suggestions: Seq<char>) -> Seq<
    char,
> {
    if suggestions.len() == 0 {
        "unknown "@ + kind + " "@ + debug_quoted(raw)
    } else {
        "unknown "@ + kind + " "@ + debug_quoted(raw) + " — did you mean "@ + suggestions + "?"@
    }
}

fn unknown_message(kind: &str, raw: &str, suggestions: &str) -> (r: String)
    ensures
        r@ == unknown_text(kind@, raw@, suggestions@),
{
    let mut out = "unknown ".to_owned();
    out.append(kind);
    out.append(" ");
    out.append(quoted(raw).as_str());
    if crate::text::chars_of(suggestions).len() > 0 {
        out.append(" — did you mean ");
        out.append(suggestions);
        out.append("?");
    }
    out
}

/// The species a name stands for.
pub fn resolve_species<'db>(db: &'db PalDb, raw: &str) -> (r: Result<&'db Pal, String>)
    ensures
        match r {
            Ok(pal) => db.found(raw@) == Some(*pal),
            Err(text) => db.found(raw@) is None && text@ == unknown_text(
                "species"@,
                raw@,
                species_suggestion(*db, raw@),
            ),
        },
{
    match db.find_pal(raw) {
        Some(pal) => Ok(pal),
        None => Err(unknown_message("species", raw, suggest_species(db, raw).as_str())),
    }
}

/// The passive a name stands for.
pub fn resolve_passive<'db>(db: &'db PalDb, raw: &str) -> (r: Result<&'db PassiveSkill, String>)
    ensures
        match r {
            Ok(skill) => db.found_skill(raw@) == Some(*skill),
            Err(text) => db.found_skill(raw@) is None && text@ == unknown_text(
                "passive"@,
                raw@,
                passive_suggestion(*db, raw@),
            ),
        },
{
    match db.find_passive(raw) {
        Some(skill) => Ok(skill),
        None => Err(unknown_message("passive", raw, suggest_passives(db, raw).as_str())),
    }
}

// ---------------------------------------------------------------------
// Genders and minimums
// ---------------------------------------------------------------------
/// The gender a word stands for.
pub fn parse_gender(raw: &str) -> (r: Result<Gender, String>)
    ensures
        match r {
            Ok(gender) => spoken_gender(raw@) == Some(gender),
            Err(text) => spoken_gender(raw@) is None && text@
                == "gender must be male or female, got "@ + debug_quoted(lower(raw@)),
        },
{
    match gender_of(raw) {
        Some(gender) => Ok(gender),
        None => {
            let mut out = "gender must be male or female, got ".to_owned();
            out.append(quoted(raw.to_ascii_lowercase().as_str()).as_str());
            Err(out)
        },
    }
}

/// Per-stat IV minimums, each 0-100; omitted stats are unconstrained.
#[derive(Clone, Copy, PartialEq, Eq, Structural, Debug)]
pub struct IvMinimums {
    pub hp: Option<u8>,
    pub attack: Option<u8>,
    pub defense: Option<u8>,
}

/// What is wrong with a minimum, if anything is.
pub open spec fn minimum_fault(value: Option<u8>, stat: Seq<char>) -> Option<Seq<char>> {
    if value is Some && value->0 > MAX_IV {
        Some(stat + ": "@ + (IvOutOfRange { value: value->0 }).text())
    } else {
        None
    }
}

/// What is wrong with minimums, if anything is.
pub open spec fn minimums_fault(minimums: Option<IvMinimums>) -> Option<Seq<char>> {
    match minimums {
        Some(m) => match minimum_fault(m.hp, "hp"@) {
            Some(text) => Some(text),
            None => match minimum_fault(m.attack, "attack"@) {
                Some(text) => Some(text),
                None => minimum_fault(m.defense, "defense"@),
            },
        },
        None => None,
    }
}

/// A threshold is a minimum.
pub open spec fn same_minimum(threshold: Option<IvValue>, value: Option<u8>) -> bool {
    match value {
        Some(v) => threshold is Some && threshold->0@ == v,
        None => threshold is None,
    }
}

/// Thresholds are the minimums.
pub open spec fn same_minimums(thresholds: IvThresholds, minimums: Option<IvMinimums>) -> bool {
    match minimums {
        Some(m) => same_minimum(thresholds.hp, m.hp) && same_minimum(thresholds.attack, m.attack)
            && same_minimum(thresholds.defense, m.defense),
        None => thresholds == no_thresholds(),
    }
}

fn convert(value: Option<u8>, stat: &str) -> (r: Result<Option<IvValue>, String>)
    ensures
        match r {
            Ok(threshold) => minimum_fault(value, stat@) is None && same_minimum(threshold, value),
            Err(text) => minimum_fault(value, stat@) == Some(text@),
        },
{
    match value {
        Some(raw) => match IvValue::from_number(raw) {
            Some(v) => Ok(Some(v)),
            None => {
                let mut out = stat.to_owned();
                out.append(": ");
                out.append((IvOutOfRange { value: raw }).message().as_str());
                Err(out)
            },
        },
        None => Ok(None),
    }
}

/// The thresholds that minimums ask for.
pub fn thresholds(min_ivs: Option<IvMinimums>) -> (r: Result<IvThresholds, String>)
    ensures
        match r {
            Ok(t) => minimums_fault(min_ivs) is None && same_minimums(t, min_ivs),
            Err(text) => minimums_fault(min_ivs) == Some(text@),
        },
{
    let minimums = match min_ivs {
        Some(minimums) => minimums,
        None => {
            return Ok(IvThresholds::default());
        },
    };
    let hp = match convert(minimums.hp, "hp") {
        Ok(value) => value,
        Err(text) => {
            return Err(text);
        },
    };
    let attack = match convert(minimums.attack, "attack") {
        Ok(value) => value,
        Err(text) => {
            return Err(text);
        },
    };
    let defense = match convert(minimums.defense, "defense") {
        Ok(value) => value,
        Err(text) => {
            return Err(text);
        },
    };
    Ok(IvThresholds { hp, attack, defense })
}

} // verus!
