//! The `Level.sav` wire boundary: GVAS parsing and raw character
//! extraction. Nothing here touches the pal database.
//!
//! Palworld's GVAS tree holds maps whose struct-typed keys and values
//! carry no type annotation; the reader needs a hint per such path. The
//! known set is seeded and the rest discovered: a missing hint names the
//! exact path, so the parser tries again with a generic struct hint
//! (falling back to `Guid` when that misparses) until the file reads.

use vstd::prelude::*;

use crate::save::container::contained;
use crate::save::container::decompress;
use crate::save::container::has_save_magic;
use crate::save::container::magic_at;
use crate::save::container::plz;
use crate::save::container::stripped;
use crate::save::container::three_at;
use crate::save::container::ContainerError;
use crate::save::container::Stripped;
use crate::save::wire::field_view;
use crate::save::wire::field_views;
use crate::save::wire::hint_map;
use crate::save::wire::property_at;
use crate::save::wire::read_property;
use crate::save::wire::read_text;
use crate::save::wire::read_tree;
use crate::save::wire::save_tree;
use crate::save::wire::text_at;
use crate::save::wire::text_view;
use crate::save::wire::text_views;
use crate::save::wire::wire_view;
use crate::save::wire::FieldView;
use crate::save::wire::Hint;
use crate::save::wire::TreeRead;
use crate::save::wire::TreeView;
use crate::save::wire::Wire;
use crate::save::wire::WireField;
use crate::save::wire::WireView;
use crate::text::before;
use crate::text::comes_before;
use crate::text::same_text;

verus! {

/// Why a save could not be read.
#[derive(Debug, PartialEq, Eq)]
pub enum SaveError {
    NotASave,
    Container(ContainerError),
    Gvas(String),
    HintDiscovery { attempts: usize, path: String },
    MissingCharacterMap,
}

/// One entry of the character map, still in wire terms.
#[derive(Debug, PartialEq, Eq)]
pub struct RawCharacter {
    pub character_id: Option<String>,
    pub gender: Option<String>,
    pub passives: Vec<String>,
    pub is_player: bool,
}

/// A character in mathematical terms.
pub struct CharacterView {
    pub character_id: Option<Seq<char>>,
    pub gender: Option<Seq<char>>,
    pub passives: Seq<Seq<char>>,
    pub is_player: bool,
}

/// Texts in mathematical terms.
pub open spec fn plain_texts(texts: Seq<String>) -> Seq<Seq<char>> {
    texts.map_values(|t: String| t@)
}

impl View for RawCharacter {
    type V = CharacterView;

    open spec fn view(&self) -> CharacterView {
        CharacterView {
            character_id: text_view(self.character_id),
            gender: text_view(self.gender),
            passives: plain_texts(self.passives@),
            is_player: self.is_player,
        }
    }
}

/// A character of which nothing is known.
pub open spec fn no_character() -> CharacterView {
    CharacterView { character_id: None, gender: None, passives: Seq::empty(), is_player: false }
}

impl Default for RawCharacter {
    fn default() -> (r: Self)
        ensures
            r@ == no_character(),
    {
        let r = RawCharacter {
            character_id: None,
            gender: None,
            passives: Vec::new(),
            is_player: false,
        };
        proof {
            assert(plain_texts(r.passives@) =~= Seq::empty());
        }
        r
    }
}

/// Characters in mathematical terms.
pub open spec fn character_views(list: Seq<RawCharacter>) -> Seq<CharacterView> {
    list.map_values(|c: RawCharacter| c@)
}

/// Everything extracted from a `Level.sav`.
#[derive(Debug)]
pub struct LevelSave {
    pub characters: Vec<RawCharacter>,
    /// Hint paths discovered at parse time beyond the seeded ones, with
    /// their types, in path order.
    pub discovered_hints: Vec<(String, String)>,
}

/// Whether `bytes` look like a Palworld `.sav` container, with a known
/// magic at offset 8, rather than for example a `pals.toml`.
pub fn looks_like_sav(bytes: &[u8]) -> (r: bool)
    ensures
        r == contained(bytes@),
{
    has_save_magic(bytes)
}

// ---------------------------------------------------------------------
// Walking the tree
// ---------------------------------------------------------------------
/// A field has this name.
pub open spec fn field_named(name: Seq<char>) -> spec_fn(FieldView) -> bool {
    |f: FieldView| f.name == name
}

/// The first value of the field with this name.
pub open spec fn first_value(fields: Seq<FieldView>, name: Seq<char>) -> Option<WireView> {
    match crate::seqs::first_where(fields, field_named(name)) {
        Some(i) => if fields[i].values.len() > 0 {
            Some(fields[i].values[0])
        } else {
            None
        },
        None => None,
    }
}

fn first<'a>(fields: &'a Vec<WireField>, name: &str) -> (r: Option<&'a Wire>)
    ensures
        match r {
            Some(w) => first_value(field_views(fields@), name@) == Some(w@),
            None => first_value(field_views(fields@), name@) is None,
        },
{
    let ghost views = field_views(fields@);
    let ghost p = field_named(name@);
    proof {
        crate::seqs::lemma_first_where(views, p);
    }
    let mut i: usize = 0;
    while i < fields.len()
        invariant
            views == field_views(fields@),
            p == field_named(name@),
            i <= fields@.len(),
            forall|j: int| 0 <= j < i ==> !p(#[trigger] views[j]),
        decreases fields@.len() - i,
    {
        proof {
            assert(views[i as int] == field_view(fields@[i as int]));
        }
        if same_text(fields[i].name.as_str(), name) {
            proof {
                assert(p(views[i as int]));
                crate::seqs::lemma_first_where(views, p);
            }
            if fields[i].values.len() > 0 {
                return Some(&fields[i].values[0]);
            }
            return None;
        }
        i = i + 1;
    }
    None
}

/// The fields of a struct.
pub open spec fn fields_in(w: Option<WireView>) -> Option<Seq<FieldView>> {
    match w {
        Some(WireView::Struct(fields)) => Some(fields),
        _ => None,
    }
}

fn struct_fields<'a>(w: Option<&'a Wire>) -> (r: Option<&'a Vec<WireField>>)
    ensures
        match r {
            Some(fields) => w is Some && fields_in(Some(w->0@)) == Some(field_views(fields@)),
            None => w is None || fields_in(Some(w->0@)) is None,
        },
{
    match w {
        Some(Wire::Struct(fields)) => {
            proof {
                let a = wire_view(*w->0)->Struct_0;
                assert(a =~= field_views(fields@));
            }
            Some(fields)
        },
        _ => None,
    }
}

/// The byte payload of a character entry, when shaped as expected.
pub open spec fn raw_data(entry: WireView) -> Option<Seq<u8>> {
    match fields_in(Some(entry)) {
        Some(fields) => match first_value(fields, "RawData"@) {
            Some(WireView::Bytes(bytes)) => Some(bytes),
            _ => None,
        },
        None => None,
    }
}

fn raw_data_bytes<'a>(entry: &'a Wire) -> (r: Option<&'a Vec<u8>>)
    ensures
        match r {
            Some(bytes) => raw_data(entry@) == Some(bytes@),
            None => raw_data(entry@) is None,
        },
{
    match struct_fields(Some(entry)) {
        Some(fields) => match first(fields, "RawData") {
            Some(Wire::Bytes(bytes)) => Some(bytes),
            _ => None,
        },
        None => None,
    }
}

/// The text of a name or string property.
pub open spec fn name_in(w: WireView) -> Option<Seq<char>> {
    match w {
        WireView::Name(text) => text,
        WireView::Str(text) => text,
        _ => None,
    }
}

fn name_text(w: &Wire) -> (r: Option<String>)
    ensures
        text_view(r) == name_in(w@),
{
    match w {
        Wire::Name(text) => copy_text(text),
        Wire::Str(text) => copy_text(text),
        _ => None,
    }
}

fn copy_text(text: &Option<String>) -> (r: Option<String>)
    ensures
        text_view(r) == text_view(*text),
{
    match text {
        Some(t) => Some(t.clone()),
        None => None,
    }
}

/// The texts among optional ones.
pub open spec fn present(texts: Seq<Option<Seq<char>>>) -> Seq<Seq<char>>
    decreases texts.len(),
{
    if texts.len() == 0 {
        Seq::empty()
    } else {
        match texts.last() {
            Some(t) => present(texts.drop_last()).push(t),
            None => present(texts.drop_last()),
        }
    }
}

/// The names in an array property.
pub open spec fn names_in(w: Option<WireView>) -> Seq<Seq<char>> {
    match w {
        Some(WireView::List(values)) => present(values.map_values(|v: WireView| name_in(v))),
        Some(WireView::Strings(texts)) => present(texts),
        _ => Seq::empty(),
    }
}

fn name_array(w: Option<&Wire>) -> (r: Vec<String>)
    ensures
        plain_texts(r@) == names_in(
            match w {
                Some(v) => Some(v@),
                None => None,
            },
        ),
{
    let mut out: Vec<String> = Vec::new();
    proof {
        assert(plain_texts(out@) =~= Seq::empty());
    }
    match w {
        Some(Wire::List(values)) => {
            let ghost list = (wire_view(*w->0)->List_0).map_values(|v: WireView| name_in(v));
            let mut i: usize = 0;
            proof {
                assert(list.take(0) =~= Seq::empty());
            }
            while i < values.len()
                invariant
                    i <= values@.len(),
                    list.len() == values@.len(),
                    forall|j: int| 0 <= j < list.len() ==> #[trigger] list[j] == name_in(values@[j]@),
                    plain_texts(out@) == present(list.take(i as int)),
                decreases values@.len() - i,
            {
                proof {
                    assert(list.take(i + 1).drop_last() =~= list.take(i as int));
                    assert(list.take(i + 1).last() == list[i as int]);
                }
                let ghost so_far = plain_texts(out@);
                match name_text(&values[i]) {
                    Some(t) => {
                        out.push(t);
                        proof {
                            assert(plain_texts(out@) =~= so_far.push(t@));
                        }
                    },
                    None => {},
                }
                i = i + 1;
            }
            proof {
                assert(list.take(i as int) =~= list);
            }
            out
        },
        Some(Wire::Strings(texts)) => {
            let ghost list = text_views(texts@);
            let mut i: usize = 0;
            proof {
                assert(list.take(0) =~= Seq::empty());
            }
            while i < texts.len()
                invariant
                    i <= texts@.len(),
                    list == text_views(texts@),
                    plain_texts(out@) == present(list.take(i as int)),
                decreases texts@.len() - i,
            {
                proof {
                    assert(list.take(i + 1).drop_last() =~= list.take(i as int));
                    assert(list.take(i + 1).last() == text_view(texts@[i as int]));
                }
                let ghost so_far = plain_texts(out@);
                match &texts[i] {
                    Some(t) => {
                        out.push(t.clone());
                        proof {
                            assert(plain_texts(out@) =~= so_far.push(t@));
                        }
                    },
                    None => {},
                }
                i = i + 1;
            }
            proof {
                assert(list.take(i as int) =~= list);
            }
            out
        },
        _ => out,
    }
}

// ---------------------------------------------------------------------
// One character
// ---------------------------------------------------------------------
/// The character that the fields of a save parameter describe.
pub open spec fn populated(fields: Seq<FieldView>) -> CharacterView {
    CharacterView {
        character_id: match first_value(fields, "CharacterID"@) {
            Some(w) => name_in(w),
            None => None,
        },
        gender: match first_value(fields, "Gender"@) {
            Some(WireView::Enum(value)) => Some(value),
            Some(WireView::Name(value)) => value,
            _ => None,
        },
        passives: names_in(first_value(fields, "PassiveSkillList"@)),
        is_player: first_value(fields, "IsPlayer"@) == Some(WireView::Bool(true)),
    }
}

fn populate(fields: &Vec<WireField>) -> (r: RawCharacter)
    ensures
        r@ == populated(field_views(fields@)),
{
    let character_id: Option<String> = match first(fields, "CharacterID") {
        Some(w) => name_text(w),
        None => None,
    };
    let gender: Option<String> = match first(fields, "Gender") {
        Some(Wire::Enum(value)) => Some(value.clone()),
        Some(Wire::Name(value)) => copy_text(value),
        _ => None,
    };
    let is_player = match first(fields, "IsPlayer") {
        Some(Wire::Bool(b)) => *b,
        _ => false,
    };
    let passives = name_array(first(fields, "PassiveSkillList"));
    RawCharacter { character_id, gender, passives, is_player }
}

/// The character that a property list describes from a position on, when
/// `sofar` is what the list said before. Where the list cannot be read
/// further, what it said so far stands.
pub open spec fn decoded_from(bytes: Seq<u8>, at: nat, sofar: CharacterView) -> CharacterView
    decreases bytes.len() - at,
{
    match text_at(bytes, at) {
        Some((name, kind_at)) => if name == "None"@ {
            sofar
        } else {
            match text_at(bytes, kind_at) {
                Some((kind, value_at)) => match property_at(bytes, value_at, kind) {
                    Some((w, next)) => {
                        let now = match fields_in(Some(w)) {
                            Some(fields) => if name == "SaveParameter"@ {
                                populated(fields)
                            } else {
                                sofar
                            },
                            None => sofar,
                        };
                        if at < next <= bytes.len() {
                            decoded_from(bytes, next, now)
                        } else {
                            now
                        }
                    },
                    None => sofar,
                },
                None => sofar,
            }
        },
        None => sofar,
    }
}

/// The character that a blob describes; one of which nothing is known
/// when it cannot be read.
pub open spec fn decoded(bytes: Seq<u8>) -> CharacterView {
    decoded_from(bytes, 0, no_character())
}

/// Decodes one character's blob: a property list holding a save
/// parameter struct.
pub fn decode_character(bytes: &Vec<u8>) -> (r: RawCharacter)
    ensures
        r@ == decoded(bytes@),
{
    let mut character = RawCharacter::default();
    let mut at: usize = 0;
    loop
        invariant
            at <= bytes@.len(),
            decoded(bytes@) == decoded_from(bytes@, at as nat, character@),
        decreases bytes@.len() - at,
    {
        let (name, kind_at): (String, usize) = match read_text(bytes, at) {
            Some(found) => found,
            None => {
                return character;
            },
        };
        if same_text(name.as_str(), "None") {
            return character;
        }
        let (kind, value_at): (String, usize) = match read_text(bytes, kind_at) {
            Some(found) => found,
            None => {
                return character;
            },
        };
        let (property, next): (Wire, usize) = match read_property(
            bytes,
            value_at,
            kind.as_str(),
        ) {
            Some(found) => found,
            None => {
                return character;
            },
        };
        if same_text(name.as_str(), "SaveParameter") {
            match struct_fields(Some(&property)) {
                Some(fields) => {
                    character = populate(fields);
                },
                None => {},
            }
        }
        at = next;
    }
}

// ---------------------------------------------------------------------
// All characters
// ---------------------------------------------------------------------
/// The characters of the entries that hold a payload.
pub open spec fn characters_in(entries: Seq<WireView>) -> Seq<CharacterView>
    decreases entries.len(),
{
    if entries.len() == 0 {
        Seq::empty()
    } else {
        match raw_data(entries.last()) {
            Some(bytes) => characters_in(entries.drop_last()).push(decoded(bytes)),
            None => characters_in(entries.drop_last()),
        }
    }
}

/// The characters of a save; nothing when it has no character map.
pub open spec fn extracted(tree: Seq<FieldView>) -> Option<Seq<CharacterView>> {
    match fields_in(first_value(tree, "worldSaveData"@)) {
        Some(world) => match first_value(world, "CharacterSaveParameterMap"@) {
            Some(WireView::Entries(entries)) => Some(characters_in(entries)),
            _ => None,
        },
        None => None,
    }
}

/// Extracts the characters of a save.
pub fn extract_characters(tree: &Vec<WireField>) -> (r: Result<Vec<RawCharacter>, SaveError>)
    ensures
        match r {
            Ok(list) => extracted(field_views(tree@)) == Some(character_views(list@)),
            Err(error) => extracted(field_views(tree@)) is None && error
                == SaveError::MissingCharacterMap,
        },
{
    let world = match struct_fields(first(tree, "worldSaveData")) {
        Some(world) => world,
        None => {
            return Err(SaveError::MissingCharacterMap);
        },
    };
    let map = match first(world, "CharacterSaveParameterMap") {
        Some(map) => map,
        None => {
            return Err(SaveError::MissingCharacterMap);
        },
    };
    match map {
        Wire::Entries(entries) => {
            let ghost views = wire_view(*map)->Entries_0;
            let mut out: Vec<RawCharacter> = Vec::new();
            let mut i: usize = 0;
            proof {
                assert(views.take(0) =~= Seq::empty());
                assert(character_views(out@) =~= Seq::empty());
            }
            while i < entries.len()
                invariant
                    i <= entries@.len(),
                    views.len() == entries@.len(),
                    forall|j: int| 0 <= j < views.len() ==> #[trigger] views[j] == entries@[j]@,
                    character_views(out@) == characters_in(views.take(i as int)),
                decreases entries@.len() - i,
            {
                proof {
                    assert(views.take(i + 1).drop_last() =~= views.take(i as int));
                    assert(views.take(i + 1).last() == views[i as int]);
                }
                match raw_data_bytes(&entries[i]) {
                    Some(bytes) => {
                        let ghost so_far = character_views(out@);
                        let character = decode_character(bytes);
                        out.push(character);
                        proof {
                            assert(character_views(out@) =~= so_far.push(character@));
                        }
                    },
                    None => {},
                }
                i = i + 1;
            }
            proof {
                assert(views.take(i as int) =~= views);
            }
            Ok(out)
        },
        _ => Err(SaveError::MissingCharacterMap),
    }
}

// ---------------------------------------------------------------------
// Hint discovery
// ---------------------------------------------------------------------
/// How often a save is read before discovery gives up.
pub const MAX_DISCOVERY_ATTEMPTS: usize = 64;

/// The known types of untyped `Level.sav` paths.
pub open spec fn seeds() -> Seq<(Seq<char>, Seq<char>)> {
    seq![
        (
            "worldSaveData.StructProperty.CharacterSaveParameterMap.MapProperty.Key.StructProperty"@,
            "Struct"@,
        ),
        (
            "worldSaveData.StructProperty.CharacterSaveParameterMap.MapProperty.Value.StructProperty"@,
            "Struct"@,
        ),
        (
            "worldSaveData.StructProperty.ItemContainerSaveData.MapProperty.Key.StructProperty"@,
            "Struct"@,
        ),
        (
            "worldSaveData.StructProperty.ItemContainerSaveData.MapProperty.Value.StructProperty"@,
            "Struct"@,
        ),
        (
            "worldSaveData.StructProperty.CharacterContainerSaveData.MapProperty.Key.StructProperty"@,
            "Struct"@,
        ),
        (
            "worldSaveData.StructProperty.CharacterContainerSaveData.MapProperty.Value.StructProperty"@,
            "Struct"@,
        ),
        (
            "worldSaveData.StructProperty.GroupSaveDataMap.MapProperty.Key.StructProperty"@,
            "Guid"@,
        ),
        (
            "worldSaveData.StructProperty.GroupSaveDataMap.MapProperty.Value.StructProperty"@,
            "Struct"@,
        ),
    ]
}

/// A path is among the known ones.
pub open spec fn is_seed(path: Seq<char>) -> bool {
    exists|i: int| 0 <= i < seeds().len() && (#[trigger] seeds()[i]).0 == path
}

/// The known types by path.
pub open spec fn seed_map() -> Map<Seq<char>, Seq<char>> {
    pair_map(seeds())
}

/// A list of pairs by first component, a later one deciding.
pub open spec fn pair_map(pairs: Seq<(Seq<char>, Seq<char>)>) -> Map<Seq<char>, Seq<char>>
    decreases pairs.len(),
{
    if pairs.len() == 0 {
        Map::empty()
    } else {
        pair_map(pairs.drop_last()).insert(pairs.last().0, pairs.last().1)
    }
}

fn seed(path: &str, kind: &str) -> (r: Hint)
    ensures
        r.path@ == path@,
        r.kind@ == kind@,
{
    Hint { path: path.to_owned(), kind: kind.to_owned() }
}

fn seed_hints() -> (r: Vec<Hint>)
    ensures
        r@.len() == seeds().len(),
        forall|i: int|
            0 <= i < r@.len() ==> (#[trigger] r@[i]).path@ == seeds()[i].0 && r@[i].kind@
                == seeds()[i].1,
        hint_map(r@) == seed_map(),
{
    let mut out: Vec<Hint> = Vec::new();
    out.push(
        seed(
            "worldSaveData.StructProperty.CharacterSaveParameterMap.MapProperty.Key.StructProperty",
            "Struct",
        ),
    );
    out.push(
        seed(
            "worldSaveData.StructProperty.CharacterSaveParameterMap.MapProperty.Value.StructProperty",
            "Struct",
        ),
    );
    out.push(
        seed(
            "worldSaveData.StructProperty.ItemContainerSaveData.MapProperty.Key.StructProperty",
            "Struct",
        ),
    );
    out.push(
        seed(
            "worldSaveData.StructProperty.ItemContainerSaveData.MapProperty.Value.StructProperty",
            "Struct",
        ),
    );
    out.push(
        seed(
            "worldSaveData.StructProperty.CharacterContainerSaveData.MapProperty.Key.StructProperty",
            "Struct",
        ),
    );
    out.push(
        seed(
            "worldSaveData.StructProperty.CharacterContainerSaveData.MapProperty.Value.StructProperty",
            "Struct",
        ),
    );
    out.push(
        seed(
            "worldSaveData.StructProperty.GroupSaveDataMap.MapProperty.Key.StructProperty",
            "Guid",
        ),
    );
    out.push(
        seed(
            "worldSaveData.StructProperty.GroupSaveDataMap.MapProperty.Value.StructProperty",
            "Struct",
        ),
    );
    proof {
        lemma_pairs(out@, seeds());
    }
    out
}

proof fn lemma_pairs(hints: Seq<Hint>, pairs: Seq<(Seq<char>, Seq<char>)>)
    requires
        hints.len() == pairs.len(),
        forall|i: int|
            0 <= i < hints.len() ==> (#[trigger] hints[i]).path@ == pairs[i].0 && hints[i].kind@
                == pairs[i].1,
    ensures
        hint_map(hints) == pair_map(pairs),
    decreases hints.len(),
{
    if hints.len() > 0 {
        let a = hints.drop_last();
        let b = pairs.drop_last();
        assert forall|i: int| 0 <= i < a.len() implies (#[trigger] a[i]).path@ == b[i].0
            && a[i].kind@ == b[i].1 by {
            assert(a[i] == hints[i]);
        }
        lemma_pairs(a, b);
        assert(hints[hints.len() - 1].path@ == pairs[pairs.len() - 1].0);
    }
}

/// How discovery ends.
pub enum Discovery {
    Found { tree: Seq<FieldView>, hints: Map<Seq<char>, Seq<char>> },
    Failed { text: Seq<char> },
    GaveUp { path: Seq<char> },
}

/// What is said of a save whose tree could not be read.
pub open spec fn failure_text(read: TreeView) -> Seq<char> {
    match read {
        TreeView::Failed(text) => text,
        _ => "the property reader panicked"@,
    }
}

/// How discovery ends with `left` attempts left: a missing hint is tried
/// as a generic struct; if the next attempt fails otherwise, that one is
/// tried as a `Guid` once.
pub open spec fn discovery(
    bytes: Seq<u8>,
    native: bool,
    hints: Map<Seq<char>, Seq<char>>,
    last: Option<Seq<char>>,
    left: nat,
) -> Discovery
    decreases left,
{
    if left == 0 {
        Discovery::GaveUp {
            path: match last {
                Some(path) => path,
                None => Seq::empty(),
            },
        }
    } else {
        match save_tree(bytes, native, hints) {
            TreeView::Tree(tree) => Discovery::Found { tree, hints },
            TreeView::MissingHint(path) => discovery(
                bytes,
                native,
                hints.insert(path, "Struct"@),
                Some(path),
                (left - 1) as nat,
            ),
            failed => match last {
                Some(path) => if hints.dom().contains(path) && hints[path] == "Struct"@ {
                    discovery(
                        bytes,
                        native,
                        hints.insert(path, "Guid"@),
                        None,
                        (left - 1) as nat,
                    )
                } else {
                    Discovery::Failed { text: failure_text(failed) }
                },
                None => Discovery::Failed { text: failure_text(failed) },
            },
        }
    }
}

/// The hint of a path, if there is one.
fn hint_of(hints: &Vec<Hint>, path: &str) -> (r: Option<usize>)
    ensures
        match r {
            Some(i) => i < hints@.len() && hint_map(hints@).dom().contains(path@)
                && hint_map(hints@)[path@] == hints@[i as int].kind@,
            None => !hint_map(hints@).dom().contains(path@),
        },
{
    let mut i: usize = hints.len();
    proof {
        assert(hints@.take(i as int) =~= hints@);
    }
    while i > 0
        invariant
            i <= hints@.len(),
            hint_map(hints@).dom().contains(path@) == hint_map(
                hints@.take(i as int),
            ).dom().contains(path@),
            hint_map(hints@).dom().contains(path@) ==> hint_map(hints@)[path@] == hint_map(
                hints@.take(i as int),
            )[path@],
        decreases i,
    {
        proof {
            assert(hints@.take(i as int).drop_last() =~= hints@.take(i - 1));
            assert(hints@.take(i as int).last() == hints@[i - 1]);
        }
        i = i - 1;
        if same_text(hints[i].path.as_str(), path) {
            return Some(i);
        }
    }
    None
}

fn add_hint(hints: &mut Vec<Hint>, path: &str, kind: &str)
    ensures
        hint_map(final(hints)@) == hint_map(old(hints)@).insert(path@, kind@),
{
    let ghost start = hints@;
    hints.push(Hint { path: path.to_owned(), kind: kind.to_owned() });
    proof {
        assert(hints@.drop_last() =~= start);
    }
}

/// The hints beyond the known ones, each path once and in order.
pub open spec fn lists_discoveries(
    list: Seq<(String, String)>,
    hints: Map<Seq<char>, Seq<char>>,
) -> bool {
    &&& forall|i: int, j: int|
        0 <= i < j < list.len() ==> before((#[trigger] list[i]).0@, (#[trigger] list[j]).0@)
    &&& forall|i: int|
        0 <= i < list.len() ==> !is_seed((#[trigger] list[i]).0@) && hints.dom().contains(
            list[i].0@,
        ) && hints[list[i].0@] == list[i].1@
    &&& forall|path: Seq<char>| #[trigger]
        hints.dom().contains(path) && !is_seed(path) ==> exists|i: int|
            0 <= i < list.len() && (#[trigger] list[i]).0@ == path
}

fn known_path(seeds_list: &Vec<Hint>, path: &str) -> (r: bool)
    requires
        seeds_list@.len() == seeds().len(),
        forall|i: int|
            0 <= i < seeds_list@.len() ==> (#[trigger] seeds_list@[i]).path@ == seeds()[i].0,
    ensures
        r == is_seed(path@),
{
    let mut i: usize = 0;
    while i < seeds_list.len()
        invariant
            seeds_list@.len() == seeds().len(),
            forall|k: int|
                0 <= k < seeds_list@.len() ==> (#[trigger] seeds_list@[k]).path@ == seeds()[k].0,
            i <= seeds_list@.len(),
            forall|k: int| 0 <= k < i ==> (#[trigger] seeds()[k]).0 != path@,
        decreases seeds_list@.len() - i,
    {
        proof {
            assert(seeds_list@[i as int].path@ == seeds()[i as int].0);
        }
        if same_text(seeds_list[i].path.as_str(), path) {
            return true;
        }
        i = i + 1;
    }
    false
}

/// The hints beyond the known ones, each path once and in order.
fn discoveries(hints: &Vec<Hint>) -> (r: Vec<(String, String)>)
    ensures
        lists_discoveries(r@, hint_map(hints@)),
{
    let known = seed_hints();
    let mut out: Vec<(String, String)> = Vec::new();
    let mut k: usize = 0;
    proof {
        assert(hints@.take(0) =~= Seq::empty());
    }
    while k < hints.len()
        invariant
            known@.len() == seeds().len(),
            forall|i: int|
                0 <= i < known@.len() ==> (#[trigger] known@[i]).path@ == seeds()[i].0,
            k <= hints@.len(),
            lists_discoveries(out@, hint_map(hints@.take(k as int))),
        decreases hints@.len() - k,
    {
        let hint = &hints[k];
        let ghost map = hint_map(hints@.take(k as int));
        let ghost next = map.insert(hint.path@, hint.kind@);
        let ghost start = out@;
        proof {
            assert(hints@.take(k + 1).drop_last() =~= hints@.take(k as int));
            assert(hints@.take(k + 1).last() == *hint);
            assert(hint_map(hints@.take(k + 1)) == next);
        }
        if !known_path(&known, hint.path.as_str()) {
            // the first place whose path is not before this one
            let mut at: usize = 0;
            while at < out.len() && comes_before(out[at].0.as_str(), hint.path.as_str())
                invariant
                    out@ == start,
                    at <= out@.len(),
                    forall|i: int| 0 <= i < at ==> before((#[trigger] out@[i]).0@, hint.path@),
                decreases out@.len() - at,
            {
                at = at + 1;
            }
            let pair: (String, String) = (hint.path.clone(), hint.kind.clone());
            if at < out.len() && same_text(out[at].0.as_str(), hint.path.as_str()) {
                out.set(at, pair);
                proof {
                    assert forall|path: Seq<char>| #[trigger]
                        next.dom().contains(path) && !is_seed(path) implies exists|i: int|
                        0 <= i < out@.len() && (#[trigger] out@[i]).0@ == path by {
                        if path == hint.path@ {
                            assert(out@[at as int].0@ == path);
                        } else {
                            assert(map.dom().contains(path));
                            let i = choose|i: int|
                                0 <= i < start.len() && (#[trigger] start[i]).0@ == path;
                            assert(out@[i].0@ == path);
                        }
                    }
                    assert forall|i: int, j: int| 0 <= i < j < out@.len() implies before(
                        (#[trigger] out@[i]).0@,
                        (#[trigger] out@[j]).0@,
                    ) by {
                        assert(before(start[i].0@, start[j].0@));
                    }
                    assert forall|i: int| 0 <= i < out@.len() implies !is_seed(
                        (#[trigger] out@[i]).0@,
                    ) && next.dom().contains(out@[i].0@) && next[out@[i].0@] == out@[i].1@ by {
                        if i != at {
                            assert(out@[i] == start[i]);
                            if i < at {
                                assert(before(start[i].0@, start[at as int].0@));
                            } else {
                                assert(before(start[at as int].0@, start[i].0@));
                            }
                            crate::text::lemma_before_irreflexive(hint.path@);
                        }
                    }
                }
            } else {
                proof {
                    if at < start.len() {
                        crate::text::lemma_before_total(start[at as int].0@, hint.path@);
                        assert(before(hint.path@, start[at as int].0@));
                        assert forall|i: int| at <= i < start.len() implies before(
                            hint.path@,
                            (#[trigger] start[i]).0@,
                        ) by {
                            if i > at {
                                assert(before(start[at as int].0@, start[i].0@));
                                crate::text::lemma_before_transitive(
                                    hint.path@,
                                    start[at as int].0@,
                                    start[i].0@,
                                );
                            }
                        }
                    }
                }
                out.insert(at, pair);
                proof {
                    assert forall|i: int| 0 <= i < start.len() implies (#[trigger] start[i]).0@
                        != hint.path@ by {
                        crate::text::lemma_before_irreflexive(hint.path@);
                    }
                    assert forall|path: Seq<char>| #[trigger]
                        next.dom().contains(path) && !is_seed(path) implies exists|i: int|
                        0 <= i < out@.len() && (#[trigger] out@[i]).0@ == path by {
                        if path == hint.path@ {
                            assert(out@[at as int].0@ == path);
                        } else {
                            assert(map.dom().contains(path));
                            let i = choose|i: int|
                                0 <= i < start.len() && (#[trigger] start[i]).0@ == path;
                            if i < at {
                                assert(out@[i] == start[i]);
                            } else {
                                assert(out@[i + 1] == start[i]);
                            }
                        }
                    }
                    assert forall|i: int, j: int| 0 <= i < j < out@.len() implies before(
                        (#[trigger] out@[i]).0@,
                        (#[trigger] out@[j]).0@,
                    ) by {
                        let a = if i < at { i } else { i - 1 };
                        let b = if j < at { j } else { j - 1 };
                        if i != at && j != at {
                            assert(out@[i] == start[a] && out@[j] == start[b]);
                            assert(before(start[a].0@, start[b].0@));
                        } else if i == at {
                            assert(out@[j] == start[b]);
                        } else {
                            assert(out@[i] == start[a]);
                        }
                    }
                    assert forall|i: int| 0 <= i < out@.len() implies !is_seed(
                        (#[trigger] out@[i]).0@,
                    ) && next.dom().contains(out@[i].0@) && next[out@[i].0@] == out@[i].1@ by {
                        if i < at {
                            assert(out@[i] == start[i]);
                        } else if i > at {
                            assert(out@[i] == start[i - 1]);
                        }
                    }
                }
            }
        } else {
            proof {
                assert forall|path: Seq<char>| #[trigger]
                    next.dom().contains(path) && !is_seed(path) implies exists|i: int|
                    0 <= i < out@.len() && (#[trigger] out@[i]).0@ == path by {
                    assert(map.dom().contains(path));
                }
                assert forall|i: int| 0 <= i < out@.len() implies !is_seed((#[trigger] out@[i]).0@)
                    && next.dom().contains(out@[i].0@) && next[out@[i].0@] == out@[i].1@ by {}
            }
        }
        k = k + 1;
    }
    proof {
        assert(hints@.take(k as int) =~= hints@);
    }
    out
}

/// Parses with hints that discover themselves.
fn parse_with_discovery(bytes: &[u8], native: bool) -> (r: Result<
    (Vec<WireField>, Vec<Hint>),
    SaveError,
>)
    ensures
        match discovery(bytes@, native, seed_map(), None, MAX_DISCOVERY_ATTEMPTS as nat) {
            Discovery::Found { tree, hints } => r is Ok && field_views(r->Ok_0.0@) == tree
                && hint_map(r->Ok_0.1@) == hints,
            Discovery::Failed { text } => r matches Err(SaveError::Gvas(t)) && t@ == text,
            Discovery::GaveUp { path } => r matches Err(SaveError::HintDiscovery { attempts, path: p })
                && attempts == MAX_DISCOVERY_ATTEMPTS && p@ == path,
        },
{
    let mut hints = seed_hints();
    let mut last: Option<String> = None;
    let mut left: usize = MAX_DISCOVERY_ATTEMPTS;
    while left > 0
        invariant
            left <= MAX_DISCOVERY_ATTEMPTS,
            discovery(bytes@, native, seed_map(), None, MAX_DISCOVERY_ATTEMPTS as nat)
                == discovery(bytes@, native, hint_map(hints@), text_view(last), left as nat),
        decreases left,
    {
        left = left - 1;
        match read_tree(bytes, native, &hints) {
            TreeRead::Tree(tree) => {
                return Ok((tree, hints));
            },
            TreeRead::MissingHint(path) => {
                add_hint(&mut hints, path.as_str(), "Struct");
                last = Some(path);
            },
            failed => {
                let text = match failed {
                    TreeRead::Failed(text) => text,
                    _ => "the property reader panicked".to_owned(),
                };
                // A freshly guessed generic struct may have misparsed.
                match last {
                    Some(path) => {
                        let again = match hint_of(&hints, path.as_str()) {
                            Some(i) => same_text(hints[i].kind.as_str(), "Struct"),
                            None => false,
                        };
                        if again {
                            add_hint(&mut hints, path.as_str(), "Guid");
                            last = None;
                        } else {
                            return Err(SaveError::Gvas(text));
                        }
                    },
                    None => {
                        return Err(SaveError::Gvas(text));
                    },
                }
            },
        }
    }
    let path: String = match last {
        Some(path) => path,
        None => {
            let none = String::new();
            proof {
                assert(none@ =~= Seq::empty());
            }
            none
        },
    };
    Err(SaveError::HintDiscovery { attempts: MAX_DISCOVERY_ATTEMPTS, path })
}

// ---------------------------------------------------------------------
// The whole file
// ---------------------------------------------------------------------
/// What reading a `Level.sav` leads to.
pub enum Level {
    NotASave,
    Container(Stripped),
    Gvas { text: Seq<char> },
    HintDiscovery { path: Seq<char> },
    MissingCharacterMap,
    Read { characters: Seq<CharacterView>, hints: Map<Seq<char>, Seq<char>> },
}

/// What the outcome of discovery means for the file.
pub open spec fn level_from(d: Discovery) -> Level {
    match d {
        Discovery::Found { tree, hints } => match extracted(tree) {
            Some(characters) => Level::Read { characters, hints },
            None => Level::MissingCharacterMap,
        },
        Discovery::Failed { text } => Level::Gvas { text },
        Discovery::GaveUp { path } => Level::HintDiscovery { path },
    }
}

/// What reading `bytes` leads to: a `PlZ` save is read in its container,
/// another known container is stripped first.
pub open spec fn level_of(bytes: Seq<u8>) -> Level {
    let attempts = MAX_DISCOVERY_ATTEMPTS as nat;
    if bytes.len() > 12 && magic_at(bytes, 0) == plz() {
        level_from(discovery(bytes, true, seed_map(), None, attempts))
    } else if contained(bytes) {
        match stripped(bytes) {
            Stripped::Data(data) => level_from(discovery(data, false, seed_map(), None, attempts)),
            other => Level::Container(other),
        }
    } else {
        Level::NotASave
    }
}

/// An error reports what reading led to.
pub open spec fn reports(error: SaveError, level: Level) -> bool {
    match error {
        SaveError::NotASave => level is NotASave,
        SaveError::Container(cause) => level matches Level::Container(s)
            && crate::save::container::reports(cause, s),
        SaveError::Gvas(text) => level == (Level::Gvas { text: text@ }),
        SaveError::HintDiscovery { attempts, path } => attempts == MAX_DISCOVERY_ATTEMPTS && level
            == (Level::HintDiscovery { path: path@ }),
        SaveError::MissingCharacterMap => level is MissingCharacterMap,
    }
}

/// A parsed save holds what reading led to.
pub open spec fn holds(save: LevelSave, level: Level) -> bool {
    level matches Level::Read { characters, hints } && character_views(save.characters@)
        == characters && lists_discoveries(save.discovered_hints@, hints)
}

fn read_stream(bytes: &[u8], native: bool) -> (r: Result<LevelSave, SaveError>)
    ensures
        ({
            let level = level_from(
                discovery(bytes@, native, seed_map(), None, MAX_DISCOVERY_ATTEMPTS as nat),
            );
            match r {
                Ok(save) => holds(save, level),
                Err(error) => reports(error, level),
            }
        }),
{
    let (tree, hints): (Vec<WireField>, Vec<Hint>) = match parse_with_discovery(bytes, native) {
        Ok(found) => found,
        Err(error) => {
            return Err(error);
        },
    };
    match extract_characters(&tree) {
        Ok(characters) => Ok(LevelSave { characters, discovered_hints: discoveries(&hints) }),
        Err(error) => Err(error),
    }
}

/// Whether the property reader takes the container as it is.
fn is_native(bytes: &[u8]) -> (r: bool)
    ensures
        r == (bytes@.len() > 12 && magic_at(bytes@, 0) == plz()),
{
    bytes.len() > 12 && three_at(bytes, 8, 0x50, 0x6C, 0x5A)
}

/// Parses a full `Level.sav` (container and GVAS) and extracts the
/// character map.
///
/// Fails when the container magic is absent, the container or the GVAS
/// tree cannot be read even after hint discovery, or the character map
/// is missing.
pub fn read_level_sav(bytes: &[u8]) -> (r: Result<LevelSave, SaveError>)
    ensures
        match r {
            Ok(save) => holds(save, level_of(bytes@)),
            Err(error) => reports(error, level_of(bytes@)),
        },
        r matches Err(SaveError::NotASave) <==> !contained(bytes@),
{
    if is_native(bytes) {
        return read_stream(bytes, true);
    }
    if looks_like_sav(bytes) {
        return match decompress(bytes) {
            Ok(data) => read_stream(data.as_slice(), false),
            Err(cause) => Err(SaveError::Container(cause)),
        };
    }
    Err(SaveError::NotASave)
}

impl SaveError {
    /// What a user is told.
    pub open spec fn text(self) -> Seq<char> {
        match self {
            SaveError::NotASave => "not a Palworld save container (no PlZ/PlM magic)"@,
            SaveError::Container(cause) => cause.text(),
            SaveError::Gvas(cause) => "GVAS parse failed: "@ + cause@,
            SaveError::HintDiscovery { attempts, path } => {
                "hint discovery did not converge after "@ + crate::text::decimal(attempts as nat)
                    + " attempts (last path: "@ + path@ + ")"@
            },
            SaveError::MissingCharacterMap => {
                "worldSaveData.CharacterSaveParameterMap not found or not the expected shape"@
            },
        }
    }

    pub fn message(&self) -> (r: String)
        ensures
            r@ == self.text(),
    {
        match self {
            SaveError::NotASave => {
                "not a Palworld save container (no PlZ/PlM magic)".to_owned()
            },
            SaveError::Container(cause) => cause.message(),
            SaveError::Gvas(cause) => {
                let mut out = "GVAS parse failed: ".to_owned();
                out.append(cause.as_str());
                out
            },
            SaveError::HintDiscovery { attempts, path } => {
                let mut out = "hint discovery did not converge after ".to_owned();
                out.append(crate::text::decimal_of(*attempts as u128).as_str());
                out.append(" attempts (last path: ");
                out.append(path.as_str());
                out.append(")");
                out
            },
            SaveError::MissingCharacterMap => {
                "worldSaveData.CharacterSaveParameterMap not found or not the expected shape".to_owned()
            },
        }
    }
}

// ---------------------------------------------------------------------
// Laws
// ---------------------------------------------------------------------
/// Every entry with a payload gives one character, in the order of the
/// entries.
pub proof fn law_no_character_is_lost(entries: Seq<WireView>)
    ensures
        characters_in(entries) == entries.filter(|e: WireView| raw_data(e) is Some).map_values(
            |e: WireView| decoded(raw_data(e)->0),
        ),
    decreases entries.len(),
{
    reveal(Seq::filter);
    let holds = |e: WireView| raw_data(e) is Some;
    if entries.len() > 0 {
        law_no_character_is_lost(entries.drop_last());
    }
    assert(characters_in(entries) =~= entries.filter(holds).map_values(
        |e: WireView| decoded(raw_data(e)->0),
    ));
}

/// Where each text is there, all are.
proof fn lemma_all_present(texts: Seq<Option<Seq<char>>>, all: Seq<Seq<char>>)
    requires
        texts.len() == all.len(),
        forall|j: int| 0 <= j < all.len() ==> #[trigger] texts[j] == Some(all[j]),
    ensures
        present(texts) == all,
    decreases texts.len(),
{
    if texts.len() > 0 {
        assert(texts.last() == Some(all.last()));
        assert forall|j: int| 0 <= j < all.drop_last().len() implies #[trigger] texts.drop_last()[j]
            == Some(all.drop_last()[j]) by {
            assert(texts[j] == Some(all[j]));
        }
        lemma_all_present(texts.drop_last(), all.drop_last());
        assert(all.drop_last().push(all.last()) =~= all);
    } else {
        assert(all =~= Seq::empty());
    }
}

/// No passive that a character lists is lost, however many there are:
/// a list of names, of strings or of plain texts is read whole, in its
/// order.
pub proof fn law_listed_names_are_all_read(w: WireView, names: Seq<Seq<char>>)
    requires
        match w {
            WireView::List(values) => values.len() == names.len() && forall|j: int|
                0 <= j < names.len() ==> (#[trigger] values[j] == WireView::Name(Some(names[j]))
                    || values[j] == WireView::Str(Some(names[j]))),
            WireView::Strings(texts) => texts.len() == names.len() && forall|j: int|
                0 <= j < names.len() ==> #[trigger] texts[j] == Some(names[j]),
            _ => false,
        },
    ensures
        names_in(Some(w)) == names,
{
    match w {
        WireView::List(values) => {
            let texts = values.map_values(|v: WireView| name_in(v));
            assert forall|j: int| 0 <= j < names.len() implies #[trigger] texts[j] == Some(
                names[j],
            ) by {
                assert(texts[j] == name_in(values[j]));
            }
            lemma_all_present(texts, names);
        },
        WireView::Strings(texts) => {
            lemma_all_present(texts, names);
        },
        _ => {},
    }
}

/// A character reads as it was written, wherever among other fields its
/// own ones stand: the first field of each name says the species, the
/// gender, the passives and whether it is a player.
pub proof fn law_characters_are_read_as_written(
    fields: Seq<FieldView>,
    at: (int, int, int, int),
    id: Seq<char>,
    gender: Seq<char>,
    passives: Seq<Seq<char>>,
    player: bool,
)
    requires
        first_written(fields, at.0, "CharacterID"@, WireView::Name(Some(id))),
        first_written(fields, at.1, "Gender"@, WireView::Enum(gender)),
        first_written(
            fields,
            at.2,
            "PassiveSkillList"@,
            WireView::List(passives.map_values(|p: Seq<char>| WireView::Name(Some(p)))),
        ),
        first_written(fields, at.3, "IsPlayer"@, WireView::Bool(player)),
    ensures
        populated(fields).character_id == Some(id),
        populated(fields).gender == Some(gender),
        populated(fields).passives == passives,
        populated(fields).is_player == player,
{
    lemma_first_written(fields, at.0, "CharacterID"@, WireView::Name(Some(id)));
    lemma_first_written(fields, at.1, "Gender"@, WireView::Enum(gender));
    let list = WireView::List(passives.map_values(|p: Seq<char>| WireView::Name(Some(p))));
    lemma_first_written(fields, at.2, "PassiveSkillList"@, list);
    lemma_first_written(fields, at.3, "IsPlayer"@, WireView::Bool(player));
    law_listed_names_are_all_read(list, passives);
}

/// The field at a position is the first of its name and holds `value`.
pub open spec fn first_written(
    fields: Seq<FieldView>,
    at: int,
    name: Seq<char>,
    value: WireView,
) -> bool {
    &&& 0 <= at < fields.len()
    &&& fields[at].name == name
    &&& fields[at].values.len() > 0
    &&& fields[at].values[0] == value
    &&& forall|j: int| 0 <= j < at ==> (#[trigger] fields[j]).name != name
}

proof fn lemma_first_written(fields: Seq<FieldView>, at: int, name: Seq<char>, value: WireView)
    requires
        first_written(fields, at, name, value),
    ensures
        first_value(fields, name) == Some(value),
{
    let named = field_named(name);
    crate::seqs::lemma_first_where(fields, named);
    assert(named(fields[at]));
    match crate::seqs::first_where(fields, named) {
        Some(i) => {
            assert(named(fields[i]));
            if i < at {
                assert(fields[i].name != name);
            }
        },
        None => {},
    }
}

} // verus!
