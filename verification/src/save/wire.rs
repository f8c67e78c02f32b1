//! The GVAS property tree in plain values, and the readers that produce
//! it.

use std::collections::HashMap;
use std::io::Cursor;
use vstd::prelude::*;

use gvas::cursor_ext::ReadExt;
use gvas::error::DeserializeError;
use gvas::error::Error;
use gvas::game_version::GameVersion;
use gvas::properties::array_property::ArrayProperty;
use gvas::properties::map_property::MapProperty;
use gvas::properties::struct_property::StructPropertyValue;
use gvas::properties::Property;
use gvas::properties::PropertyOptions;
use gvas::types::map::HashableIndexMap;
use gvas::GvasFile;

use crate::save::guard::guarded;

verus! {

/// One property of a save, as far as pals are concerned.
#[derive(Debug)]
pub enum Wire {
    /// Named fields.
    Struct(Vec<WireField>),
    /// The values of a map, in order.
    Entries(Vec<Wire>),
    Bytes(Vec<u8>),
    List(Vec<Wire>),
    Strings(Vec<Option<String>>),
    Name(Option<String>),
    Str(Option<String>),
    Enum(String),
    Bool(bool),
    /// Anything else.
    Other,
}

/// A named field; a field may occur more than once.
#[derive(Debug)]
pub struct WireField {
    pub name: String,
    pub values: Vec<Wire>,
}

/// A property in mathematical terms.
pub enum WireView {
    Struct(Seq<FieldView>),
    Entries(Seq<WireView>),
    Bytes(Seq<u8>),
    List(Seq<WireView>),
    Strings(Seq<Option<Seq<char>>>),
    Name(Option<Seq<char>>),
    Str(Option<Seq<char>>),
    Enum(Seq<char>),
    Bool(bool),
    Other,
}

pub struct FieldView {
    pub name: Seq<char>,
    pub values: Seq<WireView>,
}

/// An optional text in mathematical terms.
pub open spec fn text_view(text: Option<String>) -> Option<Seq<char>> {
    match text {
        Some(t) => Some(t@),
        None => None,
    }
}

/// Optional texts in mathematical terms.
pub open spec fn text_views(texts: Seq<Option<String>>) -> Seq<Option<Seq<char>>> {
    texts.map_values(|t: Option<String>| text_view(t))
}

/// A property in mathematical terms.
pub open spec fn wire_view(w: Wire) -> WireView
    decreases w,
{
    match w {
        Wire::Struct(fields) => WireView::Struct(
            Seq::new(
                fields@.len(),
                |i: int|
                    if 0 <= i < fields@.len() {
                        field_view(fields@[i])
                    } else {
                        FieldView { name: Seq::empty(), values: Seq::empty() }
                    },
            ),
        ),
        Wire::Entries(values) => WireView::Entries(
            Seq::new(
                values@.len(),
                |i: int|
                    if 0 <= i < values@.len() {
                        wire_view(values@[i])
                    } else {
                        WireView::Other
                    },
            ),
        ),
        Wire::Bytes(bytes) => WireView::Bytes(bytes@),
        Wire::List(values) => WireView::List(
            Seq::new(
                values@.len(),
                |i: int|
                    if 0 <= i < values@.len() {
                        wire_view(values@[i])
                    } else {
                        WireView::Other
                    },
            ),
        ),
        Wire::Strings(texts) => WireView::Strings(text_views(texts@)),
        Wire::Name(text) => WireView::Name(text_view(text)),
        Wire::Str(text) => WireView::Str(text_view(text)),
        Wire::Enum(text) => WireView::Enum(text@),
        Wire::Bool(b) => WireView::Bool(b),
        Wire::Other => WireView::Other,
    }
}

/// A field in mathematical terms.
pub open spec fn field_view(f: WireField) -> FieldView
    decreases f,
{
    FieldView {
        name: f.name@,
        values: Seq::new(
            f.values@.len(),
            |i: int|
                if 0 <= i < f.values@.len() {
                    wire_view(f.values@[i])
                } else {
                    WireView::Other
                },
        ),
    }
}

/// Fields in mathematical terms.
pub open spec fn field_views(fields: Seq<WireField>) -> Seq<FieldView> {
    fields.map_values(|f: WireField| field_view(f))
}

impl View for Wire {
    type V = WireView;

    open spec fn view(&self) -> WireView {
        wire_view(*self)
    }
}

/// What the type of one untyped path is said to be.
#[derive(Debug)]
pub struct Hint {
    pub path: String,
    pub kind: String,
}

/// Hints by path, a later one deciding.
pub open spec fn hint_map(hints: Seq<Hint>) -> Map<Seq<char>, Seq<char>>
    decreases hints.len(),
{
    if hints.len() == 0 {
        Map::empty()
    } else {
        hint_map(hints.drop_last()).insert(hints.last().path@, hints.last().kind@)
    }
}

/// What reading a save leads to.
pub enum TreeRead {
    /// The top-level fields.
    Tree(Vec<WireField>),
    /// An untyped path that no hint covers.
    MissingHint(String),
    /// Anything else that went wrong, in words.
    Failed(String),
    /// The reader panicked.
    Panicked,
}

/// What reading a save leads to, in mathematical terms.
pub enum TreeView {
    Tree(Seq<FieldView>),
    MissingHint(Seq<char>),
    Failed(Seq<char>),
    Panicked,
}

impl View for TreeRead {
    type V = TreeView;

    open spec fn view(&self) -> TreeView {
        match *self {
            TreeRead::Tree(fields) => TreeView::Tree(field_views(fields@)),
            TreeRead::MissingHint(path) => TreeView::MissingHint(path@),
            TreeRead::Failed(text) => TreeView::Failed(text@),
            TreeRead::Panicked => TreeView::Panicked,
        }
    }
}

// ---------------------------------------------------------------------
// Trusted readers
// ---------------------------------------------------------------------
/// What `GvasFile::read_with_hints` reads from a save, in its Palworld
/// container or plain.
pub uninterp spec fn save_tree(
    bytes: Seq<u8>,
    contained: bool,
    hints: Map<Seq<char>, Seq<char>>,
) -> TreeView;

/// What `ReadExt::read_string` reads at a position, and where it ends.
pub uninterp spec fn text_at(bytes: Seq<u8>, at: nat) -> Option<(Seq<char>, nat)>;

/// What `Property::new` reads at a position for a type, and where it
/// ends.
pub uninterp spec fn property_at(
    bytes: Seq<u8>,
    at: nat,
    kind: Seq<char>,
) -> Option<(WireView, nat)>;

/// `gvas::properties::Property`.
#[verifier::external_type_specification]
#[verifier::external_body]
pub struct ExProperty(gvas::properties::Property);

/// `gvas::properties::array_property::ArrayProperty`.
#[verifier::external_type_specification]
#[verifier::external_body]
pub struct ExArrayProperty(gvas::properties::array_property::ArrayProperty);

/// `gvas::properties::struct_property::StructPropertyValue`.
#[verifier::external_type_specification]
#[verifier::external_body]
pub struct ExStructPropertyValue(gvas::properties::struct_property::StructPropertyValue);

/// The plain form of an array of the `gvas` crate: variant by variant,
/// names read as strings, and what this library does not read becoming
/// [`Wire::Other`].
#[verifier::external_body]
fn array_of(array: &ArrayProperty) -> Wire {
    match array {
        ArrayProperty::Bytes { bytes } => Wire::Bytes(bytes.clone()),
        ArrayProperty::Properties { properties, .. } => Wire::List(properties.iter().map(wire_of).collect()),
        ArrayProperty::Strings { strings } => Wire::Strings(strings.clone()),
        ArrayProperty::Names { names } => Wire::Strings(names.clone()),
        _ => Wire::Other,
    }
}

/// The plain form of a struct of the `gvas` crate: its named fields, or
/// [`Wire::Other`] for a struct of a built-in type.
#[verifier::external_body]
fn struct_of(value: &StructPropertyValue) -> Wire {
    match value {
        StructPropertyValue::CustomStruct(fields) => Wire::Struct(fields.iter().map(field_of).collect()),
        _ => Wire::Other,
    }
}

/// The plain form of a property of the `gvas` crate: variant by variant,
/// what this library does not read becoming [`Wire::Other`]. A struct
/// that stands in a map comes without a header, and is a struct all the
/// same.
#[verifier::external_body]
fn wire_of(property: &Property) -> Wire {
    match property {
        Property::StructProperty(s) => struct_of(&s.value),
        Property::StructPropertyValue(value) => struct_of(value),
        Property::MapProperty(MapProperty::Properties { value, .. }) => Wire::Entries(value.values().map(wire_of).collect()),
        Property::ArrayProperty(array) => array_of(array),
        Property::NameProperty(n) => Wire::Name(n.value.clone()),
        Property::StrProperty(s) => Wire::Str(s.value.clone()),
        Property::EnumProperty(e) => Wire::Enum(e.value.clone()),
        Property::BoolProperty(b) => Wire::Bool(b.value),
        _ => Wire::Other,
    }
}

/// The plain form of a named list of properties.
#[verifier::external_body]
fn field_of(entry: (&String, &Vec<Property>)) -> WireField {
    WireField { name: entry.0.clone(), values: entry.1.iter().map(wire_of).collect() }
}

/// `GvasFile::read_with_hints`: the property tree of a save, an untyped
/// path without a hint, or a failure with its text; a function of the
/// bytes, the kind of container and the hints. The reader asserts on
/// some malformed data, so it is [`guarded`]: a panic is an outcome of
/// its own. (One of its assertions, that repeated fields are numbered,
/// is only compiled with debug assertions.)
#[verifier::external_body]
pub(crate) fn read_tree(bytes: &[u8], contained: bool, hints: &Vec<Hint>) -> (r: TreeRead)
    ensures
        r@ == save_tree(bytes@, contained, hint_map(hints@)),
{
    let table = hints.iter().map(|h| (h.path.clone(), h.kind.clone())).collect();
    let version = if contained { GameVersion::Palworld } else { GameVersion::Default };
    let mut cursor = Cursor::new(bytes.to_vec());
    guarded(move || match GvasFile::read_with_hints(&mut cursor, version, &table) {
        Ok(file) => TreeRead::Tree(file.properties.iter().map(|(name, property)| WireField { name: name.clone(), values: vec![wire_of(property)] }).collect()),
        Err(Error::Deserialize(DeserializeError::MissingHint(_, path, _))) => TreeRead::MissingHint(path.to_string()),
        Err(error) => TreeRead::Failed(error.to_string()),
    }).unwrap_or(TreeRead::Panicked)
}

/// `ReadExt::read_string` at a position: the text that stands there and
/// the position behind it, which is further on and within the bytes.
#[verifier::external_body]
pub(crate) fn read_text(bytes: &Vec<u8>, at: usize) -> (r: Option<(String, usize)>)
    requires
        at <= bytes@.len(),
    ensures
        match r {
            Some((text, next)) => text_at(bytes@, at as nat) == Some((text@, next as nat)) && at
                < next <= bytes@.len(),
            None => text_at(bytes@, at as nat) is None,
        },
{
    let mut cursor = Cursor::new(bytes.as_slice());
    cursor.set_position(at as u64);
    match cursor.read_string() {
        Ok(text) => Some((text, cursor.position() as usize)),
        Err(_) => None,
    }
}

/// `Property::new` with a header, no hints and no custom versions, at a
/// position: the property that stands there and the position behind it,
/// which is not further back and within the bytes. The reader asserts on
/// some malformed data, so it is [`guarded`]: where it panics, no
/// property stands there.
#[verifier::external_body]
pub(crate) fn read_property(bytes: &Vec<u8>, at: usize, kind: &str) -> (r: Option<(Wire, usize)>)
    requires
        at <= bytes@.len(),
    ensures
        match r {
            Some((w, next)) => property_at(bytes@, at as nat, kind@) == Some((w@, next as nat))
                && at <= next <= bytes@.len(),
            None => property_at(bytes@, at as nat, kind@) is None,
        },
{
    let (mut cursor, kind) = (Cursor::new(bytes.clone()), kind.to_owned());
    cursor.set_position(at as u64);
    guarded(move || {
        let (hints, versions, mut stack) = (HashMap::new(), HashableIndexMap::default(), Vec::new());
        let mut options = PropertyOptions { hints: &hints, properties_stack: &mut stack, custom_versions: &versions };
        match Property::new(&mut cursor, &kind, true, &mut options, None) {
            Ok(property) => Some((wire_of(&property), cursor.position() as usize)),
            Err(_) => None,
        }
    }).flatten()
}

} // verus!
