//! Shapes the tools return. Every reference to a species or passive
//! carries both the canonical internal name and the display name, so
//! answers stay self-describing wherever a client quotes them.

use vstd::prelude::*;

use crate::model::Gender;
use crate::model::IvSpread;
use crate::model::PalDb;
use crate::model::PalName;
use crate::model::PassiveName;
use crate::names::display;
use crate::names::display_passive;
use crate::names::shown;
use crate::names::shown_passive;
use crate::search::plan::BreedingPlan;
use crate::search::plan::OwnedPal;
use crate::search::plan::OwnedView;
use crate::search::plan::PlanNode;
use crate::search::plan::PlanTree;
use crate::search::plan::PlanView;

verus! {

/// An internal name beside its display name.
pub struct NameView {
    pub name: Seq<char>,
    pub display_name: Seq<char>,
}

#[derive(PartialEq, Eq, Debug)]
pub struct SpeciesRef {
    /// Canonical internal name (the game's identifier).
    pub name: String,
    /// Localized display name.
    pub display_name: String,
}

impl View for SpeciesRef {
    type V = NameView;

    open spec fn view(&self) -> NameView {
        NameView { name: self.name@, display_name: self.display_name@ }
    }
}

#[derive(PartialEq, Eq, Debug)]
pub struct PassiveRef {
    /// Canonical internal name.
    pub name: String,
    /// Localized display name.
    pub display_name: String,
}

impl View for PassiveRef {
    type V = NameView;

    open spec fn view(&self) -> NameView {
        NameView { name: self.name@, display_name: self.display_name@ }
    }
}

/// References to passives as plain values.
pub open spec fn passive_views(refs: Seq<PassiveRef>) -> Seq<NameView> {
    refs.map_values(|r: PassiveRef| r@)
}

/// References to species as plain values.
pub open spec fn species_views(refs: Seq<SpeciesRef>) -> Seq<NameView> {
    refs.map_values(|r: SpeciesRef| r@)
}

#[derive(Clone, Copy, PartialEq, Eq, Structural, Debug)]
pub enum GenderJson {
    Male,
    Female,
}

/// A gender as it is reported.
pub open spec fn reported_gender(gender: Gender) -> GenderJson {
    match gender {
        Gender::Male => GenderJson::Male,
        Gender::Female => GenderJson::Female,
    }
}

impl From<Gender> for GenderJson {
    fn from(gender: Gender) -> (r: Self) {
        match gender {
            Gender::Male => GenderJson::Male,
            Gender::Female => GenderJson::Female,
        }
    }
}

impl vstd::std_specs::convert::FromSpecImpl<Gender> for GenderJson {
    open spec fn obeys_from_spec() -> bool {
        true
    }

    open spec fn from_spec(gender: Gender) -> Self {
        reported_gender(gender)
    }
}

#[derive(Clone, Copy, PartialEq, Eq, Structural, Debug)]
pub struct IvsJson {
    pub hp: u8,
    pub attack: u8,
    pub defense: u8,
}

/// Individual values as they are reported.
pub open spec fn reported_ivs(ivs: IvSpread) -> IvsJson {
    IvsJson { hp: ivs.hp@, attack: ivs.attack@, defense: ivs.defense@ }
}

impl From<IvSpread> for IvsJson {
    fn from(ivs: IvSpread) -> (r: Self) {
        IvsJson { hp: ivs.hp.get(), attack: ivs.attack.get(), defense: ivs.defense.get() }
    }
}

impl vstd::std_specs::convert::FromSpecImpl<IvSpread> for IvsJson {
    open spec fn obeys_from_spec() -> bool {
        true
    }

    open spec fn from_spec(ivs: IvSpread) -> Self {
        reported_ivs(ivs)
    }
}

#[derive(PartialEq, Eq, Debug)]
pub struct OwnedPalJson {
    pub species: SpeciesRef,
    pub gender: GenderJson,
    pub passives: Vec<PassiveRef>,
    pub ivs: IvsJson,
}

/// An owned pal as it is reported.
pub struct ReportedPal {
    pub species: NameView,
    pub gender: GenderJson,
    pub passives: Seq<NameView>,
    pub ivs: IvsJson,
}

impl View for OwnedPalJson {
    type V = ReportedPal;

    open spec fn view(&self) -> ReportedPal {
        ReportedPal {
            species: self.species@,
            gender: self.gender,
            passives: passive_views(self.passives@),
            ivs: self.ivs,
        }
    }
}

/// One node of a plan tree, by how the pal is obtained.
#[derive(PartialEq, Eq, Debug)]
pub enum PlanNodeJson {
    /// A pal already in the pool.
    Owned { pal: OwnedPalJson },
    /// A wild pal to catch (any gender, no passives).
    Wild { species: SpeciesRef },
    /// A required progenitor the caller supplies (any gender, no
    /// passives).
    Progenitor { species: SpeciesRef },
    /// A breeding step: pair male with female, re-hatch until the child
    /// carries every passive in `carried_passives`.
    Bred {
        species: SpeciesRef,
        carried_passives: Vec<PassiveRef>,
        male: Box<PlanNodeJson>,
        female: Box<PlanNodeJson>,
    },
}

/// A plan tree as it is reported.
pub enum ReportedTree {
    Owned(ReportedPal),
    Wild(NameView),
    Progenitor(NameView),
    Bred {
        species: NameView,
        carried: Seq<NameView>,
        male: Box<ReportedTree>,
        female: Box<ReportedTree>,
    },
}

/// The tree that a node holds.
pub open spec fn tree_view(node: PlanNodeJson) -> ReportedTree
    decreases node,
{
    match node {
        PlanNodeJson::Owned { pal } => ReportedTree::Owned(pal@),
        PlanNodeJson::Wild { species } => ReportedTree::Wild(species@),
        PlanNodeJson::Progenitor { species } => ReportedTree::Progenitor(species@),
        PlanNodeJson::Bred { species, carried_passives, male, female } => ReportedTree::Bred {
            species: species@,
            carried: passive_views(carried_passives@),
            male: Box::new(tree_view(*male)),
            female: Box::new(tree_view(*female)),
        },
    }
}

impl View for PlanNodeJson {
    type V = ReportedTree;

    open spec fn view(&self) -> ReportedTree {
        tree_view(*self)
    }
}

#[derive(PartialEq, Eq, Debug)]
pub struct PlanJson {
    /// Expected breeding attempts across the whole plan, in parts of
    /// [`crate::chance::EGG`]; 0 when an owned pal already satisfies the
    /// goal.
    pub expected_eggs: u128,
    /// Number of breeding steps in the plan.
    pub steps: usize,
    pub root: PlanNodeJson,
}

/// A plan as it is reported.
pub struct ReportedPlan {
    pub expected_eggs: u128,
    pub steps: usize,
    pub tree: ReportedTree,
}

impl View for PlanJson {
    type V = ReportedPlan;

    open spec fn view(&self) -> ReportedPlan {
        ReportedPlan { expected_eggs: self.expected_eggs, steps: self.steps, tree: self.root@ }
    }
}

// ---------------------------------------------------------------------
// From the model to the reported shapes
// ---------------------------------------------------------------------
/// How a species is referred to.
pub open spec fn species_named(db: PalDb, name: Seq<char>) -> NameView {
    NameView { name, display_name: shown(db, name) }
}

/// How a passive is referred to.
pub open spec fn passive_named(db: PalDb, name: Seq<char>) -> NameView {
    NameView { name, display_name: shown_passive(db, name) }
}

/// How a list of passives is referred to.
pub open spec fn passives_named(db: PalDb, names: Seq<Seq<char>>) -> Seq<NameView> {
    names.map_values(|n: Seq<char>| passive_named(db, n))
}

/// How a list of species is referred to.
pub open spec fn all_named(db: PalDb, names: Seq<Seq<char>>) -> Seq<NameView> {
    names.map_values(|n: Seq<char>| species_named(db, n))
}

pub fn species_ref(db: &PalDb, name: &PalName) -> (r: SpeciesRef)
    requires
        db.wf(),
    ensures
        r@ == species_named(*db, name@),
{
    SpeciesRef { name: name.as_str().to_owned(), display_name: display(db, name).to_owned() }
}

pub fn passive_ref(db: &PalDb, name: &PassiveName) -> (r: PassiveRef)
    requires
        db.wf(),
    ensures
        r@ == passive_named(*db, name@),
{
    PassiveRef {
        name: name.as_str().to_owned(),
        display_name: display_passive(db, name).to_owned(),
    }
}

/// References to a list of passives.
pub fn passive_refs(db: &PalDb, names: &Vec<PassiveName>) -> (r: Vec<PassiveRef>)
    requires
        db.wf(),
    ensures
        passive_views(r@) == passives_named(*db, crate::model::passive_texts(names@)),
{
    let mut out: Vec<PassiveRef> = Vec::new();
    let mut i: usize = 0;
    while i < names.len()
        invariant
            db.wf(),
            i <= names@.len(),
            out@.len() == i,
            forall|j: int| 0 <= j < i ==> (#[trigger] out@[j])@ == passive_named(*db, names@[j]@),
        decreases names@.len() - i,
    {
        out.push(passive_ref(db, &names[i]));
        i = i + 1;
    }
    proof {
        assert(passive_views(out@) =~= passives_named(*db, crate::model::passive_texts(names@)));
    }
    out
}

/// References to a list of species.
pub fn species_refs(db: &PalDb, names: &Vec<PalName>) -> (r: Vec<SpeciesRef>)
    requires
        db.wf(),
    ensures
        species_views(r@) == all_named(*db, crate::model::pal_texts(names@)),
{
    let mut out: Vec<SpeciesRef> = Vec::new();
    let mut i: usize = 0;
    while i < names.len()
        invariant
            db.wf(),
            i <= names@.len(),
            out@.len() == i,
            forall|j: int| 0 <= j < i ==> (#[trigger] out@[j])@ == species_named(*db, names@[j]@),
        decreases names@.len() - i,
    {
        out.push(species_ref(db, &names[i]));
        i = i + 1;
    }
    proof {
        assert(species_views(out@) =~= all_named(*db, crate::model::pal_texts(names@)));
    }
    out
}

/// How an owned pal is reported.
pub open spec fn reported_pal(db: PalDb, pal: OwnedView) -> ReportedPal {
    ReportedPal {
        species: species_named(db, pal.species),
        gender: reported_gender(pal.gender),
        passives: passives_named(db, pal.passives),
        ivs: reported_ivs(pal.ivs),
    }
}

pub fn owned_pal_json(db: &PalDb, pal: &OwnedPal) -> (r: OwnedPalJson)
    requires
        db.wf(),
    ensures
        r@ == reported_pal(*db, pal@),
{
    OwnedPalJson {
        species: species_ref(db, &pal.species),
        gender: GenderJson::from(pal.gender),
        passives: passive_refs(db, &pal.passives),
        ivs: IvsJson::from(pal.ivs),
    }
}

/// How a plan tree is reported.
pub open spec fn reported_tree(db: PalDb, tree: PlanTree) -> ReportedTree
    decreases tree,
{
    match tree {
        PlanTree::Owned(pal) => ReportedTree::Owned(reported_pal(db, pal)),
        PlanTree::Wild(species) => ReportedTree::Wild(species_named(db, species)),
        PlanTree::Progenitor(species) => ReportedTree::Progenitor(species_named(db, species)),
        PlanTree::Bred { male, female, species, carried } => ReportedTree::Bred {
            species: species_named(db, species),
            carried: passives_named(db, carried),
            male: Box::new(reported_tree(db, *male)),
            female: Box::new(reported_tree(db, *female)),
        },
    }
}

fn node_json(db: &PalDb, node: &PlanNode) -> (r: PlanNodeJson)
    requires
        db.wf(),
    ensures
        r@ == reported_tree(*db, node@),
    decreases *node,
{
    match node {
        PlanNode::Owned(pal) => PlanNodeJson::Owned { pal: owned_pal_json(db, pal) },
        PlanNode::Wild(species) => PlanNodeJson::Wild { species: species_ref(db, species) },
        PlanNode::Progenitor(species) => PlanNodeJson::Progenitor {
            species: species_ref(db, species),
        },
        PlanNode::Bred(bred) => PlanNodeJson::Bred {
            species: species_ref(db, &bred.species),
            carried_passives: passive_refs(db, &bred.carried_passives),
            male: Box::new(node_json(db, &bred.male)),
            female: Box::new(node_json(db, &bred.female)),
        },
    }
}

/// How a plan is reported.
pub open spec fn reported_plan(db: PalDb, plan: PlanView) -> ReportedPlan {
    ReportedPlan {
        expected_eggs: plan.expected_eggs,
        steps: plan.steps,
        tree: reported_tree(db, plan.tree),
    }
}

pub fn plan_json(db: &PalDb, plan: &BreedingPlan) -> (r: PlanJson)
    requires
        db.wf(),
    ensures
        r@ == reported_plan(*db, plan@),
{
    PlanJson {
        expected_eggs: plan.expected_eggs,
        steps: plan.steps,
        root: node_json(db, &plan.root),
    }
}

// ---------------------------------------------------------------------
// Laws
// ---------------------------------------------------------------------
/// A report keeps the plan: what is owned, caught, supplied and bred
/// stays so, each parent stays in its own place, and the names, the
/// gender and every individual value are those of the plan.
pub proof fn law_reports_keep_the_plan(db: PalDb, node: PlanNodeJson, tree: PlanTree)
    requires
        node@ == reported_tree(db, tree),
    ensures
        match tree {
            PlanTree::Owned(pal) => node matches PlanNodeJson::Owned { pal: row } && {
                &&& row.species.name@ == pal.species
                &&& row.gender is Male <==> pal.gender is Male
                &&& row.passives@.len() == pal.passives.len()
                &&& forall|j: int|
                    0 <= j < pal.passives.len() ==> (#[trigger] row.passives@[j]).name@
                        == pal.passives[j]
                &&& row.ivs.hp == pal.ivs.hp@
                &&& row.ivs.attack == pal.ivs.attack@
                &&& row.ivs.defense == pal.ivs.defense@
            },
            PlanTree::Wild(species) => node matches PlanNodeJson::Wild { species: s } && s.name@
                == species,
            PlanTree::Progenitor(species) => node matches PlanNodeJson::Progenitor { species: s }
                && s.name@ == species,
            PlanTree::Bred { male, female, species, carried } => node matches PlanNodeJson::Bred {
                species: s,
                carried_passives,
                male: father,
                female: mother,
            } && {
                &&& s.name@ == species
                &&& carried_passives@.len() == carried.len()
                &&& forall|j: int|
                    0 <= j < carried.len() ==> (#[trigger] carried_passives@[j]).name@ == carried[j]
                &&& (*father)@ == reported_tree(db, *male)
                &&& (*mother)@ == reported_tree(db, *female)
            },
        },
{
    match (tree, node) {
        (PlanTree::Owned(pal), PlanNodeJson::Owned { pal: row }) => {
            assert(row@ == reported_pal(db, pal));
            lemma_named(db, row.passives@, pal.passives);
            assert(row@.species.name == pal.species);
        },
        (PlanTree::Wild(species), PlanNodeJson::Wild { species: s }) => {
            assert(s@.name == species);
        },
        (PlanTree::Progenitor(species), PlanNodeJson::Progenitor { species: s }) => {
            assert(s@.name == species);
        },
        (
            PlanTree::Bred { male, female, species, carried },
            PlanNodeJson::Bred { species: s, carried_passives, male: father, female: mother },
        ) => {
            lemma_named(db, carried_passives@, carried);
            assert(s@.name == species);
        },
        _ => {},
    }
}

/// References that show a list of names hold these names.
proof fn lemma_named(db: PalDb, refs: Seq<PassiveRef>, names: Seq<Seq<char>>)
    requires
        passive_views(refs) == passives_named(db, names),
    ensures
        refs.len() == names.len(),
        forall|j: int| 0 <= j < names.len() ==> (#[trigger] refs[j]).name@ == names[j],
{
    assert(passive_views(refs).len() == refs.len());
    assert forall|j: int| 0 <= j < names.len() implies (#[trigger] refs[j]).name@ == names[j] by {
        assert(passive_views(refs)[j] == refs[j]@);
        assert(passives_named(db, names)[j].name == names[j]);
    }
}

} // verus!
