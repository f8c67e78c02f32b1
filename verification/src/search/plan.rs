//! What a search is asked and what it answers.

use vstd::prelude::*;

use crate::iv::IvThresholds;
use crate::model::pal_texts;
use crate::model::passive_texts;
use crate::model::Gender;
use crate::model::IvSpread;
use crate::model::PalName;
use crate::model::PassiveName;
use crate::text::decimal;
use crate::text::decimal_of;

verus! {

/// A pal the player already has: the leaf material of every plan.
#[derive(PartialEq, Eq, Debug)]
pub struct OwnedPal {
    pub species: PalName,
    pub gender: Gender,
    pub passives: Vec<PassiveName>,
    pub ivs: IvSpread,
}

/// An owned pal as plain values.
pub struct OwnedView {
    pub species: Seq<char>,
    pub gender: Gender,
    pub passives: Seq<Seq<char>>,
    pub ivs: IvSpread,
}

impl View for OwnedPal {
    type V = OwnedView;

    open spec fn view(&self) -> OwnedView {
        OwnedView {
            species: self.species@,
            gender: self.gender,
            passives: passive_texts(self.passives@),
            ivs: self.ivs,
        }
    }
}

impl Clone for OwnedPal {
    fn clone(&self) -> (r: Self)
        ensures
            r@ == self@,
    {
        OwnedPal {
            species: self.species.clone(),
            gender: self.gender,
            passives: crate::model::copy_passives(&self.passives),
            ivs: self.ivs,
        }
    }
}

impl OwnedPal {
    /// Whether two owned pals are the same breeding stock.
    pub fn same_profile(&self, other: &OwnedPal) -> (r: bool)
        ensures
            r == (self@ == other@),
    {
        self.species == other.species && self.gender == other.gender
            && crate::model::same_passives(&self.passives, &other.passives) && self.ivs
            == other.ivs
    }
}

/// A list of owned pals as plain values.
pub open spec fn owned_views(owned: Seq<OwnedPal>) -> Seq<OwnedView> {
    owned.map_values(|p: OwnedPal| p@)
}

/// A copy of a list of owned pals.
pub fn copy_owned(owned: &Vec<OwnedPal>) -> (r: Vec<OwnedPal>)
    ensures
        owned_views(r@) == owned_views(owned@),
{
    let mut out: Vec<OwnedPal> = Vec::new();
    let mut i: usize = 0;
    while i < owned.len()
        invariant
            i <= owned@.len(),
            out@.len() == i,
            forall|j: int| 0 <= j < i ==> (#[trigger] out@[j])@ == owned@[j]@,
        decreases owned@.len() - i,
    {
        out.push(owned[i].clone());
        i = i + 1;
    }
    proof {
        assert(owned_views(out@) =~= owned_views(owned@));
    }
    out
}

/// What the search is for: a species, carrying all listed passives and
/// meeting all IV minimums, bred from all listed progenitors.
#[derive(PartialEq, Eq, Debug)]
pub struct BreedingGoal {
    pub species: PalName,
    pub passives: Vec<PassiveName>,
    /// Required anchor species: every returned plan holds each of these
    /// as a leaf at least once. Progenitors are free leaves of any
    /// gender and carry no passives and no IVs.
    pub progenitors: Vec<PalName>,
    pub iv_thresholds: IvThresholds,
}

/// A goal as plain values.
pub struct GoalView {
    pub species: Seq<char>,
    pub passives: Seq<Seq<char>>,
    pub progenitors: Seq<Seq<char>>,
    pub iv_thresholds: IvThresholds,
}

impl View for BreedingGoal {
    type V = GoalView;

    open spec fn view(&self) -> GoalView {
        GoalView {
            species: self.species@,
            passives: passive_texts(self.passives@),
            progenitors: pal_texts(self.progenitors@),
            iv_thresholds: self.iv_thresholds,
        }
    }
}

#[derive(Clone, Copy, PartialEq, Eq, Structural, Debug)]
pub struct SearchConfig {
    /// Upper bound on bred nodes in a single plan.
    pub max_breeding_steps: usize,
    /// Ranked plans to return; also the per-state beam width kept
    /// during expansion.
    pub max_results: usize,
    /// When set, every species with wild spawns is available as a
    /// free-capture leaf: any gender at no egg cost, contributing no
    /// passives.
    pub allow_wild_pals: bool,
}

/// One node of a finished plan: an owned pal, a wild pal to catch, a
/// required progenitor (the pairing position implies the gender to use),
/// or a breeding step whose parents are themselves plan nodes.
#[derive(PartialEq, Eq, Debug)]
pub enum PlanNode {
    Owned(OwnedPal),
    Wild(PalName),
    Progenitor(PalName),
    Bred(Box<BredNode>),
}

/// A breeding step: pair `male` with `female`, re-hatching until the
/// child carries `carried_passives`.
#[derive(PartialEq, Eq, Debug)]
pub struct BredNode {
    pub male: PlanNode,
    pub female: PlanNode,
    pub species: PalName,
    pub carried_passives: Vec<PassiveName>,
}

/// A plan tree as plain values.
pub enum PlanTree {
    Owned(OwnedView),
    Wild(Seq<char>),
    Progenitor(Seq<char>),
    Bred { male: Box<PlanTree>, female: Box<PlanTree>, species: Seq<char>, carried: Seq<Seq<char>> },
}

/// The tree of a plan node.
pub open spec fn plan_tree(node: PlanNode) -> PlanTree
    decreases node,
{
    match node {
        PlanNode::Owned(pal) => PlanTree::Owned(pal@),
        PlanNode::Wild(species) => PlanTree::Wild(species@),
        PlanNode::Progenitor(species) => PlanTree::Progenitor(species@),
        PlanNode::Bred(bred) => PlanTree::Bred {
            male: Box::new(plan_tree(bred.male)),
            female: Box::new(plan_tree(bred.female)),
            species: bred.species@,
            carried: passive_texts(bred.carried_passives@),
        },
    }
}

impl View for PlanNode {
    type V = PlanTree;

    open spec fn view(&self) -> PlanTree {
        plan_tree(*self)
    }
}

impl PlanTree {
    /// The species of the pal at the root.
    pub open spec fn root_species(self) -> Seq<char> {
        match self {
            PlanTree::Owned(pal) => pal.species,
            PlanTree::Wild(species) => species,
            PlanTree::Progenitor(species) => species,
            PlanTree::Bred { male, female, species, carried } => species,
        }
    }

    /// The number of breeding steps.
    pub open spec fn steps(self) -> nat
        decreases self,
    {
        match self {
            PlanTree::Bred { male, female, species, carried } => male.steps() + female.steps() + 1,
            _ => 0,
        }
    }
}

impl PlanNode {
    pub fn species(&self) -> (r: &PalName)
        ensures
            r@ == self@.root_species(),
    {
        match self {
            PlanNode::Owned(pal) => &pal.species,
            PlanNode::Wild(species) => species,
            PlanNode::Progenitor(species) => species,
            PlanNode::Bred(node) => &node.species,
        }
    }

    /// A copy of the plan.
    pub fn duplicate(&self) -> (r: Self)
        ensures
            r@ == self@,
        decreases *self,
    {
        match self {
            PlanNode::Owned(pal) => PlanNode::Owned(pal.clone()),
            PlanNode::Wild(species) => PlanNode::Wild(species.clone()),
            PlanNode::Progenitor(species) => PlanNode::Progenitor(species.clone()),
            PlanNode::Bred(node) => PlanNode::Bred(
                Box::new(
                    BredNode {
                        male: node.male.duplicate(),
                        female: node.female.duplicate(),
                        species: node.species.clone(),
                        carried_passives: crate::model::copy_passives(&node.carried_passives),
                    },
                ),
            ),
        }
    }
}

impl Clone for PlanNode {
    fn clone(&self) -> (r: Self)
        ensures
            r@ == self@,
    {
        self.duplicate()
    }
}

/// One ranked answer of a search.
#[derive(PartialEq, Eq, Debug)]
pub struct BreedingPlan {
    pub root: PlanNode,
    /// Expected eggs across every breeding step of the plan, in parts of
    /// [`crate::chance::EGG`]; none for a plan satisfied by an owned
    /// pal.
    pub expected_eggs: u128,
    /// Number of bred nodes in the plan.
    pub steps: usize,
}

/// A plan as plain values.
pub struct PlanView {
    pub tree: PlanTree,
    pub expected_eggs: u128,
    pub steps: usize,
}

impl View for BreedingPlan {
    type V = PlanView;

    open spec fn view(&self) -> PlanView {
        PlanView { tree: self.root@, expected_eggs: self.expected_eggs, steps: self.steps }
    }
}

impl Clone for BreedingPlan {
    fn clone(&self) -> (r: Self)
        ensures
            r@ == self@,
    {
        BreedingPlan {
            root: self.root.clone(),
            expected_eggs: self.expected_eggs,
            steps: self.steps,
        }
    }
}

/// A list of plans as plain values.
pub open spec fn plan_views(plans: Seq<BreedingPlan>) -> Seq<PlanView> {
    plans.map_values(|p: BreedingPlan| p@)
}

/// Most progenitors a goal may require.
pub const MAX_PROGENITORS: usize = 8;

/// Why a search cannot start.
#[derive(PartialEq, Eq, Debug)]
pub enum SearchError {
    UnknownGoalSpecies(PalName),
    UnknownOwnedSpecies(PalName),
    DuplicateDesired(PassiveName),
    TooManyDesired { count: usize },
    UnknownProgenitor(PalName),
    DuplicateProgenitor(PalName),
    TooManyProgenitors { count: usize },
}

/// Why a search cannot start, as plain values.
pub enum Fault {
    UnknownGoalSpecies(Seq<char>),
    UnknownOwnedSpecies(Seq<char>),
    DuplicateDesired(Seq<char>),
    TooManyDesired(nat),
    UnknownProgenitor(Seq<char>),
    DuplicateProgenitor(Seq<char>),
    TooManyProgenitors(nat),
}

impl View for SearchError {
    type V = Fault;

    open spec fn view(&self) -> Fault {
        match *self {
            SearchError::UnknownGoalSpecies(n) => Fault::UnknownGoalSpecies(n@),
            SearchError::UnknownOwnedSpecies(n) => Fault::UnknownOwnedSpecies(n@),
            SearchError::DuplicateDesired(n) => Fault::DuplicateDesired(n@),
            SearchError::TooManyDesired { count } => Fault::TooManyDesired(count as nat),
            SearchError::UnknownProgenitor(n) => Fault::UnknownProgenitor(n@),
            SearchError::DuplicateProgenitor(n) => Fault::DuplicateProgenitor(n@),
            SearchError::TooManyProgenitors { count } => Fault::TooManyProgenitors(count as nat),
        }
    }
}

impl Fault {
    /// What a user is told.
    pub open spec fn text(self) -> Seq<char> {
        match self {
            Fault::UnknownGoalSpecies(n) => "goal species "@ + n + " is not in the database"@,
            Fault::UnknownOwnedSpecies(n) => "owned pal species "@ + n
                + " is not in the database"@,
            Fault::DuplicateDesired(n) => "desired passive "@ + n + " listed more than once"@,
            Fault::TooManyDesired(count) => decimal(count)
                + " desired passives exceed the 4-passive cap"@,
            Fault::UnknownProgenitor(n) => "progenitor species "@ + n
                + " is not in the database"@,
            Fault::DuplicateProgenitor(n) => "progenitor "@ + n + " listed more than once"@,
            Fault::TooManyProgenitors(count) => decimal(count)
                + " progenitors exceed the cap of 8"@,
        }
    }
}

fn framed(front: &str, name: &str, back: &str) -> (r: String)
    ensures
        r@ == front@ + name@ + back@,
{
    let mut out = front.to_owned();
    out.append(name);
    out.append(back);
    out
}

impl SearchError {
    pub fn message(&self) -> (r: String)
        ensures
            r@ == self@.text(),
    {
        match self {
            SearchError::UnknownGoalSpecies(n) => framed(
                "goal species ",
                n.as_str(),
                " is not in the database",
            ),
            SearchError::UnknownOwnedSpecies(n) => framed(
                "owned pal species ",
                n.as_str(),
                " is not in the database",
            ),
            SearchError::DuplicateDesired(n) => framed(
                "desired passive ",
                n.as_str(),
                " listed more than once",
            ),
            SearchError::TooManyDesired { count } => {
                let mut out = decimal_of(*count as u128);
                out.append(" desired passives exceed the 4-passive cap");
                out
            },
            SearchError::UnknownProgenitor(n) => framed(
                "progenitor species ",
                n.as_str(),
                " is not in the database",
            ),
            SearchError::DuplicateProgenitor(n) => framed(
                "progenitor ",
                n.as_str(),
                " listed more than once",
            ),
            SearchError::TooManyProgenitors { count } => {
                let mut out = decimal_of(*count as u128);
                out.append(" progenitors exceed the cap of 8");
                out
            },
        }
    }
}

} // verus!
