//! The saved-plan library. Saved plans are fully self-describing: the
//! whole tree with species, genders, and passives inline, so they remain
//! readable as the owned pool changes underneath them.

use vstd::prelude::*;

use crate::iv::IvThresholds;
use crate::model::copy_pals;
use crate::model::copy_passives;
use crate::model::pal_texts;
use crate::model::passive_texts;
use crate::model::PalName;
use crate::model::PassiveName;
use crate::search::plan::PlanNode;
use crate::search::plan::PlanTree;

verus! {

#[derive(PartialEq, Eq, Debug)]
pub struct SavedPlan {
    pub label: String,
    pub goal_species: PalName,
    pub goal_passives: Vec<PassiveName>,
    pub goal_progenitors: Vec<PalName>,
    pub goal_iv_thresholds: IvThresholds,
    /// Expected eggs, in parts of [`crate::chance::EGG`].
    pub expected_eggs: u128,
    pub steps: usize,
    pub root: PlanNode,
}

/// A saved plan as plain values.
pub struct SavedView {
    pub label: Seq<char>,
    pub species: Seq<char>,
    pub passives: Seq<Seq<char>>,
    pub progenitors: Seq<Seq<char>>,
    pub iv_thresholds: IvThresholds,
    pub expected_eggs: u128,
    pub steps: usize,
    pub tree: PlanTree,
}

impl View for SavedPlan {
    type V = SavedView;

    open spec fn view(&self) -> SavedView {
        SavedView {
            label: self.label@,
            species: self.goal_species@,
            passives: passive_texts(self.goal_passives@),
            progenitors: pal_texts(self.goal_progenitors@),
            iv_thresholds: self.goal_iv_thresholds,
            expected_eggs: self.expected_eggs,
            steps: self.steps,
            tree: self.root@,
        }
    }
}

impl Clone for SavedPlan {
    fn clone(&self) -> (r: Self)
        ensures
            r@ == self@,
    {
        SavedPlan {
            label: self.label.clone(),
            goal_species: self.goal_species.clone(),
            goal_passives: copy_passives(&self.goal_passives),
            goal_progenitors: copy_pals(&self.goal_progenitors),
            goal_iv_thresholds: self.goal_iv_thresholds,
            expected_eggs: self.expected_eggs,
            steps: self.steps,
            root: self.root.clone(),
        }
    }
}

/// Saved plans as plain values.
pub open spec fn saved_views(plans: Seq<SavedPlan>) -> Seq<SavedView> {
    plans.map_values(|p: SavedPlan| p@)
}

/// The library and the path of the file it is kept in.
#[derive(Debug)]
pub struct PlanStore {
    pub path: String,
    pub plans: Vec<SavedPlan>,
}

impl PlanStore {
    /// An empty store that will be written to `path` on the first save.
    pub fn fresh(path: String) -> (r: Self)
        ensures
            r.path == path,
            r.plans@.len() == 0,
    {
        PlanStore { path, plans: Vec::new() }
    }

    /// A store with the plans read from `path`.
    pub fn loaded(path: String, plans: Vec<SavedPlan>) -> (r: Self)
        ensures
            r.path == path,
            r.plans == plans,
    {
        PlanStore { path, plans }
    }

    /// Appends a plan. The caller writes the file.
    pub fn add(&mut self, plan: SavedPlan)
        ensures
            final(self).path == old(self).path,
            final(self).plans@ == old(self).plans@.push(plan),
    {
        self.plans.push(plan);
    }

    /// Removes by index. Out-of-range indexes are a no-op; after a
    /// removal the caller writes the file.
    pub fn remove(&mut self, index: usize) -> (r: Option<SavedPlan>)
        ensures
            final(self).path == old(self).path,
            match r {
                Some(removed) => index < old(self).plans@.len() && removed
                    == old(self).plans@[index as int] && final(self).plans@
                    == old(self).plans@.remove(index as int),
                None => index >= old(self).plans@.len() && final(self).plans@ == old(self).plans@,
            },
    {
        if index >= self.plans.len() {
            return None;
        }
        Some(self.plans.remove(index))
    }
}

/// What came of reading the library's file.
#[derive(Debug)]
pub enum StoreRead {
    /// There is no file, or none that can be read.
    Absent,
    /// The plans that the file holds.
    Plans(Vec<SavedPlan>),
    /// The file is not a library; in words, why.
    Unparsable(String),
}

/// What to do with what was read.
#[derive(Debug)]
pub enum StoreStep {
    /// Go on with this library.
    Open(PlanStore),
    /// Keep the file as a backup before anything is written.
    BackUp { cause: String },
}

/// Opens the library at `path`, tolerating a missing file. An unparsable
/// file is to be kept as a backup rather than silently overwritten by
/// the next save.
pub fn open_store(path: String, read: StoreRead) -> (r: StoreStep)
    ensures
        match read {
            StoreRead::Absent => r matches StoreStep::Open(store) && store.path == path
                && store.plans@.len() == 0,
            StoreRead::Plans(plans) => r == StoreStep::Open(PlanStore { path, plans }),
            StoreRead::Unparsable(cause) => r == (StoreStep::BackUp { cause }),
        },
{
    match read {
        StoreRead::Absent => StoreStep::Open(PlanStore::fresh(path)),
        StoreRead::Plans(plans) => StoreStep::Open(PlanStore::loaded(path, plans)),
        StoreRead::Unparsable(cause) => StoreStep::BackUp { cause },
    }
}

/// What a user is told of an unparsable library, by whether its backup
/// succeeded.
pub open spec fn backup_text(
    path: Seq<char>,
    backup: Seq<char>,
    cause: Seq<char>,
    kept: bool,
) -> Seq<char> {
    if kept {
        path + " was unparsable ("@ + cause + "); moved to "@ + backup
    } else {
        path + " is unparsable ("@ + cause + ") and could not be backed up"@
    }
}

/// What a user is told of an unparsable library.
pub fn backup_message(path: &str, backup: &str, cause: &str, kept: bool) -> (r: String)
    ensures
        r@ == backup_text(path@, backup@, cause@, kept),
{
    let mut out = path.to_owned();
    if kept {
        out.append(" was unparsable (");
        out.append(cause);
        out.append("); moved to ");
        out.append(backup);
    } else {
        out.append(" is unparsable (");
        out.append(cause);
        out.append(") and could not be backed up");
    }
    out
}

/// The systems whose per-user data directories are known.
#[derive(Clone, Copy, PartialEq, Eq, Structural, Debug)]
pub enum Platform {
    MacOs,
    Windows,
    Linux,
}

/// Where the library lives below a user's base directory.
pub open spec fn library_place(platform: Platform, base: Seq<char>) -> Seq<char> {
    match platform {
        Platform::MacOs => base + "/Library/Application Support/palworld_tools/plans.json"@,
        Platform::Windows => base + "\\palworld_tools\\plans.json"@,
        Platform::Linux => base + "/.local/share/palworld_tools/plans.json"@,
    }
}

/// Where the library lives: below the home directory, on Windows below
/// the local application data.
pub fn library_path(platform: Platform, base: &str) -> (r: String)
    ensures
        r@ == library_place(platform, base@),
{
    let mut out = base.to_owned();
    match platform {
        Platform::MacOs => {
            out.append("/Library/Application Support/palworld_tools/plans.json");
        },
        Platform::Windows => {
            out.append("\\palworld_tools\\plans.json");
        },
        Platform::Linux => {
            out.append("/.local/share/palworld_tools/plans.json");
        },
    }
    out
}

/// Removing the plan that was just added leaves the library as it was.
pub proof fn law_remove_undoes_add(plans: Seq<SavedView>, plan: SavedView)
    ensures
        plans.push(plan).remove(plans.len() as int) == plans,
        plans.push(plan)[plans.len() as int] == plan,
{
    assert(plans.push(plan).remove(plans.len() as int) =~= plans);
}

} // verus!
