//! What a search starts from: checked inputs and leaf candidates.

use vstd::prelude::*;

use crate::iv::IvThresholds;
use crate::model::pal_texts;
use crate::model::passive_texts;
use crate::model::IvSpread;
use crate::model::PalDb;
use crate::model::PassiveName;
use crate::passives::MAX_TOTAL_PASSIVES;
use crate::search::mask::bits_of;
use crate::search::mask::carries;
use crate::search::mask::has_bit;
use crate::search::mask::lemma_three_bits;
use crate::search::mask::DesiredMask;
use crate::search::plan::owned_views;
use crate::search::plan::BreedingGoal;
use crate::search::plan::Fault;
use crate::search::plan::GoalView;
use crate::search::plan::OwnedPal;
use crate::search::plan::OwnedView;
use crate::search::plan::SearchConfig;
use crate::search::plan::SearchError;
use crate::search::plan::MAX_PROGENITORS;
use crate::search::record::bare_leaf;
use crate::search::record::leaf_record;
use crate::search::record::Availability;
use crate::search::record::Record;
use crate::search::record::Source;
use crate::search::world::small_id;
use crate::search::world::World;
use crate::search::world::WorldView;
use crate::seqs::first_number;
use crate::seqs::lemma_first_number;

verus! {

// ---------------------------------------------------------------------
// Checking the inputs
// ---------------------------------------------------------------------
/// The entry at a position stands in the list before already.
pub open spec fn repeats(list: Seq<Seq<char>>) -> spec_fn(int) -> bool {
    |i: int| list.take(i).contains(list[i])
}

/// The owned pal at a position has a species that is not known.
pub open spec fn unknown_owned(db: PalDb, owned: Seq<OwnedView>) -> spec_fn(int) -> bool {
    |i: int| !db.knows(owned[i].species)
}

/// The progenitor at a position is not known or repeated.
pub open spec fn bad_progenitor(db: PalDb, list: Seq<Seq<char>>) -> spec_fn(int) -> bool {
    |i: int| !db.knows(list[i]) || repeats(list)(i)
}

/// The first reason why a search cannot start.
pub open spec fn first_fault(db: PalDb, owned: Seq<OwnedView>, goal: GoalView) -> Option<Fault> {
    if !db.knows(goal.species) {
        Some(Fault::UnknownGoalSpecies(goal.species))
    } else if let Some(i) = first_number(unknown_owned(db, owned), owned.len() as int) {
        Some(Fault::UnknownOwnedSpecies(owned[i].species))
    } else if goal.passives.len() > MAX_TOTAL_PASSIVES {
        Some(Fault::TooManyDesired(goal.passives.len()))
    } else if let Some(i) = first_number(repeats(goal.passives), goal.passives.len() as int) {
        Some(Fault::DuplicateDesired(goal.passives[i]))
    } else if goal.progenitors.len() > MAX_PROGENITORS {
        Some(Fault::TooManyProgenitors(goal.progenitors.len()))
    } else if let Some(i) = first_number(
        bad_progenitor(db, goal.progenitors),
        goal.progenitors.len() as int,
    ) {
        if !db.knows(goal.progenitors[i]) {
            Some(Fault::UnknownProgenitor(goal.progenitors[i]))
        } else {
            Some(Fault::DuplicateProgenitor(goal.progenitors[i]))
        }
    } else {
        None
    }
}

/// Whether the passive at `i` stands in the list before already.
fn passive_repeats(list: &Vec<PassiveName>, i: usize) -> (r: bool)
    requires
        i < list@.len(),
    ensures
        r == repeats(passive_texts(list@))(i as int),
{
    let ghost texts = passive_texts(list@);
    let mut j: usize = 0;
    while j < i
        invariant
            i < list@.len(),
            j <= i,
            texts == passive_texts(list@),
            forall|k: int| 0 <= k < j ==> texts[k] != texts[i as int],
        decreases i - j,
    {
        if list[j] == list[i] {
            proof {
                assert(texts.take(i as int)[j as int] == texts[i as int]);
            }
            return true;
        }
        j = j + 1;
    }
    proof {
        if texts.take(i as int).contains(texts[i as int]) {
            let k = choose|k: int|
                0 <= k < texts.take(i as int).len() && texts.take(i as int)[k] == texts[i as int];
            assert(texts[k] == texts[i as int]);
        }
    }
    false
}

/// Whether the pal at `i` stands in the list before already.
fn pal_repeats(list: &Vec<crate::model::PalName>, i: usize) -> (r: bool)
    requires
        i < list@.len(),
    ensures
        r == repeats(pal_texts(list@))(i as int),
{
    let ghost texts = pal_texts(list@);
    let mut j: usize = 0;
    while j < i
        invariant
            i < list@.len(),
            j <= i,
            texts == pal_texts(list@),
            forall|k: int| 0 <= k < j ==> texts[k] != texts[i as int],
        decreases i - j,
    {
        if list[j] == list[i] {
            proof {
                assert(texts.take(i as int)[j as int] == texts[i as int]);
            }
            return true;
        }
        j = j + 1;
    }
    proof {
        if texts.take(i as int).contains(texts[i as int]) {
            let k = choose|k: int|
                0 <= k < texts.take(i as int).len() && texts.take(i as int)[k] == texts[i as int];
            assert(texts[k] == texts[i as int]);
        }
    }
    false
}

/// Reports the first reason why a search cannot start.
pub fn validate(pal_db: &PalDb, owned: &Vec<OwnedPal>, goal: &BreedingGoal) -> (r: Result<
    (),
    SearchError,
>)
    requires
        pal_db.wf(),
    ensures
        match r {
            Ok(_) => first_fault(*pal_db, owned_views(owned@), goal@) is None,
            Err(error) => first_fault(*pal_db, owned_views(owned@), goal@) == Some(error@),
        },
{
    if pal_db.pal(&goal.species).is_none() {
        return Err(SearchError::UnknownGoalSpecies(goal.species.clone()));
    }
    let ghost views = owned_views(owned@);
    let ghost strange = unknown_owned(*pal_db, views);
    proof {
        lemma_first_number(strange, views.len() as int);
    }
    let mut i: usize = 0;
    while i < owned.len()
        invariant
            pal_db.wf(),
            pal_db.knows(goal@.species),
            i <= owned@.len(),
            views == owned_views(owned@),
            strange == unknown_owned(*pal_db, views),
            forall|j: int| 0 <= j < i ==> !#[trigger] strange(j),
        decreases owned@.len() - i,
    {
        if pal_db.pal(&owned[i].species).is_none() {
            proof {
                assert(views[i as int].species == owned@[i as int].species@);
                assert(strange(i as int));
                lemma_first_number(strange, views.len() as int);
            }
            return Err(SearchError::UnknownOwnedSpecies(owned[i].species.clone()));
        }
        i = i + 1;
    }
    if goal.passives.len() > MAX_TOTAL_PASSIVES {
        return Err(SearchError::TooManyDesired { count: goal.passives.len() });
    }
    let ghost twice = repeats(goal@.passives);
    proof {
        lemma_first_number(twice, goal@.passives.len() as int);
    }
    let mut i: usize = 0;
    while i < goal.passives.len()
        invariant
            i <= goal.passives@.len(),
            pal_db.knows(goal@.species),
            first_number(unknown_owned(*pal_db, owned_views(owned@)), owned@.len() as int) is None,
            goal@.passives.len() <= MAX_TOTAL_PASSIVES,
            twice == repeats(goal@.passives),
            forall|j: int| 0 <= j < i ==> !#[trigger] twice(j),
        decreases goal.passives@.len() - i,
    {
        if passive_repeats(&goal.passives, i) {
            proof {
                assert(twice(i as int));
                lemma_first_number(twice, goal@.passives.len() as int);
                assert(goal@.passives[i as int] == goal.passives@[i as int]@);
            }
            return Err(SearchError::DuplicateDesired(goal.passives[i].clone()));
        }
        i = i + 1;
    }
    if goal.progenitors.len() > MAX_PROGENITORS {
        return Err(SearchError::TooManyProgenitors { count: goal.progenitors.len() });
    }
    let ghost bad = bad_progenitor(*pal_db, goal@.progenitors);
    proof {
        lemma_first_number(bad, goal@.progenitors.len() as int);
    }
    let mut i: usize = 0;
    while i < goal.progenitors.len()
        invariant
            pal_db.wf(),
            i <= goal.progenitors@.len(),
            pal_db.knows(goal@.species),
            first_number(unknown_owned(*pal_db, owned_views(owned@)), owned@.len() as int) is None,
            goal@.passives.len() <= MAX_TOTAL_PASSIVES,
            first_number(repeats(goal@.passives), goal@.passives.len() as int) is None,
            goal@.progenitors.len() <= MAX_PROGENITORS,
            bad == bad_progenitor(*pal_db, goal@.progenitors),
            forall|j: int| 0 <= j < i ==> !#[trigger] bad(j),
        decreases goal.progenitors@.len() - i,
    {
        proof {
            assert(goal@.progenitors[i as int] == goal.progenitors@[i as int]@);
            lemma_first_number(bad, goal@.progenitors.len() as int);
        }
        if pal_db.pal(&goal.progenitors[i]).is_none() {
            proof {
                assert(bad(i as int));
            }
            return Err(SearchError::UnknownProgenitor(goal.progenitors[i].clone()));
        }
        if pal_repeats(&goal.progenitors, i) {
            proof {
                assert(bad(i as int));
            }
            return Err(SearchError::DuplicateProgenitor(goal.progenitors[i].clone()));
        }
        i = i + 1;
    }
    Ok(())
}

// ---------------------------------------------------------------------
// Junk passives
// ---------------------------------------------------------------------
/// The distinct passives that are not wanted.
pub open spec fn junk_of(passives: Seq<Seq<char>>, desired: Seq<Seq<char>>) -> Seq<Seq<char>>
    decreases passives.len(),
{
    if passives.len() == 0 {
        passives
    } else {
        let rest = junk_of(passives.drop_last(), desired);
        let last = passives.last();
        if desired.contains(last) || rest.contains(last) {
            rest
        } else {
            rest.push(last)
        }
    }
}

/// Per owned pal, its distinct passives that are not wanted.
pub open spec fn junk_table(owned: Seq<OwnedView>, desired: Seq<Seq<char>>) -> Seq<Seq<Seq<char>>> {
    owned.map_values(|p: OwnedView| junk_of(p.passives, desired))
}

/// A table of names as texts.
pub open spec fn junk_texts(junk: Seq<Vec<PassiveName>>) -> Seq<Seq<Seq<char>>> {
    junk.map_values(|row: Vec<PassiveName>| passive_texts(row@))
}

/// The distinct passives of each owned pal that are not wanted.
pub fn owned_junk_table(owned: &Vec<OwnedPal>, desired: &Vec<PassiveName>) -> (r: Vec<
    Vec<PassiveName>,
>)
    ensures
        junk_texts(r@) == junk_table(owned_views(owned@), passive_texts(desired@)),
{
    let mut out: Vec<Vec<PassiveName>> = Vec::new();
    let mut i: usize = 0;
    while i < owned.len()
        invariant
            i <= owned@.len(),
            out@.len() == i,
            forall|j: int|
                0 <= j < i ==> passive_texts((#[trigger] out@[j])@) == junk_of(
                    passive_texts(owned@[j].passives@),
                    passive_texts(desired@),
                ),
        decreases owned@.len() - i,
    {
        let passives = &owned[i].passives;
        let ghost texts = passive_texts(passives@);
        let mut junk: Vec<PassiveName> = Vec::new();
        let mut j: usize = 0;
        proof {
            assert(passive_texts(junk@) =~= junk_of(texts.take(0), passive_texts(desired@)));
        }
        while j < passives.len()
            invariant
                j <= passives@.len(),
                texts == passive_texts(passives@),
                passive_texts(junk@) == junk_of(texts.take(j as int), passive_texts(desired@)),
            decreases passives@.len() - j,
        {
            let passive = &passives[j];
            proof {
                assert(texts.take(j + 1).drop_last() =~= texts.take(j as int));
                assert(texts.take(j + 1).last() == passive@);
            }
            if !crate::model::holds_passive(desired, passive) && !crate::model::holds_passive(
                &junk,
                passive,
            ) {
                let ghost before = passive_texts(junk@);
                junk.push(passive.clone());
                proof {
                    assert(passive_texts(junk@) =~= before.push(passive@));
                }
            }
            j = j + 1;
        }
        proof {
            assert(texts.take(j as int) =~= texts);
        }
        out.push(junk);
        i = i + 1;
    }
    proof {
        assert(junk_texts(out@) =~= junk_table(owned_views(owned@), passive_texts(desired@)));
    }
    out
}

// ---------------------------------------------------------------------
// Leaves
// ---------------------------------------------------------------------
/// The requirement at a position is met.
pub open spec fn reaches(thresholds: IvThresholds, ivs: IvSpread) -> spec_fn(int) -> bool {
    |i: int| ivs.stat(thresholds.requirements()[i].0)@ >= thresholds.requirements()[i].1@
}

/// The active minimums that `ivs` meets.
pub open spec fn iv_bits(thresholds: IvThresholds, ivs: IvSpread) -> u8 {
    bits_of(reaches(thresholds, ivs), thresholds.requirements().len())
}

/// Which active goal minimums `ivs` meets, one bit per active stat.
pub fn iv_mask(thresholds: IvThresholds, ivs: IvSpread) -> (r: DesiredMask)
    ensures
        r.0 == iv_bits(thresholds, ivs),
        r.0 < 8,
{
    let active = thresholds.active();
    let ghost p = reaches(thresholds, ivs);
    let mut mask = DesiredMask::empty();
    let mut i: usize = 0;
    while i < active.len()
        invariant
            active@ == thresholds.requirements(),
            p == reaches(thresholds, ivs),
            active@.len() <= 3,
            i <= active@.len(),
            mask.0 == bits_of(p, i as nat),
        decreases active@.len() - i,
    {
        let (stat, minimum) = active[i];
        if ivs.get(stat).get() >= minimum.get() {
            mask = mask.union(DesiredMask::single(i));
        }
        i = i + 1;
    }
    proof {
        lemma_three_bits(p, active@.len());
    }
    mask
}

/// The number of a known species.
pub open spec fn known_id(names: Seq<Seq<char>>, name: Seq<char>) -> usize {
    small_id(names, Some(name))->0
}

/// The leaf of an owned pal.
pub open spec fn owned_leaf(
    names: Seq<Seq<char>>,
    goal: GoalView,
    pal: OwnedView,
    position: usize,
) -> Record {
    Record {
        carried: bits_of(carries(goal.passives, pal.passives), goal.passives.len()),
        iv_met: iv_bits(goal.iv_thresholds, pal.ivs),
        ..bare_leaf(
            Source::Owned(position),
            known_id(names, pal.species),
            Availability::Fixed(pal.gender),
        )
    }
}

/// The leaf of a progenitor.
pub open spec fn progenitor_leaf(
    names: Seq<Seq<char>>,
    species: Seq<char>,
    position: usize,
) -> Record {
    Record {
        required: 1u8 << (position as u8),
        ..bare_leaf(Source::Progenitor, known_id(names, species), Availability::AnyFree)
    }
}

/// The species can be caught and still reach the goal.
pub open spec fn catchable(
    world: WorldView,
    distance: Seq<Option<u32>>,
    max_steps: usize,
    s: int,
) -> bool {
    world.wild[s] && distance[s] is Some && distance[s]->0 <= max_steps
}

/// The leaves of the catchable species below `n`.
pub open spec fn wild_leaves(
    world: WorldView,
    distance: Seq<Option<u32>>,
    max_steps: usize,
    n: nat,
) -> Seq<Record>
    decreases n,
{
    if n == 0 {
        Seq::empty()
    } else {
        let rest = wild_leaves(world, distance, max_steps, (n - 1) as nat);
        if catchable(world, distance, max_steps, n - 1) {
            rest.push(bare_leaf(Source::Wild, (n - 1) as usize, Availability::AnyFree))
        } else {
            rest
        }
    }
}

/// The leaves: owned pals, then progenitors, then (when enabled) the
/// catchable species, in name order.
pub open spec fn leaves(
    world: WorldView,
    owned: Seq<OwnedView>,
    goal: GoalView,
    distance: Seq<Option<u32>>,
    config: SearchConfig,
) -> Seq<Record> {
    Seq::new(owned.len(), |i: int| owned_leaf(world.names, goal, owned[i], i as usize)) + Seq::new(
        goal.progenitors.len(),
        |i: int| progenitor_leaf(world.names, goal.progenitors[i], i as usize),
    ) + if config.allow_wild_pals {
        wild_leaves(world, distance, config.max_breeding_steps, world.names.len())
    } else {
        Seq::empty()
    }
}

/// Seeds the arena.
pub fn seed_leaves(
    world: &World,
    owned: &Vec<OwnedPal>,
    goal: &BreedingGoal,
    distance: &Vec<Option<u32>>,
    config: &SearchConfig,
) -> (r: Vec<Record>)
    requires
        world.wf(),
        distance@.len() == world@.names.len(),
        goal@.passives.len() <= MAX_TOTAL_PASSIVES,
        goal@.progenitors.len() <= MAX_PROGENITORS,
        forall|i: int|
            0 <= i < owned@.len() ==> world@.names.contains((#[trigger] owned@[i]).species@),
        forall|i: int|
            0 <= i < goal.progenitors@.len() ==> world@.names.contains(
                (#[trigger] goal.progenitors@[i])@,
            ),
    ensures
        r@ == leaves(world@, owned_views(owned@), goal@, distance@, *config),
{
    let ghost views = owned_views(owned@);
    let mut arena: Vec<Record> = Vec::new();
    let ghost first = Seq::new(
        views.len(),
        |i: int| owned_leaf(world@.names, goal@, views[i], i as usize),
    );
    let mut i: usize = 0;
    while i < owned.len()
        invariant
            world.wf(),
            goal@.passives.len() <= MAX_TOTAL_PASSIVES,
            views == owned_views(owned@),
            i <= owned@.len(),
            arena@.len() == i,
            forall|j: int|
                0 <= j < owned@.len() ==> world@.names.contains((#[trigger] owned@[j]).species@),
            forall|j: int|
                0 <= j < i ==> #[trigger] arena@[j] == owned_leaf(
                    world@.names,
                    goal@,
                    views[j],
                    j as usize,
                ),
        decreases owned@.len() - i,
    {
        let pal = &owned[i];
        let species: usize = match world.id(&pal.species) {
            Some(id) => id,
            None => 0,
        };
        let mut leaf = leaf_record(
            Source::Owned(i),
            species,
            Availability::Fixed(pal.gender),
        );
        leaf.carried = DesiredMask::of(&goal.passives, &pal.passives).0;
        leaf.iv_met = iv_mask(goal.iv_thresholds, pal.ivs).0;
        arena.push(leaf);
        i = i + 1;
    }
    proof {
        assert(arena@ =~= first);
    }
    let ghost second = Seq::new(
        goal@.progenitors.len(),
        |i: int| progenitor_leaf(world@.names, goal@.progenitors[i], i as usize),
    );
    let mut i: usize = 0;
    while i < goal.progenitors.len()
        invariant
            world.wf(),
            goal@.progenitors.len() <= MAX_PROGENITORS,
            i <= goal.progenitors@.len(),
            first.len() == views.len(),
            second == Seq::new(
                goal@.progenitors.len(),
                |i: int| progenitor_leaf(world@.names, goal@.progenitors[i], i as usize),
            ),
            forall|j: int|
                0 <= j < goal.progenitors@.len() ==> world@.names.contains(
                    (#[trigger] goal.progenitors@[j])@,
                ),
            arena@ == first + second.take(i as int),
        decreases goal.progenitors@.len() - i,
    {
        let species: usize = match world.id(&goal.progenitors[i]) {
            Some(id) => id,
            None => 0,
        };
        let mut leaf = leaf_record(Source::Progenitor, species, Availability::AnyFree);
        leaf.required = DesiredMask::single(i).0;
        arena.push(leaf);
        proof {
            assert(goal@.progenitors[i as int] == goal.progenitors@[i as int]@);
            assert(leaf == second[i as int]);
            assert(first + second.take(i + 1) =~= (first + second.take(i as int)).push(leaf));
        }
        i = i + 1;
    }
    proof {
        assert(second.take(i as int) =~= second);
    }
    let ghost known = first + second;
    if config.allow_wild_pals {
        let n: usize = world.names.len();
        let mut s: usize = 0;
        proof {
            assert(known + Seq::<Record>::empty() =~= known);
        }
        while s < n
            invariant
                world.wf(),
                n == world@.names.len(),
                distance@.len() == n,
                s <= n,
                arena@ == known + wild_leaves(
                    world@,
                    distance@,
                    config.max_breeding_steps,
                    s as nat,
                ),
            decreases n - s,
        {
            let near = match distance[s] {
                Some(d) => d as u64 <= config.max_breeding_steps as u64,
                None => false,
            };
            let ghost sofar = wild_leaves(world@, distance@, config.max_breeding_steps, s as nat);
            if world.wild[s] && near {
                let leaf = leaf_record(Source::Wild, s, Availability::AnyFree);
                arena.push(leaf);
                proof {
                    assert(known + sofar.push(leaf) =~= (known + sofar).push(leaf));
                }
            }
            s = s + 1;
        }
    } else {
        proof {
            assert(known + Seq::<Record>::empty() =~= known);
        }
    }
    arena
}

// ---------------------------------------------------------------------
// Laws
// ---------------------------------------------------------------------
/// A question is refused only for what it says: it is searched exactly
/// when every species it names is known, and it lists at most four
/// passives and at most eight progenitors, none of them twice.
pub proof fn law_questions_are_refused_for_a_reason(
    db: PalDb,
    owned: Seq<OwnedView>,
    goal: GoalView,
)
    ensures
        first_fault(db, owned, goal) is None <==> {
            &&& db.knows(goal.species)
            &&& forall|i: int| 0 <= i < owned.len() ==> db.knows((#[trigger] owned[i]).species)
            &&& goal.passives.len() <= 4
            &&& goal.passives.no_duplicates()
            &&& goal.progenitors.len() <= 8
            &&& goal.progenitors.no_duplicates()
            &&& forall|i: int|
                0 <= i < goal.progenitors.len() ==> db.knows(#[trigger] goal.progenitors[i])
        },
{
    let strange = unknown_owned(db, owned);
    lemma_first_number(strange, owned.len() as int);
    assert forall|i: int| 0 <= i < owned.len() implies strange(i) == !db.knows(
        (#[trigger] owned[i]).species,
    ) by {}
    lemma_repeats(goal.passives);
    lemma_repeats(goal.progenitors);
    let twice = repeats(goal.passives);
    lemma_first_number(twice, goal.passives.len() as int);
    let bad = bad_progenitor(db, goal.progenitors);
    lemma_first_number(bad, goal.progenitors.len() as int);
    assert forall|i: int| 0 <= i < goal.progenitors.len() implies bad(i) == (!db.knows(
        #[trigger] goal.progenitors[i],
    ) || repeats(goal.progenitors)(i)) by {}
    if first_number(strange, owned.len() as int) is None {
        assert forall|i: int| 0 <= i < owned.len() implies db.knows((#[trigger] owned[i]).species) by {
            assert(!strange(i));
        }
    }
    if first_number(bad, goal.progenitors.len() as int) is None {
        assert forall|i: int| 0 <= i < goal.progenitors.len() implies db.knows(
            #[trigger] goal.progenitors[i],
        ) && !repeats(goal.progenitors)(i) by {
            assert(!bad(i));
        }
    }
}

/// A list repeats nothing exactly when no entry stands in it before.
proof fn lemma_repeats(list: Seq<Seq<char>>)
    ensures
        list.no_duplicates() <==> forall|i: int|
            0 <= i < list.len() ==> !#[trigger] repeats(list)(i),
{
    let twice = repeats(list);
    if list.no_duplicates() {
        assert forall|i: int| 0 <= i < list.len() implies !#[trigger] twice(i) by {
            if twice(i) {
                let j = choose|j: int| 0 <= j < list.take(i).len() && list.take(i)[j] == list[i];
                assert(list[j] == list[i]);
            }
        }
    }
    if forall|i: int| 0 <= i < list.len() ==> !#[trigger] twice(i) {
        assert forall|i: int, j: int|
            0 <= i < list.len() && 0 <= j < list.len() && i != j implies list[i] != list[j] by {
            if i < j {
                assert(!twice(j));
                assert(list.take(j)[i] == list[i]);
            } else {
                assert(!twice(i));
                assert(list.take(i)[j] == list[j]);
            }
        }
    }
}

/// A search starts from every owned pal, with the wanted passives that it
/// has, from every progenitor, and, when wild pals are allowed, from
/// every species that can be caught and is near enough to the goal; and
/// from nothing else.
pub proof fn law_every_pal_is_a_leaf(
    world: WorldView,
    owned: Seq<OwnedView>,
    goal: GoalView,
    distance: Seq<Option<u32>>,
    config: SearchConfig,
)
    requires
        world.names.len() <= u32::MAX,
        goal.passives.len() <= 8,
        owned.len() <= usize::MAX,
        forall|i: int| 0 <= i < owned.len() ==> world.names.contains((#[trigger] owned[i]).species),
        forall|i: int|
            0 <= i < goal.progenitors.len() ==> world.names.contains(
                #[trigger] goal.progenitors[i],
            ),
    ensures
        ({
            let all = leaves(world, owned, goal, distance, config);
            &&& all.len() >= owned.len() + goal.progenitors.len()
            &&& !config.allow_wild_pals ==> all.len() == owned.len() + goal.progenitors.len()
            &&& forall|i: int|
                0 <= i < owned.len() ==> {
                    let r = #[trigger] all[i];
                    &&& r.source == Source::Owned(i as usize)
                    &&& r.species < world.names.len()
                    &&& world.names[r.species as int] == owned[i].species
                    &&& r.gender == Availability::Fixed(owned[i].gender)
                    &&& r.cost == 0
                    &&& forall|k: int|
                        0 <= k < goal.passives.len() ==> has_bit(r.carried, k as u8)
                            == owned[i].passives.contains(#[trigger] goal.passives[k])
                }
            &&& forall|i: int|
                owned.len() <= i < owned.len() + goal.progenitors.len() ==> {
                    let r = #[trigger] all[i];
                    &&& r.source is Progenitor
                    &&& r.species < world.names.len()
                    &&& world.names[r.species as int] == goal.progenitors[i - owned.len()]
                    &&& r.gender is AnyFree
                    &&& r.carried == 0
                    &&& r.cost == 0
                }
            &&& forall|i: int|
                owned.len() + goal.progenitors.len() <= i < all.len() ==> {
                    let r = #[trigger] all[i];
                    &&& r.source is Wild
                    &&& r.species < world.names.len()
                    &&& world.wild[r.species as int]
                    &&& distance[r.species as int] matches Some(d) && d <= config.max_breeding_steps
                    &&& r.gender is AnyFree
                    &&& r.carried == 0
                    &&& r.cost == 0
                }
            &&& config.allow_wild_pals ==> forall|s: int|
                0 <= s < world.names.len() && #[trigger] world.wild[s] && (distance[s] matches Some(
                    d,
                ) && d <= config.max_breeding_steps) ==> exists|i: int|
                    owned.len() + goal.progenitors.len() <= i < all.len() && (
                    #[trigger] all[i]).species == s
        }),
{
    let all = leaves(world, owned, goal, distance, config);
    lemma_wild_leaves(world, distance, config.max_breeding_steps, world.names.len());
    let wild = wild_leaves(world, distance, config.max_breeding_steps, world.names.len());
    assert forall|i: int| 0 <= i < owned.len() implies ({
        let r = #[trigger] all[i];
        &&& r.source == Source::Owned(i as usize)
        &&& r.species < world.names.len()
        &&& world.names[r.species as int] == owned[i].species
        &&& r.gender == Availability::Fixed(owned[i].gender)
        &&& r.cost == 0
        &&& forall|k: int|
            0 <= k < goal.passives.len() ==> has_bit(r.carried, k as u8)
                == owned[i].passives.contains(#[trigger] goal.passives[k])
    }) by {
        let r = all[i];
        assert(r == owned_leaf(world.names, goal, owned[i], i as usize));
        crate::search::solver::lemma_known_id(world.names, owned[i].species);
        assert forall|k: int| 0 <= k < goal.passives.len() implies has_bit(r.carried, k as u8)
            == owned[i].passives.contains(#[trigger] goal.passives[k]) by {
            crate::search::mask::lemma_bits_of(
                carries(goal.passives, owned[i].passives),
                goal.passives.len(),
                k as u8,
            );
        }
    }
    assert forall|i: int| owned.len() <= i < owned.len() + goal.progenitors.len() implies ({
        let r = #[trigger] all[i];
        &&& r.source is Progenitor
        &&& r.species < world.names.len()
        &&& world.names[r.species as int] == goal.progenitors[i - owned.len()]
        &&& r.gender is AnyFree
        &&& r.carried == 0
        &&& r.cost == 0
    }) by {
        let k = i - owned.len();
        assert(all[i] == progenitor_leaf(world.names, goal.progenitors[k], k as usize));
        assert(world.names.contains(goal.progenitors[k]));
        crate::search::solver::lemma_known_id(world.names, goal.progenitors[k]);
    }
    let base = owned.len() + goal.progenitors.len();
    assert forall|i: int| base <= i < all.len() implies ({
        let r = #[trigger] all[i];
        &&& r.source is Wild
        &&& r.species < world.names.len()
        &&& world.wild[r.species as int]
        &&& distance[r.species as int] matches Some(d) && d <= config.max_breeding_steps
        &&& r.gender is AnyFree
        &&& r.carried == 0
        &&& r.cost == 0
    }) by {
        assert(all[i] == wild[i - base]);
    }
    if config.allow_wild_pals {
        assert forall|s: int|
            0 <= s < world.names.len() && #[trigger] world.wild[s] && (distance[s] matches Some(d)
                && d <= config.max_breeding_steps) implies exists|i: int|
            base <= i < all.len() && (#[trigger] all[i]).species == s by {
            let w = lemma_wild_listed(
                world,
                distance,
                config.max_breeding_steps,
                world.names.len(),
                s,
            );
            assert(all[base + w] == wild[w]);
        }
    }
}

proof fn lemma_wild_leaves(world: WorldView, distance: Seq<Option<u32>>, max_steps: usize, n: nat)
    requires
        n <= world.names.len() <= u32::MAX,
    ensures
        forall|i: int|
            0 <= i < wild_leaves(world, distance, max_steps, n).len() ==> {
                let r = #[trigger] wild_leaves(world, distance, max_steps, n)[i];
                &&& r.source is Wild
                &&& r.species < n
                &&& world.wild[r.species as int]
                &&& distance[r.species as int] matches Some(d) && d <= max_steps
                &&& r.gender is AnyFree
                &&& r.carried == 0
                &&& r.cost == 0
            },
    decreases n,
{
    if n > 0 {
        lemma_wild_leaves(world, distance, max_steps, (n - 1) as nat);
        let rest = wild_leaves(world, distance, max_steps, (n - 1) as nat);
        let all = wild_leaves(world, distance, max_steps, n);
        assert forall|i: int| 0 <= i < all.len() implies ({
            let r = #[trigger] all[i];
            &&& r.source is Wild
            &&& r.species < n
            &&& world.wild[r.species as int]
            &&& distance[r.species as int] matches Some(d) && d <= max_steps
            &&& r.gender is AnyFree
            &&& r.carried == 0
            &&& r.cost == 0
        }) by {
            if i < rest.len() {
                assert(all[i] == rest[i]);
            }
        }
    }
}

/// Every species that can be caught has its leaf.
pub proof fn lemma_wild_listed(
    world: WorldView,
    distance: Seq<Option<u32>>,
    max_steps: usize,
    n: nat,
    s: int,
) -> (i: int)
    requires
        0 <= s < n <= u32::MAX,
        catchable(world, distance, max_steps, s),
    ensures
        0 <= i < wild_leaves(world, distance, max_steps, n).len(),
        wild_leaves(world, distance, max_steps, n)[i] == bare_leaf(
            Source::Wild,
            s as usize,
            Availability::AnyFree,
        ),
    decreases n,
{
    let rest = wild_leaves(world, distance, max_steps, (n - 1) as nat);
    if s == n - 1 {
        rest.len() as int
    } else {
        lemma_wild_listed(world, distance, max_steps, (n - 1) as nat, s)
    }
}

} // verus!
