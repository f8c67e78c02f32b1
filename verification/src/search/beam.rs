//! Expanding one pair of species: all their pairings, pruned by a beam
//! per state.

use vstd::prelude::*;

use crate::chance::cost_sum;
use crate::chance::EGG;
use crate::search::breed::bred;
use crate::search::breed::breed;
use crate::search::breed::ExpandContext;
use crate::search::record::key_of_masks;
use crate::search::record::mask_key;
use crate::search::record::record_of;
use crate::search::record::Availability;
use crate::search::record::Candidate;
use crate::search::record::Record;
use crate::search::record::Scene;
use crate::search::record::Source;
use crate::seqs::first_where;
use crate::seqs::lemma_first_where;

verus! {

// ---------------------------------------------------------------------
// The beam
// ---------------------------------------------------------------------
/// The last position of a largest cost.
pub open spec fn worst_position(costs: Seq<u128>) -> int
    decreases costs.len(),
{
    if costs.len() <= 1 {
        0
    } else {
        let earlier = worst_position(costs.drop_last());
        if costs.last() >= costs[earlier] {
            costs.len() - 1
        } else {
            earlier
        }
    }
}

/// No cost exceeds the one at the worst position.
pub proof fn lemma_worst_position(costs: Seq<u128>)
    requires
        costs.len() > 0,
    ensures
        0 <= worst_position(costs) < costs.len(),
        forall|i: int| 0 <= i < costs.len() ==> #[trigger] costs[i] <= costs[worst_position(costs)],
    decreases costs.len(),
{
    if costs.len() > 1 {
        lemma_worst_position(costs.drop_last());
        assert forall|i: int| 0 <= i < costs.len() implies #[trigger] costs[i]
            <= costs[worst_position(costs)] by {
            if i < costs.len() - 1 {
                assert(costs.drop_last()[i] == costs[i]);
            }
        }
    }
}

/// The costs of candidates.
pub open spec fn candidate_costs(kept: Seq<Candidate>) -> Seq<u128> {
    kept.map_values(|c: Candidate| c.cost)
}

/// The candidates kept after one more is offered: while there is room
/// it is kept; after that it takes the worst place if it is better.
pub open spec fn admitted(kept: Seq<Candidate>, c: Candidate, width: usize) -> Seq<Candidate> {
    if kept.len() < width {
        kept.push(c)
    } else {
        let w = worst_position(candidate_costs(kept));
        if kept.len() > 0 && c.cost < kept[w].cost {
            kept.update(w, c)
        } else {
            kept
        }
    }
}

/// The candidates of one state.
pub struct SlotView {
    pub key: u32,
    pub kept: Seq<Candidate>,
}

/// The state of a candidate.
pub open spec fn candidate_key(c: Candidate) -> u32 {
    mask_key(c.carried, c.required, c.iv_met)
}

/// The first state from a given one on.
pub open spec fn not_before(key: u32) -> spec_fn(SlotView) -> bool {
    |s: SlotView| s.key >= key
}

/// The states after one more candidate is offered; states stand in
/// order.
pub open spec fn offered(slots: Seq<SlotView>, c: Candidate, width: usize) -> Seq<SlotView> {
    let key = candidate_key(c);
    match first_where(slots, not_before(key)) {
        Some(i) => if slots[i].key == key {
            slots.update(i, SlotView { key, kept: admitted(slots[i].kept, c, width) })
        } else {
            slots.insert(i, SlotView { key, kept: admitted(Seq::empty(), c, width) })
        },
        None => slots.push(SlotView { key, kept: admitted(Seq::empty(), c, width) }),
    }
}

/// The candidates of one state.
pub struct Slot {
    pub key: u32,
    pub kept: Vec<Candidate>,
}

impl View for Slot {
    type V = SlotView;

    open spec fn view(&self) -> SlotView {
        SlotView { key: self.key, kept: self.kept@ }
    }
}

/// The states of a beam.
pub open spec fn slot_views(slots: Seq<Slot>) -> Seq<SlotView> {
    slots.map_values(|s: Slot| s@)
}

/// The last position of a largest cost among candidates.
fn worst_candidate(kept: &Vec<Candidate>) -> (r: usize)
    requires
        kept@.len() > 0,
    ensures
        r == worst_position(candidate_costs(kept@)),
        r < kept@.len(),
{
    let ghost costs = candidate_costs(kept@);
    let mut worst: usize = 0;
    let mut i: usize = 1;
    while i < kept.len()
        invariant
            costs == candidate_costs(kept@),
            1 <= i <= kept@.len(),
            worst < i,
            worst == worst_position(costs.take(i as int)),
        decreases kept@.len() - i,
    {
        proof {
            assert(costs.take(i + 1).drop_last() =~= costs.take(i as int));
        }
        if kept[i].cost >= kept[worst].cost {
            worst = i;
        }
        i = i + 1;
    }
    proof {
        assert(costs.take(i as int) =~= costs);
    }
    worst
}

/// Offers a candidate to the candidates of its state.
fn keep_best(kept: &mut Vec<Candidate>, c: Candidate, width: usize)
    ensures
        final(kept)@ == admitted(old(kept)@, c, width),
{
    if kept.len() < width {
        kept.push(c);
        return ;
    }
    if kept.len() == 0 {
        return ;
    }
    let w: usize = worst_candidate(kept);
    if c.cost < kept[w].cost {
        kept.set(w, c);
    }
}

/// Per-state beam applied inside one species-pair expansion: keeps the
/// best candidates per state by cost.
pub struct LocalBeam {
    pub width: usize,
    pub slots: Vec<Slot>,
}

impl LocalBeam {
    pub fn new(width: usize) -> (r: Self)
        ensures
            r.width == width,
            slot_views(r.slots@) == Seq::<SlotView>::empty(),
    {
        let r = LocalBeam { width, slots: Vec::new() };
        proof {
            assert(slot_views(r.slots@) =~= Seq::<SlotView>::empty());
        }
        r
    }

    pub fn offer(&mut self, c: Candidate)
        ensures
            final(self).width == old(self).width,
            slot_views(final(self).slots@) == offered(
                slot_views(old(self).slots@),
                c,
                old(self).width,
            ),
    {
        let key: u32 = key_of_masks(c.carried, c.required, c.iv_met);
        let ghost views = slot_views(self.slots@);
        proof {
            lemma_first_where(views, not_before(key));
        }
        let mut i: usize = 0;
        while i < self.slots.len() && self.slots[i].key < key
            invariant
                views == slot_views(self.slots@),
                self.width == old(self).width,
                i <= self.slots@.len(),
                forall|j: int| 0 <= j < i ==> !not_before(key)(#[trigger] views[j]),
            decreases self.slots@.len() - i,
        {
            proof {
                assert(views[i as int] == self.slots@[i as int]@);
            }
            i = i + 1;
        }
        let width: usize = self.width;
        if i < self.slots.len() {
            proof {
                assert(views[i as int] == self.slots@[i as int]@);
                assert(not_before(key)(views[i as int]));
                assert(first_where(views, not_before(key)) == Some(i as int));
            }
            if self.slots[i].key == key {
                let ghost before = self.slots@;
                keep_best(&mut self.slots[i].kept, c, width);
                proof {
                    assert(slot_views(self.slots@) =~= views.update(
                        i as int,
                        SlotView { key, kept: admitted(views[i as int].kept, c, width) },
                    ));
                }
                return ;
            }
        } else {
            proof {
                assert(first_where(views, not_before(key)) is None);
            }
        }
        let mut kept: Vec<Candidate> = Vec::new();
        keep_best(&mut kept, c, width);
        self.slots.insert(i, Slot { key, kept });
        proof {
            let slot = SlotView { key, kept: admitted(Seq::empty(), c, width) };
            assert(kept@ =~= admitted(Seq::empty(), c, width));
            assert(slot_views(self.slots@) =~= views.insert(i as int, slot));
            assert(views.insert(views.len() as int, slot) =~= views.push(slot));
        }
    }
}

// ---------------------------------------------------------------------
// Cutting hopeless candidates
// ---------------------------------------------------------------------
/// Steps a candidate still needs at least: to the goal species, or one
/// more where a goal-species candidate falls short of the goal.
pub open spec fn steps_left(scene: Scene, goal_child: bool, distance: u32, c: Candidate) -> int {
    if goal_child {
        if c.carried != scene.full || c.required != scene.all_required || c.iv_met
            != scene.iv_full {
            1
        } else {
            0
        }
    } else if distance >= 1 {
        distance as int
    } else {
        1
    }
}

/// A candidate cannot beat the worst of a full list of goal plans: each
/// step it still needs costs at least one egg.
pub open spec fn hopeless(
    scene: Scene,
    worst: Option<u128>,
    goal_child: bool,
    distance: u32,
    c: Candidate,
) -> bool {
    match worst {
        Some(cost) => cost_sum(c.cost, (steps_left(scene, goal_child, distance, c) * EGG) as u128)
            >= cost,
        None => false,
    }
}

fn is_hopeless(
    context: &ExpandContext,
    worst: Option<u128>,
    goal_child: bool,
    distance: u32,
    c: &Candidate,
) -> (r: bool)
    ensures
        r == hopeless(context@, worst, goal_child, distance, *c),
{
    match worst {
        Some(cost) => {
            let steps: u128 = if goal_child {
                if c.carried != context.full || c.required != context.all_required || c.iv_met
                    != context.iv_full {
                    1
                } else {
                    0
                }
            } else if distance >= 1 {
                distance as u128
            } else {
                1
            };
            crate::chance::add_costs(c.cost, steps * EGG) >= cost
        },
        None => false,
    }
}

// ---------------------------------------------------------------------
// Pairings of two species
// ---------------------------------------------------------------------
/// What all pairings of one ordered pair of species share.
pub struct Pass {
    pub scene: Scene,
    pub arena: Seq<Record>,
    pub worst: Option<u128>,
    pub goal_child: bool,
    pub distance: u32,
}

/// The beam after one pairing.
pub open spec fn try_pair(
    pass: Pass,
    slots: Seq<SlotView>,
    male: usize,
    female: usize,
) -> Seq<SlotView> {
    match bred(pass.scene, pass.arena, pass.distance, male, female) {
        Some(c) => if hopeless(pass.scene, pass.worst, pass.goal_child, pass.distance, c) {
            slots
        } else {
            offered(slots, c, pass.scene.beam)
        },
        None => slots,
    }
}

/// The beam after pairing one male with each of the females.
pub open spec fn try_row(
    pass: Pass,
    slots: Seq<SlotView>,
    male: usize,
    females: Seq<usize>,
) -> Seq<SlotView>
    decreases females.len(),
{
    if females.len() == 0 {
        slots
    } else {
        try_pair(pass, try_row(pass, slots, male, females.drop_last()), male, females.last())
    }
}

/// The beam after pairing each of the males with each of the females.
pub open spec fn try_block(
    pass: Pass,
    slots: Seq<SlotView>,
    males: Seq<usize>,
    females: Seq<usize>,
) -> Seq<SlotView>
    decreases males.len(),
{
    if males.len() == 0 {
        slots
    } else {
        try_row(pass, try_block(pass, slots, males.drop_last(), females), males.last(), females)
    }
}

/// Members of one species during a round: those added last round, and
/// everything older.
pub struct GroupView {
    pub fresh: Seq<usize>,
    pub old: Seq<usize>,
}

/// The beam after all pairings where at least one side is fresh. Pairs
/// where both sides are old produced their children in an earlier
/// round.
pub open spec fn try_groups(pass: Pass, males: GroupView, females: GroupView) -> Seq<SlotView> {
    try_block(
        pass,
        try_block(pass, Seq::empty(), males.fresh, females.fresh + females.old),
        males.old,
        females.fresh,
    )
}

/// The records of the candidates kept in a beam, in state order.
pub open spec fn emitted(scene: Scene, child: usize, slots: Seq<SlotView>) -> Seq<Record>
    decreases slots.len(),
{
    if slots.len() == 0 {
        Seq::empty()
    } else {
        emitted(scene, child, slots.drop_last()) + slots.last().kept.map_values(
            |c: Candidate| record_of(scene, child, c),
        )
    }
}

/// The children of one ordered pair of species.
pub open spec fn group_children(
    scene: Scene,
    arena: Seq<Record>,
    worst: Option<u128>,
    male_species: int,
    female_species: int,
    males: GroupView,
    females: GroupView,
) -> Seq<Record> {
    match scene.child[male_species][female_species] {
        Some(child) => match scene.distance[child as int] {
            Some(distance) => if distance + 1 > scene.max_steps {
                Seq::empty()
            } else {
                let pass = Pass {
                    scene,
                    arena,
                    worst,
                    goal_child: child == scene.goal,
                    distance,
                };
                emitted(scene, child, try_groups(pass, males, females))
            },
            None => Seq::empty(),
        },
        None => Seq::empty(),
    }
}

/// Members of one species during a round.
pub struct SpeciesGroup {
    pub fresh: Vec<usize>,
    pub old: Vec<usize>,
}

impl View for SpeciesGroup {
    type V = GroupView;

    open spec fn view(&self) -> GroupView {
        GroupView { fresh: self.fresh@, old: self.old@ }
    }
}

/// Every member is a record.
pub open spec fn within_arena(ids: Seq<usize>, n: nat) -> bool {
    forall|i: int| 0 <= i < ids.len() ==> #[trigger] ids[i] < n
}

/// Every candidate kept has the property.
pub open spec fn all_kept(slots: Seq<SlotView>, p: spec_fn(Candidate) -> bool) -> bool {
    forall|s: int, k: int|
        0 <= s < slots.len() && 0 <= k < slots[s].kept.len() ==> p(#[trigger] slots[s].kept[k])
}

/// A candidate has sound odds and parents among the first `n` records.
pub open spec fn sound_within(n: nat) -> spec_fn(Candidate) -> bool {
    |c: Candidate|
        c.chance.wf() && c.carried < 16 && c.iv_met < 8 && c.male < n && c.female < n
}

/// Every candidate kept is sound.
pub open spec fn sound_slots(slots: Seq<SlotView>, n: nat) -> bool {
    all_kept(slots, sound_within(n))
}

/// Offering a candidate keeps a property that it and the kept ones
/// have.
pub proof fn lemma_offered_keeps(
    slots: Seq<SlotView>,
    c: Candidate,
    width: usize,
    p: spec_fn(Candidate) -> bool,
)
    requires
        all_kept(slots, p),
        p(c),
    ensures
        all_kept(offered(slots, c, width), p),
{
    let key = candidate_key(c);
    lemma_first_where(slots, not_before(key));
    let after = offered(slots, c, width);
    let fresh = admitted(Seq::empty(), c, width);
    assert forall|k: int| 0 <= k < fresh.len() implies p(#[trigger] fresh[k]) by {}
    assert forall|s: int, k: int| 0 <= s < after.len() && 0 <= k < after[s].kept.len() implies p(
        #[trigger] after[s].kept[k],
    ) by {
        match first_where(slots, not_before(key)) {
            Some(i) => {
                if slots[i].key == key {
                    if s == i {
                        let kept = slots[i].kept;
                        lemma_admitted_keeps(kept, c, width, p);
                        assert(after[s].kept == admitted(kept, c, width));
                    } else {
                        assert(after[s] == slots[s]);
                    }
                } else if s < i {
                    assert(after[s] == slots[s]);
                } else if s == i {
                    assert(after[s].kept == fresh);
                } else {
                    assert(after[s] == slots[s - 1]);
                }
            },
            None => {
                if s < slots.len() {
                    assert(after[s] == slots[s]);
                } else {
                    assert(after[s].kept == fresh);
                }
            },
        }
    }
}

proof fn lemma_admitted_keeps(
    kept: Seq<Candidate>,
    c: Candidate,
    width: usize,
    p: spec_fn(Candidate) -> bool,
)
    requires
        forall|k: int| 0 <= k < kept.len() ==> p(#[trigger] kept[k]),
        p(c),
    ensures
        forall|k: int|
            0 <= k < admitted(kept, c, width).len() ==> p(#[trigger] admitted(kept, c, width)[k]),
{
    let after = admitted(kept, c, width);
    if kept.len() > 0 {
        lemma_worst_position(candidate_costs(kept));
    }
    assert forall|k: int| 0 <= k < after.len() implies p(#[trigger] after[k]) by {
        if k < kept.len() {
            assert(p(kept[k]));
        }
    }
}

/// Pairs each of the males with each of the females.
fn offer_block(
    context: &ExpandContext,
    arena: &Vec<Record>,
    worst: Option<u128>,
    goal_child: bool,
    distance: u32,
    beam: &mut LocalBeam,
    males: &Vec<usize>,
    females: &Vec<usize>,
)
    requires
        context@.wf(),
        context@.fit(arena@),
        within_arena(males@, arena@.len()),
        within_arena(females@, arena@.len()),
        old(beam).width == context.beam,
        sound_slots(slot_views(old(beam).slots@), arena@.len()),
    ensures
        final(beam).width == context.beam,
        sound_slots(slot_views(final(beam).slots@), arena@.len()),
        slot_views(final(beam).slots@) == try_block(
            (Pass { scene: context@, arena: arena@, worst, goal_child, distance }),
            slot_views(old(beam).slots@),
            males@,
            females@,
        ),
{
    let ghost pass = Pass { scene: context@, arena: arena@, worst, goal_child, distance };
    let ghost start = slot_views(beam.slots@);
    let mut i: usize = 0;
    proof {
        assert(males@.take(0) =~= Seq::empty());
    }
    while i < males.len()
        invariant
            pass == (Pass { scene: context@, arena: arena@, worst, goal_child, distance }),
            context@.wf(),
            context@.fit(arena@),
            within_arena(males@, arena@.len()),
            within_arena(females@, arena@.len()),
            beam.width == context.beam,
            sound_slots(slot_views(beam.slots@), arena@.len()),
            i <= males@.len(),
            slot_views(beam.slots@) == try_block(pass, start, males@.take(i as int), females@),
        decreases males@.len() - i,
    {
        let male: usize = males[i];
        let ghost row_start = slot_views(beam.slots@);
        let mut j: usize = 0;
        proof {
            assert(females@.take(0) =~= Seq::empty());
        }
        while j < females.len()
            invariant
                pass == (Pass { scene: context@, arena: arena@, worst, goal_child, distance }),
                context@.wf(),
                context@.fit(arena@),
                male < arena@.len(),
                within_arena(females@, arena@.len()),
                beam.width == context.beam,
                sound_slots(slot_views(beam.slots@), arena@.len()),
                j <= females@.len(),
                slot_views(beam.slots@) == try_row(pass, row_start, male, females@.take(j as int)),
            decreases females@.len() - j,
        {
            let female: usize = females[j];
            proof {
                assert(females@.take(j + 1).drop_last() =~= females@.take(j as int));
                assert(females@.take(j + 1).last() == female);
            }
            match breed(context, arena, distance, male, female) {
                Some(c) => {
                    if !is_hopeless(context, worst, goal_child, distance, &c) {
                        proof {
                            lemma_offered_keeps(
                                slot_views(beam.slots@),
                                c,
                                context.beam,
                                sound_within(arena@.len()),
                            );
                        }
                        beam.offer(c);
                    }
                },
                None => {},
            }
            j = j + 1;
        }
        proof {
            assert(females@.take(j as int) =~= females@);
            assert(males@.take(i + 1).drop_last() =~= males@.take(i as int));
            assert(males@.take(i + 1).last() == male);
        }
        i = i + 1;
    }
    proof {
        assert(males@.take(i as int) =~= males@);
    }
}

/// The records of the candidates kept in a beam.
fn emit(context: &ExpandContext, child: usize, beam: &LocalBeam, Ghost(n): Ghost<nat>) -> (r: Vec<
    Record,
>)
    requires
        context@.wf(),
        child < context@.size(),
        sound_slots(slot_views(beam.slots@), n),
    ensures
        r@ == emitted(context@, child, slot_views(beam.slots@)),
        fitting(context@, r@, n),
{
    let ghost views = slot_views(beam.slots@);
    let mut out: Vec<Record> = Vec::new();
    let mut s: usize = 0;
    let male: u32 = context.world.male[child];
    let female: u32 = context.world.female[child];
    proof {
        assert(views.take(0) =~= Seq::empty());
        assert(context@.male[child as int] <= crate::model::CERTAIN);
        assert(context@.female[child as int] <= crate::model::CERTAIN);
    }
    while s < beam.slots.len()
        invariant
            context@.wf(),
            child < context@.size(),
            views == slot_views(beam.slots@),
            sound_slots(views, n),
            s <= beam.slots@.len(),
            male == context@.male[child as int],
            female == context@.female[child as int],
            male <= crate::model::CERTAIN,
            female <= crate::model::CERTAIN,
            out@ == emitted(context@, child, views.take(s as int)),
            fitting(context@, out@, n),
        decreases beam.slots@.len() - s,
    {
        let kept = &beam.slots[s].kept;
        let ghost before = out@;
        let ghost mapped = kept@.map_values(|c: Candidate| record_of(context@, child, c));
        proof {
            assert(views.take(s + 1).drop_last() =~= views.take(s as int));
            assert(views.take(s + 1).last() == beam.slots@[s as int]@);
            assert(views[s as int].kept == kept@);
        }
        let mut k: usize = 0;
        proof {
            assert(before + mapped.take(0) =~= before);
        }
        while k < kept.len()
            invariant
                context@.wf(),
                child < context@.size(),
                s < beam.slots@.len(),
                views == slot_views(beam.slots@),
                views[s as int].kept == kept@,
                sound_slots(views, n),
                male == context@.male[child as int],
                female == context@.female[child as int],
                male <= crate::model::CERTAIN,
                female <= crate::model::CERTAIN,
                mapped == kept@.map_values(|c: Candidate| record_of(context@, child, c)),
                k <= kept@.len(),
                out@ == before + mapped.take(k as int),
                fitting(context@, out@, n),
            decreases kept@.len() - k,
        {
            let c = kept[k];
            proof {
                assert(sound_within(n)(views[s as int].kept[k as int]));
            }
            let record = Record {
                source: Source::Bred { male: c.male, female: c.female },
                species: child,
                gender: Availability::Flexible { male, female },
                carried: c.carried,
                required: c.required,
                iv_met: c.iv_met,
                parents_cost: c.parents_cost,
                chance: c.chance,
                cost: c.cost,
                bred_count: c.bred_count,
            };
            out.push(record);
            proof {
                assert(record == mapped[k as int]);
                assert(before + mapped.take(k + 1) =~= (before + mapped.take(k as int)).push(
                    record,
                ));
            }
            k = k + 1;
        }
        proof {
            assert(mapped.take(k as int) =~= mapped);
        }
        s = s + 1;
    }
    proof {
        assert(views.take(s as int) =~= views);
    }
    out
}

/// New records fit among `n` earlier ones.
pub open spec fn fitting(scene: Scene, records: Seq<Record>, n: nat) -> bool {
    forall|i: int| 0 <= i < records.len() ==> scene.fits(#[trigger] records[i], n as int)
}

/// All member pairs of one ordered species pair where at least one side
/// is fresh, pruned by the incumbent cut and the beam.
pub fn expand_group_pair(
    context: &ExpandContext,
    arena: &Vec<Record>,
    worst: Option<u128>,
    male_species: usize,
    female_species: usize,
    males: &SpeciesGroup,
    females: &SpeciesGroup,
) -> (r: Vec<Record>)
    requires
        context@.wf(),
        context@.fit(arena@),
        male_species < context@.size(),
        female_species < context@.size(),
        within_arena(males.fresh@, arena@.len()),
        within_arena(males.old@, arena@.len()),
        within_arena(females.fresh@, arena@.len()),
        within_arena(females.old@, arena@.len()),
    ensures
        r@ == group_children(
            context@,
            arena@,
            worst,
            male_species as int,
            female_species as int,
            males@,
            females@,
        ),
        fitting(context@, r@, arena@.len()),
{
    proof {
        assert(context@.child[male_species as int].len() == context@.size());
    }
    let child: usize = match context.world.child[male_species][female_species] {
        Some(child) => child,
        None => {
            return Vec::new();
        },
    };
    proof {
        assert(context@.child[male_species as int][female_species as int] == Some(child));
    }
    let distance: u32 = match context.distance[child] {
        Some(distance) => distance,
        None => {
            return Vec::new();
        },
    };
    if distance as u64 + 1 > context.max_steps as u64 {
        return Vec::new();
    }
    let goal_child = child == context.goal;
    let mut both: Vec<usize> = Vec::new();
    let mut i: usize = 0;
    while i < females.fresh.len()
        invariant
            i <= females.fresh@.len(),
            both@ == females.fresh@.take(i as int),
        decreases females.fresh@.len() - i,
    {
        both.push(females.fresh[i]);
        proof {
            assert(females.fresh@.take(i + 1) =~= females.fresh@.take(i as int).push(
                females.fresh@[i as int],
            ));
        }
        i = i + 1;
    }
    proof {
        assert(females.fresh@.take(i as int) =~= females.fresh@);
        assert(females.fresh@ + females.old@.take(0) =~= females.fresh@);
    }
    let mut i: usize = 0;
    while i < females.old.len()
        invariant
            i <= females.old@.len(),
            both@ == females.fresh@ + females.old@.take(i as int),
        decreases females.old@.len() - i,
    {
        both.push(females.old[i]);
        proof {
            assert(females.fresh@ + females.old@.take(i + 1) =~= (females.fresh@
                + females.old@.take(i as int)).push(females.old@[i as int]));
        }
        i = i + 1;
    }
    proof {
        assert(females.old@.take(i as int) =~= females.old@);
        assert forall|k: int| 0 <= k < both@.len() implies #[trigger] both@[k] < arena@.len() by {
            if k < females.fresh@.len() {
                assert(both@[k] == females.fresh@[k]);
            } else {
                assert(both@[k] == females.old@[k - females.fresh@.len()]);
            }
        }
    }
    let mut beam = LocalBeam::new(context.beam);
    offer_block(context, arena, worst, goal_child, distance, &mut beam, &males.fresh, &both);
    offer_block(context, arena, worst, goal_child, distance, &mut beam, &males.old, &females.fresh);
    emit(context, child, &beam, Ghost(arena@.len()))
}

/// A beam that has room keeps all that it is offered; a full one gives up
/// one candidate, and none that it keeps is dearer. `lost` is the one
/// given up.
pub proof fn law_beams_keep_the_best(kept: Seq<Candidate>, c: Candidate, width: usize) -> (lost:
    Option<Candidate>)
    requires
        0 < width,
        kept.len() <= width,
    ensures
        lost is None <==> kept.len() < width,
        match lost {
            None => admitted(kept, c, width).to_multiset() == kept.push(c).to_multiset(),
            Some(l) => {
                &&& admitted(kept, c, width).push(l).to_multiset() == kept.push(c).to_multiset()
                &&& forall|i: int|
                    0 <= i < admitted(kept, c, width).len() ==> (#[trigger] admitted(
                        kept,
                        c,
                        width,
                    )[i]).cost <= l.cost
            },
        },
{
    broadcast use vstd::seq_lib::group_to_multiset_ensures;

    if kept.len() < width {
        None
    } else {
        let costs = candidate_costs(kept);
        lemma_worst_position(costs);
        let w = worst_position(costs);
        let out = admitted(kept, c, width);
        assert forall|i: int| 0 <= i < kept.len() implies (#[trigger] kept[i]).cost
            <= kept[w].cost by {
            assert(costs[i] <= costs[w]);
        }
        if c.cost < kept[w].cost {
            assert(out == kept.update(w, c));
            assert(kept.update(w, c).to_multiset() == kept.to_multiset().insert(c).remove(kept[w]));
            assert(kept.contains(kept[w]));
            assert(kept.to_multiset().count(kept[w]) > 0);
            assert(out.push(kept[w]).to_multiset() =~= kept.push(c).to_multiset());
            Some(kept[w])
        } else {
            assert(out == kept);
            Some(c)
        }
    }
}

} // verus!
