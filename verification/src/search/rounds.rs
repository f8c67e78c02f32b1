//! The rounds of a search: expand the frontier, keep the best of every
//! state, repeat.

use std::collections::HashMap;
use vstd::prelude::*;

use crate::search::beam::expand_group_pair;
use crate::search::beam::fitting;
use crate::search::beam::group_children;
use crate::search::beam::within_arena;
use crate::search::beam::worst_position;
use crate::search::beam::GroupView;
use crate::search::beam::SpeciesGroup;
use crate::search::breed::ExpandContext;
use crate::search::record::key_of;
use crate::search::record::key_of_masks;
use crate::search::record::mask_key;
use crate::search::record::state_key;
use crate::search::record::Record;
use crate::search::record::Scene;

verus! {

broadcast use vstd::std_specs::hash::group_hash_axioms;

/// Where a search stands.
pub struct Search {
    /// Every candidate so far; the position is the id.
    pub arena: Seq<Record>,
    /// Whether a candidate still takes part: leaves do, and bred ones
    /// until a better one takes their place.
    pub live: Seq<bool>,
    /// The bred candidates kept per state.
    pub buckets: Map<u64, Seq<usize>>,
    /// The candidates to expand next.
    pub frontier: Seq<usize>,
}

/// The candidates kept in a state.
pub open spec fn bucket_of(buckets: Map<u64, Seq<usize>>, key: u64) -> Seq<usize> {
    if buckets.dom().contains(key) {
        buckets[key]
    } else {
        Seq::empty()
    }
}

/// The costs of candidates by id.
pub open spec fn costs_of(arena: Seq<Record>, ids: Seq<usize>) -> Seq<u128> {
    ids.map_values(|id: usize| arena[id as int].cost)
}

/// A record is cheaper than every candidate kept.
pub open spec fn improves(arena: Seq<Record>, ids: Seq<usize>, r: Record) -> bool {
    forall|i: int| 0 <= i < ids.len() ==> r.cost < arena[#[trigger] ids[i] as int].cost
}

impl Search {
    /// The search after `r` is offered to its state: kept while there is
    /// room, then only in place of the worst. It joins the frontier when
    /// it opens its state or is its new best.
    pub open spec fn inserted(self, r: Record, beam: usize) -> Search {
        let key = state_key(r);
        let bucket = bucket_of(self.buckets, key);
        let id = self.arena.len() as usize;
        let frontier = if improves(self.arena, bucket, r) {
            self.frontier.push(id)
        } else {
            self.frontier
        };
        if bucket.len() < beam {
            Search {
                arena: self.arena.push(r),
                live: self.live.push(true),
                buckets: self.buckets.insert(key, bucket.push(id)),
                frontier,
            }
        } else {
            let w = worst_position(costs_of(self.arena, bucket));
            if bucket.len() > 0 && r.cost < self.arena[bucket[w] as int].cost {
                Search {
                    arena: self.arena.push(r),
                    live: self.live.push(true).update(bucket[w] as int, false),
                    buckets: self.buckets.insert(key, bucket.update(w, id)),
                    frontier,
                }
            } else {
                self
            }
        }
    }

    /// The search after several records are offered in order.
    pub open spec fn inserted_all(self, records: Seq<Record>, beam: usize) -> Search
        decreases records.len(),
    {
        if records.len() == 0 {
            self
        } else {
            self.inserted_all(records.drop_last(), beam).inserted(records.last(), beam)
        }
    }

    /// The live members of a species below `n` that are on the frontier,
    /// or that are not.
    pub open spec fn members(self, species: int, fresh: bool, n: nat) -> Seq<usize>
        decreases n,
    {
        if n == 0 {
            Seq::empty()
        } else {
            let rest = self.members(species, fresh, (n - 1) as nat);
            let id = (n - 1) as usize;
            if self.live[n - 1] && self.arena[n - 1].species == species && self.frontier.contains(
                id,
            ) == fresh {
                rest.push(id)
            } else {
                rest
            }
        }
    }

    /// The members of a species.
    pub open spec fn group(self, species: int) -> GroupView {
        GroupView {
            fresh: self.members(species, true, self.arena.len()),
            old: self.members(species, false, self.arena.len()),
        }
    }

    /// The children of one ordered pair of species.
    pub open spec fn pair_children(
        self,
        scene: Scene,
        worst: Option<u128>,
        male: int,
        female: int,
    ) -> Seq<Record> {
        group_children(scene, self.arena, worst, male, female, self.group(male), self.group(female))
    }

    /// The children of one male species with the female species below
    /// `n`.
    pub open spec fn row_children(
        self,
        scene: Scene,
        worst: Option<u128>,
        male: int,
        n: nat,
    ) -> Seq<Record>
        decreases n,
    {
        if n == 0 {
            Seq::empty()
        } else {
            self.row_children(scene, worst, male, (n - 1) as nat) + self.pair_children(
                scene,
                worst,
                male,
                n - 1,
            )
        }
    }

    /// The children of the male species below `n` with all species.
    pub open spec fn children(self, scene: Scene, worst: Option<u128>, n: nat) -> Seq<Record>
        decreases n,
    {
        if n == 0 {
            Seq::empty()
        } else {
            self.children(scene, worst, (n - 1) as nat) + self.row_children(
                scene,
                worst,
                n - 1,
                scene.size(),
            )
        }
    }

    /// The cost of the worst goal plan, once there are as many as are
    /// asked for. No candidate of at least that cost can improve the
    /// results.
    pub open spec fn incumbent(self, scene: Scene) -> Option<u128> {
        let bucket = bucket_of(self.buckets, goal_key(scene));
        let costs = costs_of(self.arena, bucket);
        if bucket.len() >= scene.beam && bucket.len() > 0 {
            Some(costs[worst_position(costs)])
        } else {
            None
        }
    }

    /// The search after one round.
    #[verifier::opaque]
    pub open spec fn round(self, scene: Scene) -> Search {
        let children = self.children(scene, self.incumbent(scene), scene.size());
        let cleared = Search { frontier: Seq::empty(), ..self };
        let next = cleared.inserted_all(children, scene.beam);
        Search { frontier: last_per_state(next.arena, next.frontier), ..next }
    }

    /// The search after at most `n` rounds; it ends when nothing is left
    /// to expand.
    pub open spec fn rounds(self, scene: Scene, n: nat) -> Search
        decreases n,
    {
        if n == 0 {
            self
        } else {
            let next = self.round(scene);
            if next.frontier.len() == 0 {
                next
            } else {
                next.rounds(scene, (n - 1) as nat)
            }
        }
    }

    /// The invariant: ids are positions, and records fit.
    pub open spec fn wf(self, scene: Scene) -> bool {
        &&& scene.fit(self.arena)
        &&& self.live.len() == self.arena.len()
        &&& within_arena(self.frontier, self.arena.len())
        &&& forall|key: u64| #[trigger]
            self.buckets.dom().contains(key) ==> within_arena(self.buckets[key], self.arena.len())
    }
}

/// The state of the goal.
pub open spec fn goal_key(scene: Scene) -> u64 {
    (scene.goal * 0x100_0000 + mask_key(scene.full, scene.all_required, scene.iv_full)) as u64
}

/// Some later entry of the list is in the same state as the first.
pub open spec fn superseded(arena: Seq<Record>, ids: Seq<usize>) -> bool {
    exists|j: int|
        1 <= j < ids.len() && state_key(arena[#[trigger] ids[j] as int]) == state_key(
            arena[ids[0] as int],
        )
}

/// The entries of which no later one is in the same state: only the
/// last, best admission of a state is expanded.
pub open spec fn last_per_state(arena: Seq<Record>, ids: Seq<usize>) -> Seq<usize>
    decreases ids.len(),
{
    if ids.len() == 0 {
        ids
    } else {
        let rest = last_per_state(arena, ids.drop_first());
        if superseded(arena, ids) {
            rest
        } else {
            seq![ids[0]] + rest
        }
    }
}

/// The lists of a map as sequences.
pub open spec fn bucket_views(buckets: Map<u64, Vec<usize>>) -> Map<u64, Seq<usize>> {
    buckets.map_values(|ids: Vec<usize>| ids@)
}

/// Where a search stands.
pub struct SearchState {
    pub arena: Vec<Record>,
    pub live: Vec<bool>,
    pub buckets: HashMap<u64, Vec<usize>>,
    pub frontier: Vec<usize>,
}

impl View for SearchState {
    type V = Search;

    open spec fn view(&self) -> Search {
        Search {
            arena: self.arena@,
            live: self.live@,
            buckets: bucket_views(self.buckets@),
            frontier: self.frontier@,
        }
    }
}

/// The last position of a largest cost among records.
fn worst_record(arena: &Vec<Record>, ids: &Vec<usize>) -> (r: usize)
    requires
        ids@.len() > 0,
        within_arena(ids@, arena@.len()),
    ensures
        r == worst_position(costs_of(arena@, ids@)),
        r < ids@.len(),
{
    let ghost costs = costs_of(arena@, ids@);
    let mut worst: usize = 0;
    let mut i: usize = 1;
    while i < ids.len()
        invariant
            costs == costs_of(arena@, ids@),
            within_arena(ids@, arena@.len()),
            1 <= i <= ids@.len(),
            worst < i,
            worst == worst_position(costs.take(i as int)),
        decreases ids@.len() - i,
    {
        proof {
            assert(costs.take(i + 1).drop_last() =~= costs.take(i as int));
            assert(ids@[worst as int] < arena@.len());
        }
        if arena[ids[i]].cost >= arena[ids[worst]].cost {
            worst = i;
        }
        i = i + 1;
    }
    proof {
        assert(costs.take(i as int) =~= costs);
    }
    worst
}

/// Whether a record is cheaper than every candidate kept.
fn is_best(arena: &Vec<Record>, ids: &Vec<usize>, r: &Record) -> (b: bool)
    requires
        within_arena(ids@, arena@.len()),
    ensures
        b == improves(arena@, ids@, *r),
{
    let mut i: usize = 0;
    while i < ids.len()
        invariant
            within_arena(ids@, arena@.len()),
            i <= ids@.len(),
            forall|j: int| 0 <= j < i ==> r.cost < arena@[#[trigger] ids@[j] as int].cost,
        decreases ids@.len() - i,
    {
        if r.cost >= arena[ids[i]].cost {
            return false;
        }
        i = i + 1;
    }
    true
}

impl SearchState {
    /// Beam-prunes a record into its state: keeps at most `beam`
    /// candidates per state.
    pub fn insert_pruned(&mut self, record: Record, beam: usize, Ghost(scene): Ghost<Scene>)
        requires
            old(self)@.wf(scene),
            scene.wf(),
            beam == scene.beam,
            scene.fits(record, old(self)@.arena.len() as int),
        ensures
            final(self)@ == old(self)@.inserted(record, beam),
            final(self)@.wf(scene),
            final(self)@.arena.len() >= old(self)@.arena.len(),
    {
        let key: u64 = key_of(&record);
        let ghost before = self@;
        let bucket_opt = self.buckets.remove(&key);
        let mut bucket: Vec<usize> = match bucket_opt {
            Some(ids) => ids,
            None => Vec::new(),
        };
        proof {
            assert(bucket@ =~= bucket_of(before.buckets, key));
            if before.buckets.dom().contains(key) {
                assert(within_arena(before.buckets[key], before.arena.len()));
            }
        }
        let id: usize = self.arena.len();
        let best = is_best(&self.arena, &bucket, &record);
        if bucket.len() < beam {
            self.arena.push(record);
            self.live.push(true);
            bucket.push(id);
            if best {
                self.frontier.push(id);
            }
        } else {
            let w: usize = worst_record(&self.arena, &bucket);
            if record.cost < self.arena[bucket[w]].cost {
                let gone: usize = bucket[w];
                self.arena.push(record);
                self.live.push(true);
                self.live.set(gone, false);
                bucket.set(w, id);
                if best {
                    self.frontier.push(id);
                }
            }
        }
        let ghost kept = bucket@;
        self.buckets.insert(key, bucket);
        proof {
            let after = before.inserted(record, beam);
            assert(self@.buckets =~= after.buckets);
            assert(self@.arena =~= after.arena);
            assert(self@.live =~= after.live);
            assert(self@.frontier =~= after.frontier);
            assert forall|k: u64| #[trigger] self@.buckets.dom().contains(k) implies within_arena(
                self@.buckets[k],
                self@.arena.len(),
            ) by {
                if k == key {
                    assert(self@.buckets[k] == kept);
                } else {
                    assert(before.buckets.dom().contains(k));
                    assert(self@.buckets[k] == before.buckets[k]);
                }
            }
            assert forall|i: int| 0 <= i < self@.arena.len() implies scene.fits(
                #[trigger] self@.arena[i],
                i,
            ) by {
                if i < before.arena.len() {
                    assert(self@.arena[i] == before.arena[i]);
                }
            }
        }
    }

    /// The members of every species.
    fn species_groups(&self, size: usize, Ghost(scene): Ghost<Scene>) -> (r: Vec<SpeciesGroup>)
        requires
            self@.wf(scene),
            size == scene.size(),
        ensures
            r@.len() == size,
            forall|s: int| 0 <= s < size ==> (#[trigger] r@[s])@ == self@.group(s),
            forall|s: int|
                0 <= s < size ==> within_arena((#[trigger] r@[s]).fresh@, self@.arena.len())
                    && within_arena(r@[s].old@, self@.arena.len()),
    {
        let n: usize = self.arena.len();
        let mut is_fresh: Vec<bool> = Vec::new();
        let mut i: usize = 0;
        while i < n
            invariant
                i <= n,
                is_fresh@.len() == i,
                forall|j: int| 0 <= j < i ==> !#[trigger] is_fresh@[j],
            decreases n - i,
        {
            is_fresh.push(false);
            i = i + 1;
        }
        let mut k: usize = 0;
        proof {
            assert(self.frontier@.take(0) =~= Seq::empty());
        }
        while k < self.frontier.len()
            invariant
                k <= self.frontier@.len(),
                is_fresh@.len() == n,
                n == self.arena@.len(),
                within_arena(self.frontier@, n as nat),
                forall|j: int|
                    0 <= j < n ==> #[trigger] is_fresh@[j] == self.frontier@.take(
                        k as int,
                    ).contains(j as usize),
            decreases self.frontier@.len() - k,
        {
            let id: usize = self.frontier[k];
            let ghost before = is_fresh@;
            is_fresh.set(id, true);
            proof {
                let now = self.frontier@.take(k + 1);
                let past = self.frontier@.take(k as int);
                assert(now =~= past.push(id));
                assert forall|j: int| 0 <= j < n implies #[trigger] is_fresh@[j] == now.contains(
                    j as usize,
                ) by {
                    assert(before[j] == past.contains(j as usize));
                    if past.contains(j as usize) {
                        let q = choose|q: int| 0 <= q < past.len() && past[q] == j as usize;
                        assert(now[q] == j as usize);
                    }
                    if j == id {
                        assert(now[k as int] == id);
                    } else if now.contains(j as usize) {
                        let q = choose|q: int| 0 <= q < now.len() && now[q] == j as usize;
                        assert(past[q] == j as usize);
                    }
                }
            }
            k = k + 1;
        }
        proof {
            assert(self.frontier@.take(k as int) =~= self.frontier@);
        }
        let mut groups: Vec<SpeciesGroup> = Vec::new();
        let mut s: usize = 0;
        while s < size
            invariant
                s <= size,
                groups@.len() == s,
                forall|t: int|
                    0 <= t < s ==> (#[trigger] groups@[t]).fresh@.len() == 0
                        && groups@[t].old@.len() == 0,
            decreases size - s,
        {
            groups.push(SpeciesGroup { fresh: Vec::new(), old: Vec::new() });
            s = s + 1;
        }
        let mut i: usize = 0;
        proof {
            assert forall|t: int| 0 <= t < size implies (#[trigger] groups@[t]).fresh@
                =~= self@.members(t, true, 0) && groups@[t].old@ =~= self@.members(
                t,
                false,
                0,
            ) by {}
        }
        while i < n
            invariant
                self@.wf(scene),
                size == scene.size(),
                n == self.arena@.len(),
                i <= n,
                groups@.len() == size,
                is_fresh@.len() == n,
                forall|j: int|
                    0 <= j < n ==> #[trigger] is_fresh@[j] == self.frontier@.contains(j as usize),
                forall|t: int|
                    0 <= t < size ==> (#[trigger] groups@[t]).fresh@ == self@.members(
                        t,
                        true,
                        i as nat,
                    ) && groups@[t].old@ == self@.members(t, false, i as nat),
                forall|t: int|
                    0 <= t < size ==> within_arena((#[trigger] groups@[t]).fresh@, i as nat)
                        && within_arena(groups@[t].old@, i as nat),
            decreases n - i,
        {
            let ghost before = groups@;
            let species: usize = self.arena[i].species;
            proof {
                assert(scene.fits(self@.arena[i as int], i as int));
                assert(self.live@.len() == n);
            }
            if self.live[i] {
                if is_fresh[i] {
                    groups[species].fresh.push(i);
                } else {
                    groups[species].old.push(i);
                }
            }
            proof {
                assert forall|t: int| 0 <= t < size implies (#[trigger] groups@[t]).fresh@
                    == self@.members(t, true, (i + 1) as nat) && groups@[t].old@ == self@.members(
                    t,
                    false,
                    (i + 1) as nat,
                ) by {
                    assert(before[t].fresh@ == self@.members(t, true, i as nat));
                    assert(before[t].old@ == self@.members(t, false, i as nat));
                }
                assert forall|t: int| 0 <= t < size implies within_arena(
                    (#[trigger] groups@[t]).fresh@,
                    (i + 1) as nat,
                ) && within_arena(groups@[t].old@, (i + 1) as nat) by {
                    assert(within_arena(before[t].fresh@, i as nat));
                    assert(within_arena(before[t].old@, i as nat));
                }
            }
            i = i + 1;
        }
        groups
    }

    /// One expansion round: every ordered pair of species in order.
    fn expand_frontier(&self, context: &ExpandContext, worst: Option<u128>) -> (r: Vec<Record>)
        requires
            context@.wf(),
            self@.wf(context@),
        ensures
            r@ == self@.children(context@, worst, context@.size()),
            fitting(context@, r@, self@.arena.len()),
    {
        let size: usize = context.world.child.len();
        let groups = self.species_groups(size, Ghost(context@));
        let mut out: Vec<Record> = Vec::new();
        let mut m: usize = 0;
        while m < size
            invariant
                context@.wf(),
                self@.wf(context@),
                size == context@.size(),
                groups@.len() == size,
                forall|s: int| 0 <= s < size ==> (#[trigger] groups@[s])@ == self@.group(s),
                forall|s: int|
                    0 <= s < size ==> within_arena(
                        (#[trigger] groups@[s]).fresh@,
                        self@.arena.len(),
                    ) && within_arena(groups@[s].old@, self@.arena.len()),
                m <= size,
                out@ == self@.children(context@, worst, m as nat),
                fitting(context@, out@, self@.arena.len()),
            decreases size - m,
        {
            let ghost before = out@;
            let mut f: usize = 0;
            proof {
                assert(before + Seq::<Record>::empty() =~= before);
            }
            while f < size
                invariant
                    context@.wf(),
                    self@.wf(context@),
                    size == context@.size(),
                    groups@.len() == size,
                    forall|s: int| 0 <= s < size ==> (#[trigger] groups@[s])@ == self@.group(s),
                    forall|s: int|
                        0 <= s < size ==> within_arena(
                            (#[trigger] groups@[s]).fresh@,
                            self@.arena.len(),
                        ) && within_arena(groups@[s].old@, self@.arena.len()),
                    m < size,
                    f <= size,
                    out@ == before + self@.row_children(context@, worst, m as int, f as nat),
                    fitting(context@, out@, self@.arena.len()),
                decreases size - f,
            {
                proof {
                    assert(groups@[m as int]@ == self@.group(m as int));
                    assert(groups@[f as int]@ == self@.group(f as int));
                }
                let mut children = expand_group_pair(
                    context,
                    &self.arena,
                    worst,
                    m,
                    f,
                    &groups[m],
                    &groups[f],
                );
                let ghost row = self@.row_children(context@, worst, m as int, f as nat);
                let ghost more = children@;
                let ghost sofar = out@;
                out.append(&mut children);
                proof {
                    assert(out@ =~= before + (row + more));
                    assert forall|i: int| 0 <= i < out@.len() implies context@.fits(
                        #[trigger] out@[i],
                        self@.arena.len() as int,
                    ) by {
                        if i < sofar.len() {
                            assert(out@[i] == sofar[i]);
                        } else {
                            assert(out@[i] == more[i - sofar.len()]);
                        }
                    }
                }
                f = f + 1;
            }
            m = m + 1;
        }
        out
    }

    /// The cost of the worst goal plan, once there are as many as are
    /// asked for.
    fn incumbent_worst(&self, context: &ExpandContext) -> (r: Option<u128>)
        requires
            context@.wf(),
            self@.wf(context@),
        ensures
            r == self@.incumbent(context@),
    {
        let masks: u32 = key_of_masks(context.full, context.all_required, context.iv_full);
        let key: u64 = (context.goal as u64) * 0x100_0000 + masks as u64;
        match self.buckets.get(&key) {
            Some(ids) => {
                proof {
                    assert(self@.buckets.dom().contains(key));
                    assert(self@.buckets[key] == ids@);
                }
                if ids.len() >= context.beam {
                    let w: usize = worst_record(&self.arena, ids);
                    Some(self.arena[ids[w]].cost)
                } else {
                    None
                }
            },
            None => None,
        }
    }

    /// Keeps only the last frontier entry of every state.
    fn keep_last_per_state(&mut self, Ghost(scene): Ghost<Scene>)
        requires
            scene.wf(),
            old(self)@.wf(scene),
        ensures
            final(self)@ == (Search {
                frontier: last_per_state(old(self)@.arena, old(self)@.frontier),
                ..old(self)@
            }),
            final(self)@.wf(scene),
    {
        let ghost start = self@;
        let n: usize = self.frontier.len();
        let mut keys: Vec<u64> = Vec::new();
        let mut i: usize = 0;
        while i < n
            invariant
                scene.wf(),
                self@ == start,
                start.wf(scene),
                n == self.frontier@.len(),
                i <= n,
                keys@.len() == i,
                forall|j: int|
                    0 <= j < i ==> #[trigger] keys@[j] == state_key(
                        self.arena@[self.frontier@[j] as int],
                    ),
            decreases n - i,
        {
            proof {
                assert(start.frontier[i as int] < start.arena.len());
                assert(scene.fits(
                    start.arena[start.frontier[i as int] as int],
                    start.frontier[i as int] as int,
                ));
            }
            keys.push(key_of(&self.arena[self.frontier[i]]));
            i = i + 1;
        }
        // from the back, so that later entries are known
        let mut kept: Vec<usize> = Vec::new();
        let mut at: usize = n;
        proof {
            assert(start.frontier.skip(n as int) =~= Seq::empty());
            assert(kept@.reverse() =~= last_per_state(
                start.arena,
                start.frontier.skip(n as int),
            ));
        }
        while at > 0
            invariant
                self@ == start,
                start.wf(scene),
                n == self.frontier@.len(),
                at <= n,
                keys@.len() == n,
                forall|j: int|
                    0 <= j < n ==> #[trigger] keys@[j] == state_key(
                        start.arena[start.frontier[j] as int],
                    ),
                kept@.reverse() == last_per_state(start.arena, start.frontier.skip(at as int)),
                within_arena(kept@, start.arena.len()),
            decreases at,
        {
            at = at - 1;
            let key: u64 = keys[at];
            let mut later = false;
            let mut j: usize = at + 1;
            while j < n && !later
                invariant
                    at < n,
                    at + 1 <= j <= n,
                    keys@.len() == n,
                    key == keys@[at as int],
                    later <==> exists|q: int| at < q < j && #[trigger] keys@[q] == key,
                decreases n - j,
            {
                if keys[j] == key {
                    later = true;
                    proof {
                        assert(keys@[j as int] == key);
                    }
                }
                j = j + 1;
            }
            let ghost tail = start.frontier.skip(at as int);
            proof {
                assert(tail.drop_first() =~= start.frontier.skip(at + 1));
                assert(later == superseded(start.arena, tail)) by {
                    if later {
                        let q = choose|q: int| at < q < j && #[trigger] keys@[q] == key;
                        assert(tail[q - at] == start.frontier[q]);
                    }
                    if superseded(start.arena, tail) {
                        let q = choose|q: int|
                            1 <= q < tail.len() && state_key(
                                start.arena[#[trigger] tail[q] as int],
                            ) == state_key(start.arena[tail[0] as int]);
                        assert(keys@[at + q] == key);
                    }
                }
            }
            if !later {
                let ghost before = kept@;
                kept.push(self.frontier[at]);
                proof {
                    assert(start.frontier[at as int] < start.arena.len());
                    assert(kept@.reverse() =~= seq![tail[0]] + before.reverse());
                }
            }
        }
        let mut ordered: Vec<usize> = Vec::new();
        let mut i: usize = kept.len();
        let ghost target = kept@.reverse();
        while i > 0
            invariant
                i <= kept@.len(),
                target == kept@.reverse(),
                ordered@ == target.take(kept@.len() - i),
            decreases i,
        {
            i = i - 1;
            ordered.push(kept[i]);
            proof {
                let k = kept@.len() - i;
                assert(target.take(k) =~= target.take(k - 1).push(kept@[i as int]));
            }
        }
        proof {
            assert(target.take(kept@.len() as int) =~= target);
            assert(start.frontier.skip(0) =~= start.frontier);
        }
        self.frontier = ordered;
        proof {
            assert forall|k: int| 0 <= k < self.frontier@.len() implies #[trigger] self.frontier@[k]
                < start.arena.len() by {
                assert(self.frontier@[k] == kept@[kept@.len() - 1 - k]);
            }
        }
    }

    /// One round.
    fn advance(&mut self, context: &ExpandContext)
        requires
            context@.wf(),
            old(self)@.wf(context@),
        ensures
            final(self)@ == old(self)@.round(context@),
            final(self)@.wf(context@),
            final(self)@.arena.len() >= old(self)@.arena.len(),
    {
        proof {
            reveal(Search::round);
        }
        let ghost start = self@;
        let worst: Option<u128> = self.incumbent_worst(context);
        let children = self.expand_frontier(context, worst);
        let ghost cleared = Search { frontier: Seq::empty(), ..start };
        self.frontier = Vec::new();
        proof {
            assert(self@.frontier =~= cleared.frontier);
            assert(children@.take(0) =~= Seq::empty());
        }
        let mut i: usize = 0;
        while i < children.len()
            invariant
                context@.wf(),
                self@.wf(context@),
                i <= children@.len(),
                fitting(context@, children@, start.arena.len()),
                self@.arena.len() >= start.arena.len(),
                self@ == cleared.inserted_all(children@.take(i as int), context.beam),
            decreases children@.len() - i,
        {
            proof {
                assert(children@.take(i + 1).drop_last() =~= children@.take(i as int));
                assert(children@.take(i + 1).last() == children@[i as int]);
                assert(context@.fits(children@[i as int], start.arena.len() as int));
            }
            self.insert_pruned(children[i], context.beam, Ghost(context@));
            i = i + 1;
        }
        proof {
            assert(children@.take(i as int) =~= children@);
        }
        self.keep_last_per_state(Ghost(context@));
    }

    /// Rounds until the budget is spent or nothing is left to expand.
    pub fn run(&mut self, context: &ExpandContext)
        requires
            context@.wf(),
            old(self)@.wf(context@),
        ensures
            final(self)@ == old(self)@.rounds(context@, context.max_steps as nat),
            final(self)@.wf(context@),
            final(self)@.arena.len() >= old(self)@.arena.len(),
    {
        let ghost start = self@;
        let mut left: usize = context.max_steps;
        while left > 0
            invariant
                context@.wf(),
                self@.wf(context@),
                start == old(self)@,
                self@.arena.len() >= start.arena.len(),
                left <= context.max_steps,
                self@.rounds(context@, left as nat) == start.rounds(
                    context@,
                    context.max_steps as nat,
                ),
            decreases left,
        {
            self.advance(context);
            left = left - 1;
            if self.frontier.len() == 0 {
                return ;
            }
        }
    }
}

} // verus!
