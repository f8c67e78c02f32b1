//! What a search does not miss: a goal already at hand, and every way to
//! breed the goal in one step.

use vstd::prelude::*;

use crate::chance::cost_sum;
use crate::chance::EGG;
use crate::model::Gender;
use crate::model::CERTAIN;
use crate::search::beam::admitted;
use crate::search::beam::candidate_costs;
use crate::search::beam::candidate_key;
use crate::search::beam::emitted;
use crate::search::beam::hopeless;
use crate::search::beam::lemma_worst_position;
use crate::search::beam::not_before;
use crate::search::beam::offered;
use crate::search::beam::try_block;
use crate::search::beam::try_groups;
use crate::search::beam::try_pair;
use crate::search::beam::try_row;
use crate::search::beam::worst_position;
use crate::search::beam::Pass;
use crate::search::beam::SlotView;
use crate::search::breed::bred;
use crate::search::laws::Question;
use crate::search::record::mask_key;
use crate::search::record::record_of;
use crate::search::record::state_key;
use crate::search::record::Availability;
use crate::search::record::Candidate;
use crate::search::record::Record;
use crate::search::record::Scene;
use crate::search::rounds::bucket_of;
use crate::search::rounds::costs_of;
use crate::search::rounds::goal_key;
use crate::search::rounds::Search;
use crate::search::solver::goal_ids;
use crate::search::solver::goal_leaves;
use crate::search::solver::meets_goal;
use crate::search::solver::ranked_ids;
use crate::search::solver::ranks_before;
use crate::search::solver::start;
use crate::seqs::first_where;
use crate::seqs::lemma_first_where;
use crate::seqs::sorted_by;

verus! {

// ---------------------------------------------------------------------
// A beam never loses its best
// ---------------------------------------------------------------------
/// Some candidate of the state costs at most `x`.
pub open spec fn within_cost(slots: Seq<SlotView>, key: u32, x: u128) -> bool {
    exists|s: int, k: int|
        0 <= s < slots.len() && slots[s].key == key && 0 <= k < slots[s].kept.len() && (
        #[trigger] slots[s].kept[k]).cost <= x
}

/// Some candidate of a list costs at most `x`.
spec fn some_within(kept: Seq<Candidate>, x: u128) -> bool {
    exists|k: int| 0 <= k < kept.len() && (#[trigger] kept[k]).cost <= x
}

proof fn lemma_admitted_best(kept: Seq<Candidate>, c: Candidate, width: usize, x: u128)
    requires
        width > 0,
        some_within(kept, x) || c.cost <= x,
    ensures
        some_within(admitted(kept, c, width), x),
{
    let after = admitted(kept, c, width);
    if kept.len() > 0 {
        lemma_worst_position(candidate_costs(kept));
    }
    let w = worst_position(candidate_costs(kept));
    if kept.len() < width {
        if some_within(kept, x) {
            let k = choose|k: int| 0 <= k < kept.len() && (#[trigger] kept[k]).cost <= x;
            assert(after[k].cost <= x);
        } else {
            assert(after[kept.len() as int].cost <= x);
        }
    } else if c.cost < kept[w].cost {
        if some_within(kept, x) {
            let k = choose|k: int| 0 <= k < kept.len() && (#[trigger] kept[k]).cost <= x;
            if k == w {
                assert(after[w].cost <= x);
            } else {
                assert(after[k].cost <= x);
            }
        } else {
            assert(after[w].cost <= x);
        }
    } else {
        if !some_within(kept, x) {
            assert(kept[w].cost <= x);
        }
    }
}

proof fn lemma_offered_best(slots: Seq<SlotView>, c: Candidate, width: usize, key: u32, x: u128)
    requires
        width > 0,
        within_cost(slots, key, x) || (candidate_key(c) == key && c.cost <= x),
    ensures
        within_cost(offered(slots, c, width), key, x),
{
    let here = candidate_key(c);
    let after = offered(slots, c, width);
    lemma_first_where(slots, not_before(here));
    let found = first_where(slots, not_before(here));
    if within_cost(slots, key, x) {
        let (s, k) = choose|s: int, k: int|
            0 <= s < slots.len() && slots[s].key == key && 0 <= k < slots[s].kept.len() && (
            #[trigger] slots[s].kept[k]).cost <= x;
        match found {
            Some(i) => {
                if slots[i].key == here {
                    if s == i {
                        assert(some_within(slots[s].kept, x)) by {
                            assert(slots[s].kept[k].cost <= x);
                        }
                        lemma_admitted_best(slots[s].kept, c, width, x);
                        let q = choose|q: int|
                            0 <= q < after[s].kept.len() && (#[trigger] after[s].kept[q]).cost <= x;
                        assert(after[s].kept[q].cost <= x);
                    } else {
                        assert(after[s] == slots[s]);
                        assert(after[s].kept[k].cost <= x);
                    }
                } else if s < i {
                    assert(after[s] == slots[s]);
                    assert(after[s].kept[k].cost <= x);
                } else {
                    assert(after[s + 1] == slots[s]);
                    assert(after[s + 1].kept[k].cost <= x);
                }
            },
            None => {
                assert(after[s] == slots[s]);
                assert(after[s].kept[k].cost <= x);
            },
        }
    } else {
        match found {
            Some(i) => {
                let kept = if slots[i].key == here {
                    slots[i].kept
                } else {
                    Seq::empty()
                };
                lemma_admitted_best(kept, c, width, x);
                let q = choose|q: int|
                    0 <= q < after[i].kept.len() && (#[trigger] after[i].kept[q]).cost <= x;
                assert(after[i].kept[q].cost <= x);
            },
            None => {
                let i = slots.len() as int;
                lemma_admitted_best(Seq::empty(), c, width, x);
                let q = choose|q: int|
                    0 <= q < after[i].kept.len() && (#[trigger] after[i].kept[q]).cost <= x;
                assert(after[i].kept[q].cost <= x);
            },
        }
    }
}

proof fn lemma_pair_best(
    pass: Pass,
    slots: Seq<SlotView>,
    male: usize,
    female: usize,
    key: u32,
    x: u128,
)
    requires
        pass.scene.beam > 0,
        within_cost(slots, key, x) || wins(pass, male, female, key, x),
    ensures
        within_cost(try_pair(pass, slots, male, female), key, x),
{
    match bred(pass.scene, pass.arena, pass.distance, male, female) {
        Some(c) => {
            if !hopeless(pass.scene, pass.worst, pass.goal_child, pass.distance, c) {
                lemma_offered_best(slots, c, pass.scene.beam, key, x);
            }
        },
        None => {},
    }
}

/// The pair breeds a candidate of the state that costs at most `x` and
/// is not cut.
pub open spec fn wins(pass: Pass, male: usize, female: usize, key: u32, x: u128) -> bool {
    match bred(pass.scene, pass.arena, pass.distance, male, female) {
        Some(c) => {
            &&& candidate_key(c) == key
            &&& c.cost <= x
            &&& !hopeless(pass.scene, pass.worst, pass.goal_child, pass.distance, c)
        },
        None => false,
    }
}

proof fn lemma_row_best(
    pass: Pass,
    slots: Seq<SlotView>,
    male: usize,
    females: Seq<usize>,
    key: u32,
    x: u128,
)
    requires
        pass.scene.beam > 0,
        within_cost(slots, key, x) || exists|j: int|
            0 <= j < females.len() && wins(pass, male, #[trigger] females[j], key, x),
    ensures
        within_cost(try_row(pass, slots, male, females), key, x),
    decreases females.len(),
{
    if females.len() > 0 {
        let rest = females.drop_last();
        let before = try_row(pass, slots, male, rest);
        if within_cost(slots, key, x) {
            lemma_row_best(pass, slots, male, rest, key, x);
        } else {
            let j = choose|j: int|
                0 <= j < females.len() && wins(pass, male, #[trigger] females[j], key, x);
            if j < rest.len() {
                assert(wins(pass, male, rest[j], key, x));
                lemma_row_best(pass, slots, male, rest, key, x);
            }
        }
        lemma_pair_best(pass, before, male, females.last(), key, x);
    }
}

pub proof fn lemma_block_best(
    pass: Pass,
    slots: Seq<SlotView>,
    males: Seq<usize>,
    females: Seq<usize>,
    key: u32,
    x: u128,
)
    requires
        pass.scene.beam > 0,
        within_cost(slots, key, x) || exists|i: int, j: int|
            0 <= i < males.len() && 0 <= j < females.len() && wins(
                pass,
                #[trigger] males[i],
                #[trigger] females[j],
                key,
                x,
            ),
    ensures
        within_cost(try_block(pass, slots, males, females), key, x),
    decreases males.len(),
{
    if males.len() > 0 {
        let rest = males.drop_last();
        let before = try_block(pass, slots, rest, females);
        if within_cost(slots, key, x) {
            lemma_block_best(pass, slots, rest, females, key, x);
        } else {
            let (i, j) = choose|i: int, j: int|
                0 <= i < males.len() && 0 <= j < females.len() && wins(
                    pass,
                    #[trigger] males[i],
                    #[trigger] females[j],
                    key,
                    x,
                );
            if i < rest.len() {
                assert(wins(pass, rest[i], females[j], key, x));
                lemma_block_best(pass, slots, rest, females, key, x);
            }
        }
        lemma_row_best(pass, before, males.last(), females, key, x);
    }
}

/// Some record has the species and state and costs at most `x`.
pub open spec fn some_record(records: Seq<Record>, species: usize, key: u32, x: u128) -> bool {
    exists|i: int|
        0 <= i < records.len() && (#[trigger] records[i]).species == species && mask_key(
            records[i].carried,
            records[i].required,
            records[i].iv_met,
        ) == key && records[i].cost <= x
}

pub proof fn lemma_emitted_best(scene: Scene, child: usize, slots: Seq<SlotView>, key: u32, x: u128)
    requires
        within_cost(slots, key, x),
        keyed(slots),
    ensures
        some_record(emitted(scene, child, slots), child, key, x),
    decreases slots.len(),
{
    let (s, k) = choose|s: int, k: int|
        0 <= s < slots.len() && slots[s].key == key && 0 <= k < slots[s].kept.len() && (
        #[trigger] slots[s].kept[k]).cost <= x;
    let rest = slots.drop_last();
    let head = emitted(scene, child, rest);
    let all = emitted(scene, child, slots);
    if s < rest.len() {
        assert(rest[s].kept[k].cost <= x);
        assert(within_cost(rest, key, x));
        assert(keyed(rest)) by {
            assert forall|a: int, b: int|
                0 <= a < rest.len() && 0 <= b < rest[a].kept.len() implies candidate_key(
                #[trigger] rest[a].kept[b],
            ) == rest[a].key by {
                assert(candidate_key(slots[a].kept[b]) == slots[a].key);
            }
        }
        lemma_emitted_best(scene, child, rest, key, x);
        let i = choose|i: int|
            0 <= i < head.len() && (#[trigger] head[i]).species == child && mask_key(
                head[i].carried,
                head[i].required,
                head[i].iv_met,
            ) == key && head[i].cost <= x;
        assert(all[i] == head[i]);
    } else {
        let c = slots[s].kept[k];
        assert(candidate_key(c) == key);
        assert(all[head.len() + k] == record_of(scene, child, c));
    }
}

/// Every candidate stands under its own state.
pub open spec fn keyed(slots: Seq<SlotView>) -> bool {
    forall|s: int, k: int|
        0 <= s < slots.len() && 0 <= k < slots[s].kept.len() ==> candidate_key(
            #[trigger] slots[s].kept[k],
        ) == slots[s].key
}

proof fn lemma_offered_keyed(slots: Seq<SlotView>, c: Candidate, width: usize)
    requires
        keyed(slots),
    ensures
        keyed(offered(slots, c, width)),
{
    let key = candidate_key(c);
    lemma_first_where(slots, not_before(key));
    let after = offered(slots, c, width);
    assert forall|s: int, k: int|
        0 <= s < after.len() && 0 <= k < after[s].kept.len() implies candidate_key(
        #[trigger] after[s].kept[k],
    ) == after[s].key by {
        match first_where(slots, not_before(key)) {
            Some(i) => {
                if slots[i].key == key {
                    if s == i {
                        let kept = slots[i].kept;
                        if kept.len() > 0 {
                            lemma_worst_position(candidate_costs(kept));
                        }
                        if k < kept.len() {
                            assert(candidate_key(slots[i].kept[k]) == key);
                        }
                    } else {
                        assert(after[s] == slots[s]);
                    }
                } else if s < i {
                    assert(after[s] == slots[s]);
                } else if s > i {
                    assert(after[s] == slots[s - 1]);
                }
            },
            None => {
                if s < slots.len() {
                    assert(after[s] == slots[s]);
                }
            },
        }
    }
}

proof fn lemma_row_keyed(pass: Pass, slots: Seq<SlotView>, male: usize, females: Seq<usize>)
    requires
        keyed(slots),
    ensures
        keyed(try_row(pass, slots, male, females)),
    decreases females.len(),
{
    if females.len() > 0 {
        lemma_row_keyed(pass, slots, male, females.drop_last());
        let before = try_row(pass, slots, male, females.drop_last());
        match bred(pass.scene, pass.arena, pass.distance, male, females.last()) {
            Some(c) => {
                lemma_offered_keyed(before, c, pass.scene.beam);
            },
            None => {},
        }
    }
}

pub proof fn lemma_block_keyed(
    pass: Pass,
    slots: Seq<SlotView>,
    males: Seq<usize>,
    females: Seq<usize>,
)
    requires
        keyed(slots),
    ensures
        keyed(try_block(pass, slots, males, females)),
    decreases males.len(),
{
    if males.len() > 0 {
        lemma_block_keyed(pass, slots, males.drop_last(), females);
        lemma_row_keyed(
            pass,
            try_block(pass, slots, males.drop_last(), females),
            males.last(),
            females,
        );
    }
}

// ---------------------------------------------------------------------
// A state never loses its best
// ---------------------------------------------------------------------
/// Some kept record of the state costs at most `x`.
pub open spec fn held(s: Search, key: u64, x: u128) -> bool {
    exists|i: int|
        0 <= i < bucket_of(s.buckets, key).len() && s.arena[(#[trigger] bucket_of(
            s.buckets,
            key,
        )[i]) as int].cost <= x
}

/// Ids in buckets are positions of the arena.
pub open spec fn placed(s: Search) -> bool {
    forall|key: u64, i: int|
        #![trigger bucket_of(s.buckets, key)[i]]
        0 <= i < bucket_of(s.buckets, key).len() ==> bucket_of(s.buckets, key)[i] < s.arena.len()
}

pub proof fn lemma_inserted_best(s: Search, r: Record, beam: usize, key: u64, x: u128)
    requires
        beam > 0,
        placed(s),
        s.inserted(r, beam).arena.len() <= usize::MAX,
        held(s, key, x) || (state_key(r) == key && r.cost <= x),
    ensures
        held(s.inserted(r, beam), key, x),
        placed(s.inserted(r, beam)),
{
    let next = s.inserted(r, beam);
    let own = state_key(r);
    let bucket = bucket_of(s.buckets, own);
    let costs = costs_of(s.arena, bucket);
    if bucket.len() > 0 {
        lemma_worst_position(costs);
    }
    let w = worst_position(costs);
    let now = bucket_of(next.buckets, own);
    assert forall|k: u64, i: int|
        #![trigger bucket_of(next.buckets, k)[i]]
        0 <= i < bucket_of(next.buckets, k).len() implies bucket_of(next.buckets, k)[i]
        < next.arena.len() by {
        if k != own {
            assert(bucket_of(next.buckets, k) == bucket_of(s.buckets, k));
            assert(bucket_of(s.buckets, k)[i] < s.arena.len());
        } else if i < bucket.len() {
            assert(bucket_of(s.buckets, k)[i] < s.arena.len());
        }
    }
    if held(s, key, x) {
        let old = bucket_of(s.buckets, key);
        let i = choose|i: int| 0 <= i < old.len() && s.arena[(#[trigger] old[i]) as int].cost <= x;
        assert(old[i] < s.arena.len());
        let same = bucket_of(next.buckets, key);
        if key != own {
            assert(same == old);
            assert(next.arena[same[i] as int] == s.arena[old[i] as int]);
        } else if bucket.len() < beam || next == s || i != w {
            assert(same[i] == old[i]);
            assert(next.arena[same[i] as int] == s.arena[old[i] as int]);
        } else {
            assert(costs[w] == s.arena[bucket[w] as int].cost);
            assert(same[i] == s.arena.len());
            assert(next.arena[same[i] as int] == r);
        }
    } else {
        if bucket.len() < beam {
            assert(now[bucket.len() as int] == s.arena.len());
            assert(next.arena[now[bucket.len() as int] as int] == r);
        } else if next != s {
            assert(now[w] == s.arena.len());
            assert(next.arena[now[w] as int] == r);
        } else {
            assert(now[w] == bucket[w]);
            assert(s.arena[bucket[w] as int].cost <= x);
        }
    }
}

pub proof fn lemma_inserted_all_best(
    s: Search,
    records: Seq<Record>,
    beam: usize,
    species: usize,
    masks: u32,
    key: u64,
    x: u128,
)
    requires
        beam > 0,
        placed(s),
        s.inserted_all(records, beam).arena.len() <= usize::MAX,
        key == (species * 0x100_0000 + masks) as u64,
        held(s, key, x) || some_record(records, species, masks, x),
    ensures
        held(s.inserted_all(records, beam), key, x),
        placed(s.inserted_all(records, beam)),
    decreases records.len(),
{
    if records.len() > 0 {
        let rest = records.drop_last();
        let mid = s.inserted_all(rest, beam);
        let r = records.last();
        crate::search::laws::lemma_inserted_arena(mid, r, beam);
        if held(s, key, x) {
            lemma_inserted_all_best(s, rest, beam, species, masks, key, x);
        } else {
            let i = choose|i: int|
                0 <= i < records.len() && (#[trigger] records[i]).species == species && mask_key(
                    records[i].carried,
                    records[i].required,
                    records[i].iv_met,
                ) == masks && records[i].cost <= x;
            if i < rest.len() {
                assert(rest[i] == records[i]);
                lemma_inserted_all_best(s, rest, beam, species, masks, key, x);
            } else {
                lemma_inserted_all_placed(s, rest, beam);
            }
        }
        lemma_inserted_best(mid, r, beam, key, x);
    }
}

proof fn lemma_inserted_all_placed(s: Search, records: Seq<Record>, beam: usize)
    requires
        beam > 0,
        placed(s),
        s.inserted_all(records, beam).arena.len() <= usize::MAX,
    ensures
        placed(s.inserted_all(records, beam)),
    decreases records.len(),
{
    if records.len() > 0 {
        let rest = records.drop_last();
        let mid = s.inserted_all(rest, beam);
        let r = records.last();
        crate::search::laws::lemma_inserted_arena(mid, r, beam);
        lemma_inserted_all_placed(s, rest, beam);
        lemma_inserted_best(mid, r, beam, state_key(r), r.cost);
    }
}

proof fn lemma_round_best(s: Search, scene: Scene, key: u64, x: u128)
    requires
        scene.wf(),
        placed(s),
        s.round(scene).arena.len() <= usize::MAX,
        held(s, key, x),
        key < 0x100_0000_0000_0000,
    ensures
        held(s.round(scene), key, x),
        placed(s.round(scene)),
{
    reveal(Search::round);
    let children = s.children(scene, s.incumbent(scene), scene.size());
    let cleared = Search { frontier: Seq::empty(), ..s };
    assert(bucket_of(cleared.buckets, key) == bucket_of(s.buckets, key));
    assert(held(cleared, key, x));
    assert(placed(cleared));
    let species = (key / 0x100_0000) as usize;
    let masks = (key % 0x100_0000) as u32;
    lemma_inserted_all_best(cleared, children, scene.beam, species, masks, key, x);
}

pub proof fn lemma_rounds_best(s: Search, scene: Scene, n: nat, key: u64, x: u128)
    requires
        scene.wf(),
        placed(s),
        s.rounds(scene, n).arena.len() <= usize::MAX,
        held(s, key, x),
        key < 0x100_0000_0000_0000,
    ensures
        held(s.rounds(scene, n), key, x),
    decreases n,
{
    if n > 0 {
        let next = s.round(scene);
        if next.frontier.len() > 0 {
            crate::search::laws::lemma_rounds_arena(next, scene, (n - 1) as nat);
        }
        lemma_round_best(s, scene, key, x);
        if next.frontier.len() > 0 {
            lemma_rounds_best(next, scene, (n - 1) as nat, key, x);
        }
    }
}

// ---------------------------------------------------------------------
// The first round tries every pair of leaves
// ---------------------------------------------------------------------
proof fn lemma_first_members(arena: Seq<Record>, species: int, n: nat, id: int)
    requires
        n <= arena.len() <= usize::MAX,
        0 <= id < n,
        arena[id].species == species,
    ensures
        start(arena).members(species, true, n).contains(id as usize),
    decreases n,
{
    let s = start(arena);
    let rest = s.members(species, true, (n - 1) as nat);
    let all = s.members(species, true, n);
    if id == n - 1 {
        assert(s.frontier[id] == id as usize);
        assert(s.frontier.contains(id as usize));
        assert(all[rest.len() as int] == id as usize);
    } else {
        lemma_first_members(arena, species, (n - 1) as nat, id);
        let k = choose|k: int| 0 <= k < rest.len() && rest[k] == id as usize;
        assert(all[k] == id as usize);
    }
}

proof fn lemma_row_holds(
    s: Search,
    scene: Scene,
    worst: Option<u128>,
    male: int,
    female: int,
    n: nat,
    child: usize,
    key: u32,
    x: u128,
)
    requires
        0 <= female < n,
        some_record(s.pair_children(scene, worst, male, female), child, key, x),
    ensures
        some_record(s.row_children(scene, worst, male, n), child, key, x),
    decreases n,
{
    let head = s.row_children(scene, worst, male, (n - 1) as nat);
    let tail = s.pair_children(scene, worst, male, n - 1);
    let all = s.row_children(scene, worst, male, n);
    if female == n - 1 {
        lemma_part_holds(head, tail, child, key, x);
    } else {
        lemma_row_holds(s, scene, worst, male, female, (n - 1) as nat, child, key, x);
        lemma_part_holds(head, tail, child, key, x);
    }
}

proof fn lemma_part_holds(head: Seq<Record>, tail: Seq<Record>, child: usize, key: u32, x: u128)
    requires
        some_record(head, child, key, x) || some_record(tail, child, key, x),
    ensures
        some_record(head + tail, child, key, x),
{
    let all = head + tail;
    if some_record(head, child, key, x) {
        let i = choose|i: int|
            0 <= i < head.len() && (#[trigger] head[i]).species == child && mask_key(
                head[i].carried,
                head[i].required,
                head[i].iv_met,
            ) == key && head[i].cost <= x;
        assert(all[i] == head[i]);
    } else {
        let i = choose|i: int|
            0 <= i < tail.len() && (#[trigger] tail[i]).species == child && mask_key(
                tail[i].carried,
                tail[i].required,
                tail[i].iv_met,
            ) == key && tail[i].cost <= x;
        assert(all[head.len() + i] == tail[i]);
    }
}

pub proof fn lemma_children_hold(
    s: Search,
    scene: Scene,
    worst: Option<u128>,
    male: int,
    female: int,
    n: nat,
    child: usize,
    key: u32,
    x: u128,
)
    requires
        0 <= male < n,
        0 <= female < scene.size(),
        some_record(s.pair_children(scene, worst, male, female), child, key, x),
    ensures
        some_record(s.children(scene, worst, n), child, key, x),
    decreases n,
{
    let head = s.children(scene, worst, (n - 1) as nat);
    let tail = s.row_children(scene, worst, n - 1, scene.size());
    if male == n - 1 {
        lemma_row_holds(s, scene, worst, male, female, scene.size(), child, key, x);
    } else {
        lemma_children_hold(s, scene, worst, male, female, (n - 1) as nat, child, key, x);
    }
    lemma_part_holds(head, tail, child, key, x);
}

// ---------------------------------------------------------------------
// The laws
// ---------------------------------------------------------------------
impl Question {
    /// The best answer ranks no worse than any record that meets the
    /// goal.
    pub proof fn lemma_best(self, id: usize)
        requires
            self.sound(),
            goal_ids(self.scene(), self.seeds().len(), self.outcome()).contains(id),
        ensures
            self.answers().len() > 0,
            self.answers()[0].expected_eggs <= self.outcome().arena[id as int].cost,
            self.answers()[0].expected_eggs == self.outcome().arena[id as int].cost
                ==> self.answers()[0].steps <= self.outcome().arena[id as int].bred_count,
    {
        let scene = self.scene();
        let search = self.outcome();
        let ids = goal_ids(scene, self.seeds().len(), search);
        let lt = ranks_before(search.arena);
        let sorted = sorted_by(ids, lt);
        crate::search::laws::lemma_rank_order(search.arena);
        crate::seqs::lemma_sorted_by(ids, lt);
        broadcast use vstd::seq_lib::group_to_multiset_ensures;

        assert(ids.to_multiset().count(id) > 0);
        assert(sorted.contains(id));
        let j = choose|j: int| 0 <= j < sorted.len() && sorted[j] == id;
        let ranked = ranked_ids(scene, self.seeds().len(), search);
        assert(ranked[0] == sorted[0]);
        if j > 0 {
            assert(!lt(sorted[j], sorted[0]));
        }
    }

    /// A pal at hand that is what the goal asks for is a plan without
    /// eggs and steps, and comes first.
    pub proof fn law_goal_at_hand_costs_nothing(self, i: int)
        requires
            self.sound(),
            self.seeds().len() <= usize::MAX,
            0 <= i < self.seeds().len(),
            meets_goal(self.scene(), self.seeds()[i]),
        ensures
            self.answers().len() > 0,
            self.answers()[0].expected_eggs == 0,
            self.answers()[0].steps == 0,
    {
        let scene = self.scene();
        let search = self.outcome();
        let seeds = self.seeds();
        let begin = start(seeds);
        crate::search::laws::lemma_rounds_arena(
            begin,
            scene,
            self.config.max_breeding_steps as nat,
        );
        assert(search.arena[i] == seeds[i]) by {
            assert(search.arena.take(seeds.len() as int)[i] == search.arena[i]);
        }
        lemma_goal_leaf(scene, search.arena, seeds.len(), i);
        let own = goal_leaves(scene, search.arena, seeds.len());
        let ids = goal_ids(scene, seeds.len(), search);
        let k = choose|k: int| 0 <= k < own.len() && own[k] == i as usize;
        assert(ids[k] == i as usize);
        self.lemma_best(i as usize);
        self.lemma_seed_free(i);
    }

    pub proof fn lemma_seed_free(self, i: int)
        requires
            0 <= i < self.seeds().len(),
        ensures
            self.seeds()[i].cost == 0,
            self.seeds()[i].bred_count == 0,
    {
        let world = self.world();
        let n = self.owned.len() + self.goal.progenitors.len();
        if i >= n {
            lemma_wild_free(
                world,
                self.scene().distance,
                self.config.max_breeding_steps,
                world.names.len(),
                i - n,
            );
        }
    }

    /// The best plan costs no more than any way to breed the goal in one
    /// step from two leaves.
    pub proof fn law_no_single_step_is_missed(self, male: int, female: int, c: Candidate)
        requires
            self.sound(),
            self.outcome().arena.len() <= usize::MAX,
            self.config.max_breeding_steps >= 1,
            0 <= male < self.seeds().len(),
            0 <= female < self.seeds().len(),
            self.scene().child[self.seeds()[male].species as int][self.seeds()[female].species as int]
                == Some(self.scene().goal),
            bred(self.scene(), self.seeds(), 0, male as usize, female as usize) == Some(c),
            c.carried == self.scene().full,
            c.required == self.scene().all_required,
            c.iv_met == self.scene().iv_full,
        ensures
            self.answers().len() > 0,
            self.answers()[0].expected_eggs <= c.cost,
    {
        let scene = self.scene();
        let seeds = self.seeds();
        let begin = start(seeds);
        let next = begin.round(scene);
        let n = self.config.max_breeding_steps as nat;
        self.lemma_scene();
        crate::search::laws::lemma_rounds_arena(begin, scene, n);
        assert(self.outcome() == begin.rounds(scene, n));
        if next.frontier.len() > 0 {
            crate::search::laws::lemma_rounds_arena(next, scene, (n - 1) as nat);
        }
        let m = seeds[male];
        let f = seeds[female];
        assert(scene.fits(m, male));
        assert(scene.fits(f, female));
        let ms = m.species as int;
        let fs = f.species as int;
        let masks = mask_key(scene.full, scene.all_required, scene.iv_full);
        let key = goal_key(scene);
        self.lemma_goal_distance();
        assert(begin.incumbent(scene) is None);
        let pass = Pass {
            scene,
            arena: seeds,
            worst: None,
            goal_child: true,
            distance: 0,
        };
        let males = begin.group(ms);
        let females = begin.group(fs);
        lemma_first_members(seeds, ms, seeds.len(), male);
        lemma_first_members(seeds, fs, seeds.len(), female);
        let both = females.fresh + females.old;
        let i = choose|i: int| 0 <= i < males.fresh.len() && males.fresh[i] == male as usize;
        let j = choose|j: int| 0 <= j < females.fresh.len() && females.fresh[j] == female as usize;
        assert(both[j] == female as usize);
        assert(wins(pass, males.fresh[i], both[j], masks, c.cost));
        lemma_block_best(pass, Seq::empty(), males.fresh, both, masks, c.cost);
        let mid = try_block(pass, Seq::empty(), males.fresh, both);
        lemma_block_best(pass, mid, males.old, females.fresh, masks, c.cost);
        lemma_block_keyed(pass, Seq::empty(), males.fresh, both);
        lemma_block_keyed(pass, mid, males.old, females.fresh);
        let slots = try_groups(pass, males, females);
        lemma_emitted_best(scene, scene.goal, slots, masks, c.cost);
        assert(begin.pair_children(scene, None, ms, fs) == emitted(scene, scene.goal, slots));
        lemma_children_hold(
            begin,
            scene,
            None,
            ms,
            fs,
            scene.size(),
            scene.goal,
            masks,
            c.cost,
        );
        assert(held(next, key, c.cost) && placed(next)) by {
            reveal(Search::round);
            let children = begin.children(scene, None, scene.size());
            let cleared = Search { frontier: Seq::empty(), ..begin };
            lemma_inserted_all_best(
                cleared,
                children,
                scene.beam,
                scene.goal,
                masks,
                key,
                c.cost,
            );
        }
        if next.frontier.len() > 0 {
            lemma_rounds_best(next, scene, (n - 1) as nat, key, c.cost);
        }
        let search = self.outcome();
        assert(held(search, key, c.cost));
        let bucket = bucket_of(search.buckets, key);
        let b = choose|b: int|
            0 <= b < bucket.len() && search.arena[(#[trigger] bucket[b]) as int].cost <= c.cost;
        let own = goal_leaves(scene, search.arena, seeds.len());
        let ids = goal_ids(scene, seeds.len(), search);
        assert(ids[own.len() + b] == bucket[b]);
        self.lemma_best(bucket[b]);
    }

    /// The goal is no step away from itself.
    pub proof fn lemma_goal_distance(self)
        requires
            self.sound(),
        ensures
            self.scene().distance[self.scene().goal as int] == Some(0u32),
    {
        let world = self.world();
        crate::search::solver::lemma_checked(self.db, self.index, self.owned, self.goal);
        crate::search::world::lemma_sorted_names(self.db);
        crate::search::solver::lemma_known_id(world.names, self.goal.species);
        let edges = crate::steps::breeding_edges(self.db, self.index);
        crate::steps::law_no_steps_to_itself(edges, self.goal.species, self.goal.species);
    }
}

/// A record costs what its parents and its own eggs cost together.
pub open spec fn priced(r: Record) -> bool {
    match r.gender {
        Availability::Flexible { male, female } => r.cost == cost_sum(
            r.parents_cost,
            r.chance.eggs(CERTAIN),
        ) && male <= CERTAIN && female <= CERTAIN,
        _ => r.cost == 0,
    }
}

/// What is bred costs at least one egg more than either parent: nothing
/// built on a candidate is cheaper than the candidate, which is why a
/// candidate that costs as much as the worst answer may be dropped.
pub proof fn law_each_step_costs_an_egg(
    scene: Scene,
    arena: Seq<Record>,
    distance: u32,
    male: usize,
    female: usize,
    c: Candidate,
)
    requires
        bred(scene, arena, distance, male, female) == Some(c),
        c.chance.wf(),
        arena[male as int].chance.wf(),
        arena[female as int].chance.wf(),
        priced(arena[male as int]),
        priced(arena[female as int]),
    ensures
        c.cost >= cost_sum(arena[male as int].cost, EGG),
        c.cost >= cost_sum(arena[female as int].cost, EGG),
{
    crate::chance::law_a_wanted_egg_costs_at_least_one(c.chance, CERTAIN);
    lemma_gender_costs(arena[male as int], Gender::Male);
    lemma_gender_costs(arena[female as int], Gender::Female);
}

proof fn lemma_gender_costs(r: Record, gender: Gender)
    requires
        priced(r),
        r.chance.wf(),
        r.cost_in(gender) is Some,
    ensures
        r.cost_in(gender)->0 >= r.cost,
{
    match r.gender {
        Availability::Flexible { male, female } => {
            let part = crate::search::record::gender_part(male, female, gender);
            crate::chance::law_rarer_costs_more(r.chance, part, CERTAIN);
        },
        _ => {},
    }
}

pub proof fn lemma_goal_leaf(scene: Scene, arena: Seq<Record>, n: nat, i: int)
    requires
        0 <= i < n <= usize::MAX,
        meets_goal(scene, arena[i]),
    ensures
        goal_leaves(scene, arena, n).contains(i as usize),
    decreases n,
{
    let rest = goal_leaves(scene, arena, (n - 1) as nat);
    let all = goal_leaves(scene, arena, n);
    if i == n - 1 {
        assert(all[rest.len() as int] == i as usize);
    } else {
        lemma_goal_leaf(scene, arena, (n - 1) as nat, i);
        let k = choose|k: int| 0 <= k < rest.len() && rest[k] == i as usize;
        assert(all[k] == i as usize);
    }
}

pub proof fn lemma_wild_free(
    world: crate::search::world::WorldView,
    distance: Seq<Option<u32>>,
    max_steps: usize,
    n: nat,
    i: int,
)
    requires
        0 <= i < crate::search::seed::wild_leaves(world, distance, max_steps, n).len(),
    ensures
        crate::search::seed::wild_leaves(world, distance, max_steps, n)[i].cost == 0,
        crate::search::seed::wild_leaves(world, distance, max_steps, n)[i].bred_count == 0,
    decreases n,
{
    if n > 0 {
        let rest = crate::search::seed::wild_leaves(world, distance, max_steps, (n - 1) as nat);
        if i < rest.len() {
            lemma_wild_free(world, distance, max_steps, (n - 1) as nat, i);
        }
    }
}

} // verus!
