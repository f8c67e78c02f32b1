//! What a search does not miss beyond its first round: every pair with a
//! fresh parent is tried, every better candidate is expanded, and so the
//! best answer is no dearer than any plan of two rounds.

use vstd::prelude::*;

use crate::chance::cost_sum;
use crate::chance::EGG;
use crate::search::beam::candidate_key;
use crate::search::beam::emitted;
use crate::search::beam::hopeless;
use crate::search::beam::lemma_worst_position;
use crate::search::beam::steps_left;
use crate::search::beam::try_block;
use crate::search::beam::try_groups;
use crate::search::beam::within_arena;
use crate::search::beam::worst_position;
use crate::search::beam::Pass;
use crate::search::breed::bred;
use crate::search::laws::lemma_inserted_arena;
use crate::search::laws::lemma_rounds_arena;
use crate::search::laws::Question;
use crate::search::plan::PlanView;
use crate::search::reach::held;
use crate::search::reach::lemma_block_best;
use crate::search::reach::lemma_block_keyed;
use crate::search::reach::lemma_children_hold;
use crate::search::reach::lemma_emitted_best;
use crate::search::reach::lemma_inserted_all_best;
use crate::search::reach::lemma_rounds_best;
use crate::search::reach::placed;
use crate::search::reach::some_record;
use crate::search::reach::wins;
use crate::search::record::state_key;
use crate::search::record::Candidate;
use crate::search::record::Record;
use crate::search::record::Scene;
use crate::search::rounds::bucket_of;
use crate::search::rounds::costs_of;
use crate::search::rounds::goal_key;
use crate::search::rounds::improves;
use crate::search::rounds::last_per_state;
use crate::search::rounds::superseded;
use crate::search::rounds::Search;
use crate::search::solver::goal_ids;
use crate::search::solver::goal_leaves;
use crate::search::solver::ranked_ids;
use crate::search::solver::ranks_before;
use crate::search::solver::start;
use crate::seqs::sorted_by;

verus! {

// ---------------------------------------------------------------------
// Every pair with a fresh parent is tried
// ---------------------------------------------------------------------
/// Every live member of a species is in its group.
proof fn lemma_member(s: Search, species: int, n: nat, id: int)
    requires
        n <= s.arena.len() <= usize::MAX,
        0 <= id < n,
        s.live[id],
        s.arena[id].species == species,
    ensures
        s.members(species, s.frontier.contains(id as usize), n).contains(id as usize),
    decreases n,
{
    let fresh = s.frontier.contains(id as usize);
    let rest = s.members(species, fresh, (n - 1) as nat);
    let all = s.members(species, fresh, n);
    if id == n - 1 {
        assert(all[rest.len() as int] == id as usize);
    } else {
        lemma_member(s, species, (n - 1) as nat, id);
        let k = choose|k: int| 0 <= k < rest.len() && rest[k] == id as usize;
        assert(all[k] == id as usize);
    }
}

/// The child of two live candidates, one of them fresh, is among the
/// children of the round, or a cheaper one of its state is.
pub proof fn lemma_pair_tried(
    s: Search,
    scene: Scene,
    male: usize,
    female: usize,
    child: usize,
    distance: u32,
    c: Candidate,
)
    requires
        scene.wf(),
        s.live.len() == s.arena.len(),
        s.arena.len() <= usize::MAX,
        male < s.arena.len(),
        female < s.arena.len(),
        s.live[male as int],
        s.live[female as int],
        s.frontier.contains(male) || s.frontier.contains(female),
        s.arena[male as int].species < scene.size(),
        s.arena[female as int].species < scene.size(),
        scene.child[s.arena[male as int].species as int][s.arena[female as int].species as int]
            == Some(child),
        scene.distance[child as int] == Some(distance),
        distance + 1 <= scene.max_steps,
        bred(scene, s.arena, distance, male, female) == Some(c),
        !hopeless(scene, s.incumbent(scene), child == scene.goal, distance, c),
    ensures
        some_record(
            s.children(scene, s.incumbent(scene), scene.size()),
            child,
            candidate_key(c),
            c.cost,
        ),
{
    let worst = s.incumbent(scene);
    let ms = s.arena[male as int].species as int;
    let fs = s.arena[female as int].species as int;
    let n = s.arena.len();
    let key = candidate_key(c);
    let pass = Pass { scene, arena: s.arena, worst, goal_child: child == scene.goal, distance };
    let males = s.group(ms);
    let females = s.group(fs);
    lemma_member(s, ms, n, male as int);
    lemma_member(s, fs, n, female as int);
    let both = females.fresh + females.old;
    let first = try_block(pass, Seq::empty(), males.fresh, both);
    assert(wins(pass, male, female, key, c.cost));
    if s.frontier.contains(male) {
        let i = choose|i: int| 0 <= i < males.fresh.len() && males.fresh[i] == male;
        if s.frontier.contains(female) {
            let j = choose|j: int| 0 <= j < females.fresh.len() && females.fresh[j] == female;
            assert(both[j] == female);
            assert(wins(pass, males.fresh[i], both[j], key, c.cost));
        } else {
            let j = choose|j: int| 0 <= j < females.old.len() && females.old[j] == female;
            assert(both[females.fresh.len() + j] == female);
            assert(wins(pass, males.fresh[i], both[females.fresh.len() + j], key, c.cost));
        }
        lemma_block_best(pass, Seq::empty(), males.fresh, both, key, c.cost);
    } else {
        let i = choose|i: int| 0 <= i < males.old.len() && males.old[i] == male;
        let j = choose|j: int| 0 <= j < females.fresh.len() && females.fresh[j] == female;
        assert(wins(pass, males.old[i], females.fresh[j], key, c.cost));
    }
    lemma_block_best(pass, first, males.old, females.fresh, key, c.cost);
    lemma_block_keyed(pass, Seq::empty(), males.fresh, both);
    lemma_block_keyed(pass, first, males.old, females.fresh);
    let slots = try_groups(pass, males, females);
    lemma_emitted_best(scene, child, slots, key, c.cost);
    assert(s.pair_children(scene, worst, ms, fs) == emitted(scene, child, slots));
    lemma_children_hold(s, scene, worst, ms, fs, scene.size(), child, key, c.cost);
}

// ---------------------------------------------------------------------
// Kept candidates
// ---------------------------------------------------------------------
/// The first `n` records always take part; of the others exactly those
/// that are kept in their state, each once.
pub open spec fn orderly(s: Search, n: nat) -> bool {
    &&& n <= s.arena.len() <= usize::MAX
    &&& s.live.len() == s.arena.len()
    &&& within_arena(s.frontier, s.arena.len())
    &&& forall|i: int| 0 <= i < n ==> #[trigger] s.live[i]
    &&& forall|key: u64| (#[trigger] bucket_of(s.buckets, key)).no_duplicates()
    &&& forall|key: u64, i: int|
        #![trigger bucket_of(s.buckets, key)[i]]
        0 <= i < bucket_of(s.buckets, key).len() ==> {
            let id = bucket_of(s.buckets, key)[i];
            &&& n <= id < s.arena.len()
            &&& state_key(s.arena[id as int]) == key
            &&& s.live[id as int]
        }
    &&& forall|id: int|
        n <= id < s.arena.len() && #[trigger] s.live[id] ==> bucket_of(
            s.buckets,
            state_key(s.arena[id]),
        ).contains(id as usize)
}

proof fn lemma_inserted_orderly(s: Search, r: Record, beam: usize, n: nat)
    requires
        beam > 0,
        orderly(s, n),
        s.inserted(r, beam).arena.len() <= usize::MAX,
    ensures
        orderly(s.inserted(r, beam), n),
{
    let next = s.inserted(r, beam);
    let own = state_key(r);
    let bucket = bucket_of(s.buckets, own);
    if bucket.len() > 0 {
        lemma_worst_position(costs_of(s.arena, bucket));
    }
    let w = worst_position(costs_of(s.arena, bucket));
    if next != s {
        let id = s.arena.len() as usize;
        let now = bucket_of(next.buckets, own);
        assert(next.arena == s.arena.push(r));
        assert forall|k: int| 0 <= k < next.frontier.len() implies #[trigger] next.frontier[k]
            < next.arena.len() by {
            if k < s.frontier.len() {
                assert(next.frontier[k] == s.frontier[k]);
            }
        }
        if bucket.len() >= beam {
            assert(n <= bucket[w] < s.arena.len());
        }
        assert forall|key: u64| (#[trigger] bucket_of(next.buckets, key)).no_duplicates() by {
            let old = bucket_of(s.buckets, key);
            assert(old.no_duplicates());
            if key == own {
                assert forall|a: int, b: int|
                    0 <= a < now.len() && 0 <= b < now.len() && a != b implies now[a] != now[b] by {
                    if a < bucket.len() && now[a] == bucket[a] {
                        assert(bucket[a] < s.arena.len());
                    }
                    if b < bucket.len() && now[b] == bucket[b] {
                        assert(bucket[b] < s.arena.len());
                    }
                }
            } else {
                assert(bucket_of(next.buckets, key) == old);
            }
        }
        assert forall|key: u64, i: int|
            #![trigger bucket_of(next.buckets, key)[i]]
            0 <= i < bucket_of(next.buckets, key).len() implies ({
            let x = bucket_of(next.buckets, key)[i];
            &&& n <= x < next.arena.len()
            &&& state_key(next.arena[x as int]) == key
            &&& next.live[x as int]
        }) by {
            let x = bucket_of(next.buckets, key)[i];
            if key != own {
                assert(bucket_of(next.buckets, key) == bucket_of(s.buckets, key));
                assert(bucket_of(s.buckets, key)[i] == x);
                assert(state_key(s.arena[x as int]) == key);
                if bucket.len() >= beam {
                    assert(state_key(s.arena[bucket[w] as int]) == own);
                }
            } else if x != id {
                assert(bucket[i] == x);
                if bucket.len() >= beam {
                    assert(i != w);
                    assert(bucket[i] != bucket[w]);
                }
            }
        }
        assert forall|x: int| n <= x < next.arena.len() && #[trigger] next.live[x] implies bucket_of(
            next.buckets,
            state_key(next.arena[x]),
        ).contains(x as usize) by {
            let key = state_key(next.arena[x]);
            if x == id {
                if bucket.len() < beam {
                    assert(now[bucket.len() as int] == id);
                } else {
                    assert(now[w] == id);
                }
            } else {
                assert(next.arena[x] == s.arena[x]);
                assert(s.live[x]);
                let old = bucket_of(s.buckets, key);
                assert(old.contains(x as usize));
                let i = choose|i: int| 0 <= i < old.len() && old[i] == x as usize;
                if key == own {
                    if bucket.len() >= beam {
                        assert(x != bucket[w]);
                    }
                    assert(now[i] == x as usize);
                } else {
                    assert(bucket_of(next.buckets, key) == old);
                }
            }
        }
    }
}

proof fn lemma_inserted_all_orderly(s: Search, records: Seq<Record>, beam: usize, n: nat)
    requires
        beam > 0,
        orderly(s, n),
        s.inserted_all(records, beam).arena.len() <= usize::MAX,
    ensures
        orderly(s.inserted_all(records, beam), n),
    decreases records.len(),
{
    if records.len() > 0 {
        let mid = s.inserted_all(records.drop_last(), beam);
        lemma_inserted_arena(mid, records.last(), beam);
        lemma_inserted_all_orderly(s, records.drop_last(), beam, n);
        lemma_inserted_orderly(mid, records.last(), beam, n);
    }
}

pub proof fn lemma_round_orderly(s: Search, scene: Scene, n: nat)
    requires
        scene.wf(),
        orderly(s, n),
        s.round(scene).arena.len() <= usize::MAX,
    ensures
        orderly(s.round(scene), n),
{
    reveal(Search::round);
    let children = s.children(scene, s.incumbent(scene), scene.size());
    let cleared = Search { frontier: Seq::empty(), ..s };
    assert(orderly(cleared, n));
    lemma_inserted_all_orderly(cleared, children, scene.beam, n);
    let next = cleared.inserted_all(children, scene.beam);
    lemma_last_within(next.arena, next.frontier);
}

proof fn lemma_last_within(arena: Seq<Record>, ids: Seq<usize>)
    requires
        within_arena(ids, arena.len()),
    ensures
        within_arena(last_per_state(arena, ids), arena.len()),
        forall|k: int|
            0 <= k < last_per_state(arena, ids).len() ==> ids.contains(
                #[trigger] last_per_state(arena, ids)[k],
            ),
    decreases ids.len(),
{
    if ids.len() > 0 {
        let tail = ids.drop_first();
        assert forall|k: int| 0 <= k < tail.len() implies #[trigger] tail[k] < arena.len() by {
            assert(tail[k] == ids[k + 1]);
        }
        lemma_last_within(arena, tail);
        let rest = last_per_state(arena, tail);
        let all = last_per_state(arena, ids);
        assert forall|k: int| 0 <= k < all.len() implies #[trigger] all[k] < arena.len()
            && ids.contains(all[k]) by {
            if superseded(arena, ids) {
                let q = choose|q: int| 0 <= q < tail.len() && tail[q] == rest[k];
                assert(tail.contains(rest[k]));
                assert(ids[q + 1] == all[k]);
            } else if k > 0 {
                assert(all[k] == rest[k - 1]);
                assert(tail.contains(rest[k - 1]));
                let q = choose|q: int| 0 <= q < tail.len() && tail[q] == rest[k - 1];
                assert(ids[q + 1] == all[k]);
            } else {
                assert(ids[0] == all[k]);
            }
        }
    }
}

proof fn lemma_rounds_orderly(s: Search, scene: Scene, k: nat, n: nat)
    requires
        scene.wf(),
        orderly(s, n),
        s.rounds(scene, k).arena.len() <= usize::MAX,
    ensures
        orderly(s.rounds(scene, k), n),
    decreases k,
{
    if k > 0 {
        let next = s.round(scene);
        if next.frontier.len() > 0 {
            lemma_rounds_arena(next, scene, (k - 1) as nat);
        }
        lemma_round_orderly(s, scene, n);
        if next.frontier.len() > 0 {
            lemma_rounds_orderly(next, scene, (k - 1) as nat, n);
        }
    }
}

// ---------------------------------------------------------------------
// The frontier
// ---------------------------------------------------------------------
/// Entry `j` of the frontier is the last one of the state.
spec fn leads(s: Search, key: u64, j: int) -> bool {
    &&& 0 <= j < s.frontier.len()
    &&& state_key(s.arena[s.frontier[j] as int]) == key
    &&& forall|q: int|
        j < q < s.frontier.len() ==> state_key(s.arena[#[trigger] s.frontier[q] as int]) != key
}

/// The last frontier entry of a state is its best candidate; where there
/// is none, the state has nothing better than `base` had.
spec fn headed(base: Search, s: Search, key: u64) -> bool {
    &&& forall|q: int| 0 <= q < s.frontier.len() ==> #[trigger] s.frontier[q] >= base.arena.len()
    &&& forall|j: int| #[trigger]
        leads(s, key, j) ==> {
            let id = s.frontier[j];
            &&& bucket_of(s.buckets, key).contains(id)
            &&& forall|i: int|
                0 <= i < bucket_of(s.buckets, key).len() ==> s.arena[id as int].cost
                    <= s.arena[#[trigger] bucket_of(s.buckets, key)[i] as int].cost
        }
    &&& (forall|j: int| !#[trigger] leads(s, key, j)) ==> forall|x: u128| #[trigger]
        held(s, key, x) ==> held(base, key, x)
}

proof fn lemma_inserted_headed(base: Search, s: Search, r: Record, beam: usize, key: u64, n: nat)
    requires
        beam > 0,
        orderly(s, n),
        base.arena.len() <= s.arena.len(),
        s.inserted(r, beam).arena.len() <= usize::MAX,
        headed(base, s, key),
    ensures
        headed(base, s.inserted(r, beam), key),
{
    let next = s.inserted(r, beam);
    let own = state_key(r);
    let bucket = bucket_of(s.buckets, own);
    if bucket.len() > 0 {
        lemma_worst_position(costs_of(s.arena, bucket));
    }
    let w = worst_position(costs_of(s.arena, bucket));
    if next != s {
        let id = s.arena.len() as usize;
        let now = bucket_of(next.buckets, own);
        let better = improves(s.arena, bucket, r);
        assert(next.arena == s.arena.push(r));
        assert forall|q: int| 0 <= q < next.frontier.len() implies #[trigger] next.frontier[q]
            >= base.arena.len() by {
            if q < s.frontier.len() {
                assert(next.frontier[q] == s.frontier[q]);
            }
        }
        assert forall|q: int| 0 <= q < s.frontier.len() implies next.frontier[q] == s.frontier[q]
            && next.arena[#[trigger] s.frontier[q] as int] == s.arena[s.frontier[q] as int] by {
            assert(s.frontier[q] < s.arena.len());
        }
        let fresh = s.frontier.len() as int;
        if own != key || !better {
            assert forall|j: int| #[trigger] leads(next, key, j) <==> leads(s, key, j) by {
                if leads(next, key, j) {
                    if better && j == fresh {
                        assert(next.arena[id as int] == r);
                    }
                    assert(0 <= j < s.frontier.len());
                    assert forall|q: int| j < q < s.frontier.len() implies state_key(
                        s.arena[#[trigger] s.frontier[q] as int],
                    ) != key by {
                        assert(next.frontier[q] == s.frontier[q]);
                    }
                }
                if leads(s, key, j) {
                    assert forall|q: int| j < q < next.frontier.len() implies state_key(
                        next.arena[#[trigger] next.frontier[q] as int],
                    ) != key by {
                        if q < fresh {
                            assert(next.frontier[q] == s.frontier[q]);
                        }
                    }
                }
            }
        }
        if own != key {
            let same = bucket_of(s.buckets, key);
            assert(bucket_of(next.buckets, key) == same);
            assert forall|i: int| 0 <= i < same.len() implies next.arena[#[trigger] same[i] as int]
                == s.arena[same[i] as int] by {
                assert(bucket_of(s.buckets, key)[i] < s.arena.len());
            }
            assert forall|x: u128| #[trigger] held(next, key, x) implies held(s, key, x) by {
                let i = choose|i: int|
                    0 <= i < bucket_of(next.buckets, key).len() && next.arena[(
                    #[trigger] bucket_of(next.buckets, key)[i]) as int].cost <= x;
                assert(s.arena[bucket_of(s.buckets, key)[i] as int].cost <= x);
            }
            assert forall|j: int| #[trigger] leads(next, key, j) implies ({
                let top = next.frontier[j];
                &&& bucket_of(next.buckets, key).contains(top)
                &&& forall|i: int|
                    0 <= i < bucket_of(next.buckets, key).len() ==> next.arena[top as int].cost
                        <= next.arena[#[trigger] bucket_of(next.buckets, key)[i] as int].cost
            }) by {
                assert(leads(s, key, j));
                assert(s.frontier[j] < s.arena.len());
            }
        } else {
            assert forall|i: int| 0 <= i < bucket.len() implies next.arena[#[trigger] bucket[i] as int]
                == s.arena[bucket[i] as int] && bucket[i] < s.arena.len() by {
                assert(bucket_of(s.buckets, key)[i] < s.arena.len());
            }
            assert(next.arena[id as int] == r);
            if better {
                assert forall|j: int| #[trigger] leads(next, key, j) implies j == fresh by {
                    if j < fresh {
                        assert(next.frontier[fresh] == id);
                    }
                }
                assert(leads(next, key, fresh));
                if bucket.len() < beam {
                    assert(now[bucket.len() as int] == id);
                } else {
                    assert(now[w] == id);
                }
                assert forall|i: int| 0 <= i < now.len() implies r.cost
                    <= next.arena[#[trigger] now[i] as int].cost by {
                    if now[i] != id {
                        assert(now[i] == bucket[i]);
                    }
                }
                assert forall|j: int| #[trigger] leads(next, key, j) implies ({
                    let top = next.frontier[j];
                    &&& bucket_of(next.buckets, key).contains(top)
                    &&& forall|i: int|
                        0 <= i < bucket_of(next.buckets, key).len() ==> next.arena[top as int].cost
                            <= next.arena[#[trigger] bucket_of(next.buckets, key)[i] as int].cost
                }) by {
                    assert(next.frontier[j] == id);
                    assert(now.contains(id));
                }
            } else {
                let q = choose|q: int|
                    0 <= q < bucket.len() && r.cost >= s.arena[#[trigger] bucket[q] as int].cost;
                assert forall|x: u128| #[trigger] held(next, key, x) implies held(s, key, x) by {
                    let i = choose|i: int|
                        0 <= i < now.len() && next.arena[(#[trigger] now[i]) as int].cost <= x;
                    if now[i] == id {
                        assert(s.arena[bucket[q] as int].cost <= x);
                    } else {
                        assert(now[i] == bucket[i]);
                        assert(s.arena[bucket[i] as int].cost <= x);
                    }
                }
                assert forall|j: int| #[trigger] leads(next, key, j) implies ({
                    let top = next.frontier[j];
                    &&& now.contains(top)
                    &&& forall|i: int|
                        0 <= i < now.len() ==> next.arena[top as int].cost
                            <= next.arena[#[trigger] now[i] as int].cost
                }) by {
                    assert(leads(s, key, j));
                    let top = s.frontier[j];
                    assert(bucket.contains(top));
                    let t = choose|t: int| 0 <= t < bucket.len() && bucket[t] == top;
                    assert(s.arena[top as int].cost <= s.arena[bucket[q] as int].cost);
                    if bucket.len() >= beam {
                        assert(t != w);
                    }
                    assert(now[t] == top);
                    assert(next.arena[top as int] == s.arena[top as int]);
                    assert forall|i: int| 0 <= i < now.len() implies next.arena[top as int].cost
                        <= next.arena[#[trigger] now[i] as int].cost by {
                        if now[i] != id {
                            assert(now[i] == bucket[i]);
                        }
                    }
                }
            }
        }
        if own != key || !better {
            if forall|j: int| !#[trigger] leads(next, key, j) {
                assert forall|j: int| !#[trigger] leads(s, key, j) by {
                    assert(!leads(next, key, j));
                }
                assert forall|x: u128| #[trigger] held(next, key, x) implies held(base, key, x) by {
                    assert(held(s, key, x));
                }
            }
        }
    }
}

proof fn lemma_inserted_all_headed(
    base: Search,
    records: Seq<Record>,
    beam: usize,
    key: u64,
    n: nat,
)
    requires
        beam > 0,
        orderly(base, n),
        base.frontier.len() == 0,
        base.inserted_all(records, beam).arena.len() <= usize::MAX,
    ensures
        headed(base, base.inserted_all(records, beam), key),
    decreases records.len(),
{
    if records.len() > 0 {
        let mid = base.inserted_all(records.drop_last(), beam);
        lemma_inserted_arena(mid, records.last(), beam);
        lemma_inserted_all_headed(base, records.drop_last(), beam, key, n);
        lemma_inserted_all_orderly(base, records.drop_last(), beam, n);
        crate::search::laws::lemma_inserted_all_arena(base, records.drop_last(), beam);
        lemma_inserted_headed(base, mid, records.last(), beam, key, n);
    }
}

/// The last entry of a state stays.
proof fn lemma_last_kept(arena: Seq<Record>, ids: Seq<usize>, j: int)
    requires
        0 <= j < ids.len(),
        forall|q: int|
            j < q < ids.len() ==> state_key(arena[#[trigger] ids[q] as int]) != state_key(
                arena[ids[j] as int],
            ),
    ensures
        last_per_state(arena, ids).contains(ids[j]),
    decreases ids.len(),
{
    let tail = ids.drop_first();
    let rest = last_per_state(arena, tail);
    let all = last_per_state(arena, ids);
    if j == 0 {
        assert(!superseded(arena, ids));
        assert(all[0] == ids[0]);
    } else {
        assert forall|q: int| j - 1 < q < tail.len() implies state_key(
            arena[#[trigger] tail[q] as int],
        ) != state_key(arena[tail[j - 1] as int]) by {
            assert(tail[q] == ids[q + 1]);
        }
        lemma_last_kept(arena, tail, j - 1);
        assert(rest.contains(ids[j]));
        let k = choose|k: int| 0 <= k < rest.len() && rest[k] == ids[j];
        if superseded(arena, ids) {
            assert(all[k] == ids[j]);
        } else {
            assert(all[k + 1] == ids[j]);
        }
    }
}

/// A round that gives a state a cheaper candidate expands one at least
/// as cheap next.
pub proof fn lemma_round_leads(
    s: Search,
    scene: Scene,
    n: nat,
    key: u64,
    x: u128,
) -> (id: usize)
    requires
        scene.wf(),
        orderly(s, n),
        s.round(scene).arena.len() <= usize::MAX,
        held(s.round(scene), key, x),
        !held(s, key, x),
    ensures
        s.arena.len() <= id < s.round(scene).arena.len(),
        s.round(scene).frontier.contains(id),
        s.round(scene).live[id as int],
        state_key(s.round(scene).arena[id as int]) == key,
        s.round(scene).arena[id as int].cost <= x,
{
    reveal(Search::round);
    let children = s.children(scene, s.incumbent(scene), scene.size());
    let cleared = Search { frontier: Seq::empty(), ..s };
    let after = cleared.inserted_all(children, scene.beam);
    let next = s.round(scene);
    assert(orderly(cleared, n));
    lemma_inserted_all_headed(cleared, children, scene.beam, key, n);
    lemma_inserted_all_orderly(cleared, children, scene.beam, n);
    let bucket = bucket_of(after.buckets, key);
    let b = choose|b: int|
        0 <= b < bucket_of(next.buckets, key).len() && next.arena[(#[trigger] bucket_of(
            next.buckets,
            key,
        )[b]) as int].cost <= x;
    assert(after.arena[bucket_of(after.buckets, key)[b] as int].cost <= x);
    assert(held(after, key, x));
    assert(!held(cleared, key, x)) by {
        if held(cleared, key, x) {
            let i = choose|i: int|
                0 <= i < bucket_of(cleared.buckets, key).len() && cleared.arena[(
                #[trigger] bucket_of(cleared.buckets, key)[i]) as int].cost <= x;
            assert(s.arena[bucket_of(s.buckets, key)[i] as int].cost <= x);
        }
    }
    let j = choose|j: int| leads(after, key, j);
    assert(leads(after, key, j));
    let id = after.frontier[j];
    lemma_last_kept(after.arena, after.frontier, j);
    assert(bucket.contains(id));
    let i = choose|i: int| 0 <= i < bucket.len() && bucket[i] == id;
    assert(bucket_of(after.buckets, key)[i] == id);
    assert(after.arena[id as int].cost <= after.arena[bucket[b] as int].cost);
    id
}

// ---------------------------------------------------------------------
// Rounds
// ---------------------------------------------------------------------
/// Rounds go on from where rounds have led.
proof fn lemma_split(s: Search, scene: Scene, a: nat, b: nat)
    requires
        a == 0 || s.rounds(scene, a).frontier.len() > 0,
    ensures
        s.rounds(scene, a + b) == s.rounds(scene, a).rounds(scene, b),
    decreases a,
{
    if a > 0 {
        let next = s.round(scene);
        if next.frontier.len() > 0 {
            lemma_split(next, scene, (a - 1) as nat, b);
        }
    }
}

impl Question {
    /// Where the search stands after at most `k` rounds.
    pub open spec fn after(self, k: nat) -> Search {
        start(self.seeds()).rounds(self.scene(), k)
    }

    /// What is kept in the goal's state bounds the best answer.
    pub proof fn lemma_held_is_answered(self, x: u128)
        requires
            self.sound(),
            held(self.outcome(), goal_key(self.scene()), x),
        ensures
            self.answers().len() > 0,
            self.answers()[0].expected_eggs <= x,
    {
        let scene = self.scene();
        let search = self.outcome();
        let key = goal_key(scene);
        let n = self.seeds().len();
        let bucket = bucket_of(search.buckets, key);
        let b = choose|b: int|
            0 <= b < bucket.len() && search.arena[(#[trigger] bucket[b]) as int].cost <= x;
        let own = goal_leaves(scene, search.arena, n);
        let ids = goal_ids(scene, n, search);
        assert(ids[own.len() + b] == bucket[b]);
        self.lemma_best(bucket[b]);
    }

    /// The search after `k` rounds, while there is something to expand.
    pub proof fn lemma_after(self, k: nat)
        requires
            self.sound(),
            self.outcome().arena.len() <= usize::MAX,
            k <= self.config.max_breeding_steps,
            k == 0 || self.after(k).frontier.len() > 0,
        ensures
            self.scene().wf(),
            self.after(k).arena.len() <= self.outcome().arena.len(),
            orderly(self.after(k), self.seeds().len()),
            self.grown(self.after(k)),
            placed(self.after(k)),
            self.outcome() == self.after(k).rounds(
                self.scene(),
                (self.config.max_breeding_steps - k) as nat,
            ),
            k < self.config.max_breeding_steps ==> self.after(k).round(self.scene()).arena.len()
                <= self.outcome().arena.len(),
    {
        let scene = self.scene();
        let seeds = self.seeds();
        let begin = start(seeds);
        let s = self.after(k);
        let left = (self.config.max_breeding_steps - k) as nat;
        self.lemma_scene();
        lemma_split(begin, scene, k, left);
        lemma_rounds_arena(s, scene, left);
        lemma_rounds_arena(begin, scene, self.config.max_breeding_steps as nat);
        assert(orderly(begin, seeds.len())) by {
            assert(within_arena(begin.frontier, seeds.len()));
        }
        lemma_rounds_orderly(begin, scene, k, seeds.len());
        assert(begin.arena.take(seeds.len() as int) =~= seeds);
        assert(self.grown(begin));
        self.lemma_rounds(begin, k);
        assert(placed(s)) by {
            assert forall|key: u64, i: int|
                #![trigger bucket_of(s.buckets, key)[i]]
                0 <= i < bucket_of(s.buckets, key).len() implies bucket_of(s.buckets, key)[i]
                < s.arena.len() by {}
        }
        if left > 0 {
            let next = s.round(scene);
            if next.frontier.len() > 0 {
                lemma_rounds_arena(next, scene, (left - 1) as nat);
            }
        }
    }

    /// What the goal's state keeps once is kept or beaten to the end.
    pub proof fn lemma_kept_to_the_end(self, k: nat, x: u128)
        requires
            self.sound(),
            self.outcome().arena.len() <= usize::MAX,
            k < self.config.max_breeding_steps,
            k == 0 || self.after(k).frontier.len() > 0,
            held(self.after(k), goal_key(self.scene()), x) || held(
                self.after(k).round(self.scene()),
                goal_key(self.scene()),
                x,
            ),
        ensures
            self.answers().len() > 0,
            self.answers()[0].expected_eggs <= x,
    {
        let scene = self.scene();
        let s = self.after(k);
        let n = (self.config.max_breeding_steps - k) as nat;
        let key = goal_key(scene);
        self.lemma_after(k);
        let next = s.round(scene);
        if held(s, key, x) {
            lemma_rounds_best(s, scene, n, key, x);
        } else {
            lemma_round_orderly(s, scene, self.seeds().len());
            assert(placed(next)) by {
                assert forall|key: u64, i: int|
                    #![trigger bucket_of(next.buckets, key)[i]]
                    0 <= i < bucket_of(next.buckets, key).len() implies bucket_of(
                    next.buckets,
                    key,
                )[i] < next.arena.len() by {}
            }
            if next.frontier.len() > 0 {
                lemma_rounds_best(next, scene, (n - 1) as nat, key, x);
            }
        }
        self.lemma_held_is_answered(x);
    }

    /// Whenever a candidate to be expanded and any candidate that still
    /// takes part, in either role, breed the goal with everything asked
    /// for, within the allowed steps, there is an answer, and the best
    /// one costs no more than that pair.
    pub proof fn law_no_fresh_pair_is_missed(
        self,
        k: nat,
        male: usize,
        female: usize,
        c: Candidate,
    )
        requires
            self.sound(),
            self.outcome().arena.len() <= usize::MAX,
            k < self.config.max_breeding_steps,
            male < self.after(k).arena.len(),
            female < self.after(k).arena.len(),
            self.after(k).live[male as int],
            self.after(k).live[female as int],
            self.after(k).frontier.contains(male) || self.after(k).frontier.contains(female),
            self.scene().child[self.after(k).arena[male as int].species as int][self.after(
                k,
            ).arena[female as int].species as int] == Some(self.scene().goal),
            bred(self.scene(), self.after(k).arena, 0, male, female) == Some(c),
            c.carried == self.scene().full,
            c.required == self.scene().all_required,
            c.iv_met == self.scene().iv_full,
        ensures
            self.answers().len() > 0,
            self.answers()[0].expected_eggs <= c.cost,
    {
        let scene = self.scene();
        let s = self.after(k);
        let key = goal_key(scene);
        assert(s.frontier.len() > 0) by {
            if s.frontier.contains(male) {
                let q = choose|q: int| 0 <= q < s.frontier.len() && s.frontier[q] == male;
                assert(q < s.frontier.len());
            }
        }
        self.lemma_after(k);
        self.lemma_scene();
        self.lemma_goal_distance();
        self.lemma_fits(s, male as int);
        self.lemma_fits(s, female as int);
        let worst = s.incumbent(scene);
        if hopeless(scene, worst, true, 0, c) {
            // the worst answer so far is no dearer
            let bucket = bucket_of(s.buckets, key);
            lemma_worst_position(costs_of(s.arena, bucket));
            let w = worst_position(costs_of(s.arena, bucket));
            assert(s.arena[bucket_of(s.buckets, key)[w] as int].cost <= c.cost);
            assert(held(s, key, c.cost));
        } else {
            lemma_pair_tried(s, scene, male, female, scene.goal, 0, c);
            self.lemma_children_are_kept(k, scene.goal, candidate_key(c), c.cost);
        }
        self.lemma_kept_to_the_end(k, c.cost);
    }

    /// A child of a round is kept in its state, or a cheaper one is.
    pub proof fn lemma_children_are_kept(self, k: nat, child: usize, masks: u32, x: u128)
        requires
            self.sound(),
            self.outcome().arena.len() <= usize::MAX,
            k < self.config.max_breeding_steps,
            k == 0 || self.after(k).frontier.len() > 0,
            some_record(
                self.after(k).children(
                    self.scene(),
                    self.after(k).incumbent(self.scene()),
                    self.scene().size(),
                ),
                child,
                masks,
                x,
            ),
        ensures
            held(
                self.after(k).round(self.scene()),
                (child * 0x100_0000 + masks) as u64,
                x,
            ),
    {
        let scene = self.scene();
        let s = self.after(k);
        self.lemma_after(k);
        reveal(Search::round);
        let children = s.children(scene, s.incumbent(scene), scene.size());
        let cleared = Search { frontier: Seq::empty(), ..s };
        let key = (child * 0x100_0000 + masks) as u64;
        assert(placed(cleared)) by {
            assert forall|key: u64, i: int|
                #![trigger bucket_of(cleared.buckets, key)[i]]
                0 <= i < bucket_of(cleared.buckets, key).len() implies bucket_of(
                cleared.buckets,
                key,
            )[i] < cleared.arena.len() by {
                assert(bucket_of(s.buckets, key)[i] < s.arena.len());
            }
        }
        lemma_inserted_all_best(cleared, children, scene.beam, child, masks, key, x);
        let after = cleared.inserted_all(children, scene.beam);
        let next = s.round(scene);
        let b = choose|b: int|
            0 <= b < bucket_of(after.buckets, key).len() && after.arena[(#[trigger] bucket_of(
                after.buckets,
                key,
            )[b]) as int].cost <= x;
        assert(next.arena[bucket_of(next.buckets, key)[b] as int].cost <= x);
    }

    /// The child of a candidate to be expanded and any candidate that
    /// still takes part, in either role, is kept for the next round, or
    /// a cheaper one in its state is; unless there are as many answers
    /// as asked for, none dearer than the child and one egg for each
    /// step that it is still away from the goal.
    pub proof fn law_fresh_pairs_breed(
        self,
        k: nat,
        male: usize,
        female: usize,
        child: usize,
        distance: u32,
        c: Candidate,
    )
        requires
            self.sound(),
            self.outcome().arena.len() <= usize::MAX,
            k < self.config.max_breeding_steps,
            male < self.after(k).arena.len(),
            female < self.after(k).arena.len(),
            self.after(k).live[male as int],
            self.after(k).live[female as int],
            self.after(k).frontier.contains(male) || self.after(k).frontier.contains(female),
            self.scene().child[self.after(k).arena[male as int].species as int][self.after(
                k,
            ).arena[female as int].species as int] == Some(child),
            self.scene().distance[child as int] == Some(distance),
            distance < self.config.max_breeding_steps,
            bred(self.scene(), self.after(k).arena, distance, male, female) == Some(c),
        ensures
            ({
                let next = self.after(k).round(self.scene());
                let left = if child == self.scene().goal && c.carried == self.scene().full
                    && c.required == self.scene().all_required && c.iv_met == self.scene().iv_full {
                    0int
                } else if distance >= 1 {
                    distance as int
                } else {
                    1int
                };
                ||| exists|id: int|
                    0 <= id < next.arena.len() && next.live[id] && {
                        let r = #[trigger] next.arena[id];
                        &&& r.species == child
                        &&& r.carried == c.carried
                        &&& r.required == c.required
                        &&& r.iv_met == c.iv_met
                        &&& r.cost <= c.cost
                    }
                ||| self.answers().len() == self.config.max_results && forall|i: int|
                    0 <= i < self.answers().len() ==> (#[trigger] self.answers()[i]).expected_eggs
                        <= c.cost + left * EGG
            }),
    {
        let scene = self.scene();
        let s = self.after(k);
        let next = s.round(scene);
        assert(s.frontier.len() > 0) by {
            if s.frontier.contains(male) {
                let q = choose|q: int| 0 <= q < s.frontier.len() && s.frontier[q] == male;
                assert(q < s.frontier.len());
            }
        }
        self.lemma_after(k);
        self.lemma_scene();
        self.lemma_fits(s, male as int);
        self.lemma_fits(s, female as int);
        assert(child < scene.size()) by {
            let ms = s.arena[male as int].species as int;
            let fs = s.arena[female as int].species as int;
            assert(scene.child[ms][fs] is Some);
        }
        let worst = s.incumbent(scene);
        if hopeless(scene, worst, child == scene.goal, distance, c) {
            let key = goal_key(scene);
            let bucket = bucket_of(s.buckets, key);
            let steps = steps_left(scene, child == scene.goal, distance, c);
            let x = cost_sum(c.cost, (steps * EGG) as u128);
            self.lemma_goal_distance();
            lemma_worst_position(costs_of(s.arena, bucket));
            assert(full_within(s, key, scene.beam, x)) by {
                let costs = costs_of(s.arena, bucket);
                let w = worst_position(costs);
                assert forall|i: int| 0 <= i < bucket.len() implies s.arena[(
                #[trigger] bucket[i]) as int].cost <= x by {
                    assert(costs[i] <= costs[w]);
                }
            }
            lemma_rounds_full(
                s,
                scene,
                (self.config.max_breeding_steps - k) as nat,
                key,
                x,
                self.seeds().len(),
            );
            self.lemma_full_is_answered(x);
            if child == scene.goal {
                assert(distance == 0);
            }
            assert(x <= c.cost + steps * EGG);
        } else {
            lemma_pair_tried(s, scene, male, female, child, distance, c);
            let masks = candidate_key(c);
            let key = (child * 0x100_0000 + masks) as u64;
            self.lemma_children_are_kept(k, child, masks, c.cost);
            lemma_round_orderly(s, scene, self.seeds().len());
            let bucket = bucket_of(next.buckets, key);
            let b = choose|b: int|
                0 <= b < bucket.len() && next.arena[(#[trigger] bucket[b]) as int].cost <= c.cost;
            let id = bucket_of(next.buckets, key)[b];
            let r = next.arena[id as int];
            assert(state_key(r) == key);
            self.lemma_round(s);
            self.lemma_fits(next, id as int);
            lemma_state_parts(scene, r, child, c);
            assert(next.live[id as int]);
        }
    }

    /// Whenever a round gives a state a candidate cheaper than all it
    /// had, the next round expands one of that state at least as cheap.
    pub proof fn law_better_candidates_are_expanded(self, k: nat, id: int) -> (top: usize)
        requires
            self.sound(),
            self.outcome().arena.len() <= usize::MAX,
            k < self.config.max_breeding_steps,
            k == 0 || self.after(k).frontier.len() > 0,
            self.after(k).arena.len() <= id < self.after(k).round(self.scene()).arena.len(),
            self.after(k).round(self.scene()).live[id],
            forall|old: int|
                self.seeds().len() <= old < self.after(k).arena.len() && #[trigger] self.after(
                    k,
                ).live[old] && state_key(self.after(k).arena[old]) == state_key(
                    self.after(k).round(self.scene()).arena[id],
                ) ==> self.after(k).arena[old].cost > self.after(k).round(
                    self.scene(),
                ).arena[id].cost,
        ensures
            ({
                let next = self.after(k).round(self.scene());
                &&& top < next.arena.len()
                &&& next.live[top as int]
                &&& next.frontier.contains(top)
                &&& next.arena[top as int].species == next.arena[id].species
                &&& next.arena[top as int].carried == next.arena[id].carried
                &&& next.arena[top as int].required == next.arena[id].required
                &&& next.arena[top as int].iv_met == next.arena[id].iv_met
                &&& next.arena[top as int].cost <= next.arena[id].cost
            }),
    {
        let scene = self.scene();
        let s = self.after(k);
        let next = s.round(scene);
        let n = self.seeds().len();
        self.lemma_after(k);
        self.lemma_scene();
        lemma_round_orderly(s, scene, n);
        self.lemma_round(s);
        let r = next.arena[id];
        let key = state_key(r);
        let bucket = bucket_of(next.buckets, key);
        assert(bucket.contains(id as usize));
        let b = choose|b: int| 0 <= b < bucket.len() && bucket[b] == id as usize;
        assert(next.arena[bucket_of(next.buckets, key)[b] as int].cost <= r.cost);
        assert(held(next, key, r.cost));
        assert(!held(s, key, r.cost)) by {
            if held(s, key, r.cost) {
                let i = choose|i: int|
                    0 <= i < bucket_of(s.buckets, key).len() && s.arena[(#[trigger] bucket_of(
                        s.buckets,
                        key,
                    )[i]) as int].cost <= r.cost;
                let old = bucket_of(s.buckets, key)[i];
                assert(s.live[old as int]);
            }
        }
        let top = lemma_round_leads(s, scene, n, key, r.cost);
        self.lemma_fits(next, id);
        self.lemma_fits(next, top as int);
        lemma_states_differ(scene, next.arena[top as int], r);
        top
    }

    /// Every candidate left at the end that is what the goal asks for is
    /// answered, unless there are as many answers as asked for and none
    /// is dearer.
    pub proof fn law_no_candidate_is_left_out(self, id: int)
        requires
            self.sound(),
            self.outcome().arena.len() <= usize::MAX,
            0 <= id < self.outcome().arena.len(),
            self.outcome().live[id],
            self.world().names[self.outcome().arena[id].species as int] == self.goal.species,
            self.outcome().arena[id].species < self.world().names.len(),
            self.outcome().arena[id].carried == self.scene().full,
            self.outcome().arena[id].required == self.scene().all_required,
            self.outcome().arena[id].iv_met == self.scene().iv_full,
        ensures
            ({
                let plan = PlanView {
                    tree: self.tree(self.outcome().arena, id as nat),
                    expected_eggs: self.outcome().arena[id].cost,
                    steps: self.outcome().arena[id].bred_count,
                };
                ||| self.answers().contains(plan)
                ||| self.answers().len() == self.config.max_results && forall|i: int|
                    0 <= i < self.answers().len() ==> (#[trigger] self.answers()[i]).expected_eggs
                        <= plan.expected_eggs
            }),
    {
        let scene = self.scene();
        let search = self.outcome();
        let seeds = self.seeds();
        let n = seeds.len();
        let begin = start(seeds);
        let r = search.arena[id];
        self.lemma_scene();
        crate::search::laws::lemma_rounds_arena(
            begin,
            scene,
            self.config.max_breeding_steps as nat,
        );
        assert(orderly(begin, n)) by {
            assert(within_arena(begin.frontier, seeds.len()));
        }
        lemma_rounds_orderly(begin, scene, self.config.max_breeding_steps as nat, n);
        crate::search::solver::lemma_checked(self.db, self.index, self.owned, self.goal);
        crate::search::world::lemma_sorted_names(self.db);
        crate::search::solver::lemma_known_id(self.world().names, self.goal.species);
        assert(r.species == scene.goal);
        let ids = goal_ids(scene, n, search);
        let own = goal_leaves(scene, search.arena, n);
        let x = id as usize;
        assert(ids.contains(x)) by {
            if id < n {
                crate::search::reach::lemma_goal_leaf(scene, search.arena, n, id);
                let k = choose|k: int| 0 <= k < own.len() && own[k] == x;
                assert(ids[k] == x);
            } else {
                let bucket = bucket_of(search.buckets, goal_key(scene));
                assert(state_key(r) == goal_key(scene));
                assert(bucket.contains(x));
                let b = choose|b: int| 0 <= b < bucket.len() && bucket[b] == x;
                assert(ids[own.len() + b] == x);
            }
        }
        let lt = ranks_before(search.arena);
        let sorted = sorted_by(ids, lt);
        crate::search::laws::lemma_rank_order(search.arena);
        crate::seqs::lemma_sorted_by(ids, lt);
        broadcast use vstd::seq_lib::group_to_multiset_ensures;

        assert(ids.to_multiset().count(x) > 0);
        assert(sorted.contains(x));
        let q = choose|q: int| 0 <= q < sorted.len() && sorted[q] == x;
        let ranked = ranked_ids(scene, n, search);
        if q < ranked.len() {
            assert(ranked[q] == x);
            assert(self.answers()[q] == (PlanView {
                tree: self.tree(search.arena, id as nat),
                expected_eggs: r.cost,
                steps: r.bred_count,
            }));
        } else {
            assert forall|i: int| 0 <= i < self.answers().len() implies (
            #[trigger] self.answers()[i]).expected_eggs <= r.cost by {
                assert(ranked[i] == sorted[i]);
                assert(!lt(sorted[q], sorted[i]));
            }
        }
    }

    /// As many answers as asked for, none dearer than what the goal's
    /// state was filled with.
    proof fn lemma_full_is_answered(self, x: u128)
        requires
            self.sound(),
            orderly(self.outcome(), self.seeds().len()),
            full_within(self.outcome(), goal_key(self.scene()), self.scene().beam, x),
        ensures
            self.answers().len() == self.config.max_results,
            forall|i: int|
                0 <= i < self.answers().len() ==> (#[trigger] self.answers()[i]).expected_eggs
                    <= x,
    {
        let scene = self.scene();
        let search = self.outcome();
        let n = self.seeds().len();
        let ids = goal_ids(scene, n, search);
        let lt = ranks_before(search.arena);
        let sorted = sorted_by(ids, lt);
        let bucket = bucket_of(search.buckets, goal_key(scene));
        let own = goal_leaves(scene, search.arena, n);
        crate::search::laws::lemma_rank_order(search.arena);
        crate::seqs::lemma_sorted_by(ids, lt);
        assert(bucket.no_duplicates());
        broadcast use vstd::seq_lib::group_to_multiset_ensures;
        broadcast use vstd::seq_lib::seq_to_set_is_finite;

        assert forall|j: int| 0 <= j < scene.beam implies search.arena[#[trigger] sorted[j] as int].cost
            <= x by {
            if search.arena[sorted[j] as int].cost > x {
                let front = sorted.take(j);
                assert forall|id: usize| bucket.to_set().contains(
                    id,
                ) implies front.to_set().contains(id) by {
                    let b = choose|b: int| 0 <= b < bucket.len() && bucket[b] == id;
                    assert(search.arena[bucket[b] as int].cost <= x);
                    assert(ids[own.len() + b] == id);
                    assert(ids.to_multiset().count(id) > 0);
                    assert(sorted.to_multiset().count(id) > 0);
                    assert(sorted.contains(id));
                    let q = choose|q: int| 0 <= q < sorted.len() && sorted[q] == id;
                    if q >= j {
                        if q > j {
                            assert(!lt(sorted[q], sorted[j]));
                        }
                        assert(false);
                    }
                    assert(front[q] == id);
                }
                bucket.unique_seq_to_set();
                front.lemma_cardinality_of_set();
                vstd::set_lib::lemma_len_subset(bucket.to_set(), front.to_set());
                assert(false);
            }
        }
        let ranked = ranked_ids(scene, n, search);
        assert forall|i: int| 0 <= i < self.answers().len() implies (
        #[trigger] self.answers()[i]).expected_eggs <= x by {
            assert(ranked[i] == sorted[i]);
        }
    }
}

/// The state is full, with nothing dearer than `x`.
spec fn full_within(s: Search, key: u64, beam: usize, x: u128) -> bool {
    &&& bucket_of(s.buckets, key).len() >= beam
    &&& forall|i: int|
        0 <= i < bucket_of(s.buckets, key).len() ==> s.arena[(#[trigger] bucket_of(
            s.buckets,
            key,
        )[i]) as int].cost <= x
}

proof fn lemma_inserted_full(s: Search, r: Record, beam: usize, key: u64, x: u128, n: nat)
    requires
        beam > 0,
        orderly(s, n),
        s.inserted(r, beam).arena.len() <= usize::MAX,
        full_within(s, key, beam, x),
    ensures
        full_within(s.inserted(r, beam), key, beam, x),
{
    let next = s.inserted(r, beam);
    let own = state_key(r);
    let old = bucket_of(s.buckets, own);
    if old.len() > 0 {
        lemma_worst_position(costs_of(s.arena, old));
    }
    let w = worst_position(costs_of(s.arena, old));
    if next != s {
        let bucket = bucket_of(s.buckets, key);
        let now = bucket_of(next.buckets, key);
        assert forall|i: int| 0 <= i < now.len() implies next.arena[(#[trigger] now[i]) as int].cost
            <= x by {
            if own != key {
                assert(now == bucket);
                assert(bucket_of(s.buckets, key)[i] < s.arena.len());
                assert(next.arena[now[i] as int] == s.arena[bucket[i] as int]);
            } else if i == w {
                assert(s.arena[bucket_of(s.buckets, key)[w] as int].cost <= x);
                assert(next.arena[now[i] as int] == r);
            } else {
                assert(bucket_of(s.buckets, key)[i] < s.arena.len());
                assert(now[i] == bucket[i]);
                assert(next.arena[now[i] as int] == s.arena[bucket[i] as int]);
            }
        }
    }
}

proof fn lemma_inserted_all_full(
    s: Search,
    records: Seq<Record>,
    beam: usize,
    key: u64,
    x: u128,
    n: nat,
)
    requires
        beam > 0,
        orderly(s, n),
        s.inserted_all(records, beam).arena.len() <= usize::MAX,
        full_within(s, key, beam, x),
    ensures
        full_within(s.inserted_all(records, beam), key, beam, x),
    decreases records.len(),
{
    if records.len() > 0 {
        let mid = s.inserted_all(records.drop_last(), beam);
        lemma_inserted_arena(mid, records.last(), beam);
        lemma_inserted_all_full(s, records.drop_last(), beam, key, x, n);
        lemma_inserted_all_orderly(s, records.drop_last(), beam, n);
        lemma_inserted_full(mid, records.last(), beam, key, x, n);
    }
}

proof fn lemma_rounds_full(s: Search, scene: Scene, k: nat, key: u64, x: u128, n: nat)
    requires
        scene.wf(),
        orderly(s, n),
        s.rounds(scene, k).arena.len() <= usize::MAX,
        full_within(s, key, scene.beam, x),
    ensures
        full_within(s.rounds(scene, k), key, scene.beam, x),
        orderly(s.rounds(scene, k), n),
    decreases k,
{
    if k > 0 {
        let next = s.round(scene);
        if next.frontier.len() > 0 {
            lemma_rounds_arena(next, scene, (k - 1) as nat);
        }
        lemma_round_orderly(s, scene, n);
        assert(full_within(next, key, scene.beam, x)) by {
            reveal(Search::round);
            let children = s.children(scene, s.incumbent(scene), scene.size());
            let cleared = Search { frontier: Seq::empty(), ..s };
            assert(orderly(cleared, n));
            assert forall|i: int| 0 <= i < bucket_of(cleared.buckets, key).len() implies cleared.arena[(
            #[trigger] bucket_of(cleared.buckets, key)[i]) as int].cost <= x by {
                assert(s.arena[bucket_of(s.buckets, key)[i] as int].cost <= x);
            }
            lemma_inserted_all_full(cleared, children, scene.beam, key, x, n);
            let after = cleared.inserted_all(children, scene.beam);
            assert forall|i: int| 0 <= i < bucket_of(next.buckets, key).len() implies next.arena[(
            #[trigger] bucket_of(next.buckets, key)[i]) as int].cost <= x by {
                assert(after.arena[bucket_of(after.buckets, key)[i] as int].cost <= x);
            }
        }
        if next.frontier.len() > 0 {
            lemma_rounds_full(next, scene, (k - 1) as nat, key, x, n);
        }
    }
}

/// A state tells species and masks.
pub proof fn lemma_state_parts(scene: Scene, r: Record, species: usize, c: Candidate)
    requires
        scene.wf(),
        r.species < scene.size(),
        species < scene.size(),
        state_key(r) == (species * 0x100_0000 + candidate_key(c)) as u64,
    ensures
        r.species == species,
        r.carried == c.carried,
        r.required == c.required,
        r.iv_met == c.iv_met,
{
}

/// Different species or masks are different states.
proof fn lemma_states_differ(scene: Scene, a: Record, b: Record)
    requires
        scene.wf(),
        a.species < scene.size(),
        b.species < scene.size(),
        state_key(a) == state_key(b),
    ensures
        a.species == b.species,
        a.carried == b.carried,
        a.required == b.required,
        a.iv_met == b.iv_met,
{
}

/// A state that has room keeps what it is offered; a full one gives up
/// its dearest or the new one, and none that it keeps is dearer. Every
/// other state stays as it is.
pub proof fn law_states_keep_their_best(s: Search, r: Record, beam: usize)
    requires
        0 < beam,
        placed(s),
        s.live.len() == s.arena.len(),
        s.arena.len() < usize::MAX,
        bucket_of(s.buckets, state_key(r)).len() <= beam,
    ensures
        ({
            let after = s.inserted(r, beam);
            let key = state_key(r);
            let (old_ids, new_ids) = (bucket_of(s.buckets, key), bucket_of(after.buckets, key));
            let id = s.arena.len() as usize;
            &&& forall|other: u64|
                other != key ==> #[trigger] bucket_of(after.buckets, other) == bucket_of(
                    s.buckets,
                    other,
                )
            &&& old_ids.len() < beam ==> new_ids == old_ids.push(id)
            &&& old_ids.len() == beam ==> new_ids.len() == beam
            &&& new_ids.contains(id) ==> after.arena[id as int] == r && after.live[id as int]
            &&& !new_ids.contains(id) ==> forall|i: int|
                0 <= i < new_ids.len() ==> after.arena[(#[trigger] new_ids[i]) as int].cost
                    <= r.cost
            &&& forall|j: int, i: int|
                0 <= j < old_ids.len() && !new_ids.contains(#[trigger] old_ids[j]) && 0 <= i
                    < new_ids.len() ==> after.arena[(#[trigger] new_ids[i]) as int].cost
                    <= s.arena[old_ids[j] as int].cost
        }),
{
    let after = s.inserted(r, beam);
    let key = state_key(r);
    let (old_ids, new_ids) = (bucket_of(s.buckets, key), bucket_of(after.buckets, key));
    let id = s.arena.len() as usize;
    if old_ids.len() < beam {
        assert(new_ids == old_ids.push(id));
        assert(new_ids[old_ids.len() as int] == id);
        assert forall|j: int| 0 <= j < old_ids.len() implies new_ids.contains(
            #[trigger] old_ids[j],
        ) by {
            assert(new_ids[j] == old_ids[j]);
        }
    } else {
        let costs = costs_of(s.arena, old_ids);
        lemma_worst_position(costs);
        let w = worst_position(costs);
        assert forall|i: int| 0 <= i < old_ids.len() implies s.arena[(
        #[trigger] old_ids[i]) as int].cost <= s.arena[old_ids[w] as int].cost by {
            assert(costs[i] <= costs[w]);
        }
        if r.cost < s.arena[old_ids[w] as int].cost {
            assert(new_ids == old_ids.update(w, id));
            assert(new_ids[w] == id);
            assert(old_ids[w] < s.arena.len());
            assert forall|j: int, i: int|
                0 <= j < old_ids.len() && !new_ids.contains(#[trigger] old_ids[j]) && 0 <= i
                    < new_ids.len() implies after.arena[(#[trigger] new_ids[i]) as int].cost
                <= s.arena[old_ids[j] as int].cost by {
                if j != w {
                    assert(new_ids[j] == old_ids[j]);
                }
                if i != w {
                    assert(new_ids[i] == old_ids[i]);
                    assert(old_ids[i] < s.arena.len());
                }
            }
        } else {
            assert(after == s);
            if new_ids.contains(id) {
                let i = choose|i: int| 0 <= i < new_ids.len() && new_ids[i] == id;
                assert(old_ids[i] < s.arena.len());
            }
            assert forall|j: int| 0 <= j < old_ids.len() implies new_ids.contains(
                #[trigger] old_ids[j],
            ) by {
                assert(new_ids[j] == old_ids[j]);
            }
        }
    }
}

} // verus!
