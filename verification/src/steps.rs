//! Species-level reachability: how many breeding steps separate two
//! species, assuming arbitrary partners at every step.

use vstd::hash_map::StringHashMap;
use vstd::prelude::*;

use crate::child::ChildIndex;
use crate::model::holds_pal;
use crate::model::indexes;
use crate::model::pal_texts;
use crate::model::PalDb;
use crate::model::PalName;
use crate::model::lemma_pal_position;

verus! {

/// A relation between species: from a parent to a child.
pub type Edges = spec_fn(Seq<char>, Seq<char>) -> bool;

/// `to` is `from`, or follows from it in at most `k` steps.
pub open spec fn within(edge: Edges, k: nat, from: Seq<char>, to: Seq<char>) -> bool
    decreases k,
{
    from == to || (k > 0 && exists|mid: Seq<char>| #[trigger]
        edge(from, mid) && within(edge, (k - 1) as nat, mid, to))
}

/// `k` steps lead from `from` to `to`, and fewer do not.
pub open spec fn least_steps(edge: Edges, k: nat, from: Seq<char>, to: Seq<char>) -> bool {
    within(edge, k, from, to) && forall|j: nat| j < k ==> !within(edge, j, from, to)
}

/// The least number of steps from `from` to `to`, if any leads there.
pub open spec fn steps_apart(edge: Edges, from: Seq<char>, to: Seq<char>) -> Option<nat> {
    if exists|k: nat| within(edge, k, from, to) {
        Some(choose|k: nat| least_steps(edge, k, from, to))
    } else {
        None
    }
}

/// More steps reach no less.
pub proof fn lemma_within_grows(edge: Edges, j: nat, k: nat, from: Seq<char>, to: Seq<char>)
    requires
        j <= k,
        within(edge, j, from, to),
    ensures
        within(edge, k, from, to),
    decreases j,
{
    if from != to {
        let mid = choose|mid: Seq<char>| #[trigger]
            edge(from, mid) && within(edge, (j - 1) as nat, mid, to);
        lemma_within_grows(edge, (j - 1) as nat, (k - 1) as nat, mid, to);
    }
}

proof fn lemma_least_exists(edge: Edges, k: nat, from: Seq<char>, to: Seq<char>) -> (r: nat)
    requires
        within(edge, k, from, to),
    ensures
        least_steps(edge, r, from, to),
    decreases k,
{
    if exists|j: nat| j < k && within(edge, j, from, to) {
        let j = choose|j: nat| j < k && within(edge, j, from, to);
        lemma_least_exists(edge, j, from, to)
    } else {
        k
    }
}

/// A least number of steps is the number of steps.
pub proof fn lemma_steps_apart_is(edge: Edges, k: nat, from: Seq<char>, to: Seq<char>)
    requires
        least_steps(edge, k, from, to),
    ensures
        steps_apart(edge, from, to) == Some(k),
{
    let c = choose|k: nat| least_steps(edge, k, from, to);
    assert(least_steps(edge, c, from, to));
    if c < k {
        assert(!within(edge, c, from, to));
    }
    if k < c {
        assert(!within(edge, k, from, to));
    }
}

/// What the number of steps is.
pub proof fn lemma_steps_apart(edge: Edges, from: Seq<char>, to: Seq<char>)
    ensures
        match steps_apart(edge, from, to) {
            Some(k) => least_steps(edge, k, from, to),
            None => forall|k: nat| !within(edge, k, from, to),
        },
{
    if exists|k: nat| within(edge, k, from, to) {
        let k = choose|k: nat| within(edge, k, from, to);
        let least = lemma_least_exists(edge, k, from, to);
        lemma_steps_apart_is(edge, least, from, to);
    }
}

/// `child` comes from breeding `parent` with some species of the
/// database, either way round.
pub open spec fn bred_from(
    db: PalDb,
    index: ChildIndex,
    parent: Seq<char>,
    child: Seq<char>,
) -> bool {
    db.knows(parent) && exists|partner: Seq<char>| #[trigger]
        db.knows(partner) && (index.child(parent, partner) == Some(child) || index.child(
            partner,
            parent,
        ) == Some(child))
}

/// The breeding relation of a database.
pub open spec fn breeding_edges(db: PalDb, index: ChildIndex) -> Edges {
    |parent: Seq<char>, child: Seq<char>| bred_from(db, index, parent, child)
}

/// For each species, the distinct child species reachable in one
/// breeding step with any partner (either gender arrangement).
pub struct SpeciesAdjacency {
    species: Vec<PalName>,
    row_of: StringHashMap<usize>,
    children: Vec<Vec<PalName>>,
}

impl SpeciesAdjacency {
    /// The species the relation is about, in the order of the database.
    pub closed spec fn names(&self) -> Seq<Seq<char>> {
        pal_texts(self.species@)
    }

    /// The children of one species, by text.
    pub closed spec fn row(&self, species: Seq<char>) -> Seq<Seq<char>> {
        if self.row_of@.dom().contains(species) {
            pal_texts(self.children@[self.row_of@[species] as int]@)
        } else {
            Seq::empty()
        }
    }

    /// The relation.
    pub open spec fn edges(&self) -> Edges {
        |parent: Seq<char>, child: Seq<char>| self.row(parent).contains(child)
    }

    /// The invariant.
    pub closed spec fn wf(&self) -> bool {
        &&& self.children@.len() == self.species@.len()
        &&& self.species@.len() <= u32::MAX
        &&& indexes(self.row_of@, pal_texts(self.species@))
        &&& forall|i: int|
            0 <= i < self.children@.len() ==> pal_texts(
                (#[trigger] self.children@[i])@,
            ).no_duplicates()
    }

    pub fn build(pal_db: &PalDb, index: &ChildIndex) -> (r: Self)
        requires
            pal_db.wf(),
            index.wf(),
        ensures
            r.wf(),
            r.names() == crate::model::pal_names(pal_db.all()),
            r.edges() == breeding_edges(*pal_db, *index),
    {
        let pals = pal_db.pals();
        let mut species: Vec<PalName> = Vec::new();
        let mut row_of: StringHashMap<usize> = StringHashMap::new();
        let mut children: Vec<Vec<PalName>> = Vec::new();
        let mut i: usize = 0;
        while i < pals.len()
            invariant
                pals@ == pal_db.all(),
                pal_db.wf(),
                index.wf(),
                i <= pals@.len(),
                species@.len() == i,
                children@.len() == i,
                forall|j: int| 0 <= j < i ==> (#[trigger] species@[j])@ == pals@[j].name@,
                indexes(row_of@, pal_texts(species@)),
                forall|j: int|
                    0 <= j < i ==> pal_texts((#[trigger] children@[j])@).no_duplicates(),
                forall|j: int, c: Seq<char>|
                    #![trigger pal_texts(children@[j]@).contains(c)]
                    0 <= j < i ==> (pal_texts(children@[j]@).contains(c) <==> bred_from(
                        *pal_db,
                        *index,
                        pals@[j].name@,
                        c,
                    )),
            decreases pals@.len() - i,
        {
            let row = offspring(pal_db, index, i);
            let ghost before = pal_texts(species@);
            species.push(pals[i].name.clone());
            row_of.insert(pals[i].name.as_str().to_owned(), i);
            children.push(row);
            proof {
                assert(pal_texts(species@) =~= before.push(pals@[i as int].name@));
                assert forall|j: int| 0 <= j < i implies pals@[j].name@ != pals@[i as int].name@ by {}
                if row_of@.dom().contains(pals@[i as int].name@) {
                }
                assert forall|n: Seq<char>| #[trigger] row_of@.dom().contains(n) implies row_of@[n]
                    < pal_texts(species@).len() && pal_texts(species@)[row_of@[n] as int] == n by {}
                assert forall|j: int| 0 <= j < pal_texts(species@).len() implies row_of@.dom().contains(
                    #[trigger] pal_texts(species@)[j],
                ) && row_of@[pal_texts(species@)[j]] == j by {
                    if j < i {
                        assert(before[j] == pals@[j].name@);
                    }
                }
            }
            i = i + 1;
        }
        let r = SpeciesAdjacency { species, row_of, children };
        proof {
            assert(r.names() =~= crate::model::pal_names(pal_db.all()));
            assert forall|a: Seq<char>, b: Seq<char>| #[trigger]
                r.row(a).contains(b) == bred_from(*pal_db, *index, a, b) by {
                lemma_pal_position(pal_db.all(), a);
                if row_of@.dom().contains(a) {
                    let j = row_of@[a] as int;
                    assert(pal_texts(species@)[j] == a);
                    assert(pals@[j].name@ == a);
                    assert(pal_texts(children@[j]@).contains(b) <==> bred_from(
                        *pal_db,
                        *index,
                        pals@[j].name@,
                        b,
                    ));
                } else {
                    if let Some(j) = crate::model::pal_position(pal_db.all(), a) {
                        assert(pal_texts(species@)[j] == a);
                    }
                }
            }
            assert(r.edges() =~= breeding_edges(*pal_db, *index));
        }
        r
    }

    pub fn children_of(&self, species: &PalName) -> (r: Vec<PalName>)
        requires
            self.wf(),
        ensures
            pal_texts(r@) == self.row(species@),
            pal_texts(r@).no_duplicates(),
    {
        match self.row_of.get(species.as_str()) {
            Some(i) => {
                proof {
                    assert(pal_texts(self.species@)[*i as int] == species@);
                }
                crate::model::copy_pals(&self.children[*i])
            },
            None => Vec::new(),
        }
    }

    /// Minimum breeding steps from every species to `goal`. Species
    /// that cannot reach `goal` are absent.
    pub fn distances_to(&self, goal: &PalName) -> (r: StringHashMap<u32>)
        requires
            self.wf(),
        ensures
            forall|s: Seq<char>|
                #![trigger r@.dom().contains(s)]
                #![trigger steps_apart(self.edges(), s, goal@)]
                steps_apart(self.edges(), s, goal@) == (if r@.dom().contains(s) {
                    Some(r@[s] as nat)
                } else {
                    None
                }),
    {
        let ghost edge = self.edges();
        let mut distances: StringHashMap<u32> = StringHashMap::new();
        distances.insert(goal.as_str().to_owned(), 0);
        let mut pending: Vec<usize> = Vec::new();
        let mut i: usize = 0;
        while i < self.species.len()
            invariant
                self.wf(),
                i <= self.species@.len(),
                distances@ == Map::<Seq<char>, u32>::empty().insert(goal@, 0),
                pending@.len() <= i,
                forall|p: int| 0 <= p < pending@.len() ==> #[trigger] pending@[p] < i,
                forall|p: int|
                    0 <= p < pending@.len() ==> self.species@[#[trigger] pending@[p] as int]@ != goal@,
                forall|j: int|
                    0 <= j < i ==> (#[trigger] self.species@[j])@ == goal@ || pending@.contains(
                        j as usize,
                    ),
            decreases self.species@.len() - i,
        {
            if self.species[i] != *goal {
                let ghost before = pending@;
                pending.push(i);
                proof {
                    assert forall|j: int| 0 <= j < i + 1 implies (#[trigger] self.species@[j])@
                        == goal@ || pending@.contains(j as usize) by {
                        if j < i && self.species@[j]@ != goal@ {
                            let p = choose|p: int| 0 <= p < before.len() && before[p] == j as usize;
                            assert(pending@[p] == j as usize);
                        } else if j == i {
                            assert(pending@[before.len() as int] == i);
                        }
                    }
                }
            }
            i = i + 1;
        }
        let mut depth: u32 = 0;
        proof {
            assert forall|s: Seq<char>| #[trigger] distances@.dom().contains(s) <==> within(
                edge,
                0,
                s,
                goal@,
            ) by {}
        }
        loop
            invariant
                self.wf(),
                edge == self.edges(),
                depth + pending@.len() <= u32::MAX,
                forall|s: Seq<char>| #[trigger]
                    distances@.dom().contains(s) <==> within(edge, depth as nat, s, goal@),
                forall|s: Seq<char>| #[trigger]
                    distances@.dom().contains(s) ==> least_steps(
                        edge,
                        distances@[s] as nat,
                        s,
                        goal@,
                    ),
                forall|p: int|
                    0 <= p < pending@.len() ==> #[trigger] pending@[p] < self.species@.len(),
                forall|j: int|
                    0 <= j < self.species@.len() ==> distances@.dom().contains(
                        (#[trigger] self.species@[j])@,
                    ) || pending@.contains(j as usize),
            ensures
                forall|s: Seq<char>| #[trigger]
                    distances@.dom().contains(s) <==> within(edge, depth as nat, s, goal@),
                forall|s: Seq<char>| #[trigger]
                    distances@.dom().contains(s) ==> least_steps(
                        edge,
                        distances@[s] as nat,
                        s,
                        goal@,
                    ),
                forall|s: Seq<char>|
                    within(edge, (depth + 1) as nat, s, goal@) ==> #[trigger] within(
                        edge,
                        depth as nat,
                        s,
                        goal@,
                    ),
            decreases pending@.len(),
        {
            let mut fresh: Vec<usize> = Vec::new();
            let mut rest: Vec<usize> = Vec::new();
            let mut p: usize = 0;
            while p < pending.len()
                invariant
                    self.wf(),
                    edge == self.edges(),
                    p <= pending@.len(),
                    fresh@.len() + rest@.len() == p,
                    forall|q: int|
                        0 <= q < pending@.len() ==> #[trigger] pending@[q] < self.species@.len(),
                    forall|s: Seq<char>| #[trigger]
                        distances@.dom().contains(s) <==> within(edge, depth as nat, s, goal@),
                    forall|q: int|
                        0 <= q < fresh@.len() ==> #[trigger] fresh@[q] < self.species@.len()
                            && within(
                            edge,
                            (depth + 1) as nat,
                            self.species@[fresh@[q] as int]@,
                            goal@,
                        ),
                    forall|q: int|
                        0 <= q < rest@.len() ==> #[trigger] rest@[q] < self.species@.len()
                            && !within(
                            edge,
                            (depth + 1) as nat,
                            self.species@[rest@[q] as int]@,
                            goal@,
                        ),
                    forall|q: int|
                        0 <= q < p ==> fresh@.contains(#[trigger] pending@[q]) || rest@.contains(
                            pending@[q],
                        ),
                decreases pending@.len() - p,
            {
                let s: usize = pending[p];
                let ghost name = self.species@[s as int]@;
                let ghost fresh0 = fresh@;
                let ghost rest0 = rest@;
                proof {
                    assert(pal_texts(self.species@)[s as int] == name);
                    assert(self.row(name) == pal_texts(self.children@[s as int]@));
                }
                let near = distances.contains_key(self.species[s].as_str()) || self.leads_into(
                    s,
                    &distances,
                );
                proof {
                    let row = pal_texts(self.children@[s as int]@);
                    if near {
                        if within(edge, depth as nat, name, goal@) {
                            lemma_within_grows(
                                edge,
                                depth as nat,
                                (depth + 1) as nat,
                                name,
                                goal@,
                            );
                        } else {
                            let c = choose|c: int|
                                0 <= c < row.len() && distances@.dom().contains(#[trigger] row[c]);
                            assert(row.contains(row[c]));
                            assert(edge(name, row[c]));
                            assert(within(edge, depth as nat, row[c], goal@));
                            assert(within(edge, (depth + 1) as nat, name, goal@));
                        }
                    } else if within(edge, (depth + 1) as nat, name, goal@) {
                        assert(name != goal@);
                        let mid = choose|mid: Seq<char>| #[trigger]
                            edge(name, mid) && within(edge, depth as nat, mid, goal@);
                        assert(row.contains(mid));
                        let c = choose|c: int| 0 <= c < row.len() && row[c] == mid;
                        assert(distances@.dom().contains(row[c]));
                        assert(false);
                    }
                }
                if near {
                    fresh.push(s);
                } else {
                    rest.push(s);
                }
                proof {
                    assert forall|q: int| 0 <= q < p + 1 implies fresh@.contains(
                        #[trigger] pending@[q],
                    ) || rest@.contains(pending@[q]) by {
                        if q < p {
                            if fresh0.contains(pending@[q]) {
                                let k = choose|k: int|
                                    0 <= k < fresh0.len() && fresh0[k] == pending@[q];
                                assert(fresh@[k] == pending@[q]);
                            } else {
                                let k = choose|k: int|
                                    0 <= k < rest0.len() && rest0[k] == pending@[q];
                                assert(rest@[k] == pending@[q]);
                            }
                        } else if near {
                            assert(fresh@[fresh0.len() as int] == s);
                        } else {
                            assert(rest@[rest0.len() as int] == s);
                        }
                    }
                }
                p = p + 1;
            }
            proof {
                assert forall|j: int|
                    0 <= j < self.species@.len() && within(
                        edge,
                        (depth + 1) as nat,
                        (#[trigger] self.species@[j])@,
                        goal@,
                    ) && !distances@.dom().contains(self.species@[j]@) implies fresh@.contains(
                    j as usize,
                ) by {
                    let q = choose|q: int| 0 <= q < pending@.len() && pending@[q] == j as usize;
                    assert(fresh@.contains(pending@[q]) || rest@.contains(pending@[q]));
                    if rest@.contains(j as usize) {
                        let k = choose|k: int| 0 <= k < rest@.len() && rest@[k] == j as usize;
                        assert(false);
                    }
                }
            }
            if fresh.len() == 0 {
                proof {
                    assert forall|s: Seq<char>|
                        within(edge, (depth + 1) as nat, s, goal@) implies #[trigger] within(
                        edge,
                        depth as nat,
                        s,
                        goal@,
                    ) by {
                        if s != goal@ {
                            let mid = choose|mid: Seq<char>| #[trigger]
                                edge(s, mid) && within(edge, depth as nat, mid, goal@);
                            assert(self.row(s).contains(mid));
                            let j = self.row_of@[s] as int;
                            assert(pal_texts(self.species@)[j] == s);
                            assert(self.species@[j]@ == s);
                            if !distances@.dom().contains(s) {
                                assert(fresh@.contains(j as usize));
                            }
                        }
                    }
                }
                break;
            }
            let ghost known = distances@;
            let mut f: usize = 0;
            while f < fresh.len()
                invariant
                    self.wf(),
                    edge == self.edges(),
                    f <= fresh@.len(),
                    depth < u32::MAX,
                    forall|q: int|
                        0 <= q < fresh@.len() ==> #[trigger] fresh@[q] < self.species@.len()
                            && within(
                            edge,
                            (depth + 1) as nat,
                            self.species@[fresh@[q] as int]@,
                            goal@,
                        ),
                    forall|s: Seq<char>| #[trigger]
                        known.dom().contains(s) <==> within(edge, depth as nat, s, goal@),
                    forall|s: Seq<char>| #[trigger]
                        known.dom().contains(s) ==> distances@.dom().contains(s) && distances@[s]
                            == known[s],
                    forall|s: Seq<char>| #[trigger]
                        distances@.dom().contains(s) && !known.dom().contains(s)
                            ==> distances@[s] == depth + 1 && within(
                            edge,
                            (depth + 1) as nat,
                            s,
                            goal@,
                        ),
                    forall|q: int|
                        0 <= q < f ==> distances@.dom().contains(
                            self.species@[#[trigger] fresh@[q] as int]@,
                        ),
                decreases fresh@.len() - f,
            {
                let s: usize = fresh[f];
                if !distances.contains_key(self.species[s].as_str()) {
                    distances.insert(self.species[s].as_str().to_owned(), depth + 1);
                }
                f = f + 1;
            }
            proof {
                assert forall|s: Seq<char>| #[trigger] distances@.dom().contains(s) <==> within(
                    edge,
                    (depth + 1) as nat,
                    s,
                    goal@,
                ) by {
                    if known.dom().contains(s) {
                        lemma_within_grows(edge, depth as nat, (depth + 1) as nat, s, goal@);
                    } else if within(edge, (depth + 1) as nat, s, goal@) {
                        if s == goal@ {
                            assert(within(edge, depth as nat, s, goal@));
                        } else {
                            let mid = choose|mid: Seq<char>| #[trigger]
                                edge(s, mid) && within(edge, depth as nat, mid, goal@);
                            assert(self.row(s).contains(mid));
                            let j = self.row_of@[s] as int;
                            assert(pal_texts(self.species@)[j] == s);
                            assert(self.species@[j]@ == s);
                            assert(fresh@.contains(j as usize));
                            let q = choose|q: int| 0 <= q < fresh@.len() && fresh@[q] == j as usize;
                            assert(distances@.dom().contains(self.species@[fresh@[q] as int]@));
                        }
                    }
                }
                assert forall|s: Seq<char>| #[trigger]
                    distances@.dom().contains(s) implies least_steps(
                    edge,
                    distances@[s] as nat,
                    s,
                    goal@,
                ) by {
                    if !known.dom().contains(s) {
                        assert forall|j: nat| j < depth + 1 implies !within(edge, j, s, goal@) by {
                            if within(edge, j, s, goal@) {
                                lemma_within_grows(edge, j, depth as nat, s, goal@);
                            }
                        }
                    }
                }
                assert forall|j: int|
                    0 <= j < self.species@.len() implies distances@.dom().contains(
                    (#[trigger] self.species@[j])@,
                ) || rest@.contains(j as usize) by {
                    if !known.dom().contains(self.species@[j]@) {
                        let q = choose|q: int| 0 <= q < pending@.len() && pending@[q] == j as usize;
                        assert(fresh@.contains(pending@[q]) || rest@.contains(pending@[q]));
                        if fresh@.contains(j as usize) {
                            let k = choose|k: int| 0 <= k < fresh@.len() && fresh@[k] == j as usize;
                            assert(distances@.dom().contains(self.species@[fresh@[k] as int]@));
                        }
                    }
                }
            }
            pending = rest;
            depth = depth + 1;
        }
        proof {
            assert forall|s: Seq<char>|
                steps_apart(self.edges(), s, goal@) == (if distances@.dom().contains(s) {
                    Some(distances@[s] as nat)
                } else {
                    None
                }) by {
                if distances@.dom().contains(s) {
                    lemma_steps_apart_is(edge, distances@[s] as nat, s, goal@);
                } else {
                    lemma_steps_apart(edge, s, goal@);
                    if let Some(k) = steps_apart(edge, s, goal@) {
                        lemma_saturated(edge, depth as nat, k, s, goal@);
                    }
                }
            }
        }
        distances
    }

    /// Whether some child of the species at `s` has a distance.
    fn leads_into(&self, s: usize, distances: &StringHashMap<u32>) -> (r: bool)
        requires
            self.wf(),
            s < self.children@.len(),
        ensures
            r <==> exists|c: int|
                0 <= c < pal_texts(self.children@[s as int]@).len() && distances@.dom().contains(
                    #[trigger] pal_texts(self.children@[s as int]@)[c],
                ),
    {
        let row = &self.children[s];
        let mut c: usize = 0;
        while c < row.len()
            invariant
                row@ == self.children@[s as int]@,
                c <= row@.len(),
                forall|d: int|
                    0 <= d < c ==> !distances@.dom().contains(#[trigger] pal_texts(row@)[d]),
            decreases row@.len() - c,
        {
            proof {
                assert(pal_texts(row@)[c as int] == row@[c as int]@);
            }
            if distances.contains_key(row[c].as_str()) {
                return true;
            }
            c = c + 1;
        }
        false
    }
}

/// Once one more step reaches nothing new, no number of steps does.
proof fn lemma_saturated(edge: Edges, d: nat, k: nat, from: Seq<char>, to: Seq<char>)
    requires
        forall|s: Seq<char>|
            within(edge, (d + 1) as nat, s, to) ==> #[trigger] within(edge, d, s, to),
        within(edge, k, from, to),
    ensures
        within(edge, d, from, to),
    decreases k,
{
    if from != to {
        let mid = choose|mid: Seq<char>| #[trigger]
            edge(from, mid) && within(edge, (k - 1) as nat, mid, to);
        lemma_saturated(edge, d, (k - 1) as nat, mid, to);
        assert(within(edge, (d + 1) as nat, from, to));
    }
}

/// Fills `pal_texts(..)`-indexed offspring of the pal at `at`: its
/// distinct children with any partner.
fn offspring(pal_db: &PalDb, index: &ChildIndex, at: usize) -> (r: Vec<PalName>)
    requires
        pal_db.wf(),
        index.wf(),
        at < pal_db.all().len(),
    ensures
        pal_texts(r@).no_duplicates(),
        forall|c: Seq<char>| #[trigger]
            pal_texts(r@).contains(c) <==> bred_from(
                *pal_db,
                *index,
                pal_db.all()[at as int].name@,
                c,
            ),
{
    let pals = pal_db.pals();
    let name = &pals[at].name;
    let mut out: Vec<PalName> = Vec::new();
    let mut i: usize = 0;
    let ghost covered = |k: int, c: Seq<char>| -> bool
        { exists|j: int|
            0 <= j < k && (index.child(name@, (#[trigger] pals@[j]).name@) == Some(c)
                || index.child(pals@[j].name@, name@) == Some(c)) };
    while i < pals.len()
        invariant
            pals@ == pal_db.all(),
            index.wf(),
            i <= pals@.len(),
            pal_texts(out@).no_duplicates(),
            covered == (|k: int, c: Seq<char>| -> bool
                { exists|j: int|
                    0 <= j < k && (index.child(name@, (#[trigger] pals@[j]).name@) == Some(c)
                        || index.child(pals@[j].name@, name@) == Some(c)) }),
            forall|c: Seq<char>| #[trigger] pal_texts(out@).contains(c) <==> covered(i as int, c),
        decreases pals@.len() - i,
    {
        let ghost before = pal_texts(out@);
        add_child(&mut out, index.child_between(name, &pals[i].name));
        add_child(&mut out, index.child_between(&pals[i].name, name));
        proof {
            let here = pals@[i as int].name@;
            assert forall|c: Seq<char>| #[trigger] pal_texts(out@).contains(c) <==> covered(
                i + 1,
                c,
            ) by {
                assert(pal_texts(out@).contains(c) <==> before.contains(c) || index.child(
                    name@,
                    here,
                ) == Some(c) || index.child(here, name@) == Some(c));
                if before.contains(c) {
                    assert(covered(i as int, c));
                    let j = choose|j: int|
                        0 <= j < i && (index.child(name@, (#[trigger] pals@[j]).name@) == Some(c)
                            || index.child(pals@[j].name@, name@) == Some(c));
                    assert(0 <= j < i + 1);
                }
                if covered(i + 1, c) && !before.contains(c) {
                    let j = choose|j: int|
                        0 <= j < i + 1 && (index.child(name@, (#[trigger] pals@[j]).name@) == Some(
                            c,
                        ) || index.child(pals@[j].name@, name@) == Some(c));
                    if j < i {
                        assert(covered(i as int, c));
                    }
                }
            }
        }
        i = i + 1;
    }
    proof {
        lemma_pal_position(pal_db.all(), name@);
        assert(pal_db.knows(name@)) by {
            assert(pals@[at as int].name@ == name@);
        }
        assert forall|c: Seq<char>| #[trigger] pal_texts(out@).contains(c) <==> bred_from(
            *pal_db,
            *index,
            name@,
            c,
        ) by {
            if pal_texts(out@).contains(c) {
                assert(covered(i as int, c));
                let j = choose|j: int|
                    0 <= j < i && (index.child(name@, (#[trigger] pals@[j]).name@) == Some(c)
                        || index.child(pals@[j].name@, name@) == Some(c));
                let partner = pals@[j].name@;
                lemma_pal_position(pal_db.all(), partner);
                assert(pal_db.knows(partner));
            }
            if bred_from(*pal_db, *index, name@, c) {
                let partner = choose|partner: Seq<char>| #[trigger]
                    pal_db.knows(partner) && (index.child(name@, partner) == Some(c)
                        || index.child(partner, name@) == Some(c));
                lemma_pal_position(pal_db.all(), partner);
                let j = crate::model::pal_position(pal_db.all(), partner)->0;
                assert(pals@[j].name@ == partner);
                assert(covered(i as int, c));
            }
        }
    }
    out
}

/// Appends a child that the list does not hold yet.
fn add_child(out: &mut Vec<PalName>, child: Option<&PalName>)
    requires
        pal_texts(old(out)@).no_duplicates(),
    ensures
        pal_texts(final(out)@).no_duplicates(),
        forall|c: Seq<char>| #[trigger]
            pal_texts(final(out)@).contains(c) <==> pal_texts(old(out)@).contains(c) || (
            child is Some && child->0@ == c),
{
    match child {
        Some(name) => {
            if !holds_pal(out, name) {
                let ghost before = pal_texts(out@);
                out.push(name.clone());
                proof {
                    let after = pal_texts(out@);
                    assert(after =~= before.push(name@));
                    assert forall|c: Seq<char>| #[trigger] after.contains(c) <==> before.contains(c)
                        || name@ == c by {
                        if before.contains(c) {
                            let k = choose|k: int| 0 <= k < before.len() && before[k] == c;
                            assert(after[k] == c);
                        }
                        if name@ == c {
                            assert(after[before.len() as int] == c);
                        }
                    }
                }
            }
        },
        None => {},
    }
}

/// The full species by species minimum-steps matrix.
pub struct MinStepsTable {
    row_of: StringHashMap<usize>,
    to_goal: Vec<StringHashMap<u32>>,
}

impl MinStepsTable {
    /// The number of steps the table gives.
    pub closed spec fn steps(&self, from: Seq<char>, to: Seq<char>) -> Option<u32> {
        if self.row_of@.dom().contains(to) && self.to_goal@[self.row_of@[to] as int]@.dom().contains(
            from,
        ) {
            Some(self.to_goal@[self.row_of@[to] as int]@[from])
        } else {
            None
        }
    }

    /// The invariant.
    pub closed spec fn wf(&self) -> bool {
        forall|n: Seq<char>| #[trigger]
            self.row_of@.dom().contains(n) ==> self.row_of@[n] < self.to_goal@.len()
    }

    pub fn compute(adjacency: &SpeciesAdjacency) -> (r: Self)
        requires
            adjacency.wf(),
        ensures
            r.wf(),
            forall|from: Seq<char>, to: Seq<char>|
                #![trigger r.steps(from, to)]
                (match r.steps(from, to) {
                    Some(k) => Some(k as nat),
                    None => None,
                }) == (if adjacency.names().contains(to) {
                    steps_apart(adjacency.edges(), from, to)
                } else {
                    None
                }),
    {
        let mut row_of: StringHashMap<usize> = StringHashMap::new();
        let mut to_goal: Vec<StringHashMap<u32>> = Vec::new();
        let mut i: usize = 0;
        while i < adjacency.species.len()
            invariant
                adjacency.wf(),
                i <= adjacency.species@.len(),
                to_goal@.len() == i,
                forall|j: int|
                    0 <= j < i ==> row_of@.dom().contains((#[trigger] adjacency.species@[j])@)
                        && row_of@[adjacency.species@[j]@] == j,
                forall|n: Seq<char>| #[trigger]
                    row_of@.dom().contains(n) ==> row_of@[n] < i
                        && adjacency.species@[row_of@[n] as int]@ == n,
                forall|j: int, s: Seq<char>|
                    #![trigger to_goal@[j]@.dom().contains(s)]
                    0 <= j < i ==> steps_apart(
                        adjacency.edges(),
                        s,
                        adjacency.species@[j]@,
                    ) == (if to_goal@[j]@.dom().contains(s) {
                        Some(to_goal@[j]@[s] as nat)
                    } else {
                        None
                    }),
            decreases adjacency.species@.len() - i,
        {
            let goal = &adjacency.species[i];
            let distances = adjacency.distances_to(goal);
            proof {
                assert forall|j: int| 0 <= j < i implies (#[trigger] adjacency.species@[j])@
                    != goal@ by {
                    assert(pal_texts(adjacency.species@)[j] == adjacency.species@[j]@);
                    assert(pal_texts(adjacency.species@)[i as int] == goal@);
                }
            }
            row_of.insert(goal.as_str().to_owned(), i);
            to_goal.push(distances);
            i = i + 1;
        }
        let r = MinStepsTable { row_of, to_goal };
        proof {
            assert forall|from: Seq<char>, to: Seq<char>|
                #![trigger r.steps(from, to)]
                (match r.steps(from, to) {
                    Some(k) => Some(k as nat),
                    None => None,
                }) == (if adjacency.names().contains(to) {
                    steps_apart(adjacency.edges(), from, to)
                } else {
                    None
                }) by {
                if adjacency.names().contains(to) {
                    let j = choose|j: int|
                        0 <= j < adjacency.names().len() && adjacency.names()[j] == to;
                    assert(adjacency.species@[j]@ == to);
                    assert(to_goal@[j]@.dom().contains(from) || !to_goal@[j]@.dom().contains(from));
                } else if row_of@.dom().contains(to) {
                    assert(adjacency.names()[row_of@[to] as int] == to);
                }
            }
        }
        r
    }

    /// Minimum breeding steps from `from` to `to`; `None` when `to` is
    /// unreachable from `from`.
    pub fn steps_between(&self, from: &PalName, to: &PalName) -> (r: Option<u32>)
        requires
            self.wf(),
        ensures
            r == self.steps(from@, to@),
    {
        match self.row_of.get(to.as_str()) {
            Some(i) => match self.to_goal[*i].get(from.as_str()) {
                Some(k) => Some(*k),
                None => None,
            },
            None => None,
        }
    }
}

// ---------------------------------------------------------------------
// Laws
// ---------------------------------------------------------------------
/// A species is no step away from itself, and from nothing else.
pub proof fn law_no_steps_to_itself(edge: Edges, from: Seq<char>, to: Seq<char>)
    ensures
        steps_apart(edge, from, to) == Some(0nat) <==> from == to,
{
    lemma_steps_apart(edge, from, to);
    if from == to {
        assert(within(edge, 0, from, to));
        lemma_steps_apart_is(edge, 0, from, to);
    }
}

/// A parent is at most one step further from a goal than its child.
pub proof fn law_parent_is_one_step_further(
    edge: Edges,
    parent: Seq<char>,
    child: Seq<char>,
    goal: Seq<char>,
)
    requires
        edge(parent, child),
        steps_apart(edge, child, goal) is Some,
    ensures
        steps_apart(edge, parent, goal) is Some,
        steps_apart(edge, parent, goal)->0 <= steps_apart(edge, child, goal)->0 + 1,
{
    lemma_steps_apart(edge, child, goal);
    lemma_steps_apart(edge, parent, goal);
    let k = steps_apart(edge, child, goal)->0;
    assert(within(edge, k, child, goal));
    assert(within(edge, (k + 1) as nat, parent, goal));
}

/// Both parents of a child lead to it in one step, whichever is the
/// father, and a step leads to nothing but a child.
pub proof fn law_both_parents_lead_to_the_child(
    db: PalDb,
    index: ChildIndex,
    parent: Seq<char>,
    child: Seq<char>,
)
    requires
        db.knows(parent),
    ensures
        breeding_edges(db, index)(parent, child) <==> exists|partner: Seq<char>|
            db.knows(partner) && (#[trigger] index.child(parent, partner) == Some(child)
                || #[trigger] index.child(partner, parent) == Some(child)),
        parent != child && breeding_edges(db, index)(parent, child) ==> steps_apart(
            breeding_edges(db, index),
            parent,
            child,
        ) == Some(1nat),
{
    let edge = breeding_edges(db, index);
    if edge(parent, child) {
        let partner = choose|partner: Seq<char>| #[trigger]
            db.knows(partner) && (index.child(parent, partner) == Some(child) || index.child(
                partner,
                parent,
            ) == Some(child));
        assert(db.knows(partner));
    }
    if parent != child && edge(parent, child) {
        law_no_steps_to_itself(edge, child, child);
        law_no_steps_to_itself(edge, parent, child);
        law_parent_is_one_step_further(edge, parent, child, child);
    }
}

} // verus!
