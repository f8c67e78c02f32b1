//! The species of a database by number: names in order, and per species
//! and pair what the search reads.

use vstd::hash_map::StringHashMap;
use vstd::prelude::*;

use crate::child::ChildIndex;
use crate::model::indexes;
use crate::model::lemma_pal_position;
use crate::model::pal_names;
use crate::model::pal_texts;
use crate::model::Gender;
use crate::model::PalDb;
use crate::model::PalName;
use crate::model::CERTAIN;
use crate::seqs::first_where;
use crate::seqs::lemma_first_where;
use crate::seqs::sorted_by;
use crate::text::before;
use crate::text::comes_before;

verus! {

/// One name comes before the other.
pub open spec fn name_order() -> spec_fn(Seq<char>, Seq<char>) -> bool {
    |a: Seq<char>, b: Seq<char>| before(a, b)
}

/// Names in order.
pub open spec fn sorted_names(names: Seq<Seq<char>>) -> Seq<Seq<char>> {
    sorted_by(names, name_order())
}

/// Names in order.
pub fn sort_names(names: &Vec<PalName>) -> (r: Vec<PalName>)
    ensures
        pal_texts(r@) == sorted_names(pal_texts(names@)),
{
    let ghost texts = pal_texts(names@);
    let mut out: Vec<PalName> = Vec::new();
    let mut i: usize = 0;
    proof {
        assert(pal_texts(out@) =~= sorted_names(texts.take(0)));
    }
    while i < names.len()
        invariant
            i <= names@.len(),
            texts == pal_texts(names@),
            pal_texts(out@) == sorted_names(texts.take(i as int)),
        decreases names@.len() - i,
    {
        let name = &names[i];
        let ghost placed = pal_texts(out@);
        proof {
            assert(texts.take(i + 1).drop_last() =~= texts.take(i as int));
            assert(texts.take(i + 1).last() == name@);
            lemma_first_where(placed, |y: Seq<char>| name_order()(name@, y));
        }
        let mut at: usize = 0;
        while at < out.len() && !comes_before(name.as_str(), out[at].as_str())
            invariant
                at <= out@.len(),
                placed == pal_texts(out@),
                forall|j: int| 0 <= j < at ==> !before(name@, #[trigger] placed[j]),
            decreases out@.len() - at,
        {
            at = at + 1;
        }
        proof {
            let p = |y: Seq<char>| name_order()(name@, y);
            if at < out@.len() {
                assert(placed[at as int] == out@[at as int]@);
                assert(first_where(placed, p) == Some(at as int));
            } else {
                assert(first_where(placed, p) is None);
            }
        }
        out.insert(at, name.clone());
        proof {
            assert(pal_texts(out@) =~= placed.insert(at as int, name@));
            assert(placed.insert(placed.len() as int, name@) =~= placed.push(name@));
        }
        i = i + 1;
    }
    proof {
        assert(texts.take(i as int) =~= texts);
    }
    out
}

/// The number of a species in the sorted list of names.
pub open spec fn species_id(names: Seq<Seq<char>>, name: Seq<char>) -> Option<int> {
    first_where(names, equals(name))
}

/// Equality with a name.
pub open spec fn equals(name: Seq<char>) -> spec_fn(Seq<char>) -> bool {
    |n: Seq<char>| n == name
}

/// The number of a species, if it has one.
pub open spec fn small_id(names: Seq<Seq<char>>, name: Option<Seq<char>>) -> Option<usize> {
    match name {
        Some(n) => match species_id(names, n) {
            Some(i) => Some(i as usize),
            None => None,
        },
        None => None,
    }
}

/// The species of a database as plain values.
pub struct WorldView {
    pub names: Seq<Seq<char>>,
    pub male: Seq<u32>,
    pub female: Seq<u32>,
    pub wild: Seq<bool>,
    pub child: Seq<Seq<Option<usize>>>,
}

/// The species of a database.
pub open spec fn world_of(db: PalDb, index: ChildIndex) -> WorldView {
    let names = sorted_names(pal_names(db.all()));
    WorldView {
        names,
        male: Seq::new(
            names.len(),
            |i: int| db.lookup(names[i])->0.gender_probability.part(Gender::Male),
        ),
        female: Seq::new(
            names.len(),
            |i: int| db.lookup(names[i])->0.gender_probability.part(Gender::Female),
        ),
        wild: Seq::new(names.len(), |i: int| db.lookup(names[i])->0.wild_levels is Some),
        child: Seq::new(
            names.len(),
            |m: int|
                Seq::new(
                    names.len(),
                    |f: int| small_id(names, index.child(names[m], names[f])),
                ),
        ),
    }
}

/// The species of a database by number.
pub struct World {
    pub names: Vec<PalName>,
    pub ids: StringHashMap<usize>,
    pub male: Vec<u32>,
    pub female: Vec<u32>,
    pub wild: Vec<bool>,
    pub child: Vec<Vec<Option<usize>>>,
}

/// The rows of a table.
pub open spec fn table_rows(table: Seq<Vec<Option<usize>>>) -> Seq<Seq<Option<usize>>> {
    table.map_values(|row: Vec<Option<usize>>| row@)
}

impl View for World {
    type V = WorldView;

    open spec fn view(&self) -> WorldView {
        WorldView {
            names: pal_texts(self.names@),
            male: self.male@,
            female: self.female@,
            wild: self.wild@,
            child: table_rows(self.child@),
        }
    }
}

impl WorldView {
    /// The tables agree in size and hold valid entries.
    pub open spec fn wf(self) -> bool {
        &&& self.names.len() <= u32::MAX
        &&& self.names.no_duplicates()
        &&& self.male.len() == self.names.len()
        &&& self.female.len() == self.names.len()
        &&& self.wild.len() == self.names.len()
        &&& self.child.len() == self.names.len()
        &&& forall|m: int|
            0 <= m < self.names.len() ==> (#[trigger] self.child[m]).len() == self.names.len()
        &&& forall|m: int, f: int|
            0 <= m < self.names.len() && 0 <= f < self.names.len() && (
            #[trigger] self.child[m][f]) is Some ==> self.child[m][f]->0 < self.names.len()
        &&& forall|s: int| 0 <= s < self.names.len() ==> #[trigger] self.male[s] <= CERTAIN
        &&& forall|s: int| 0 <= s < self.names.len() ==> #[trigger] self.female[s] <= CERTAIN
    }
}

/// The sorted names are the names.
pub proof fn lemma_sorted_names(db: PalDb)
    requires
        db.wf(),
    ensures
        ({
            let names = sorted_names(pal_names(db.all()));
            &&& names.len() == db.all().len()
            &&& names.no_duplicates()
            &&& forall|n: Seq<char>| #[trigger] names.contains(n) <==> db.knows(n)
            &&& forall|i: int| 0 <= i < names.len() ==> db.knows(#[trigger] names[i])
            &&& crate::seqs::ordered(names, name_order())
        }),
{
    let all = pal_names(db.all());
    let names = sorted_names(all);
    lemma_name_order();
    crate::seqs::lemma_sorted_by(all, name_order());
    assert(all.no_duplicates()) by {
        assert forall|i: int, j: int| 0 <= i < all.len() && 0 <= j < all.len() && i != j implies all[i]
            != all[j] by {
            if i < j {
                assert(db.all()[i].name@ != db.all()[j].name@);
            } else {
                assert(db.all()[j].name@ != db.all()[i].name@);
            }
        }
    }
    all.lemma_multiset_has_no_duplicates();
    names.lemma_multiset_has_no_duplicates_conv();
    broadcast use vstd::seq_lib::group_to_multiset_ensures;

    assert forall|n: Seq<char>| #[trigger] names.contains(n) <==> db.knows(n) by {
        assert(names.contains(n) <==> names.to_multiset().count(n) > 0);
        assert(all.contains(n) <==> all.to_multiset().count(n) > 0);
        lemma_pal_position(db.all(), n);
        if db.knows(n) {
            let i = crate::model::pal_position(db.all(), n)->0;
            assert(all[i] == n);
        }
        if all.contains(n) {
            let i = choose|i: int| 0 <= i < all.len() && all[i] == n;
            assert(db.all()[i].name@ == n);
        }
    }
    assert forall|i: int| 0 <= i < names.len() implies db.knows(#[trigger] names[i]) by {
        assert(names.contains(names[i]));
    }
}

/// The order of names is a strict order.
pub proof fn lemma_name_order()
    ensures
        crate::seqs::weak_order(name_order()),
{
    let lt = name_order();
    assert forall|a: Seq<char>| !#[trigger] lt(a, a) by {
        crate::text::lemma_before_irreflexive(a);
    }
    assert forall|a: Seq<char>, b: Seq<char>, c: Seq<char>| #[trigger]
        lt(a, b) && #[trigger] lt(b, c) implies lt(a, c) by {
        crate::text::lemma_before_transitive(a, b, c);
    }
    assert forall|a: Seq<char>, b: Seq<char>, c: Seq<char>|
        !(#[trigger] lt(a, b)) && !(#[trigger] lt(b, c)) implies !lt(a, c) by {
        crate::text::lemma_before_total(a, b);
        crate::text::lemma_before_total(b, c);
        if lt(a, c) {
            // b <= a and c <= b, so c <= a
            if b == a {
            } else if c == b {
            } else {
                crate::text::lemma_before_transitive(c, b, a);
                crate::text::lemma_before_transitive(c, a, c);
                crate::text::lemma_before_irreflexive(c);
            }
        }
    }
}

impl World {
    /// The invariant.
    pub open spec fn wf(&self) -> bool {
        &&& self@.wf()
        &&& indexes(self.ids@, self@.names)
        &&& self.male@.len() == self.names@.len()
        &&& self.female@.len() == self.names@.len()
        &&& self.wild@.len() == self.names@.len()
        &&& self.child@.len() == self.names@.len()
        &&& forall|m: int|
            0 <= m < self.child@.len() ==> (#[trigger] self.child@[m])@.len() == self.names@.len()
    }

    /// The number of a species.
    pub fn id(&self, name: &PalName) -> (r: Option<usize>)
        requires
            self.wf(),
        ensures
            r == small_id(self@.names, Some(name@)),
            match r {
                Some(i) => i < self@.names.len() && self@.names[i as int] == name@,
                None => !self@.names.contains(name@),
            },
    {
        proof {
            lemma_first_where(self@.names, equals(name@));
        }
        match self.ids.get(name.as_str()) {
            Some(i) => Some(*i),
            None => {
                proof {
                    if self@.names.contains(name@) {
                        let j = choose|j: int|
                            0 <= j < self@.names.len() && self@.names[j] == name@;
                        assert(self.ids@.dom().contains(self@.names[j]));
                    }
                }
                None
            },
        }
    }

    pub fn build(db: &PalDb, index: &ChildIndex) -> (r: Self)
        requires
            db.wf(),
            index.wf(),
        ensures
            r.wf(),
            r@ == world_of(*db, *index),
    {
        let pals = db.pals();
        let mut plain: Vec<PalName> = Vec::new();
        let mut i: usize = 0;
        while i < pals.len()
            invariant
                pals@ == db.all(),
                i <= pals@.len(),
                plain@.len() == i,
                forall|j: int| 0 <= j < i ==> (#[trigger] plain@[j])@ == pals@[j].name@,
            decreases pals@.len() - i,
        {
            plain.push(pals[i].name.clone());
            i = i + 1;
        }
        proof {
            assert(pal_texts(plain@) =~= pal_names(db.all()));
            lemma_sorted_names(*db);
        }
        let names = sort_names(&plain);
        let ghost texts = pal_texts(names@);
        let mut ids: StringHashMap<usize> = StringHashMap::new();
        let mut male: Vec<u32> = Vec::new();
        let mut female: Vec<u32> = Vec::new();
        let mut wild: Vec<bool> = Vec::new();
        let mut i: usize = 0;
        while i < names.len()
            invariant
                db.wf(),
                texts == pal_texts(names@),
                texts.no_duplicates(),
                forall|j: int| 0 <= j < texts.len() ==> db.knows(#[trigger] texts[j]),
                i <= names@.len(),
                male@.len() == i,
                female@.len() == i,
                wild@.len() == i,
                forall|j: int|
                    0 <= j < i ==> ids@.dom().contains(#[trigger] texts[j]) && ids@[texts[j]] == j,
                forall|n: Seq<char>| #[trigger]
                    ids@.dom().contains(n) ==> ids@[n] < i && texts[ids@[n] as int] == n,
                forall|j: int|
                    #![trigger male@[j]]
                    0 <= j < i ==> male@[j] == db.lookup(texts[j])->0.gender_probability.part(
                        Gender::Male,
                    ) && male@[j] <= CERTAIN,
                forall|j: int|
                    #![trigger female@[j]]
                    0 <= j < i ==> female@[j] == db.lookup(texts[j])->0.gender_probability.part(
                        Gender::Female,
                    ) && female@[j] <= CERTAIN,
                forall|j: int|
                    #![trigger wild@[j]]
                    0 <= j < i ==> wild@[j] == db.lookup(texts[j])->0.wild_levels is Some,
            decreases names@.len() - i,
        {
            let name = &names[i];
            proof {
                assert(texts[i as int] == name@);
                assert(db.knows(name@));
                lemma_pal_position(db.all(), name@);
            }
            match db.pal(name) {
                Some(pal) => {
                    male.push(pal.gender_probability.of(Gender::Male));
                    female.push(pal.gender_probability.of(Gender::Female));
                    wild.push(pal.wild_levels.is_some());
                },
                None => {
                    proof {
                        assert(false);
                    }
                    male.push(0);
                    female.push(0);
                    wild.push(false);
                },
            }
            ids.insert(name.as_str().to_owned(), i);
            i = i + 1;
        }
        let empty: Vec<Vec<Option<usize>>> = Vec::new();
        let mut world = World { names, ids, male, female, wild, child: empty };
        let ghost target = world_of(*db, *index);
        let n: usize = world.names.len();
        let mut child: Vec<Vec<Option<usize>>> = Vec::new();
        let mut m: usize = 0;
        while m < n
            invariant
                index.wf(),
                n == world.names@.len(),
                m <= n,
                n <= u32::MAX,
                texts == pal_texts(world.names@),
                indexes(world.ids@, texts),
                target == world_of(*db, *index),
                target.names == texts,
                child@.len() == m,
                forall|k: int| 0 <= k < m ==> (#[trigger] child@[k])@ == target.child[k],
                forall|k: int, f: int|
                    0 <= k < m && 0 <= f < n && (#[trigger] child@[k]@[f]) is Some
                        ==> child@[k]@[f]->0 < n,
            decreases n - m,
        {
            let mut row: Vec<Option<usize>> = Vec::new();
            let mut f: usize = 0;
            while f < n
                invariant
                    index.wf(),
                    n == world.names@.len(),
                    m < n,
                    f <= n,
                    n <= u32::MAX,
                    texts == pal_texts(world.names@),
                    indexes(world.ids@, texts),
                    target == world_of(*db, *index),
                    target.names == texts,
                    row@.len() == f,
                    forall|k: int| 0 <= k < f ==> #[trigger] row@[k] == target.child[m as int][k],
                    forall|k: int| 0 <= k < f && (#[trigger] row@[k]) is Some ==> row@[k]->0 < n,
                decreases n - f,
            {
                proof {
                    assert(texts[m as int] == world.names@[m as int]@);
                    assert(texts[f as int] == world.names@[f as int]@);
                }
                let entry: Option<usize> = match index.child_between(
                    &world.names[m],
                    &world.names[f],
                ) {
                    Some(c) => {
                        proof {
                            lemma_first_where(texts, equals(c@));
                        }
                        match world.ids.get(c.as_str()) {
                            Some(i) => Some(*i),
                            None => {
                                proof {
                                    if let Some(j) = species_id(texts, c@) {
                                        assert(world.ids@.dom().contains(texts[j]));
                                    }
                                }
                                None
                            },
                        }
                    },
                    None => None,
                };
                row.push(entry);
                f = f + 1;
            }
            proof {
                assert(row@ =~= target.child[m as int]);
            }
            child.push(row);
            m = m + 1;
        }
        world.child = child;
        proof {
            assert(world@.child =~= target.child);
            assert(world@.male =~= target.male);
            assert(world@.female =~= target.female);
            assert(world@.wild =~= target.wild);
            assert forall|k: int, f: int|
                0 <= k < world@.names.len() && 0 <= f < world@.names.len() && (
                #[trigger] world@.child[k][f]) is Some implies world@.child[k][f]->0
                < world@.names.len() by {
                assert(world.child@[k]@[f] == world@.child[k][f]);
            }
            assert forall|k: int| 0 <= k < world@.names.len() implies (
            #[trigger] world@.child[k]).len() == world@.names.len() by {}
        }
        world
    }
}

/// The tables of a search say what the database says: every species once,
/// by name, its two gender probabilities each in its own column, whether
/// it is found in the wild, and the child of a father and a mother.
pub proof fn law_worlds_are_their_database(db: PalDb, index: ChildIndex, pal: crate::model::Pal) -> (
    at: int)
    requires
        db.wf(),
        db.all().contains(pal),
    ensures
        ({
            let world = world_of(db, index);
            &&& world.names.len() == db.all().len()
            &&& 0 <= at < world.names.len()
            &&& world.names[at] == pal.name@
            &&& world.male[at] == pal.gender_probability.part(Gender::Male)
            &&& world.female[at] == pal.gender_probability.part(Gender::Female)
            &&& world.wild[at] <==> pal.wild_levels is Some
            &&& forall|f: int|
                0 <= f < world.names.len() ==> match #[trigger] world.child[at][f] {
                    Some(c) => c < world.names.len() && index.child(pal.name@, world.names[f])
                        == Some(world.names[c as int]),
                    None => match index.child(pal.name@, world.names[f]) {
                        Some(name) => !db.knows(name),
                        None => true,
                    },
                }
        }),
{
    let world = world_of(db, index);
    lemma_sorted_names(db);
    let i = choose|i: int| 0 <= i < db.all().len() && db.all()[i] == pal;
    assert(pal_names(db.all())[i] == pal.name@);
    crate::model::lemma_pal_position(db.all(), pal.name@);
    let p = crate::model::pal_position(db.all(), pal.name@)->0;
    if p < i {
        assert(db.all()[p].name@ != db.all()[i].name@);
    }
    assert(db.lookup(pal.name@) == Some(pal));
    assert(world.names.contains(pal.name@));
    let at = choose|at: int| 0 <= at < world.names.len() && world.names[at] == pal.name@;
    assert forall|f: int| 0 <= f < world.names.len() implies match #[trigger] world.child[at][f] {
        Some(c) => c < world.names.len() && index.child(pal.name@, world.names[f]) == Some(
            world.names[c as int],
        ),
        None => match index.child(pal.name@, world.names[f]) {
            Some(name) => !db.knows(name),
            None => true,
        },
    } by {
        match index.child(pal.name@, world.names[f]) {
            Some(name) => {
                let same = equals(name);
                crate::seqs::lemma_first_where(world.names, same);
                match species_id(world.names, name) {
                    Some(c) => {
                        assert(same(world.names[c]));
                    },
                    None => {
                        if db.knows(name) {
                            assert(world.names.contains(name));
                            let c = choose|c: int|
                                0 <= c < world.names.len() && world.names[c] == name;
                            assert(same(world.names[c]));
                        }
                    },
                }
            },
            None => {},
        }
    }
    at
}

} // verus!
