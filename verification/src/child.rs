//! Child-species lookup: which pal a concrete male and female pairing
//! produces, expanded from the list of breeding rules.

use vstd::hash_map::StringHashMap;
use vstd::prelude::*;

use crate::model::BreedingCombo;
use crate::model::BreedingDb;
use crate::model::BreedingParent;
use crate::model::Gender;
use crate::model::PalName;

verus! {

/// A concrete breeding pairing. Breeding always takes one male and one
/// female; which is which matters for the gender-dependent rules.
#[derive(PartialEq, Eq, Hash, Debug)]
pub struct BreedingPair {
    pub male: PalName,
    pub female: PalName,
}

#[derive(Debug)]
pub enum ChildIndexError {
    /// Two rules disagree on the child of one pairing.
    ConflictingCombos { male: PalName, female: PalName, first: PalName, second: PalName },
}

impl ChildIndexError {
    pub fn message(&self) -> (r: String)
        ensures
            match *self {
                ChildIndexError::ConflictingCombos { male, female, first, second } => r@
                    == "combos disagree for male "@ + male@ + " × female "@ + female@ + ": "@
                    + first@ + " vs "@ + second@,
            },
    {
        match self {
            ChildIndexError::ConflictingCombos { male, female, first, second } => {
                let mut out = "combos disagree for male ".to_owned();
                out.append(male.as_str());
                out.append(" × female ");
                out.append(female.as_str());
                out.append(": ");
                out.append(first.as_str());
                out.append(" vs ");
                out.append(second.as_str());
                out
            },
        }
    }
}

/// A pairing with its child, as texts.
pub struct Arrangement {
    pub male: Seq<char>,
    pub female: Seq<char>,
    pub child: Seq<char>,
}

/// The arrangement in which `male` is the father, if the slots allow.
pub open spec fn arranged(
    male: BreedingParent,
    female: BreedingParent,
    child: PalName,
) -> Seq<Arrangement> {
    if male.gender.admits(Gender::Male) && female.gender.admits(Gender::Female) {
        seq![Arrangement { male: male.name@, female: female.name@, child: child@ }]
    } else {
        seq![]
    }
}

/// The concrete arrangements one rule covers.
pub open spec fn arrangements_of(rule: BreedingCombo) -> Seq<Arrangement> {
    arranged(rule.parents@[0], rule.parents@[1], rule.child) + arranged(
        rule.parents@[1],
        rule.parents@[0],
        rule.child,
    )
}

/// The concrete arrangements of all rules, in order.
pub open spec fn arrangements(rules: Seq<BreedingCombo>) -> Seq<Arrangement>
    decreases rules.len(),
{
    if rules.len() == 0 {
        seq![]
    } else {
        arrangements(rules.drop_last()) + arrangements_of(rules.last())
    }
}

/// The children by pairing, the first arrangement of a pairing
/// deciding.
pub open spec fn child_table(list: Seq<Arrangement>) -> Map<(Seq<char>, Seq<char>), Seq<char>>
    decreases list.len(),
{
    if list.len() == 0 {
        Map::empty()
    } else {
        let earlier = child_table(list.drop_last());
        let last = list.last();
        if earlier.dom().contains((last.male, last.female)) {
            earlier
        } else {
            earlier.insert((last.male, last.female), last.child)
        }
    }
}

/// Arrangement `k` gives its pairing another child than an earlier one
/// did.
pub open spec fn clashes(list: Seq<Arrangement>, k: int) -> bool {
    let earlier = child_table(list.take(k));
    let pair = (list[k].male, list[k].female);
    0 <= k < list.len() && earlier.dom().contains(pair) && earlier[pair] != list[k].child
}

/// Some arrangement clashes with an earlier one.
pub open spec fn clashing(list: Seq<Arrangement>) -> bool {
    exists|k: int| clashes(list, k)
}

/// `error` reports arrangement `k` of `list`.
pub open spec fn reports(error: ChildIndexError, list: Seq<Arrangement>, k: int) -> bool {
    match error {
        ChildIndexError::ConflictingCombos { male, female, first, second } => {
            &&& male@ == list[k].male
            &&& female@ == list[k].female
            &&& first@ == child_table(list.take(k))[(list[k].male, list[k].female)]
            &&& second@ == list[k].child
        },
    }
}

/// One concrete pairing and the child it produces.
#[derive(Debug)]
pub struct Pairing {
    pub male: PalName,
    pub female: PalName,
    pub child: PalName,
}

/// Lookup from male species and female species to child species.
///
/// Built by expanding each rule into the concrete gender arrangements
/// it covers: wildcard parents cover both assignments, gender-locked
/// parents exactly one.
pub struct ChildIndex {
    row_of: StringHashMap<usize>,
    rows: Vec<StringHashMap<usize>>,
    entries: Vec<Pairing>,
}

impl ChildIndex {
    closed spec fn position(&self, male: Seq<char>, female: Seq<char>) -> Option<usize> {
        if self.row_of@.dom().contains(male) && self.rows@[self.row_of@[male] as int]@.dom().contains(
            female,
        ) {
            Some(self.rows@[self.row_of@[male] as int]@[female])
        } else {
            None
        }
    }

    /// The pairings in the order in which they are listed.
    pub closed spec fn listed(&self) -> Seq<Pairing> {
        self.entries@
    }

    /// The invariant: the two-level index leads to exactly the listed
    /// pairings.
    pub closed spec fn wf(&self) -> bool {
        &&& forall|m: Seq<char>| #[trigger]
            self.row_of@.dom().contains(m) ==> self.row_of@[m] < self.rows@.len()
        &&& forall|m: Seq<char>, n: Seq<char>|
            #![trigger self.row_of@.dom().contains(m), self.row_of@.dom().contains(n)]
            self.row_of@.dom().contains(m) && self.row_of@.dom().contains(n) && self.row_of@[m]
                == self.row_of@[n] ==> m == n
        &&& forall|m: Seq<char>, f: Seq<char>|
            (#[trigger] self.position(m, f)) is Some ==> {
                let e = self.position(m, f)->0;
                e < self.entries@.len() && self.entries@[e as int].male@ == m
                    && self.entries@[e as int].female@ == f
            }
        &&& forall|e: int|
            0 <= e < self.entries@.len() ==> self.position(
                (#[trigger] self.entries@[e]).male@,
                self.entries@[e].female@,
            ) == Some(e as usize)
    }

    /// The child species by pairing.
    pub closed spec fn table(&self) -> Map<(Seq<char>, Seq<char>), Seq<char>> {
        Map::new(
            |p: (Seq<char>, Seq<char>)| self.position(p.0, p.1) is Some,
            |p: (Seq<char>, Seq<char>)| self.entries@[self.position(p.0, p.1)->0 as int].child@,
        )
    }

    /// The child of a pairing.
    pub open spec fn child(&self, male: Seq<char>, female: Seq<char>) -> Option<Seq<char>> {
        if self.table().dom().contains((male, female)) {
            Some(self.table()[(male, female)])
        } else {
            None
        }
    }

    fn empty() -> (r: Self)
        ensures
            r.wf(),
            r.table() == Map::<(Seq<char>, Seq<char>), Seq<char>>::empty(),
    {
        let r = ChildIndex { row_of: StringHashMap::new(), rows: Vec::new(), entries: Vec::new() };
        proof {
            assert(r.table() =~= Map::<(Seq<char>, Seq<char>), Seq<char>>::empty());
        }
        r
    }

    /// Records the child of one pairing, unless it has one already.
    fn record(&mut self, male: &PalName, female: &PalName, child: &PalName) -> (r: Result<
        (),
        ChildIndexError,
    >)
        requires
            old(self).wf(),
        ensures
            final(self).wf(),
            match old(self).child(male@, female@) {
                None => r is Ok && final(self).table() == old(self).table().insert(
                    (male@, female@),
                    child@,
                ),
                Some(first) => final(self).table() == old(self).table() && match r {
                    Ok(_) => first == child@,
                    Err(ChildIndexError::ConflictingCombos { male: m, female: f, first: a, second: b })
                    => first != child@ && m@ == male@ && f@ == female@ && a@ == first && b@
                        == child@,
                },
            },
    {
        let row: usize = match self.row_of.get(male.as_str()) {
            Some(row) => *row,
            None => {
                let row: usize = self.rows.len();
                self.rows.push(StringHashMap::new());
                self.row_of.insert(male.as_str().to_owned(), row);
                row
            },
        };
        proof {
            assert(forall|m: Seq<char>, f: Seq<char>|
                self.position(m, f) == old(self).position(m, f));
            assert(self.table() =~= old(self).table());
        }
        let ghost mid = *self;
        match self.rows[row].get(female.as_str()) {
            Some(e) => {
                let known = &self.entries[*e].child;
                if *known == *child {
                    Ok(())
                } else {
                    Err(
                        ChildIndexError::ConflictingCombos {
                            male: male.clone(),
                            female: female.clone(),
                            first: known.clone(),
                            second: child.clone(),
                        },
                    )
                }
            },
            None => {
                let e: usize = self.entries.len();
                self.rows[row].insert(female.as_str().to_owned(), e);
                self.entries.push(
                    Pairing { male: male.clone(), female: female.clone(), child: child.clone() },
                );
                proof {
                    assert forall|m: Seq<char>, f: Seq<char>| #[trigger]
                        self.position(m, f) == if m == male@ && f == female@ {
                            Some(e)
                        } else {
                            mid.position(m, f)
                        } by {}
                    assert(self.table() =~= mid.table().insert((male@, female@), child@));
                    assert forall|k: int| 0 <= k < self.entries@.len() implies self.position(
                        (#[trigger] self.entries@[k]).male@,
                        self.entries@[k].female@,
                    ) == Some(k as usize) by {
                        if k < e {
                            assert(self.entries@[k] == mid.entries@[k]);
                        }
                    }
                }
                Ok(())
            },
        }
    }

    /// Fails if two rules assign different children to the same
    /// concrete pairing.
    pub fn build(breeding: &BreedingDb) -> (r: Result<Self, ChildIndexError>)
        ensures
            r is Err <==> clashing(arrangements(breeding.rules())),
            match r {
                Ok(index) => index.wf() && index.table() == child_table(
                    arrangements(breeding.rules()),
                ),
                Err(error) => exists|k: int|
                    {
                        &&& #[trigger] clashes(arrangements(breeding.rules()), k)
                        &&& forall|j: int|
                            0 <= j < k ==> !clashes(arrangements(breeding.rules()), j)
                        &&& reports(error, arrangements(breeding.rules()), k)
                    },
            },
    {
        let combos = breeding.combos();
        let ghost list = arrangements(breeding.rules());
        let mut index = Self::empty();
        let mut done: Ghost<int> = Ghost(0);
        let mut i: usize = 0;
        proof {
            assert(list.take(0) =~= seq![]);
            assert(breeding.rules().take(0) =~= seq![]);
        }
        while i < combos.len()
            invariant
                combos@ == breeding.rules(),
                list == arrangements(breeding.rules()),
                i <= combos@.len(),
                0 <= done@ <= list.len(),
                list.take(done@) == arrangements(breeding.rules().take(i as int)),
                index.wf(),
                index.table() == child_table(list.take(done@)),
                forall|j: int| 0 <= j < done@ ==> !clashes(list, j),
            decreases combos@.len() - i,
        {
            let combo = &combos[i];
            proof {
                lemma_rule_stretch(breeding.rules(), i as int);
            }
            let mut turn: usize = 0;
            let ghost here = done@;
            while turn < 2
                invariant
                    turn <= 2,
                    combos@ == breeding.rules(),
                    list == arrangements(breeding.rules()),
                    i < combos@.len(),
                    *combo == combos@[i as int],
                    0 <= here <= done@ <= list.len(),
                    arrangements_of(*combo) == list.subrange(
                        here,
                        here + arrangements_of(*combo).len(),
                    ),
                    here + arrangements_of(*combo).len() <= list.len(),
                    turn == 0 ==> done@ == here,
                    turn == 1 ==> done@ == here + arranged(
                        combo.parents@[0],
                        combo.parents@[1],
                        combo.child,
                    ).len(),
                    turn == 2 ==> done@ == here + arrangements_of(*combo).len(),
                    index.wf(),
                    index.table() == child_table(list.take(done@)),
                    forall|j: int| 0 <= j < done@ ==> !clashes(list, j),
                decreases 2 - turn,
            {
                let male = &combo.parents[turn];
                let female = &combo.parents[1 - turn];
                if male.gender.accepts(Gender::Male) && female.gender.accepts(Gender::Female) {
                    proof {
                        assert(list[done@] == arrangements_of(*combo)[done@ - here]);
                        assert(list[done@] == (Arrangement {
                            male: male.name@,
                            female: female.name@,
                            child: combo.child@,
                        }));
                        assert(list.take(done@ + 1).drop_last() =~= list.take(done@));
                    }
                    match index.record(&male.name, &female.name, &combo.child) {
                        Ok(()) => {},
                        Err(error) => {
                            proof {
                                assert(clashes(list, done@));
                                assert(reports(error, list, done@));
                            }
                            return Err(error);
                        },
                    }
                    proof {
                        assert(!clashes(list, done@));
                        done@ = done@ + 1;
                    }
                }
                turn = turn + 1;
            }
            i = i + 1;
        }
        proof {
            assert(breeding.rules().take(i as int) =~= breeding.rules());
            assert(done@ == list.len());
            assert(list.take(done@) =~= list);
        }
        Ok(index)
    }

    pub fn child_of(&self, pair: &BreedingPair) -> (r: Option<&PalName>)
        requires
            self.wf(),
        ensures
            match r {
                Some(child) => self.child(pair.male@, pair.female@) == Some(child@),
                None => self.child(pair.male@, pair.female@) is None,
            },
    {
        self.child_between(&pair.male, &pair.female)
    }

    /// The same lookup with borrowed names.
    pub fn child_between(&self, male: &PalName, female: &PalName) -> (r: Option<&PalName>)
        requires
            self.wf(),
        ensures
            match r {
                Some(child) => self.child(male@, female@) == Some(child@),
                None => self.child(male@, female@) is None,
            },
    {
        match self.row_of.get(male.as_str()) {
            Some(row) => match self.rows[*row].get(female.as_str()) {
                Some(e) => {
                    proof {
                        assert(self.position(male@, female@) == Some(*e));
                    }
                    Some(&self.entries[*e].child)
                },
                None => None,
            },
            None => None,
        }
    }

    /// What is listed is the table, each entry once.
    pub proof fn lemma_listed(self)
        requires
            self.wf(),
        ensures
            lists_table(self.listed(), self.table()),
    {
        assert(self.entries@.len() == self.entries.len());
        assert forall|m: Seq<char>, f: Seq<char>| #[trigger]
            self.table().dom().contains((m, f)) implies exists|e: int|
            0 <= e < self.entries@.len() && (#[trigger] self.entries@[e]).male@ == m
                && self.entries@[e].female@ == f by {
            let e = self.position(m, f)->0 as int;
            assert(self.entries@[e].male@ == m);
        }
        assert forall|e: int| 0 <= e < self.entries@.len() implies ({
            let p = #[trigger] self.entries@[e];
            self.table().dom().contains((p.male@, p.female@)) && self.table()[(
                p.male@,
                p.female@,
            )] == p.child@
        }) by {
            assert(self.position(self.entries@[e].male@, self.entries@[e].female@) == Some(
                e as usize,
            ));
        }
        assert forall|a: int, b: int|
            0 <= a < b < self.entries@.len() implies (#[trigger] self.entries@[a]).male@ != (
        #[trigger] self.entries@[b]).male@ || self.entries@[a].female@
            != self.entries@[b].female@ by {
            assert(self.position(self.entries@[a].male@, self.entries@[a].female@) == Some(
                a as usize,
            ));
            assert(self.position(self.entries@[b].male@, self.entries@[b].female@) == Some(
                b as usize,
            ));
        }
    }

    /// Every concrete pairing with its child: each pairing of the table
    /// exactly once.
    pub fn pairings(&self) -> (r: &Vec<Pairing>)
        requires
            self.wf(),
        ensures
            r@ == self.listed(),
            lists_table(r@, self.table()),
    {
        proof {
            self.lemma_listed();
        }
        &self.entries
    }
}

/// `list` holds each entry of `table` exactly once.
pub open spec fn lists_table(
    list: Seq<Pairing>,
    table: Map<(Seq<char>, Seq<char>), Seq<char>>,
) -> bool {
    &&& forall|e: int|
        0 <= e < list.len() ==> {
            let p = #[trigger] list[e];
            table.dom().contains((p.male@, p.female@)) && table[(p.male@, p.female@)] == p.child@
        }
    &&& forall|a: int, b: int|
        0 <= a < b < list.len() ==> (#[trigger] list[a]).male@ != (#[trigger] list[b]).male@
            || list[a].female@ != list[b].female@
    &&& forall|m: Seq<char>, f: Seq<char>| #[trigger]
        table.dom().contains((m, f)) ==> exists|e: int|
            0 <= e < list.len() && (#[trigger] list[e]).male@ == m && list[e].female@ == f
}

/// Where the arrangements of one rule stand among those of all.
proof fn lemma_rule_stretch(rules: Seq<BreedingCombo>, i: int)
    requires
        0 <= i < rules.len(),
    ensures
        ({
            let before = arrangements(rules.take(i));
            let own = arrangements_of(rules[i]);
            let list = arrangements(rules);
            &&& before.len() + own.len() <= list.len()
            &&& list.take(before.len() as int) == before
            &&& list.subrange(before.len() as int, (before.len() + own.len()) as int) == own
            &&& arrangements(rules.take(i + 1)) == before + own
            &&& list.take((before.len() + own.len()) as int) == before + own
        }),
    decreases rules.len() - i,
{
    let before = arrangements(rules.take(i));
    let own = arrangements_of(rules[i]);
    let list = arrangements(rules);
    assert(rules.take(i + 1).drop_last() =~= rules.take(i));
    assert(arrangements(rules.take(i + 1)) == before + own);
    if i + 1 == rules.len() {
        assert(rules.take(i + 1) =~= rules);
    } else {
        lemma_rule_stretch(rules, i + 1);
        let next = arrangements(rules.take(i + 1));
        assert(list.take(next.len() as int) == next);
    }
    assert(list.take((before.len() + own.len()) as int) == before + own);
    assert(list.take(before.len() as int) =~= (before + own).take(before.len() as int));
    assert(list.subrange(before.len() as int, (before.len() + own.len()) as int) =~= (before
        + own).subrange(before.len() as int, (before.len() + own.len()) as int));
}

// ---------------------------------------------------------------------
// Laws
// ---------------------------------------------------------------------
/// Where no two arrangements clash, every arrangement holds in the
/// table, whatever the order in which they are listed.
pub proof fn law_every_arrangement_holds(list: Seq<Arrangement>)
    requires
        !clashing(list),
    ensures
        forall|k: int|
            0 <= k < list.len() ==> {
                let a = #[trigger] list[k];
                child_table(list).dom().contains((a.male, a.female)) && child_table(list)[(
                    a.male,
                    a.female,
                )] == a.child
            },
    decreases list.len(),
{
    if list.len() > 0 {
        let rest = list.drop_last();
        assert forall|k: int| !clashes(rest, k) by {
            if clashes(rest, k) {
                assert(rest.take(k) =~= list.take(k));
                assert(clashes(list, k));
            }
        }
        law_every_arrangement_holds(rest);
        assert(!clashes(list, list.len() - 1));
        assert(list.take(list.len() - 1) =~= rest);
        assert forall|k: int| 0 <= k < list.len() implies ({
            let a = #[trigger] list[k];
            child_table(list).dom().contains((a.male, a.female)) && child_table(list)[(
                a.male,
                a.female,
            )] == a.child
        }) by {
            if k < rest.len() {
                assert(rest[k] == list[k]);
            }
        }
    }
}

/// Every entry of the table comes from an arrangement.
pub proof fn law_every_entry_is_an_arrangement(
    list: Seq<Arrangement>,
    male: Seq<char>,
    female: Seq<char>,
)
    requires
        child_table(list).dom().contains((male, female)),
    ensures
        list.contains(Arrangement { male, female, child: child_table(list)[(male, female)] }),
    decreases list.len(),
{
    if list.len() > 0 {
        let rest = list.drop_last();
        if child_table(rest).dom().contains((male, female)) {
            law_every_entry_is_an_arrangement(rest, male, female);
            let a = Arrangement { male, female, child: child_table(rest)[(male, female)] };
            let k = choose|k: int| 0 <= k < rest.len() && rest[k] == a;
            assert(list[k] == a);
        } else {
            assert(list[list.len() - 1].child == child_table(list)[(male, female)]);
        }
    }
}

/// A rule whose two parents take either gender holds for both ways
/// round.
pub proof fn law_wildcard_rules_cover_both_ways(rule: BreedingCombo)
    requires
        rule.parents@[0].gender == crate::model::ParentGender::Wildcard,
        rule.parents@[1].gender == crate::model::ParentGender::Wildcard,
    ensures
        arrangements_of(rule) == seq![
            Arrangement {
                male: rule.parents@[0].name@,
                female: rule.parents@[1].name@,
                child: rule.child@,
            },
            Arrangement {
                male: rule.parents@[1].name@,
                female: rule.parents@[0].name@,
                child: rule.child@,
            },
        ],
{
}

/// Where no rules clash, a father and a mother have a child exactly when
/// some rule pairs them, whichever of its two places each takes, and
/// neither place is kept for the other gender.
pub proof fn law_rules_decide_children(
    rules: Seq<BreedingCombo>,
    male: Seq<char>,
    female: Seq<char>,
    child: Seq<char>,
)
    requires
        !clashing(arrangements(rules)),
    ensures
        ({
            let table = child_table(arrangements(rules));
            table.dom().contains((male, female)) && table[(male, female)] == child
        }) <==> exists|i: int|
            {
                let rule = #[trigger] rules[i];
                let (one, two) = (rule.parents@[0], rule.parents@[1]);
                let kept_for_mothers = crate::model::ParentGender::Exactly(Gender::Female);
                let kept_for_fathers = crate::model::ParentGender::Exactly(Gender::Male);
                &&& 0 <= i < rules.len()
                &&& rule.child@ == child
                &&& (one.name@ == male && two.name@ == female && one.gender != kept_for_mothers
                    && two.gender != kept_for_fathers) || (two.name@ == male && one.name@ == female
                    && two.gender != kept_for_mothers && one.gender != kept_for_fathers)
            },
{
    let list = arrangements(rules);
    let a = Arrangement { male, female, child };
    lemma_arrangements_of_rules(rules, a);
    law_every_arrangement_holds(list);
    if child_table(list).dom().contains((male, female)) && child_table(list)[(male, female)]
        == child {
        law_every_entry_is_an_arrangement(list, male, female);
        let i = choose|i: int|
            0 <= i < rules.len() && arrangements_of(#[trigger] rules[i]).contains(a);
        lemma_arrangement_of(rules[i], a);
    }
    assert forall|i: int|
        0 <= i < rules.len() && arrangements_of(#[trigger] rules[i]).contains(a) implies list.contains(
        a,
    ) by {}
    assert forall|i: int| 0 <= i < rules.len() implies (arrangements_of(
        #[trigger] rules[i],
    ).contains(a) <==> {
        let rule = rules[i];
        let (one, two) = (rule.parents@[0], rule.parents@[1]);
        let kept_for_mothers = crate::model::ParentGender::Exactly(Gender::Female);
        let kept_for_fathers = crate::model::ParentGender::Exactly(Gender::Male);
        &&& rule.child@ == child
        &&& (one.name@ == male && two.name@ == female && one.gender != kept_for_mothers
            && two.gender != kept_for_fathers) || (two.name@ == male && one.name@ == female
            && two.gender != kept_for_mothers && one.gender != kept_for_fathers)
    }) by {
        lemma_arrangement_of(rules[i], a);
    }
    if list.contains(a) {
        let k = choose|k: int| 0 <= k < list.len() && list[k] == a;
        assert(child_table(list)[(list[k].male, list[k].female)] == list[k].child);
    }
}

/// The arrangements of a list of rules are those of its rules.
proof fn lemma_arrangements_of_rules(rules: Seq<BreedingCombo>, a: Arrangement)
    ensures
        arrangements(rules).contains(a) <==> exists|i: int|
            0 <= i < rules.len() && arrangements_of(#[trigger] rules[i]).contains(a),
    decreases rules.len(),
{
    if rules.len() > 0 {
        let rest = rules.drop_last();
        lemma_arrangements_of_rules(rest, a);
        let (left, right) = (arrangements(rest), arrangements_of(rules.last()));
        let all = arrangements(rules);
        assert(all == left + right);
        if all.contains(a) {
            let k = choose|k: int| 0 <= k < all.len() && all[k] == a;
            if k < left.len() {
                assert(left[k] == a);
                let i = choose|i: int|
                    0 <= i < rest.len() && arrangements_of(#[trigger] rest[i]).contains(a);
                assert(rules[i] == rest[i]);
            } else {
                assert(right[k - left.len()] == a);
                assert(rules[rules.len() - 1] == rules.last());
            }
        }
        if exists|i: int| 0 <= i < rules.len() && arrangements_of(#[trigger] rules[i]).contains(a) {
            let i = choose|i: int|
                0 <= i < rules.len() && arrangements_of(#[trigger] rules[i]).contains(a);
            if i < rest.len() {
                assert(rest[i] == rules[i]);
                let k = choose|k: int| 0 <= k < left.len() && left[k] == a;
                assert(all[k] == a);
            } else {
                let k = choose|k: int| 0 <= k < right.len() && right[k] == a;
                assert(all[left.len() + k] == a);
            }
        }
    }
}

/// The arrangements of one rule, place by place.
proof fn lemma_arrangement_of(rule: BreedingCombo, a: Arrangement)
    ensures
        arrangements_of(rule).contains(a) <==> {
            let (one, two) = (rule.parents@[0], rule.parents@[1]);
            let kept_for_mothers = crate::model::ParentGender::Exactly(Gender::Female);
            let kept_for_fathers = crate::model::ParentGender::Exactly(Gender::Male);
            &&& rule.child@ == a.child
            &&& (one.name@ == a.male && two.name@ == a.female && one.gender != kept_for_mothers
                && two.gender != kept_for_fathers) || (two.name@ == a.male && one.name@ == a.female
                && two.gender != kept_for_mothers && one.gender != kept_for_fathers)
        },
{
    let (one, two) = (rule.parents@[0], rule.parents@[1]);
    let left = arranged(one, two, rule.child);
    let right = arranged(two, one, rule.child);
    let all = arrangements_of(rule);
    assert(all == left + right);
    if left.len() > 0 {
        assert(all[0] == left[0]);
    }
    if right.len() > 0 {
        assert(all[left.len() as int] == right[0]);
    }
    if all.contains(a) {
        let k = choose|k: int| 0 <= k < all.len() && all[k] == a;
        assert(k < left.len() ==> left[k] == a);
        assert(k >= left.len() ==> right[k - left.len()] == a);
    }
}

} // verus!
