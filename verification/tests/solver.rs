//! The solver on a small, complete breeding table.

use palworld_tools::chance::{
    choices_within, expected_eggs, hundredths_text, tenths_text, EggChance, PoolProbability,
    Probability, EGG, ENDLESS,
};
use palworld_tools::child::{BreedingPair, ChildIndex, ChildIndexError};
use palworld_tools::db::{
    fraction_text, parse_breeding_db, parse_pal_db, ParseError, RawBreedingEntry, RawBreedingFile,
    RawBreedingMechanics, RawDb, RawGenderProbability, RawPal, RawPalId, RawParentGender,
    RawPassiveSkill, RawSteps, RawStepsRow, SUPPORTED_VERSION,
};
use palworld_tools::iv::{IvOdds, IvOddsError, IvThresholds};
use palworld_tools::model::{
    BreedingDb, BreedingMechanics, Gender, GenderProbability, IvSpread, IvStat, IvValue, PalDb,
    PalName, ParentGender, PassiveName, Surgery, WildLevels, CERTAIN,
};
use palworld_tools::passives::{DesiredPassivesError, ParentPool, PassiveOdds, PassiveOddsError};
use palworld_tools::search::plan::{
    BreedingGoal, BreedingPlan, OwnedPal, PlanNode, SearchConfig, SearchError,
};
use palworld_tools::search::solver::{find_paths, Solver};
use palworld_tools::steps::{MinStepsTable, SpeciesAdjacency};
use std::collections::BTreeMap;

fn raw_pal(dex: u16, internal: &str, name: &str, wild: bool) -> RawPal {
    RawPal {
        id: RawPalId { pal_dex_no: dex, is_variant: false },
        name: name.to_owned(),
        internal_name: internal.to_owned(),
        breeding_power: 1000 + u32::from(dex),
        breeding_power_priority: u32::from(dex),
        guaranteed_passives_internal_ids: Vec::new(),
        min_wild_level: if wild { Some(1) } else { None },
        max_wild_level: if wild { Some(9) } else { None },
    }
}

fn raw_skill(internal: &str, name: &str, rank: i8) -> RawPassiveSkill {
    RawPassiveSkill {
        name: name.to_owned(),
        internal_name: internal.to_owned(),
        rank,
        is_standard_passive_skill: true,
        random_inheritance_allowed: true,
        random_inheritance_weight: 100,
        surgery_cost: 0,
        surgery_item: None,
    }
}

const SPECIES: [(&str, &str, bool); 16] = [
    ("SheepBall", "Lamball", true),
    ("PinkCat", "Cattiva", true),
    ("DreamDemon", "Daedream", true),
    ("BluePlatypus", "Fuack", true),
    ("Anubis", "Anubis", false),
    ("BlueThunderHorse", "Azurmane", false),
    ("WingGolem", "Knocklem", true),
    ("NightLady", "Bellanoir", false),
    ("CatMage", "Katress", true),
    ("FoxMage", "Wixen", true),
    ("CatMage_Fire", "Katress Ignis", false),
    ("FoxMage_Dark", "Wixen Noct", false),
    ("LazyDragon", "Relaxaurus", true),
    ("ElecCat", "Sparkit", true),
    ("LazyDragon_Electric", "Relaxaurus Lux", true),
    ("Alpaca", "Melpaca", true),
];

const SPECIAL: [(&str, &str, &str); 5] = [
    ("SheepBall", "PinkCat", "DreamDemon"),
    ("SheepBall", "DreamDemon", "BluePlatypus"),
    ("Anubis", "LazyDragon", "WingGolem"),
    ("BlueThunderHorse", "LazyDragon", "WingGolem"),
    ("LazyDragon", "ElecCat", "LazyDragon_Electric"),
];

fn weights(entries: &[(u8, u32)]) -> BTreeMap<u8, u32> {
    entries.iter().copied().collect()
}

fn raw_db() -> RawDb {
    let pals: Vec<RawPal> = SPECIES
        .iter()
        .enumerate()
        .map(|(i, (internal, name, wild))| raw_pal(i as u16 + 1, internal, name, *wild))
        .collect();
    RawDb {
        version: "v27".to_owned(),
        breeding_gender_probability: SPECIES
            .iter()
            .map(|(internal, _, _)| RawGenderProbability {
                pal: (*internal).to_owned(),
                male: 500_000_000,
                female: 500_000_000,
            })
            .collect(),
        pals,
        passive_skills: vec![
            raw_skill("MoveSpeed_up_1", "Nimble", 1),
            raw_skill("Swift", "Swift", 3),
            raw_skill("Brave", "Brave", 1),
            raw_skill("Legend", "Legend", 4),
            raw_skill("Coward", "Coward", -1),
            raw_skill("Runner", "Runner", 2),
        ],
        breeding_mechanics: RawBreedingMechanics {
            iv_inheritance_weights: weights(&[(1, 3), (2, 2), (3, 1)]),
            passive_inheritance_weights: weights(&[(1, 4), (2, 3), (3, 2), (4, 1)]),
            passive_random_weights: weights(&[(0, 4), (1, 3), (2, 2), (3, 1)]),
        },
    }
}

fn entry(
    a: &str,
    a_gender: RawParentGender,
    b: &str,
    b_gender: RawParentGender,
    child: &str,
) -> RawBreedingEntry {
    RawBreedingEntry {
        parent1_internal_name: a.to_owned(),
        parent1_gender: a_gender,
        parent2_internal_name: b.to_owned(),
        parent2_gender: b_gender,
        child_internal_name: child.to_owned(),
    }
}

fn raw_entries() -> Vec<RawBreedingEntry> {
    let mut out = Vec::new();
    for (i, (a, _, _)) in SPECIES.iter().enumerate() {
        for (b, _, _) in &SPECIES[i..] {
            if *a == "CatMage" && *b == "FoxMage" {
                out.push(entry(a, RawParentGender::Female, b, RawParentGender::Male, "CatMage_Fire"));
                out.push(entry(a, RawParentGender::Male, b, RawParentGender::Female, "FoxMage_Dark"));
                continue;
            }
            let child = SPECIAL
                .iter()
                .find(|(x, y, _)| x == a && y == b)
                .map_or(*b, |(_, _, child)| *child);
            out.push(entry(a, RawParentGender::Wildcard, b, RawParentGender::Wildcard, child));
        }
    }
    out
}

/// Steps between every two species, by repeated widening.
fn raw_steps(entries: &[RawBreedingEntry]) -> Vec<RawStepsRow> {
    let mut rows = Vec::new();
    for (from, _, _) in &SPECIES {
        let mut reached: BTreeMap<String, u32> = BTreeMap::new();
        reached.insert((*from).to_owned(), 0);
        for round in 1..=SPECIES.len() as u32 {
            let mut next = reached.clone();
            for e in entries {
                for parent in [&e.parent1_internal_name, &e.parent2_internal_name] {
                    if reached.contains_key(parent) && !reached.contains_key(&e.child_internal_name) {
                        next.insert(e.child_internal_name.clone(), round);
                    }
                }
            }
            reached = next;
        }
        rows.push(RawStepsRow {
            from: (*from).to_owned(),
            to: SPECIES
                .iter()
                .map(|(to, _, _)| RawSteps {
                    to: (*to).to_owned(),
                    steps: reached.get(*to).copied().unwrap_or(10_000),
                })
                .collect(),
        });
    }
    rows
}

#[allow(dead_code)]
struct Fixture {
    db: &'static PalDb,
    breeding: &'static BreedingDb,
    index: &'static ChildIndex,
    odds: &'static PassiveOdds,
    iv_odds: &'static IvOdds,
    solver: &'static Solver<'static>,
}

fn fixture() -> Fixture {
    let db: &'static PalDb = Box::leak(Box::new(parse_pal_db(raw_db()).unwrap()));
    let entries = raw_entries();
    let min_breeding_steps = raw_steps(&entries);
    let file = RawBreedingFile { breeding: entries, min_breeding_steps };
    let breeding: &'static BreedingDb =
        Box::leak(Box::new(parse_breeding_db(file, db).map_err(|e| e.message()).unwrap()));
    let index: &'static ChildIndex = Box::leak(Box::new(
        ChildIndex::build(breeding).map_err(|e| e.message()).unwrap(),
    ));
    let odds: &'static PassiveOdds =
        Box::leak(Box::new(PassiveOdds::from_mechanics(db.mechanics()).unwrap()));
    let iv_odds: &'static IvOdds =
        Box::leak(Box::new(IvOdds::from_mechanics(db.mechanics()).unwrap()));
    let solver: &'static Solver<'static> =
        Box::leak(Box::new(Solver::new(db, index, odds, iv_odds)));
    Fixture { db, breeding, index, odds, iv_odds, solver }
}

fn assert_close(actual: f64, expected: f64) {
    assert!((actual - expected).abs() < 1e-9, "expected {expected}, got {actual}");
}

fn drawn(p: PoolProbability) -> f64 {
    p.favourable as f64 / p.rolls as f64 / p.first as f64 / p.second as f64
}

fn share(p: Probability) -> f64 {
    p.favourable as f64 / p.total as f64
}

fn eggs(parts: u128) -> f64 {
    parts as f64 / EGG as f64
}

fn owned(species: &str, gender: Gender, passives: &[&str]) -> OwnedPal {
    OwnedPal {
        species: PalName::new(species),
        gender,
        passives: passives.iter().copied().map(PassiveName::new).collect(),
        ivs: IvSpread::default(),
    }
}

fn goal(species: &str, passives: &[&str]) -> BreedingGoal {
    BreedingGoal {
        species: PalName::new(species),
        passives: passives.iter().copied().map(PassiveName::new).collect(),
        progenitors: Vec::new(),
        iv_thresholds: IvThresholds::default(),
    }
}

fn goal_from(species: &str, progenitors: &[&str]) -> BreedingGoal {
    BreedingGoal {
        species: PalName::new(species),
        passives: Vec::new(),
        progenitors: progenitors.iter().copied().map(PalName::new).collect(),
        iv_thresholds: IvThresholds::default(),
    }
}

fn progenitor_leaves(node: &PlanNode, out: &mut Vec<PalName>) {
    match node {
        PlanNode::Progenitor(species) => out.push(species.clone()),
        PlanNode::Owned(_) | PlanNode::Wild(_) => {}
        PlanNode::Bred(bred) => {
            progenitor_leaves(&bred.male, out);
            progenitor_leaves(&bred.female, out);
        }
    }
}

const CONFIG: SearchConfig =
    SearchConfig { max_breeding_steps: 3, max_results: 5, allow_wild_pals: false };

const WILD_CONFIG: SearchConfig =
    SearchConfig { max_breeding_steps: 3, max_results: 5, allow_wild_pals: true };

fn search(
    f: &Fixture,
    pool: Vec<OwnedPal>,
    goal: &BreedingGoal,
    config: &SearchConfig,
) -> Result<Vec<BreedingPlan>, SearchError> {
    find_paths(f.db, f.index, f.odds, f.iv_odds, &pool, goal, config)
}

// --- the database ---------------------------------------------------

#[test]
fn wrong_version_is_rejected() {
    let raw = RawDb {
        version: "v0".to_owned(),
        pals: Vec::new(),
        passive_skills: Vec::new(),
        breeding_gender_probability: Vec::new(),
        breeding_mechanics: RawBreedingMechanics {
            iv_inheritance_weights: BTreeMap::new(),
            passive_inheritance_weights: BTreeMap::new(),
            passive_random_weights: BTreeMap::new(),
        },
    };
    match parse_pal_db(raw) {
        Err(ParseError::UnsupportedVersion { found }) => assert_eq!(found, "v0"),
        Err(other) => panic!("expected UnsupportedVersion, got {other:?}"),
        Ok(_) => panic!("expected UnsupportedVersion"),
    }
}

#[test]
fn loaded_databases_answer_by_internal_and_display_name() {
    let f = fixture();
    assert_eq!(f.db.version().as_str(), SUPPORTED_VERSION);
    assert_eq!(f.db.pals().len(), SPECIES.len());
    let lamball = f.db.pal(&PalName::new("SheepBall")).unwrap();
    assert_eq!(lamball.display_name, "Lamball");
    assert!(lamball.breeding_power > 0);
    assert!(f.db.pal(&PalName::new("sheepball")).is_none());
    assert_eq!(f.db.find_pal("lamBALL").unwrap().name, PalName::new("SheepBall"));
    assert_eq!(f.db.find_pal("SHEEPball").unwrap().name, PalName::new("SheepBall"));
    assert!(f.db.find_pal("lambal").is_none());
    assert_eq!(f.db.find_passive("nimble").unwrap().name.as_str(), "MoveSpeed_up_1");
    assert!(f.db.find_passive("Nimbler").is_none());
}

#[test]
fn databases_with_dangling_references_are_rejected() {
    let mut raw = raw_db();
    raw.breeding_gender_probability.remove(0);
    match parse_pal_db(raw) {
        Err(ParseError::MissingGenderProbability { pal }) => assert_eq!(pal, "SheepBall"),
        _ => panic!("expected MissingGenderProbability"),
    }

    let mut raw = raw_db();
    raw.breeding_gender_probability[1].male = 600_000_000;
    match parse_pal_db(raw) {
        Err(error @ ParseError::GenderProbability { .. }) => {
            assert!(error.message().contains("PinkCat"));
            assert!(error.message().contains("male=0.6, female=0.5"), "{}", error.message());
        }
        _ => panic!("expected GenderProbability"),
    }

    let mut raw = raw_db();
    raw.pals[2].guaranteed_passives_internal_ids.push("Nope".to_owned());
    match parse_pal_db(raw) {
        Err(ParseError::UnknownPassive { pal, passive }) => {
            assert_eq!((pal.as_str(), passive.as_str()), ("DreamDemon", "Nope"));
        }
        _ => panic!("expected UnknownPassive"),
    }

    let f = fixture();
    let file = RawBreedingFile {
        breeding: vec![entry(
            "SheepBall",
            RawParentGender::Wildcard,
            "Ghost",
            RawParentGender::Wildcard,
            "PinkCat",
        )],
        min_breeding_steps: Vec::new(),
    };
    match parse_breeding_db(file, f.db) {
        Err(ParseError::UnknownPal { name }) => assert_eq!(name, "Ghost"),
        _ => panic!("expected UnknownPal"),
    }
}

#[test]
fn loaded_rules_keep_their_order_and_steps() {
    let f = fixture();
    let alpaca = PalName::new("Alpaca");
    assert!(f.breeding.combos().iter().any(|combo| {
        combo.parents[0].name == alpaca && combo.parents[1].name == alpaca && combo.child == alpaca
    }));
    assert_eq!(f.breeding.min_steps(&alpaca, &alpaca), Some(0));
    assert_eq!(f.breeding.min_steps(&alpaca, &PalName::new("SheepBall")), None);
    assert_eq!(f.breeding.combos()[0].parents[0].gender, ParentGender::Wildcard);
    assert!(ParentGender::Wildcard.accepts(Gender::Male));
    assert!(!ParentGender::Exactly(Gender::Female).accepts(Gender::Male));
}

#[test]
fn fractions_print_like_decimals() {
    assert_eq!(fraction_text(CERTAIN), "1");
    assert_eq!(fraction_text(CERTAIN / 2), "0.5");
    assert_eq!(fraction_text(123), "0.000000123");
    assert!(GenderProbability::new(500_000_000, 500_000_000).is_ok());
    assert!(GenderProbability::new(500_000_000, 400_000_000).is_err());
    assert_eq!(GenderProbability::new(250_000_000, 750_000_000).unwrap().of(Gender::Male), 250_000_000);
}

// --- child lookup ---------------------------------------------------

#[test]
fn every_ordered_species_pair_has_a_child() {
    let f = fixture();
    for male in f.db.pals() {
        for female in f.db.pals() {
            let pair = BreedingPair { male: male.name.clone(), female: female.name.clone() };
            assert!(
                f.index.child_of(&pair).is_some(),
                "no child for {} x {}",
                male.name.as_str(),
                female.name.as_str()
            );
        }
    }
}

#[test]
fn known_combos_match_the_vendored_data() {
    let f = fixture();
    let known = [
        ("Alpaca", "Alpaca", "Alpaca"),
        ("PinkCat", "SheepBall", "DreamDemon"),
        ("SheepBall", "PinkCat", "DreamDemon"),
        ("LazyDragon", "ElecCat", "LazyDragon_Electric"),
    ];
    for (male, female, child) in known {
        let pair = BreedingPair { male: PalName::new(male), female: PalName::new(female) };
        assert_eq!(f.index.child_of(&pair), Some(&PalName::new(child)), "{male} x {female}");
    }
}

#[test]
fn gender_dependent_combo_resolves_per_arrangement() {
    let f = fixture();
    let katress_mother =
        BreedingPair { male: PalName::new("FoxMage"), female: PalName::new("CatMage") };
    let wixen_mother =
        BreedingPair { male: PalName::new("CatMage"), female: PalName::new("FoxMage") };
    assert_eq!(f.index.child_of(&katress_mother), Some(&PalName::new("CatMage_Fire")));
    assert_eq!(f.index.child_of(&wixen_mother), Some(&PalName::new("FoxMage_Dark")));
}

#[test]
fn contradicting_rules_are_reported() {
    let f = fixture();
    let any = RawParentGender::Wildcard;
    let file = RawBreedingFile {
        breeding: vec![
            entry("SheepBall", any, "PinkCat", any, "DreamDemon"),
            entry("SheepBall", RawParentGender::Male, "PinkCat", RawParentGender::Female, "Anubis"),
        ],
        min_breeding_steps: Vec::new(),
    };
    let breeding = parse_breeding_db(file, f.db).unwrap();
    match ChildIndex::build(&breeding) {
        Err(error @ ChildIndexError::ConflictingCombos { .. }) => {
            assert!(error.message().contains("SheepBall"));
            assert!(error.message().contains("Anubis"));
        }
        Ok(_) => panic!("expected a conflict"),
    }
}

#[test]
fn pairings_list_every_ordered_pair_once() {
    let f = fixture();
    let pairings = f.index.pairings();
    assert_eq!(pairings.len(), SPECIES.len() * SPECIES.len());
    for p in pairings {
        assert_eq!(f.index.child_between(&p.male, &p.female), Some(&p.child));
    }
}

// --- passive odds ---------------------------------------------------

fn v27_mechanics() -> BreedingMechanics {
    BreedingMechanics {
        iv_inheritance_weights: BTreeMap::from([(1, 3), (2, 2), (3, 1)]),
        passive_inheritance_weights: BTreeMap::from([(1, 4), (2, 3), (3, 2), (4, 1)]),
        passive_random_weights: BTreeMap::from([(0, 4), (1, 3), (2, 2), (3, 1)]),
    }
}

fn passive_odds() -> PassiveOdds {
    PassiveOdds::from_mechanics(&v27_mechanics()).unwrap()
}

fn passive(name: &str) -> PassiveName {
    PassiveName::new(name)
}

#[test]
fn tables_normalize_like_upstream() {
    let odds = passive_odds();
    for (n, expected) in [0.0, 0.4, 0.3, 0.2, 0.1].into_iter().enumerate() {
        assert_close(share(odds.direct(n)), expected);
    }
    for (n, expected) in [0.4, 0.3, 0.2, 0.1, 0.0].into_iter().enumerate() {
        assert_close(share(odds.random_exact(n)), expected);
    }
    for (n, expected) in [1.0, 0.6, 0.3, 0.1, 0.0].into_iter().enumerate() {
        assert_close(share(odds.random_at_least(n)), expected);
    }
}

#[test]
fn passives_zero_weights_are_rejected() {
    let mut mechanics = v27_mechanics();
    mechanics.passive_random_weights = BTreeMap::new();
    let error = PassiveOdds::from_mechanics(&mechanics).unwrap_err();
    assert_eq!(error, PassiveOddsError::ZeroWeightSum { table: "passive random" });
    assert_eq!(error.message(), "passive random weights sum to zero; cannot normalize");
}

#[test]
fn exact_total_matches_hand_computed_vectors() {
    let odds = passive_odds();
    let vectors = [
        (2, 2, 2, 0.24),
        (2, 2, 3, 0.18),
        (2, 2, 4, 0.18),
        (4, 2, 2, 0.02),
        (4, 2, 3, 0.055),
        (4, 2, 4, 0.175),
        (2, 0, 1, 0.16),
        (0, 0, 2, 0.2),
    ];
    for (pool, desired, num_final, expected) in vectors {
        assert_close(drawn(odds.exact_total_probability(pool, desired, num_final)), expected);
    }
}

#[test]
fn desired_equal_to_pool_reduces_to_at_least_roll() {
    let odds = passive_odds();
    let pool = ParentPool::from_parents(&[passive("a")], &[passive("b")]);
    let result = odds.all_desired_probability(&pool, &[passive("a"), passive("b")]).unwrap();
    assert_close(drawn(result), 0.6);
}

#[test]
fn partial_desired_set_sums_over_final_counts() {
    let odds = passive_odds();
    let pool =
        ParentPool::from_parents(&[passive("a"), passive("b"), passive("c")], &[passive("d")]);
    let result = odds.all_desired_probability(&pool, &[passive("a"), passive("b")]).unwrap();
    assert_close(drawn(result), 0.25);
}

fn two_each() -> (Vec<PassiveName>, Vec<PassiveName>) {
    (vec![passive("a")], vec![passive("b")])
}

fn four_each() -> (Vec<PassiveName>, Vec<PassiveName>) {
    (
        vec![passive("a"), passive("b"), passive("c"), passive("d")],
        vec![passive("e"), passive("f"), passive("g"), passive("h")],
    )
}

#[test]
fn empty_desired_set_is_certain() {
    let odds = passive_odds();
    for pool_sides in [(vec![], vec![]), two_each(), four_each()] {
        let pool = ParentPool::from_parents(&pool_sides.0, &pool_sides.1);
        assert_close(drawn(odds.all_desired_probability(&pool, &[]).unwrap()), 1.0);
    }
}

#[test]
fn desired_validation_rejects_bad_inputs() {
    let odds = passive_odds();
    let pool = ParentPool::from_parents(&[passive("a")], &[passive("b")]);
    assert_eq!(
        odds.all_desired_probability(&pool, &[passive("x")]),
        Err(DesiredPassivesError::NotInPool(passive("x")))
    );
    assert_eq!(
        odds.all_desired_probability(&pool, &[passive("a"), passive("a")]),
        Err(DesiredPassivesError::Duplicate(passive("a")))
    );
    let five = ["a", "b", "c", "d", "e"].map(passive);
    assert_eq!(
        odds.all_desired_probability(&pool, &five),
        Err(DesiredPassivesError::TooMany { count: 5 })
    );
}

#[test]
fn parent_pool_deduplicates_across_parents() {
    let pool =
        ParentPool::from_parents(&[passive("a"), passive("b")], &[passive("b"), passive("c")]);
    assert_eq!(pool.len(), 3);
    assert!(!pool.is_empty());
    assert!(pool.contains(&passive("c")));
    assert!(!pool.contains(&passive("d")));
}

#[test]
fn vendored_mechanics_produce_the_expected_tables() {
    let f = fixture();
    let expected = [(2, 2, 2, 0.24), (4, 2, 4, 0.175), (0, 0, 2, 0.2)];
    for (pool, desired, num_final, value) in expected {
        assert_close(drawn(f.odds.exact_total_probability(pool, desired, num_final)), value);
    }
}

// --- IV odds --------------------------------------------------------

fn ivs() -> IvOdds {
    IvOdds::from_mechanics(&v27_mechanics()).unwrap()
}

#[test]
fn desired_table_matches_upstream_derivation() {
    let odds = ivs();
    assert_close(share(odds.desired(1)), 5.0 / 9.0);
    assert_close(share(odds.desired(2)), 5.0 / 18.0);
    assert_close(share(odds.desired(3)), 1.0 / 6.0);
}

#[test]
fn pair_probability_matches_hand_computed_vectors() {
    let odds = ivs();
    let vectors = [
        (0, 0, 1.0),
        (0, 1, 5.0 / 9.0),
        (1, 0, 5.0 / 18.0),
        (0, 2, 5.0 / 18.0),
        (1, 1, 5.0 / 36.0),
        (2, 0, 5.0 / 72.0),
        (0, 3, 1.0 / 6.0),
        (3, 0, 1.0 / 48.0),
    ];
    for (single, both, expected) in vectors {
        assert_close(share(odds.pair_probability(single, both)), expected);
    }
}

#[test]
fn iv_zero_weights_are_rejected() {
    let mut mechanics = v27_mechanics();
    mechanics.iv_inheritance_weights = BTreeMap::new();
    let error = IvOdds::from_mechanics(&mechanics).unwrap_err();
    assert_eq!(error, IvOddsError::ZeroWeightSum);
    assert!(error.message().contains("sum to zero"));
}

#[test]
fn thresholds_report_active_stats_and_membership() {
    let thresholds = IvThresholds {
        hp: None,
        attack: Some(IvValue::try_from(90).unwrap()),
        defense: Some(IvValue::try_from(70).unwrap()),
    };
    assert_eq!(thresholds.active().len(), 2);
    assert!(!thresholds.is_empty());
    assert!(IvThresholds::default().is_empty());

    let good = IvSpread {
        hp: IvValue::default(),
        attack: IvValue::try_from(95).unwrap(),
        defense: IvValue::try_from(70).unwrap(),
    };
    let bad = IvSpread { attack: IvValue::try_from(95).unwrap(), ..IvSpread::default() };
    assert!(thresholds.met_by(good));
    assert!(!thresholds.met_by(bad));
}

#[test]
fn iv_values_stop_at_one_hundred() {
    assert_eq!(IvValue::try_from(100).unwrap(), IvValue::max());
    let error = IvValue::try_from(101).unwrap_err();
    assert_eq!(error.message(), "IV 101 is out of range (0-100)");
    assert_eq!(
        IvThresholds { hp: Some(IvValue::max()), attack: None, defense: None }.get(IvStat::Hp),
        Some(IvValue::max())
    );
}

// --- steps ----------------------------------------------------------

#[test]
fn min_steps_matrix_matches_vendored_table() {
    let f = fixture();
    let table = MinStepsTable::compute(&SpeciesAdjacency::build(f.db, f.index));
    for from in f.db.pals() {
        for to in f.db.pals() {
            assert_eq!(
                table.steps_between(&from.name, &to.name),
                f.breeding.min_steps(&from.name, &to.name),
                "{} -> {}",
                from.name.as_str(),
                to.name.as_str()
            );
        }
    }
}

#[test]
fn children_are_what_any_partner_gives() {
    let f = fixture();
    let adjacency = SpeciesAdjacency::build(f.db, f.index);
    let children = adjacency.children_of(&PalName::new("SheepBall"));
    assert!(children.contains(&PalName::new("DreamDemon")));
    assert!(children.contains(&PalName::new("SheepBall")));
    assert!(!children.contains(&PalName::new("PinkCat")));
}

// --- searching ------------------------------------------------------

#[test]
fn owned_pal_already_satisfying_the_goal_is_a_zero_step_plan() {
    let f = fixture();
    let pool = vec![owned("DreamDemon", Gender::Female, &["Swift"])];
    let plans = search(&f, pool, &goal("DreamDemon", &["Swift"]), &CONFIG).unwrap();
    let best = &plans[0];
    assert_eq!(best.steps, 0);
    assert_close(eggs(best.expected_eggs), 0.0);
    assert!(
        matches!(&best.root, PlanNode::Owned(pal) if pal.species == PalName::new("DreamDemon"))
    );
}

#[test]
fn one_step_plan_without_passives_costs_one_egg() {
    let f = fixture();
    let pool =
        vec![owned("SheepBall", Gender::Male, &[]), owned("PinkCat", Gender::Female, &[])];
    let plans = search(&f, pool, &goal("DreamDemon", &[]), &CONFIG).unwrap();
    let best = &plans[0];
    assert_eq!(best.steps, 1);
    assert_close(eggs(best.expected_eggs), 1.0);
    let PlanNode::Bred(node) = &best.root else {
        panic!("expected a bred root, got {:?}", best.root);
    };
    assert_eq!(node.species, PalName::new("DreamDemon"));
    assert_eq!(*node.male.species(), PalName::new("SheepBall"));
    assert_eq!(*node.female.species(), PalName::new("PinkCat"));
}

#[test]
fn one_step_plan_with_two_desired_passives_costs_the_inverse_probability() {
    let f = fixture();
    let pool = vec![
        owned("SheepBall", Gender::Male, &["Swift"]),
        owned("PinkCat", Gender::Female, &["Brave"]),
    ];
    let plans = search(&f, pool, &goal("DreamDemon", &["Swift", "Brave"]), &CONFIG).unwrap();
    let best = &plans[0];
    assert_eq!(best.steps, 1);
    // Pool of 2 with both desired: P = 0.6.
    assert_close(eggs(best.expected_eggs), 1.0 / 0.6);
    let PlanNode::Bred(node) = &best.root else {
        panic!("expected a bred root, got {:?}", best.root);
    };
    assert_eq!(
        node.carried_passives,
        vec![PassiveName::new("Swift"), PassiveName::new("Brave")]
    );
}

#[test]
fn two_step_plan_pays_for_the_intermediate_gender_reroll() {
    let f = fixture();
    let pool =
        vec![owned("SheepBall", Gender::Male, &[]), owned("PinkCat", Gender::Female, &[])];
    let plans = search(&f, pool, &goal("BluePlatypus", &[]), &CONFIG).unwrap();
    let best = &plans[0];
    assert_eq!(best.steps, 2);
    let daedream_female_p = f64::from(
        f.db.pal(&PalName::new("DreamDemon")).unwrap().gender_probability.of(Gender::Female),
    ) / f64::from(CERTAIN);
    assert_close(eggs(best.expected_eggs), 1.0 / daedream_female_p + 1.0);

    let PlanNode::Bred(root) = &best.root else {
        panic!("expected a bred root, got {:?}", best.root);
    };
    assert_eq!(root.species, PalName::new("BluePlatypus"));
    assert_eq!(*root.male.species(), PalName::new("SheepBall"));
    assert_eq!(*root.female.species(), PalName::new("DreamDemon"));
    assert!(matches!(&root.female, PlanNode::Bred(_)));
}

#[test]
fn results_are_ranked_by_expected_eggs() {
    let f = fixture();
    let pool = vec![
        owned("SheepBall", Gender::Male, &[]),
        owned("SheepBall", Gender::Female, &[]),
        owned("PinkCat", Gender::Female, &[]),
    ];
    let plans = search(&f, pool, &goal("DreamDemon", &[]), &CONFIG).unwrap();
    assert!(!plans.is_empty());
    for window in plans.windows(2) {
        assert!(window[0].expected_eggs <= window[1].expected_eggs);
    }
}

#[test]
fn progenitor_anubis_reaches_knocklem_in_one_step() {
    let f = fixture();
    let plans = search(&f, vec![], &goal_from("WingGolem", &["Anubis"]), &WILD_CONFIG).unwrap();
    assert!(!plans.is_empty());
    let best = &plans[0];
    assert_eq!(best.steps, 1);
    for plan in &plans {
        let mut anchors = Vec::new();
        progenitor_leaves(&plan.root, &mut anchors);
        assert!(anchors.contains(&PalName::new("Anubis")), "unanchored plan");
        assert!(plan.steps > 0, "free catch plan crowded in");
    }
}

#[test]
fn progenitor_azurmane_reaches_knocklem() {
    let f = fixture();
    let plans =
        search(&f, vec![], &goal_from("WingGolem", &["BlueThunderHorse"]), &WILD_CONFIG).unwrap();
    assert!(!plans.is_empty());
    assert_eq!(plans[0].steps, 1);
    let mut anchors = Vec::new();
    progenitor_leaves(&plans[0].root, &mut anchors);
    assert_eq!(anchors, vec![PalName::new("BlueThunderHorse")]);
}

#[test]
fn every_plan_includes_all_required_progenitors() {
    let f = fixture();
    let plans =
        search(&f, vec![], &goal_from("BluePlatypus", &["SheepBall", "PinkCat"]), &WILD_CONFIG)
            .unwrap();
    assert!(!plans.is_empty());
    for plan in &plans {
        let mut anchors = Vec::new();
        progenitor_leaves(&plan.root, &mut anchors);
        assert!(anchors.contains(&PalName::new("SheepBall")));
        assert!(anchors.contains(&PalName::new("PinkCat")));
    }
}

#[test]
fn progenitor_validation_rejects_bad_inputs() {
    let f = fixture();
    assert_eq!(
        search(&f, vec![], &goal_from("WingGolem", &["NotAPal"]), &WILD_CONFIG).unwrap_err(),
        SearchError::UnknownProgenitor(PalName::new("NotAPal"))
    );
    assert_eq!(
        search(&f, vec![], &goal_from("WingGolem", &["Anubis", "Anubis"]), &WILD_CONFIG)
            .unwrap_err(),
        SearchError::DuplicateProgenitor(PalName::new("Anubis"))
    );
    let nine: Vec<&str> = vec!["a", "b", "c", "d", "e", "f", "g", "h", "i"];
    assert_eq!(
        search(&f, vec![], &goal_from("WingGolem", &nine), &WILD_CONFIG).unwrap_err(),
        SearchError::TooManyProgenitors { count: 9 }
    );
}

#[test]
fn wild_mode_offers_a_catch_plan_for_catchable_goals() {
    let f = fixture();
    let plans = search(&f, vec![], &goal("SheepBall", &[]), &WILD_CONFIG).unwrap();
    let best = &plans[0];
    assert_eq!(best.steps, 0);
    assert_close(eggs(best.expected_eggs), 0.0);
    assert_eq!(best.root, PlanNode::Wild(PalName::new("SheepBall")));
}

#[test]
fn wild_partners_bridge_species_gaps() {
    let f = fixture();
    let pool = vec![owned("SheepBall", Gender::Male, &[])];
    let plans = search(&f, pool, &goal("DreamDemon", &[]), &WILD_CONFIG).unwrap();
    let bred = plans
        .iter()
        .find(|plan| plan.steps == 1)
        .expect("a one-step plan through a wild partner");
    let PlanNode::Bred(node) = &bred.root else {
        panic!("expected a bred root, got {:?}", bred.root);
    };
    assert!(
        matches!(node.male, PlanNode::Wild(_)) || matches!(node.female, PlanNode::Wild(_)),
        "one parent should be a wild catch"
    );
}

#[test]
fn wild_pals_contribute_no_passives() {
    let f = fixture();
    let plans = search(&f, vec![], &goal("SheepBall", &["Swift"]), &WILD_CONFIG).unwrap();
    assert!(plans.is_empty());
}

#[test]
fn species_without_wild_spawns_are_never_caught() {
    let f = fixture();
    assert!(f.db.pal(&PalName::new("NightLady")).unwrap().wild_levels.is_none());
    let plans = search(&f, vec![], &goal("NightLady", &[]), &WILD_CONFIG).unwrap();
    assert!(plans.iter().all(|plan| plan.steps > 0));
}

#[test]
fn goal_out_of_reach_returns_no_plans() {
    let f = fixture();
    let pool = vec![owned("SheepBall", Gender::Male, &[])];
    let plans = search(&f, pool, &goal("DreamDemon", &[]), &CONFIG).unwrap();
    assert!(plans.is_empty());
}

#[test]
fn invalid_inputs_are_rejected() {
    let f = fixture();
    let pool = || vec![owned("SheepBall", Gender::Male, &[])];
    assert_eq!(
        search(&f, pool(), &goal("NotAPal", &[]), &CONFIG).unwrap_err(),
        SearchError::UnknownGoalSpecies(PalName::new("NotAPal"))
    );
    assert_eq!(
        search(&f, vec![owned("NotAPal", Gender::Male, &[])], &goal("DreamDemon", &[]), &CONFIG)
            .unwrap_err(),
        SearchError::UnknownOwnedSpecies(PalName::new("NotAPal"))
    );
    assert_eq!(
        search(&f, pool(), &goal("DreamDemon", &["Swift", "Swift"]), &CONFIG).unwrap_err(),
        SearchError::DuplicateDesired(PassiveName::new("Swift"))
    );
    assert_eq!(
        search(&f, pool(), &goal("DreamDemon", &["a", "b", "c", "d", "e"]), &CONFIG).unwrap_err(),
        SearchError::TooManyDesired { count: 5 }
    );
}

#[test]
fn search_errors_say_what_is_wrong() {
    assert_eq!(
        SearchError::UnknownGoalSpecies(PalName::new("X")).message(),
        "goal species X is not in the database"
    );
    assert_eq!(
        SearchError::TooManyDesired { count: 5 }.message(),
        "5 desired passives exceed the 4-passive cap"
    );
    assert_eq!(
        SearchError::TooManyProgenitors { count: 9 }.message(),
        "9 progenitors exceed the cap of 8"
    );
}

#[test]
fn iv_minimums_cost_the_inheritance_roll() {
    let f = fixture();
    let hp = |value: u8| IvSpread { hp: IvValue::try_from(value).unwrap(), ..IvSpread::default() };
    let mut male = owned("SheepBall", Gender::Male, &[]);
    male.ivs = hp(90);
    let mut female = owned("PinkCat", Gender::Female, &[]);
    female.ivs = hp(85);
    let mut wanted = goal("DreamDemon", &[]);
    wanted.iv_thresholds.hp = Some(IvValue::try_from(80).unwrap());
    let plans = search(&f, vec![male.clone(), female.clone()], &wanted, &CONFIG).unwrap();
    assert_close(eggs(plans[0].expected_eggs), 9.0 / 5.0);

    // Only one parent meets the minimum: a further even chance.
    wanted.iv_thresholds.hp = Some(IvValue::try_from(88).unwrap());
    let plans = search(&f, vec![male.clone(), female.clone()], &wanted, &CONFIG).unwrap();
    assert_close(eggs(plans[0].expected_eggs), 18.0 / 5.0);

    wanted.iv_thresholds.hp = Some(IvValue::max());
    assert!(search(&f, vec![male, female], &wanted, &CONFIG).unwrap().is_empty());
}

#[test]
fn zero_results_asked_are_zero_results_given() {
    let f = fixture();
    let none = SearchConfig { max_results: 0, ..CONFIG };
    let pool = vec![owned("DreamDemon", Gender::Female, &[])];
    assert!(f.solver.find_paths(&pool, &goal("DreamDemon", &[]), &none).unwrap().is_empty());
    assert_eq!(f.solver.pal_db().pals().len(), SPECIES.len());
}

#[test]
fn costs_round_half_to_even() {
    assert_eq!(hundredths_text(EGG), "1.00");
    assert_eq!(hundredths_text(EGG * 5 / 3), "1.67");
    assert_eq!(hundredths_text(1_125_000_000_000), "1.12");
    assert_eq!(hundredths_text(1_135_000_000_000), "1.14");
    assert_eq!(tenths_text(EGG * 9 / 5), "1.8");
    assert_eq!(tenths_text(EGG / 4), "0.2");
}

#[test]
fn certain_eggs_cost_one_and_rarer_ones_more() {
    let sure = EggChance { hits: 1, passive_cases: 1, iv_cases: 1 };
    assert_eq!(expected_eggs(sure, CERTAIN), EGG);
    assert_eq!(expected_eggs(sure, CERTAIN / 2), 2 * EGG);
    let third = EggChance { hits: 2, passive_cases: 3, iv_cases: 2 };
    assert_eq!(expected_eggs(third, CERTAIN), 3 * EGG);
    assert!(expected_eggs(third, CERTAIN / 4) > expected_eggs(third, CERTAIN / 2));
}

#[test]
fn vendored_surgery_data_covers_all_three_install_shapes() {
    let installed = |internal: &str, cost: u32, item: Option<&str>| RawPassiveSkill {
        surgery_cost: cost,
        surgery_item: item.map(str::to_owned),
        ..raw_skill(internal, internal, 1)
    };
    let mut raw = raw_db();
    raw.passive_skills.push(installed("Deffence_up1", 10_000, None));
    raw.passive_skills.push(installed("Deffence_up2", 20_000, Some("PalPassive_Deffence_up2")));
    raw.passive_skills.push(installed("Deffence_up3", 0, Some("PalPassive_Consumable")));
    for i in 0..20 {
        raw.passive_skills.push(installed(&format!("Installable_{i}"), 100, None));
    }
    for i in 0..40 {
        raw.passive_skills.push(raw_skill(&format!("Other_{i}"), "Other", 1));
    }
    let pal_db = parse_pal_db(raw).unwrap();

    let gold_only = pal_db.passive(&PassiveName::new("Deffence_up1")).unwrap();
    assert!(matches!(
        gold_only.surgery,
        Some(Surgery::Gold { cost }) if cost > 0
    ));

    let gold_and_item = pal_db.passive(&PassiveName::new("Deffence_up2")).unwrap();
    let Some(Surgery::GoldAndItem { cost, ref item }) = gold_and_item.surgery else {
        panic!("Deffence_up2 should need gold + item");
    };
    assert!(cost > 0);
    assert!(item.as_str().contains("Deffence_up2"));

    let item_only = pal_db.passive(&PassiveName::new("Deffence_up3")).unwrap();
    assert!(matches!(
        item_only.surgery,
        Some(Surgery::Item { ref item }) if item.as_str().contains("Consumable")
    ));

    let installable = pal_db.passives().iter().filter(|skill| skill.surgery.is_some()).count();
    let total = pal_db.passives().len();
    assert!(installable > 20, "expected a real surgery set, got {installable}");
    assert!(
        installable < total / 2,
        "most passives should not be installable ({installable}/{total})"
    );
}

#[test]
fn no_pool_is_too_large_to_count() {
    let f = fixture();
    // A tenth of the rolls inherits four; one set of four of many is wanted.
    for pool in [65_536usize, 65_537, 1_000_000, usize::MAX] {
        let n = pool as f64;
        let sets = n * (n - 1.0) * (n - 2.0) * (n - 3.0) / 24.0;
        let chance = drawn(f.odds.exact_total_probability(pool, 4, 4));
        assert!((chance * sets / 0.1 - 1.0).abs() < 1e-9, "{pool}: {chance}");
    }
    assert_eq!(choices_within(7, 1_000_000, 4), 7 * 1_000_000 * 999_999 * 999_998 * 999_997);
    assert_eq!(choices_within(7, u128::from(u64::MAX), 4), ENDLESS);
    assert_eq!(choices_within(7, u128::from(u64::MAX), 0), 7);
}

#[test]
fn repeated_passives_count_once() {
    let f = fixture();
    let plain = |n: usize| OwnedPal {
        passives: vec![PassiveName::new("Coward"); n],
        ..owned("SheepBall", Gender::Male, &[])
    };
    let mate = || owned("PinkCat", Gender::Female, &["Swift"]);
    let wanted = goal("DreamDemon", &["Swift"]);
    let once = search(&f, vec![plain(1), mate()], &wanted, &CONFIG).unwrap();
    let often = search(&f, vec![plain(40_000), mate()], &wanted, &CONFIG).unwrap();
    assert!(!once.is_empty());
    assert_eq!(once[0].expected_eggs, often[0].expected_eggs);
}

#[test]
fn wild_levels_need_both_bounds() {
    assert_eq!(WildLevels::between(Some(3), Some(7)), Some(WildLevels { min: 3, max: 7 }));
    assert_eq!(WildLevels::between(Some(3), None), None);
    assert_eq!(WildLevels::between(None, Some(7)), None);
    assert_eq!(WildLevels::between(None, None), None);
}
