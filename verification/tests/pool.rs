//! Pools and the tools that search them.

use palworld_tools::child::ChildIndex;
use palworld_tools::db::{
    parse_breeding_db, parse_pal_db, RawBreedingEntry, RawBreedingFile, RawBreedingMechanics,
    RawDb, RawGenderProbability, RawPal, RawPalId, RawParentGender, RawPassiveSkill, RawSteps,
    RawStepsRow,
};
use palworld_tools::iv::IvOdds;
use palworld_tools::mcp::names::{parse_gender, thresholds, IvMinimums};
use palworld_tools::mcp::output::{
    owned_pal_json, passive_ref, plan_json, species_ref, GenderJson, IvsJson, PlanNodeJson,
};
use palworld_tools::mcp::server::{
    BreedingCombosRequest, FindBreedingPathRequest, ListPalsRequest, ListPassivesRequest,
    PalInfoRequest, PalMcpServer,
};
use palworld_tools::model::{
    BreedingDb, Gender, IvSpread, PalDb, PalName, PassiveName, CERTAIN,
};
use palworld_tools::passives::PassiveOdds;
use palworld_tools::pool::load::{
    dedupe_profiles, empty_pool_status, pool_of_pals, pool_of_parsed, pool_of_report,
    pool_of_save, sort_read, Loaded, PoolError, ReadFailure, Sorted,
};
use palworld_tools::pool::pals_file::{
    parse, PalsFileError, RawIvs, RawPal as ListedPal,
};
use palworld_tools::save::import::{import_pals, ImportedPal, SkipReason};
use palworld_tools::save::level::{looks_like_sav, RawCharacter, SaveError};
use palworld_tools::search::plan::{BredNode, BreedingPlan, OwnedPal, PlanNode};
use palworld_tools::search::solver::Solver;
use std::collections::BTreeMap;

fn raw_pal(dex: u16, internal: &str, name: &str, wild: bool) -> RawPal {
    RawPal {
        id: RawPalId { pal_dex_no: dex, is_variant: false },
        name: name.to_owned(),
        internal_name: internal.to_owned(),
        breeding_power: 1000 + u32::from(dex),
        breeding_power_priority: u32::from(dex),
        guaranteed_passives_internal_ids: Vec::new(),
        min_wild_level: if wild { Some(1) } else { None },
        max_wild_level: if wild { Some(9) } else { None },
    }
}

fn raw_skill(internal: &str, name: &str, rank: i8) -> RawPassiveSkill {
    RawPassiveSkill {
        name: name.to_owned(),
        internal_name: internal.to_owned(),
        rank,
        is_standard_passive_skill: true,
        random_inheritance_allowed: true,
        random_inheritance_weight: 100,
        surgery_cost: 0,
        surgery_item: None,
    }
}

const SPECIES: [(&str, &str, bool); 16] = [
    ("SheepBall", "Lamball", true),
    ("PinkCat", "Cattiva", true),
    ("DreamDemon", "Daedream", true),
    ("BluePlatypus", "Fuack", true),
    ("Anubis", "Anubis", false),
    ("BlueThunderHorse", "Azurmane", false),
    ("WingGolem", "Knocklem", true),
    ("NightLady", "Bellanoir", false),
    ("CatMage", "Katress", true),
    ("FoxMage", "Wixen", true),
    ("CatMage_Fire", "Katress Ignis", false),
    ("FoxMage_Dark", "Wixen Noct", false),
    ("LazyDragon", "Relaxaurus", true),
    ("ElecCat", "Sparkit", true),
    ("LazyDragon_Electric", "Relaxaurus Lux", true),
    ("Alpaca", "Melpaca", true),
];

const SPECIAL: [(&str, &str, &str); 5] = [
    ("SheepBall", "PinkCat", "DreamDemon"),
    ("SheepBall", "DreamDemon", "BluePlatypus"),
    ("Anubis", "LazyDragon", "WingGolem"),
    ("BlueThunderHorse", "LazyDragon", "WingGolem"),
    ("LazyDragon", "ElecCat", "LazyDragon_Electric"),
];

fn weights(entries: &[(u8, u32)]) -> BTreeMap<u8, u32> {
    entries.iter().copied().collect()
}

fn raw_db() -> RawDb {
    let pals: Vec<RawPal> = SPECIES
        .iter()
        .enumerate()
        .map(|(i, (internal, name, wild))| raw_pal(i as u16 + 1, internal, name, *wild))
        .collect();
    RawDb {
        version: "v27".to_owned(),
        breeding_gender_probability: SPECIES
            .iter()
            .map(|(internal, _, _)| RawGenderProbability {
                pal: (*internal).to_owned(),
                male: 500_000_000,
                female: 500_000_000,
            })
            .collect(),
        pals,
        passive_skills: vec![
            raw_skill("MoveSpeed_up_1", "Nimble", 1),
            raw_skill("Swift", "Swift", 3),
            raw_skill("Brave", "Brave", 1),
            raw_skill("Legend", "Legend", 4),
            raw_skill("Coward", "Coward", -1),
            raw_skill("Runner", "Runner", 2),
        ],
        breeding_mechanics: RawBreedingMechanics {
            iv_inheritance_weights: weights(&[(1, 3), (2, 2), (3, 1)]),
            passive_inheritance_weights: weights(&[(1, 4), (2, 3), (3, 2), (4, 1)]),
            passive_random_weights: weights(&[(0, 4), (1, 3), (2, 2), (3, 1)]),
        },
    }
}

fn entry(
    a: &str,
    a_gender: RawParentGender,
    b: &str,
    b_gender: RawParentGender,
    child: &str,
) -> RawBreedingEntry {
    RawBreedingEntry {
        parent1_internal_name: a.to_owned(),
        parent1_gender: a_gender,
        parent2_internal_name: b.to_owned(),
        parent2_gender: b_gender,
        child_internal_name: child.to_owned(),
    }
}

fn raw_entries() -> Vec<RawBreedingEntry> {
    let mut out = Vec::new();
    for (i, (a, _, _)) in SPECIES.iter().enumerate() {
        for (b, _, _) in &SPECIES[i..] {
            if *a == "CatMage" && *b == "FoxMage" {
                out.push(entry(a, RawParentGender::Female, b, RawParentGender::Male, "CatMage_Fire"));
                out.push(entry(a, RawParentGender::Male, b, RawParentGender::Female, "FoxMage_Dark"));
                continue;
            }
            let child = SPECIAL
                .iter()
                .find(|(x, y, _)| x == a && y == b)
                .map_or(*b, |(_, _, child)| *child);
            out.push(entry(a, RawParentGender::Wildcard, b, RawParentGender::Wildcard, child));
        }
    }
    out
}

/// Steps between every two species, by repeated widening.
fn raw_steps(entries: &[RawBreedingEntry]) -> Vec<RawStepsRow> {
    let mut rows = Vec::new();
    for (from, _, _) in &SPECIES {
        let mut reached: BTreeMap<String, u32> = BTreeMap::new();
        reached.insert((*from).to_owned(), 0);
        for round in 1..=SPECIES.len() as u32 {
            let mut next = reached.clone();
            for e in entries {
                for parent in [&e.parent1_internal_name, &e.parent2_internal_name] {
                    if reached.contains_key(parent) && !reached.contains_key(&e.child_internal_name) {
                        next.insert(e.child_internal_name.clone(), round);
                    }
                }
            }
            reached = next;
        }
        rows.push(RawStepsRow {
            from: (*from).to_owned(),
            to: SPECIES
                .iter()
                .map(|(to, _, _)| RawSteps {
                    to: (*to).to_owned(),
                    steps: reached.get(*to).copied().unwrap_or(10_000),
                })
                .collect(),
        });
    }
    rows
}

#[allow(dead_code)]
struct Fixture {
    db: &'static PalDb,
    breeding: &'static BreedingDb,
    index: &'static ChildIndex,
    odds: &'static PassiveOdds,
    iv_odds: &'static IvOdds,
    solver: &'static Solver<'static>,
}

fn fixture() -> Fixture {
    let db: &'static PalDb = Box::leak(Box::new(parse_pal_db(raw_db()).unwrap()));
    let entries = raw_entries();
    let min_breeding_steps = raw_steps(&entries);
    let file = RawBreedingFile { breeding: entries, min_breeding_steps };
    let breeding: &'static BreedingDb =
        Box::leak(Box::new(parse_breeding_db(file, db).map_err(|e| e.message()).unwrap()));
    let index: &'static ChildIndex = Box::leak(Box::new(
        ChildIndex::build(breeding).map_err(|e| e.message()).unwrap(),
    ));
    let odds: &'static PassiveOdds =
        Box::leak(Box::new(PassiveOdds::from_mechanics(db.mechanics()).unwrap()));
    let iv_odds: &'static IvOdds =
        Box::leak(Box::new(IvOdds::from_mechanics(db.mechanics()).unwrap()));
    let solver: &'static Solver<'static> =
        Box::leak(Box::new(Solver::new(db, index, odds, iv_odds)));
    Fixture { db, breeding, index, odds, iv_odds, solver }
}

// --- pals files -----------------------------------------------------

fn text_of(value: Option<&toml::Value>) -> String {
    value.and_then(toml::Value::as_str).unwrap_or_default().to_owned()
}

fn iv_in(entry: &toml::Table, stat: &str) -> u8 {
    entry
        .get("ivs")
        .and_then(toml::Value::as_table)
        .and_then(|ivs| ivs.get(stat))
        .and_then(toml::Value::as_integer)
        .map_or(0, |value| u8::try_from(value).unwrap())
}

/// The entries of a pals file.
fn listed(text: &str) -> Vec<ListedPal> {
    let file: toml::Table = text.parse().unwrap();
    let Some(pals) = file.get("pals").and_then(toml::Value::as_array) else {
        return Vec::new();
    };
    pals.iter()
        .map(|value| {
            let entry = value.as_table().unwrap();
            ListedPal {
                species: text_of(entry.get("species")),
                gender: text_of(entry.get("gender")),
                passives: entry
                    .get("passives")
                    .and_then(toml::Value::as_array)
                    .map_or_else(Vec::new, |list| list.iter().map(|v| text_of(Some(v))).collect()),
                ivs: RawIvs {
                    hp: iv_in(entry, "hp"),
                    attack: iv_in(entry, "attack"),
                    defense: iv_in(entry, "defense"),
                },
            }
        })
        .collect()
}

#[test]
fn pals_file_resolves_display_names_case_insensitively() {
    let f = fixture();
    let pals = parse(
        &listed(
            r#"
            [[pals]]
            species = "lamball"
            gender = "M"
            passives = ["swift"]
            ivs = { hp = 85, attack = 92 }

            [[pals]]
            species = "PinkCat"
            gender = "Female"
            "#,
        ),
        f.db,
    )
    .unwrap();

    assert_eq!(pals.len(), 2);
    assert_eq!(pals[0].species, PalName::new("SheepBall"));
    assert_eq!(pals[0].gender, Gender::Male);
    assert_eq!(pals[0].passives.len(), 1);
    assert_eq!(pals[0].ivs.hp.get(), 85);
    assert_eq!(pals[0].ivs.attack.get(), 92);
    assert_eq!(pals[0].ivs.defense.get(), 0);
    assert_eq!(pals[1].species, PalName::new("PinkCat"));
    assert_eq!(pals[1].ivs, IvSpread::default());
}

#[test]
fn pals_file_out_of_range_ivs_are_rejected() {
    let f = fixture();
    let error = parse(
        &listed("[[pals]]\nspecies = \"Lamball\"\ngender = \"male\"\nivs = { hp = 101 }\n"),
        f.db,
    )
    .unwrap_err();
    assert!(matches!(error, PalsFileError::InvalidToml(_)));
    assert!(error.message().contains("TOML"));
    assert!(error.message().contains("101"));
}

#[test]
fn pals_file_unknown_names_are_rejected_with_context() {
    let f = fixture();
    let species_err =
        parse(&listed("[[pals]]\nspecies = \"NotAPal\"\ngender = \"male\"\n"), f.db).unwrap_err();
    assert!(matches!(species_err, PalsFileError::UnknownSpecies { .. }));
    assert!(species_err.message().contains("NotAPal"));

    let passive_err = parse(
        &listed(
            "[[pals]]\nspecies = \"Lamball\"\ngender = \"male\"\npassives = [\"NotASkill\"]\n",
        ),
        f.db,
    )
    .unwrap_err();
    assert!(matches!(passive_err, PalsFileError::UnknownPassive { .. }));
    assert!(passive_err.message().contains("NotASkill"));

    let gender_err =
        parse(&listed("[[pals]]\nspecies = \"Lamball\"\ngender = \"yes\"\n"), f.db).unwrap_err();
    assert!(matches!(gender_err, PalsFileError::InvalidGender { .. }));
    assert!(gender_err.message().contains("male or female"));
}

#[test]
fn values_out_of_range_come_before_unknown_names() {
    let f = fixture();
    let error = parse(
        &listed(
            "[[pals]]\nspecies = \"NotAPal\"\ngender = \"male\"\n\
             [[pals]]\nspecies = \"Lamball\"\ngender = \"male\"\nivs = { defense = 200 }\n",
        ),
        f.db,
    )
    .unwrap_err();
    assert_eq!(
        error,
        PalsFileError::InvalidToml("IV 200 is out of range (0-100)".to_owned())
    );
}

#[test]
fn file_errors_quote_what_was_written() {
    let error = PalsFileError::UnknownPassive {
        passive: "a\"b".to_owned(),
        species: "Lamball".to_owned(),
    };
    assert_eq!(error.message(), "unknown passive \"a\\\"b\" on \"Lamball\"");
}

// --- loading --------------------------------------------------------

#[test]
fn toml_pool_loads_with_status() {
    let f = fixture();
    let raws = listed("[[pals]]\nspecies = \"Lamball\"\ngender = \"male\"\n");
    let Ok(Loaded::Pool { owned, status }) = pool_of_pals("pool.toml", &raws, f.db) else {
        panic!("expected a pool");
    };
    assert_eq!(owned.len(), 1);
    assert!(status.contains("1 owned pal(s)"));
    assert_eq!(status, "1 owned pal(s) loaded from pool.toml");
}

#[test]
fn unparsable_file_reports_its_path() {
    let f = fixture();
    let raws = listed("[[pals]]\nspecies = \"Nobody\"\ngender = \"male\"\n");
    let error = pool_of_pals("pal-pool-bad-pool", &raws, f.db).unwrap_err();
    assert!(matches!(error, PoolError::PalsFile { .. }));
    assert_eq!(error.message(), "in pal-pool-bad-pool: unknown species \"Nobody\"");

    let broken = PoolError::PalsFile {
        path: "pal-pool-bad-pool".to_owned(),
        source: PalsFileError::InvalidToml("expected a value".to_owned()),
    };
    assert!(broken.message().contains("pal-pool-bad-pool"));
    assert!(broken.message().contains("not valid TOML: expected a value"));
}

#[test]
fn pool_errors_name_their_file() {
    let f = fixture();
    assert_eq!(
        PoolError::Read { path: "a.toml".to_owned(), source: "denied".to_owned() }.message(),
        "reading a.toml: denied"
    );
    assert_eq!(
        PoolError::NotUtf8 { path: "a.toml".to_owned() }.message(),
        "a.toml is neither a save file nor UTF-8 TOML"
    );
    let mut bytes = vec![0u8; 20];
    bytes[8..11].copy_from_slice(b"PlM");
    assert!(looks_like_sav(&bytes));
    assert!(!looks_like_sav(b"[[pals]]\nspecies = \"Lamball\"\n"));
    let error = pool_of_save("Level.sav", &bytes, f.db).unwrap_err();
    assert!(matches!(error, PoolError::Save { source: SaveError::Container(_), .. }));
    assert!(error.message().starts_with("parsing save file Level.sav: "));
    assert_eq!(
        empty_pool_status("pals.toml"),
        "pals.toml not found — searching from an empty pool"
    );
}

// --- importing ------------------------------------------------------

fn raw(id: &str, gender: &str, passives: &[&str]) -> RawCharacter {
    RawCharacter {
        character_id: Some(id.to_owned()),
        gender: Some(gender.to_owned()),
        passives: passives.iter().map(|p| (*p).to_owned()).collect(),
        is_player: false,
    }
}

#[test]
fn resolves_pals_players_and_boss_prefixes() {
    let f = fixture();
    let characters = vec![
        raw("SheepBall", "EPalGenderType::Male", &[]),
        raw("BOSS_PinkCat", "EPalGenderType::Female", &[]),
        RawCharacter {
            character_id: Some("PlayerBody".to_owned()),
            is_player: true,
            ..RawCharacter::default()
        },
        raw("NotASpecies", "EPalGenderType::Male", &[]),
        RawCharacter::default(),
    ];
    let report = import_pals(f.db, &characters);

    assert_eq!(report.pals.len(), 2);
    assert_eq!(report.pals[0].species, PalName::new("SheepBall"));
    assert_eq!(report.pals[0].gender, Gender::Male);
    assert_eq!(report.pals[1].species, PalName::new("PinkCat"));
    assert_eq!(report.pals[1].gender, Gender::Female);

    assert_eq!(report.skipped_players(), 1);
    assert!(report.skipped.contains(&SkipReason::UnknownSpecies("NotASpecies".to_owned())));
    assert!(report.skipped.contains(&SkipReason::NoCharacterId));
}

#[test]
fn passives_resolve_and_unknowns_are_reported_not_fatal() {
    let f = fixture();
    let lamball_passive =
        f.db.passives().iter().find(|skill| skill.standard).unwrap().name.as_str().to_owned();
    let characters = vec![raw(
        "SheepBall",
        "EPalGenderType::Male",
        &[lamball_passive.as_str(), "TotallyFakePassive"],
    )];
    let report = import_pals(f.db, &characters);

    assert_eq!(report.pals.len(), 1);
    assert_eq!(report.pals[0].passives.len(), 1);
    assert_eq!(report.unknown_passives, vec!["TotallyFakePassive".to_owned()]);
}

#[test]
fn gender_values_must_be_recognized() {
    let f = fixture();
    let characters = vec![raw("SheepBall", "EPalGenderType::Hermaphrodite", &[])];
    let report = import_pals(f.db, &characters);
    assert!(report.pals.is_empty());
    assert!(matches!(
        &report.skipped[0],
        SkipReason::UnknownGender(Some(value)) if value.contains("Hermaphrodite")
    ));
}

#[test]
fn every_role_prefix_is_stripped_whatever_its_case() {
    let f = fixture();
    let characters = vec![
        raw("predator_SheepBall", "Male", &[]),
        raw("RAID_PinkCat", "Female", &[]),
        raw("Gym_Anubis", "Male", &[]),
        raw("BOSS_", "Male", &[]),
    ];
    let report = import_pals(f.db, &characters);
    let names: Vec<&str> = report.pals.iter().map(|p| p.species.as_str()).collect();
    assert_eq!(names, ["SheepBall", "PinkCat", "Anubis"]);
    assert_eq!(report.skipped, vec![SkipReason::UnknownSpecies("BOSS_".to_owned())]);
}

#[test]
fn identical_profiles_collapse_and_the_status_counts_them() {
    let f = fixture();
    let characters = vec![
        raw("SheepBall", "Male", &["Swift"]),
        raw("SheepBall", "Male", &["Swift"]),
        raw("SheepBall", "Female", &["Swift"]),
        RawCharacter { is_player: true, ..RawCharacter::default() },
        RawCharacter::default(),
    ];
    let report = import_pals(f.db, &characters);
    assert_eq!(dedupe_profiles(&report.pals).len(), 2);
    let Loaded::Pool { owned, status } = pool_of_report("Level.sav", &report) else {
        panic!("expected a pool");
    };
    assert_eq!(owned.len(), 2);
    assert_eq!(
        status,
        "3 pal(s) imported from Level.sav (1 player(s), 1 other entries skipped); \
         2 unique breeding profile(s)"
    );
    let kept = ImportedPal {
        species: PalName::new("SheepBall"),
        gender: Gender::Male,
        passives: vec![PassiveName::new("Swift")],
        ivs: IvSpread::default(),
    };
    assert_eq!(report.pals[0], kept);
}

// --- tools ----------------------------------------------------------

fn server_with_toml(pals_toml: &str) -> PalMcpServer<'static> {
    let f = fixture();
    let owned = parse(&listed(pals_toml), f.db).unwrap();
    PalMcpServer::new(f.solver, "unused.toml".to_owned(), owned, "test pool".to_owned())
}

fn path_request(target: &str, passives: &[&str]) -> FindBreedingPathRequest {
    FindBreedingPathRequest {
        target: target.to_owned(),
        passives: passives.iter().map(|p| (*p).to_owned()).collect(),
        progenitors: Vec::new(),
        min_ivs: None,
        allow_wild: false,
        max_breeding_steps: None,
        max_results: None,
    }
}

#[test]
fn an_owned_pal_satisfies_its_own_goal_with_zero_steps() {
    let server = server_with_toml(
        "[[pals]]\nspecies = \"Lamball\"\ngender = \"male\"\npassives = [\"Swift\"]\n",
    );
    let response = server.find_breeding_path(&path_request("lamball", &["swift"])).unwrap();

    assert_eq!(response.goal.species.name, "SheepBall");
    assert_eq!(response.goal.species.display_name, "Lamball");
    assert!(!response.plans.is_empty());
    let best = &response.plans[0];
    assert_eq!(best.steps, 0);
    assert_eq!(best.expected_eggs, 0);
    assert!(matches!(best.root, PlanNodeJson::Owned { .. }));
    assert!(response.summary.contains("already satisfies"));
    assert_eq!(response.goal.max_breeding_steps, 3);
    assert_eq!(response.goal.max_results, 5);
    assert!(!response.goal.allow_wild);
}

#[test]
fn unknown_names_error_with_suggestions() {
    let server = server_with_toml("");
    let error = server.find_breeding_path(&path_request("lambal", &[])).unwrap_err();
    assert!(error.contains("unknown species"));
    assert!(error.contains("Lamball"));
    assert_eq!(error, "unknown species \"lambal\" — did you mean Lamball?");

    let error = server.find_breeding_path(&path_request("Lamball", &["swif"])).unwrap_err();
    assert!(error.contains("unknown passive"));
    assert!(error.contains("Swift"));

    let error = server.find_breeding_path(&path_request("zzz", &[])).unwrap_err();
    assert_eq!(error, "unknown species \"zzz\"");
}

#[test]
fn out_of_range_iv_minimums_are_rejected() {
    let server = server_with_toml("");
    let mut request = path_request("Lamball", &[]);
    request.min_ivs = Some(IvMinimums { hp: Some(101), attack: None, defense: None });
    let error = server.find_breeding_path(&request).unwrap_err();
    assert!(error.contains("hp"));
    assert!(error.contains("out of range"));
}

#[test]
fn requested_bounds_stay_in_their_ranges() {
    let server = server_with_toml("");
    let mut request = path_request("Fuack", &[]);
    request.progenitors = vec!["Lamball".to_owned(), "Cattiva".to_owned()];
    request.max_breeding_steps = Some(0);
    request.max_results = Some(99);
    let response = server.find_breeding_path(&request).unwrap();
    assert_eq!(response.goal.max_breeding_steps, 1);
    assert_eq!(response.goal.max_results, 10);
    assert!(response.goal.allow_wild, "progenitors imply wild capture");
    assert_eq!(response.goal.progenitors[1].name, "PinkCat");
    assert!(response.summary.starts_with("no plans for Fuack within 1 breeding step(s)"));

    request.max_breeding_steps = None;
    let response = server.find_breeding_path(&request).unwrap();
    assert!(!response.plans.is_empty());
    assert!(response.summary.contains("plan(s) for Fuack; best needs 2 breeding step(s), ~3.0"));
    assert!(matches!(response.plans[0].root, PlanNodeJson::Bred { .. }));
}

#[test]
fn goals_that_cannot_be_searched_say_why() {
    let server = server_with_toml("");
    let error =
        server.find_breeding_path(&path_request("Lamball", &["swift", "swift"])).unwrap_err();
    assert_eq!(error, "desired passive Swift listed more than once");
}

fn list_all() -> ListPalsRequest {
    ListPalsRequest { species: None, passive: None, gender: None, min_ivs: None, limit: None }
}

#[test]
fn list_pals_filters_and_reports_truncation() {
    let server = server_with_toml(
        "[[pals]]\nspecies = \"Lamball\"\ngender = \"male\"\npassives = [\"Swift\"]\n\n\
         [[pals]]\nspecies = \"Cattiva\"\ngender = \"female\"\n",
    );

    let all = server.list_pals(&list_all()).unwrap();
    assert_eq!(all.total_matching, 2);
    assert!(!all.truncated);
    assert_eq!(all.pool_status, "test pool");
    assert_eq!(all.pals[0].species.display_name, "Cattiva", "by display name");

    let swift_only = server
        .list_pals(&ListPalsRequest { passive: Some("swift".to_owned()), ..list_all() })
        .unwrap();
    assert_eq!(swift_only.total_matching, 1);
    assert_eq!(swift_only.pals[0].species.display_name, "Lamball");

    let capped = server.list_pals(&ListPalsRequest { limit: Some(1), ..list_all() }).unwrap();
    assert_eq!(capped.total_matching, 2);
    assert_eq!(capped.returned, 1);
    assert!(capped.truncated);
    let one = server.list_pals(&ListPalsRequest { limit: Some(0), ..list_all() }).unwrap();
    assert_eq!(one.returned, 1, "a limit of zero still shows one");

    let females = server
        .list_pals(&ListPalsRequest { gender: Some("F".to_owned()), ..list_all() })
        .unwrap();
    assert_eq!(females.total_matching, 1);
    assert_eq!(females.pals[0].gender, GenderJson::Female);
    let error = server
        .list_pals(&ListPalsRequest { gender: Some("BOTH".to_owned()), ..list_all() })
        .unwrap_err();
    assert_eq!(error, "gender must be male or female, got \"both\"");
    let none = server
        .list_pals(&ListPalsRequest { species: Some("Anubis".to_owned()), ..list_all() })
        .unwrap();
    assert_eq!(none.total_matching, 0);
    let strong = IvMinimums { hp: Some(1), attack: None, defense: None };
    let none =
        server.list_pals(&ListPalsRequest { min_ivs: Some(strong), ..list_all() }).unwrap();
    assert_eq!(none.total_matching, 0);
}

#[test]
fn reload_pool_reimports_from_disk() {
    let f = fixture();
    let mut server =
        PalMcpServer::new(f.solver, "pool.toml".to_owned(), Vec::new(), "empty".to_owned());
    let first = listed("[[pals]]\nspecies = \"Lamball\"\ngender = \"male\"\n");
    let reloaded = server.reload_pool(pool_of_pals(server.path(), &first, f.db)).unwrap();
    assert_eq!(reloaded.unique_profiles, 1);

    let second = listed(
        "[[pals]]\nspecies = \"Lamball\"\ngender = \"male\"\n\n\
         [[pals]]\nspecies = \"Cattiva\"\ngender = \"female\"\n",
    );
    let reloaded = server.reload_pool(pool_of_pals("pool.toml", &second, f.db)).unwrap();
    assert_eq!(reloaded.unique_profiles, 2);
    assert_eq!(reloaded.status, "2 owned pal(s) loaded from pool.toml");
    assert_eq!(server.list_pals(&list_all()).unwrap().total_matching, 2);

    let error = server.reload_pool(Ok(Loaded::Missing)).unwrap_err();
    assert_eq!(error, "pool.toml not found — keeping the current pool");
    let error =
        server.reload_pool(Err(PoolError::NotUtf8 { path: "pool.toml".to_owned() })).unwrap_err();
    assert!(error.contains("UTF-8"));
    assert_eq!(server.list_pals(&list_all()).unwrap().total_matching, 2, "the pool stays");
}

#[test]
fn pal_info_describes_a_species_and_counts_owned() {
    let server = server_with_toml("[[pals]]\nspecies = \"Lamball\"\ngender = \"male\"\n");
    let info = server.pal_info(&PalInfoRequest { species: "lamball".to_owned() }).unwrap();
    assert_eq!(info.species.name, "SheepBall");
    assert_eq!(info.species.display_name, "Lamball");
    assert!(info.wild_levels.is_some());
    assert_eq!(info.owned_profiles, 1);
    assert!(info.male_probability > 0 && info.male_probability < CERTAIN);
    assert_eq!(info.dex_number, 1);
    assert!(server.pal_info(&PalInfoRequest { species: "nobody".to_owned() }).is_err());
}

#[test]
fn breeding_combos_between_two_parents_matches_the_child_index() {
    let server = server_with_toml("");
    let f = fixture();
    let lamball = f.db.find_pal("Lamball").unwrap().name.clone();
    let cattiva = f.db.find_pal("Cattiva").unwrap().name.clone();
    let expected = f.solver.child_index().child_between(&lamball, &cattiva).unwrap();

    let response = server
        .breeding_combos(&BreedingCombosRequest {
            parent_a: Some("Lamball".to_owned()),
            parent_b: Some("Cattiva".to_owned()),
            child: None,
            limit: None,
        })
        .unwrap();
    assert_eq!(response.total_matching, 1);
    let combo = &response.combos[0];
    assert_eq!(combo.child.name, expected.as_str());
    assert!(combo.either_direction);
}

#[test]
fn breeding_combos_for_a_child_lists_pairs_and_requires_a_filter() {
    let server = server_with_toml("");
    let response = server
        .breeding_combos(&BreedingCombosRequest {
            parent_a: None,
            parent_b: None,
            child: Some("Lamball".to_owned()),
            limit: Some(10),
        })
        .unwrap();
    assert!(response.total_matching > 0);
    assert_eq!(response.returned, response.combos.len());
    assert!(response.combos.iter().all(|combo| combo.child.name == "SheepBall"));

    let error = server
        .breeding_combos(&BreedingCombosRequest {
            parent_a: None,
            parent_b: None,
            child: None,
            limit: None,
        })
        .unwrap_err();
    assert!(error.contains("at least one"));
}

#[test]
fn gender_locked_combos_appear_once_per_arrangement() {
    let server = server_with_toml("");
    let response = server
        .breeding_combos(&BreedingCombosRequest {
            parent_a: Some("Katress".to_owned()),
            parent_b: Some("Wixen".to_owned()),
            child: None,
            limit: None,
        })
        .unwrap();
    let children: Vec<(&str, bool)> = response
        .combos
        .iter()
        .map(|c| (c.child.display_name.as_str(), c.either_direction))
        .collect();
    assert_eq!(children, [("Katress Ignis", false), ("Wixen Noct", false)]);
}

#[test]
fn list_passives_filters_by_substring() {
    let server = server_with_toml("");
    let response =
        server.list_passives(&ListPassivesRequest { filter: Some("swift".to_owned()) });
    assert!(response.total >= 1);
    assert!(response.passives.iter().any(|passive| passive.display_name == "Swift"));
    let all = server.list_passives(&ListPassivesRequest { filter: None });
    assert_eq!(all.total, 6);
    assert_eq!(all.passives[0].display_name, "Brave");
    assert_eq!(all.passives[1].rank, -1);
}

#[test]
fn reported_shapes_carry_both_names() {
    let f = fixture();
    let lamball = species_ref(f.db, &PalName::new("SheepBall"));
    assert_eq!((lamball.name.as_str(), lamball.display_name.as_str()), ("SheepBall", "Lamball"));
    let stranger = species_ref(f.db, &PalName::new("Ghost"));
    assert_eq!(stranger.display_name, "Ghost");
    assert_eq!(passive_ref(f.db, &PassiveName::new("MoveSpeed_up_1")).display_name, "Nimble");
    let pal = OwnedPal {
        species: PalName::new("SheepBall"),
        gender: Gender::Male,
        passives: vec![PassiveName::new("Swift")],
        ivs: IvSpread::default(),
    };
    let json = owned_pal_json(f.db, &pal);
    assert_eq!(json.ivs, IvsJson { hp: 0, attack: 0, defense: 0 });
    let plan = BreedingPlan {
        root: PlanNode::Bred(Box::new(BredNode {
            male: PlanNode::Owned(pal),
            female: PlanNode::Wild(PalName::new("PinkCat")),
            species: PalName::new("DreamDemon"),
            carried_passives: vec![PassiveName::new("Swift")],
        })),
        expected_eggs: 7,
        steps: 1,
    };
    let json = plan_json(f.db, &plan);
    assert_eq!((json.expected_eggs, json.steps), (7, 1));
    let PlanNodeJson::Bred { species, carried_passives, male, female } = json.root else {
        panic!("expected a breeding step");
    };
    assert_eq!(species.display_name, "Daedream");
    assert_eq!(carried_passives.len(), 1);
    assert!(matches!(*male, PlanNodeJson::Owned { .. }));
    assert!(matches!(*female, PlanNodeJson::Wild { .. }));
}

#[test]
fn genders_and_minimums_resolve() {
    assert_eq!(parse_gender("M"), Ok(Gender::Male));
    assert_eq!(parse_gender("female"), Ok(Gender::Female));
    assert!(thresholds(None).unwrap().is_empty());
    let minimums = IvMinimums { hp: Some(0), attack: Some(100), defense: None };
    let t = thresholds(Some(minimums)).unwrap();
    assert_eq!(t.attack.unwrap().get(), 100);
    assert_eq!(t.hp.unwrap().get(), 0);
    assert!(t.defense.is_none());
    let bad = IvMinimums { hp: None, attack: None, defense: Some(255) };
    assert_eq!(thresholds(Some(bad)).unwrap_err(), "defense: IV 255 is out of range (0-100)");
}

#[test]
fn listings_are_ordered_and_combos_lose_no_pair() {
    let f = fixture();
    let owned = parse(
        &listed(
            "[[pals]]\nspecies = \"Sparkit\"\ngender = \"m\"\n\
             [[pals]]\nspecies = \"Cattiva\"\ngender = \"f\"\npassives = [\"Swift\"]\n\
             [[pals]]\nspecies = \"Cattiva\"\ngender = \"f\"\n",
        ),
        f.db,
    )
    .unwrap();
    let server = PalMcpServer::new(f.solver, "pals.toml".to_owned(), owned, "loaded".to_owned());
    let all = server
        .list_pals(&ListPalsRequest {
            species: None,
            passive: None,
            gender: None,
            min_ivs: None,
            limit: None,
        })
        .unwrap();
    let shown: Vec<(&str, usize)> = all
        .pals
        .iter()
        .map(|pal| (pal.species.display_name.as_str(), pal.passives.len()))
        .collect();
    assert_eq!(shown, [("Cattiva", 0), ("Cattiva", 1), ("Sparkit", 0)]);

    // Sixteen species: one combo with itself, fifteen with the others;
    // the gender-locked pair of Katress counts twice.
    let combos = |name: &str| {
        server
            .breeding_combos(&BreedingCombosRequest {
                parent_a: Some(name.to_owned()),
                parent_b: None,
                child: None,
                limit: Some(1000),
            })
            .unwrap()
            .total_matching
    };
    assert_eq!(combos("Lamball"), 16);
    assert_eq!(combos("Katress"), 17);
}

#[test]
fn what_was_read_is_sorted() {
    let f = fixture();
    assert!(matches!(
        sort_read("pals.toml", Err(ReadFailure::NotFound), f.db),
        Ok(Sorted::Done(Loaded::Missing))
    ));
    let refused = sort_read("pals.toml", Err(ReadFailure::Other("denied".to_owned())), f.db);
    assert_eq!(refused.unwrap_err().message(), "reading pals.toml: denied");
    let garbled = sort_read("pals.toml", Ok(vec![0xFF, 0xFE, 0x00]), f.db);
    assert_eq!(
        garbled.unwrap_err().message(),
        "pals.toml is neither a save file nor UTF-8 TOML"
    );
    let written = "[[pals]]\nspecies = \"Lamball\" # ♂\n";
    let Ok(Sorted::Text(text)) = sort_read("pals.toml", Ok(written.as_bytes().to_vec()), f.db)
    else {
        panic!("text");
    };
    assert_eq!(text, written);
    let mut save = vec![0u8; 16];
    save[8..11].copy_from_slice(b"PlM");
    assert!(matches!(
        sort_read("Level.sav", Ok(save), f.db),
        Err(PoolError::Save { .. })
    ));
}

#[test]
fn parsed_files_become_pools_or_say_why_not() {
    let f = fixture();
    let Err(PoolError::PalsFile { path, source }) =
        pool_of_parsed("pals.toml", Err("no table".to_owned()), f.db)
    else {
        panic!("not TOML");
    };
    assert_eq!(path, "pals.toml");
    assert_eq!(source, PalsFileError::InvalidToml("no table".to_owned()));
    let pal = |passives: usize| ListedPal {
        species: "Lamball".to_owned(),
        gender: "m".to_owned(),
        passives: vec!["Swift".to_owned(); passives],
        ivs: RawIvs { hp: 0, attack: 0, defense: 0 },
    };
    // However long a list is, it loads.
    let Ok(Loaded::Pool { owned, status }) =
        pool_of_parsed("pals.toml", Ok(vec![pal(1), pal(40_000), pal(1)]), f.db)
    else {
        panic!("a pool");
    };
    assert_eq!(owned.len(), 3);
    assert_eq!(owned[1].passives.len(), 40_000);
    assert_eq!(status, "3 owned pal(s) loaded from pals.toml");
}

#[test]
fn missing_file_is_not_an_error() {
    let f = fixture();
    assert!(matches!(
        sort_read("/nonexistent/pal-pool-test.toml", Err(ReadFailure::NotFound), f.db),
        Ok(Sorted::Done(Loaded::Missing))
    ));
}
