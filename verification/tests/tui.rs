//! The terminal frontend, without a terminal.

use palworld_tools::chance::EGG;
use palworld_tools::child::ChildIndex;
use palworld_tools::db::{
    parse_breeding_db, parse_pal_db, RawBreedingEntry, RawBreedingFile, RawBreedingMechanics,
    RawDb, RawGenderProbability, RawPal, RawPalId, RawParentGender, RawPassiveSkill, RawSteps,
    RawStepsRow,
};
use palworld_tools::iv::{IvOdds, IvThresholds};
use palworld_tools::model::{
    BreedingDb, Gender, IvSpread, IvValue, PalDb, PalName, PassiveName,
};
use palworld_tools::passives::PassiveOdds;
use palworld_tools::pool::load::{pool_of_pals, Loaded, PoolError};
use palworld_tools::pool::pals_file::{RawIvs, RawPal as ListedPal};
use palworld_tools::search::plan::{BredNode, OwnedPal, PlanNode};
use palworld_tools::search::solver::Solver;
use palworld_tools::tui::app::{run_search, App, Chore, Overlay};
use palworld_tools::tui::command::{
    preserve_line_breaks, Command, Doc, DocView, Documents, Page, PAGE_LINES,
};
use palworld_tools::tui::layout::{
    locate_click, locate_in, row_index, screen, scroll_offset, Area, PaneAreas,
};
use palworld_tools::tui::state::{
    Click, KeyCode, KeyEvent, Pane, MAX_BREEDING_STEPS, MIN_BREEDING_STEPS,
};
use palworld_tools::tui::store::{
    PlanStore, Platform, SavedPlan, StoreRead, StoreStep, backup_message, library_path, open_store,
};
use palworld_tools::tui::view::{
    iv_title, passives_pane, plan_tree, rank_style, results_pane, species_pane, status_line,
    TextLine, Tint,
};
use std::collections::BTreeMap;

fn raw_pal(dex: u16, internal: &str, name: &str, wild: bool) -> RawPal {
    RawPal {
        id: RawPalId { pal_dex_no: dex, is_variant: false },
        name: name.to_owned(),
        internal_name: internal.to_owned(),
        breeding_power: 1000 + u32::from(dex),
        breeding_power_priority: u32::from(dex),
        guaranteed_passives_internal_ids: Vec::new(),
        min_wild_level: if wild { Some(1) } else { None },
        max_wild_level: if wild { Some(9) } else { None },
    }
}

fn raw_skill(internal: &str, name: &str, rank: i8) -> RawPassiveSkill {
    RawPassiveSkill {
        name: name.to_owned(),
        internal_name: internal.to_owned(),
        rank,
        is_standard_passive_skill: true,
        random_inheritance_allowed: true,
        random_inheritance_weight: 100,
        surgery_cost: 0,
        surgery_item: None,
    }
}

const SPECIES: [(&str, &str, bool); 16] = [
    ("SheepBall", "Lamball", true),
    ("PinkCat", "Cattiva", true),
    ("DreamDemon", "Daedream", true),
    ("BluePlatypus", "Fuack", true),
    ("Anubis", "Anubis", false),
    ("BlueThunderHorse", "Azurmane", false),
    ("WingGolem", "Knocklem", true),
    ("NightLady", "Bellanoir", false),
    ("CatMage", "Katress", true),
    ("FoxMage", "Wixen", true),
    ("CatMage_Fire", "Katress Ignis", false),
    ("FoxMage_Dark", "Wixen Noct", false),
    ("LazyDragon", "Relaxaurus", true),
    ("ElecCat", "Sparkit", true),
    ("LazyDragon_Electric", "Relaxaurus Lux", true),
    ("Alpaca", "Melpaca", true),
];

const SPECIAL: [(&str, &str, &str); 5] = [
    ("SheepBall", "PinkCat", "DreamDemon"),
    ("SheepBall", "DreamDemon", "BluePlatypus"),
    ("Anubis", "LazyDragon", "WingGolem"),
    ("BlueThunderHorse", "LazyDragon", "WingGolem"),
    ("LazyDragon", "ElecCat", "LazyDragon_Electric"),
];

fn weights(entries: &[(u8, u32)]) -> BTreeMap<u8, u32> {
    entries.iter().copied().collect()
}

fn raw_db() -> RawDb {
    let pals: Vec<RawPal> = SPECIES
        .iter()
        .enumerate()
        .map(|(i, (internal, name, wild))| raw_pal(i as u16 + 1, internal, name, *wild))
        .collect();
    RawDb {
        version: "v27".to_owned(),
        breeding_gender_probability: SPECIES
            .iter()
            .map(|(internal, _, _)| RawGenderProbability {
                pal: (*internal).to_owned(),
                male: 500_000_000,
                female: 500_000_000,
            })
            .collect(),
        pals,
        passive_skills: vec![
            raw_skill("MoveSpeed_up_1", "Nimble", 1),
            raw_skill("Swift", "Swift", 3),
            raw_skill("Brave", "Brave", 1),
            raw_skill("Legend", "Legend", 4),
            raw_skill("Coward", "Coward", -1),
            raw_skill("Runner", "Runner", 2),
        ],
        breeding_mechanics: RawBreedingMechanics {
            iv_inheritance_weights: weights(&[(1, 3), (2, 2), (3, 1)]),
            passive_inheritance_weights: weights(&[(1, 4), (2, 3), (3, 2), (4, 1)]),
            passive_random_weights: weights(&[(0, 4), (1, 3), (2, 2), (3, 1)]),
        },
    }
}

fn entry(
    a: &str,
    a_gender: RawParentGender,
    b: &str,
    b_gender: RawParentGender,
    child: &str,
) -> RawBreedingEntry {
    RawBreedingEntry {
        parent1_internal_name: a.to_owned(),
        parent1_gender: a_gender,
        parent2_internal_name: b.to_owned(),
        parent2_gender: b_gender,
        child_internal_name: child.to_owned(),
    }
}

fn raw_entries() -> Vec<RawBreedingEntry> {
    let mut out = Vec::new();
    for (i, (a, _, _)) in SPECIES.iter().enumerate() {
        for (b, _, _) in &SPECIES[i..] {
            if *a == "CatMage" && *b == "FoxMage" {
                out.push(entry(a, RawParentGender::Female, b, RawParentGender::Male, "CatMage_Fire"));
                out.push(entry(a, RawParentGender::Male, b, RawParentGender::Female, "FoxMage_Dark"));
                continue;
            }
            let child = SPECIAL
                .iter()
                .find(|(x, y, _)| x == a && y == b)
                .map_or(*b, |(_, _, child)| *child);
            out.push(entry(a, RawParentGender::Wildcard, b, RawParentGender::Wildcard, child));
        }
    }
    out
}

/// Steps between every two species, by repeated widening.
fn raw_steps(entries: &[RawBreedingEntry]) -> Vec<RawStepsRow> {
    let mut rows = Vec::new();
    for (from, _, _) in &SPECIES {
        let mut reached: BTreeMap<String, u32> = BTreeMap::new();
        reached.insert((*from).to_owned(), 0);
        for round in 1..=SPECIES.len() as u32 {
            let mut next = reached.clone();
            for e in entries {
                for parent in [&e.parent1_internal_name, &e.parent2_internal_name] {
                    if reached.contains_key(parent) && !reached.contains_key(&e.child_internal_name) {
                        next.insert(e.child_internal_name.clone(), round);
                    }
                }
            }
            reached = next;
        }
        rows.push(RawStepsRow {
            from: (*from).to_owned(),
            to: SPECIES
                .iter()
                .map(|(to, _, _)| RawSteps {
                    to: (*to).to_owned(),
                    steps: reached.get(*to).copied().unwrap_or(10_000),
                })
                .collect(),
        });
    }
    rows
}

#[allow(dead_code)]
struct Fixture {
    db: &'static PalDb,
    breeding: &'static BreedingDb,
    index: &'static ChildIndex,
    odds: &'static PassiveOdds,
    iv_odds: &'static IvOdds,
    solver: &'static Solver<'static>,
}

fn fixture() -> Fixture {
    let db: &'static PalDb = Box::leak(Box::new(parse_pal_db(raw_db()).unwrap()));
    let entries = raw_entries();
    let min_breeding_steps = raw_steps(&entries);
    let file = RawBreedingFile { breeding: entries, min_breeding_steps };
    let breeding: &'static BreedingDb =
        Box::leak(Box::new(parse_breeding_db(file, db).map_err(|e| e.message()).unwrap()));
    let index: &'static ChildIndex = Box::leak(Box::new(
        ChildIndex::build(breeding).map_err(|e| e.message()).unwrap(),
    ));
    let odds: &'static PassiveOdds =
        Box::leak(Box::new(PassiveOdds::from_mechanics(db.mechanics()).unwrap()));
    let iv_odds: &'static IvOdds =
        Box::leak(Box::new(IvOdds::from_mechanics(db.mechanics()).unwrap()));
    let solver: &'static Solver<'static> =
        Box::leak(Box::new(Solver::new(db, index, odds, iv_odds)));
    Fixture { db, breeding, index, odds, iv_odds, solver }
}

fn documents() -> &'static Documents {
    let long: String = (1..=60).map(|n| format!("- entry number {n}\n")).collect();
    let help = Page::prepare("# Help\n\nkeys\n\n```\nverbatim\n```\n").unwrap();
    Box::leak(Box::new(Documents { help, readme: Page::prepare(&long).unwrap() }))
}

fn test_store() -> PlanStore {
    PlanStore::fresh("plans.json".to_owned())
}

fn key(code: KeyCode) -> KeyEvent {
    KeyEvent { code, control: false }
}

fn ctrl(c: char) -> KeyEvent {
    KeyEvent { code: KeyCode::Char(c), control: true }
}

fn app_with(owned: Vec<OwnedPal>) -> App<'static> {
    App::new(fixture().solver, owned, test_store(), documents())
}

fn app() -> App<'static> {
    app_with(Vec::new())
}

/// Presses a key in a shell whose library file can always be written.
fn press(app: &mut App, event: KeyEvent) {
    match app.handle_key(event) {
        Some(Chore::Reload { path }) => app.finish_reload(&path, Ok(Loaded::Missing)),
        Some(chore) => app.finish_write(chore, None),
        None => {}
    }
}

fn type_line(app: &mut App, line: &str) {
    for c in line.chars() {
        press(app, key(KeyCode::Char(c)));
    }
}

fn pal(species: &str, gender: Gender) -> OwnedPal {
    OwnedPal {
        species: PalName::new(species),
        gender,
        passives: Vec::new(),
        ivs: IvSpread::default(),
    }
}

fn pair() -> Vec<OwnedPal> {
    vec![pal("SheepBall", Gender::Male), pal("PinkCat", Gender::Female)]
}

fn iv(value: u8) -> IvValue {
    IvValue::try_from(value).unwrap()
}

fn saved(label: &str, eggs: u128) -> SavedPlan {
    SavedPlan {
        label: label.to_owned(),
        goal_species: PalName::new("DreamDemon"),
        goal_passives: Vec::new(),
        goal_progenitors: Vec::new(),
        goal_iv_thresholds: IvThresholds::default(),
        expected_eggs: eggs,
        steps: 1,
        root: PlanNode::Wild(PalName::new("SheepBall")),
    }
}

// --- panes ----------------------------------------------------------

#[test]
fn typing_filters_the_species_list_and_enter_selects_the_target() {
    let mut app = app();
    type_line(&mut app, "lamball");
    let rows = app.species_rows();
    assert_eq!(rows.len(), 1);
    assert_eq!(rows[0].display_name, "Lamball");

    press(&mut app, key(KeyCode::Enter));
    assert_eq!(app.target, Some(PalName::new("SheepBall")));
}

#[test]
fn passive_selection_caps_at_four() {
    let mut app = app();
    app.focus = Pane::Passives;
    let names: Vec<PassiveName> =
        app.passive_rows().iter().take(5).map(|skill| skill.name.clone()).collect();
    assert!(names.len() == 5, "expected at least 5 standard passives");
    for position in 0..names.len() {
        app.passive_cursor = position;
        press(&mut app, key(KeyCode::Enter));
    }
    assert_eq!(app.selected_passives.len(), 4);
    assert!(!app.selected_passives.contains(&names[4]));
    assert!(app.status.contains("at most"));
}

#[test]
fn search_without_a_target_reports_instead_of_running() {
    let mut app = app();
    press(&mut app, key(KeyCode::F(5)));
    assert!(app.plans.is_empty());
    assert!(app.status.contains("target"));
}

fn collect_progenitor_leaves(node: &PlanNode, out: &mut Vec<PalName>) {
    match node {
        PlanNode::Progenitor(species) => out.push(species.clone()),
        PlanNode::Owned(_) | PlanNode::Wild(_) => {}
        PlanNode::Bred(bred) => {
            collect_progenitor_leaves(&bred.male, out);
            collect_progenitor_leaves(&bred.female, out);
        }
    }
}

#[test]
fn f4_marks_progenitors_and_search_starts_from_them_only() {
    let mut app = app();
    type_line(&mut app, "lamball");
    press(&mut app, key(KeyCode::F(4)));
    assert_eq!(app.progenitors, vec![PalName::new("SheepBall")]);

    app.species_filter.clear();
    type_line(&mut app, "cattiva");
    // Row 0 is the pinned Lamball; the filter match sits below it.
    press(&mut app, key(KeyCode::Down));
    press(&mut app, key(KeyCode::F(4)));
    assert_eq!(app.progenitors.len(), 2);

    app.target = Some(PalName::new("BluePlatypus"));
    app.run_search();

    assert!(!app.plans.is_empty());
    for plan in &app.plans {
        let mut anchors = Vec::new();
        collect_progenitor_leaves(&plan.root, &mut anchors);
        assert!(anchors.contains(&PalName::new("SheepBall")));
        assert!(anchors.contains(&PalName::new("PinkCat")));
        assert!(plan.steps > 0);
    }
    assert!(app.status.contains("2 progenitor pal(s)"));

    // Unmarking returns to pool planning.
    app.focus = Pane::Pals;
    press(&mut app, key(KeyCode::F(4)));
    assert_eq!(app.progenitors.len(), 1);
}

#[test]
fn delete_clears_all_progenitors_at_once() {
    let mut app = app();
    app.progenitors = vec![PalName::new("SheepBall"), PalName::new("PinkCat")];

    press(&mut app, key(KeyCode::Delete));
    assert!(app.progenitors.is_empty());
    assert!(app.status.contains("cleared 2"));

    press(&mut app, key(KeyCode::Delete));
    assert!(app.status.contains("no progenitors"));
}

#[test]
fn marked_progenitors_pin_to_the_top_of_the_pals_list() {
    let mut app = app();
    app.progenitors = vec![PalName::new("PinkCat")];
    assert_eq!(app.species_rows()[0].name, PalName::new("PinkCat"));

    app.species_filter = "lamball".to_owned();
    let rows = app.species_rows();
    assert_eq!(rows[0].name, PalName::new("PinkCat"));
    assert_eq!(rows[1].name, PalName::new("SheepBall"));
    assert_eq!(rows.len(), 2);
}

#[test]
fn selected_passives_pin_to_the_top_of_the_list() {
    let mut app = app();
    let last = app.passive_rows().last().copied().unwrap().name.clone();
    app.selected_passives = vec![last.clone()];
    assert_eq!(app.passive_rows()[0].name, last);

    app.passive_filter = "zzz-no-such-passive".to_owned();
    let rows = app.passive_rows();
    assert_eq!(rows.len(), 1);
    assert_eq!(rows[0].name, last);
}

#[test]
fn progenitor_mode_reports_that_passives_need_the_pool() {
    let mut app = app();
    app.progenitors = vec![PalName::new("SheepBall"), PalName::new("PinkCat")];
    app.target = Some(PalName::new("DreamDemon"));
    app.selected_passives = vec![PassiveName::new("Swift")];
    app.run_search();

    assert!(app.plans.is_empty());
    assert!(app.status.contains("carry no passives"));
}

#[test]
fn iv_threshold_keys_step_in_the_results_pane_and_replan() {
    let mut owned = pair();
    owned[0].ivs.hp = iv(90);
    owned[1].ivs.hp = iv(85);
    let mut app = app_with(owned);
    app.target = Some(PalName::new("DreamDemon"));
    app.run_search();
    assert!(!app.plans.is_empty());
    assert_eq!(app.focus, Pane::Results);
    let unconstrained_eggs = app.plans[0].expected_eggs;

    // In a filter pane the same letters keep typing.
    app.focus = Pane::Pals;
    press(&mut app, key(KeyCode::Char('h')));
    assert!(app.iv_thresholds.is_empty());
    assert_eq!(app.species_filter, "h");
    app.species_filter.clear();

    app.focus = Pane::Results;
    for _ in 0..8 {
        press(&mut app, key(KeyCode::Char('h')));
    }
    assert_eq!(app.iv_thresholds.hp, Some(iv(80)));
    assert!(app.status.contains("HP ≥ 80"));
    assert!(!app.plans.is_empty());
    assert!(app.plans[0].expected_eggs > unconstrained_eggs);

    // 100 is the ceiling; nobody meets it, so plans vanish.
    for _ in 0..3 {
        press(&mut app, key(KeyCode::Char('h')));
    }
    assert_eq!(app.iv_thresholds.hp, Some(IvValue::max()));
    assert!(app.plans.is_empty());

    // Uppercase steps down; below 10 the minimum turns off.
    for _ in 0..10 {
        press(&mut app, key(KeyCode::Char('H')));
    }
    assert!(app.iv_thresholds.hp.is_none());
    assert!(!app.plans.is_empty());

    // a/d drive the other two stats.
    press(&mut app, key(KeyCode::Char('a')));
    press(&mut app, key(KeyCode::Char('d')));
    assert_eq!(app.iv_thresholds.attack, Some(iv(10)));
    assert_eq!(app.iv_thresholds.defense, Some(iv(10)));
    assert_eq!(app.status, "IV minimums — HP off · Attack ≥ 10 · Defense ≥ 10");
}

// --- the pool -------------------------------------------------------

fn listed(entries: &[(&str, &str)]) -> Vec<ListedPal> {
    entries
        .iter()
        .map(|(species, gender)| ListedPal {
            species: (*species).to_owned(),
            gender: (*gender).to_owned(),
            passives: Vec::new(),
            ivs: RawIvs { hp: 0, attack: 0, defense: 0 },
        })
        .collect()
}

#[test]
fn f6_and_the_reload_verb_reload_the_pool_from_disk() {
    let f = fixture();
    let mut app = app();

    press(&mut app, key(KeyCode::F(6)));
    assert!(app.status.contains("nothing to reload"));
    app.status.clear();
    type_line(&mut app, ":reload");
    press(&mut app, key(KeyCode::Enter));
    assert!(app.status.contains("nothing to reload"));

    app.pool_path = Some("pool.toml".to_owned());
    let Some(Chore::Reload { path }) = app.handle_key(key(KeyCode::F(6))) else {
        panic!("expected a reload");
    };
    assert_eq!(path, "pool.toml");
    let one = listed(&[("Lamball", "male")]);
    app.finish_reload(&path, pool_of_pals(&path, &one, f.db));
    assert_eq!(app.owned.len(), 1);
    assert!(app.status.contains("reloaded"));

    let two = listed(&[("Lamball", "male"), ("Cattiva", "female")]);
    app.target = Some(PalName::new("DreamDemon"));
    type_line(&mut app, ":reload");
    assert!(matches!(app.handle_key(key(KeyCode::Enter)), Some(Chore::Reload { .. })));
    app.finish_reload(&path, pool_of_pals(&path, &two, f.db));
    assert_eq!(app.owned.len(), 2);
    assert!(!app.plans.is_empty());

    // Reloading refreshes the world, not the question.
    app.viewing_saved = true;
    assert!(app.handle_key(key(KeyCode::F(6))).is_some());
    app.finish_reload(&path, pool_of_pals(&path, &two, f.db));
    assert!(app.viewing_saved);

    // A vanished file keeps the current pool.
    app.finish_reload(&path, Ok(Loaded::Missing));
    assert_eq!(app.owned.len(), 2);
    assert!(app.status.contains("keeping the current pool"));
    app.finish_reload(&path, Err(PoolError::NotUtf8 { path: path.clone() }));
    assert_eq!(app.owned.len(), 2);
    assert_eq!(
        app.status,
        "reload failed: pool.toml is neither a save file nor UTF-8 TOML — keeping the current pool"
    );
}

// --- the library ----------------------------------------------------

#[test]
fn plans_save_into_the_library_and_delete_from_it() {
    let mut app = app_with(pair());

    press(&mut app, key(KeyCode::F(8)));
    assert!(app.status.contains("no plan highlighted"));

    type_line(&mut app, "daedream");
    press(&mut app, key(KeyCode::Enter));
    assert!(!app.plans.is_empty());

    press(&mut app, key(KeyCode::F(8)));
    assert_eq!(app.saved.plans.len(), 1);
    assert!(app.saved.plans[0].label.contains("Daedream"));
    assert_eq!(app.saved.plans[0].label, "Daedream — 1 step(s), 1.00 eggs");
    assert_eq!(app.saved.plans[0].goal_species, PalName::new("DreamDemon"));

    press(&mut app, key(KeyCode::F(9)));
    assert!(app.viewing_saved);
    assert_eq!(app.focus, Pane::Results);
    press(&mut app, key(KeyCode::Delete));
    assert!(app.saved.plans.is_empty());
    assert!(app.status.contains("deleted"));

    // Changing the live question leaves the library view.
    press(&mut app, key(KeyCode::F(2)));
    assert!(!app.viewing_saved);
}

#[test]
fn failed_writes_are_reported_and_keep_the_change() {
    let mut app = app_with(pair());
    type_line(&mut app, "daedream");
    press(&mut app, key(KeyCode::Enter));
    let chore = app.handle_key(key(KeyCode::F(8))).unwrap();
    app.finish_write(chore, Some("disk full".to_owned()));
    assert_eq!(app.status, "could not save plan: disk full");
    assert_eq!(app.saved.plans.len(), 1);

    press(&mut app, key(KeyCode::F(9)));
    let chore = app.handle_key(key(KeyCode::Char('x'))).unwrap();
    app.finish_write(chore, Some("disk full".to_owned()));
    assert_eq!(app.status, "could not delete plan: disk full");
    assert!(app.saved.plans.is_empty());
}

#[test]
fn ctrl_s_saves_and_ctrl_l_toggles_the_library() {
    let mut app = app_with(pair());
    type_line(&mut app, "daedream");
    press(&mut app, key(KeyCode::Enter));
    assert!(!app.plans.is_empty());

    app.focus = Pane::Pals;
    app.species_filter.clear();
    press(&mut app, ctrl('s'));
    assert_eq!(app.saved.plans.len(), 1);
    assert!(app.species_filter.is_empty());

    press(&mut app, ctrl('l'));
    assert!(app.viewing_saved);
    press(&mut app, ctrl('L'));
    assert!(!app.viewing_saved);
    assert!(app.species_filter.is_empty());
    app.focus = Pane::Pals;
    press(&mut app, key(KeyCode::Char('l')));
    assert_eq!(app.species_filter, "l");
}

#[test]
fn ctrl_d_and_library_backspace_delete_without_a_delete_key() {
    let mut app = app();
    app.progenitors = vec![PalName::new("SheepBall")];
    press(&mut app, ctrl('d'));
    assert!(app.progenitors.is_empty());
    assert!(app.species_filter.is_empty());

    for label in ["one", "two"] {
        app.saved.add(saved(label, EGG));
    }
    press(&mut app, key(KeyCode::F(9)));
    press(&mut app, ctrl('d'));
    assert_eq!(app.saved.plans.len(), 1);
    press(&mut app, key(KeyCode::Backspace));
    assert!(app.saved.plans.is_empty());

    // Outside the library Backspace still edits the filter.
    press(&mut app, key(KeyCode::F(9)));
    app.focus = Pane::Pals;
    press(&mut app, key(KeyCode::Char('a')));
    press(&mut app, key(KeyCode::Backspace));
    assert!(app.species_filter.is_empty());
    assert!(app.progenitors.is_empty());
}

#[test]
fn enter_on_a_saved_plan_restores_the_goal_and_replans() {
    let mut app = app_with(pair());
    type_line(&mut app, "daedream");
    press(&mut app, key(KeyCode::Enter));
    press(&mut app, key(KeyCode::F(8)));
    app.species_filter.clear();
    type_line(&mut app, "fuack");
    press(&mut app, key(KeyCode::Enter));
    assert_eq!(app.target, Some(PalName::new("BluePlatypus")));

    press(&mut app, key(KeyCode::F(9)));
    press(&mut app, key(KeyCode::Enter));
    assert!(!app.viewing_saved);
    assert_eq!(app.target, Some(PalName::new("DreamDemon")));
    assert!(!app.plans.is_empty());
    assert!(app.status.contains("re-planned"));
    assert!(app.status.contains("saved plan was"));
    // The original stays in the library.
    assert_eq!(app.saved.plans.len(), 1);
}

#[test]
fn stale_leaves_count_pals_missing_from_the_current_box() {
    let lamball = pal("SheepBall", Gender::Male);
    let cattiva = pal("PinkCat", Gender::Female);
    let mut plan = saved("test", EGG);
    plan.root = PlanNode::Bred(Box::new(BredNode {
        male: PlanNode::Owned(lamball.clone()),
        female: PlanNode::Owned(cattiva.clone()),
        species: PalName::new("DreamDemon"),
        carried_passives: Vec::new(),
    }));

    let app = app_with(vec![lamball.clone(), cattiva]);
    assert_eq!(app.stale_leaves(&plan), 0);

    // Cattiva left the box: one leaf goes stale.
    let app = app_with(vec![lamball]);
    assert_eq!(app.stale_leaves(&plan), 1);
}

#[test]
fn changes_re_search_automatically_and_never_leave_stale_plans() {
    let mut app = app_with(pair());
    type_line(&mut app, "daedream");
    press(&mut app, key(KeyCode::Enter));
    assert!(!app.plans.is_empty());
    assert_eq!(app.focus, Pane::Pals);
    assert_eq!(*app.plans[0].root.species(), PalName::new("DreamDemon"));

    app.species_filter.clear();
    type_line(&mut app, "fuack");
    press(&mut app, key(KeyCode::Enter));
    assert!(!app.plans.is_empty());
    assert_eq!(*app.plans[0].root.species(), PalName::new("BluePlatypus"));

    // Depth changes re-search: depth 1 cannot reach Fuack.
    press(&mut app, key(KeyCode::Left));
    press(&mut app, key(KeyCode::Left));
    assert_eq!(app.max_breeding_steps, 1);
    assert!(app.plans.is_empty());

    // Toggling wild re-searches: Fuack becomes catchable.
    press(&mut app, key(KeyCode::F(2)));
    assert!(!app.plans.is_empty());
    assert_eq!(app.plans[0].steps, 0);
}

#[test]
fn clicks_select_and_shift_click_marks_progenitors() {
    let mut app = app();
    let first = app.species_rows()[0].name.clone();

    app.handle_click(Click { pane: Pane::Pals, row: Some(0) }, false);
    assert_eq!(app.focus, Pane::Pals);
    assert_eq!(app.target, Some(first.clone()));

    app.handle_click(Click { pane: Pane::Pals, row: Some(0) }, true);
    assert_eq!(app.progenitors, vec![first]);

    app.handle_click(Click { pane: Pane::Passives, row: Some(0) }, false);
    assert_eq!(app.selected_passives.len(), 1);

    app.handle_click(Click { pane: Pane::Results, row: None }, false);
    assert_eq!(app.focus, Pane::Results);
}

#[test]
fn f2_toggles_wild_mode_and_search_honors_it() {
    let mut app = app();
    assert!(!app.allow_wild, "wild mode defaults to off");

    press(&mut app, key(KeyCode::F(2)));
    assert!(app.allow_wild);
    assert!(app.status.contains("on"));

    app.target = Some(PalName::new("SheepBall"));
    app.run_search();
    assert!(!app.plans.is_empty());
    assert_eq!(app.plans[0].steps, 0);

    press(&mut app, key(KeyCode::F(2)));
    assert!(!app.allow_wild);
    assert!(app.plans.is_empty());
}

#[test]
fn arrow_keys_adjust_search_depth_within_bounds() {
    let mut app = app();
    assert_eq!(app.max_breeding_steps, 3);

    press(&mut app, key(KeyCode::Right));
    assert_eq!(app.max_breeding_steps, 4);
    assert!(app.status.contains("4 breeding step"));

    for _ in 0..=MAX_BREEDING_STEPS {
        press(&mut app, key(KeyCode::Left));
    }
    assert_eq!(app.max_breeding_steps, MIN_BREEDING_STEPS);
    for _ in 0..=MAX_BREEDING_STEPS {
        press(&mut app, key(KeyCode::Right));
    }
    assert_eq!(app.max_breeding_steps, MAX_BREEDING_STEPS);
}

#[test]
fn search_depth_gates_which_targets_are_reachable() {
    let mut app = app_with(pair());
    app.target = Some(PalName::new("BluePlatypus"));
    app.allow_wild = false;

    app.max_breeding_steps = 1;
    app.run_search();
    assert!(app.plans.is_empty());
    assert!(app.status.contains("within 1 step"));

    app.max_breeding_steps = 2;
    app.run_search();
    assert!(!app.plans.is_empty());
    assert_eq!(app.plans[0].steps, 2);
}

#[test]
fn search_returns_ranked_plans_and_focuses_results() {
    let mut app = app_with(pair());
    app.target = Some(PalName::new("DreamDemon"));
    app.allow_wild = false;
    app.run_search();

    assert!(!app.plans.is_empty());
    assert_eq!(app.plans[0].steps, 1);
    assert_eq!(app.focus, Pane::Results);
    for window in app.plans.windows(2) {
        assert!(window[0].expected_eggs <= window[1].expected_eggs);
    }
}

// --- the prompt and the viewer --------------------------------------

#[test]
fn colon_opens_the_prompt_and_keeps_typing_out_of_filters() {
    let mut app = app();
    type_line(&mut app, ":help");
    assert_eq!(app.overlay, Overlay::Prompt("help".to_owned()));
    assert!(app.species_filter.is_empty());

    press(&mut app, key(KeyCode::Esc));
    assert_eq!(app.overlay, Overlay::Closed);
    assert!(!app.should_quit);
}

#[test]
fn backspacing_past_the_start_closes_the_prompt() {
    let mut app = app();
    type_line(&mut app, ":x");
    press(&mut app, key(KeyCode::Backspace));
    assert_eq!(app.overlay, Overlay::Prompt(String::new()));
    press(&mut app, key(KeyCode::Backspace));
    assert_eq!(app.overlay, Overlay::Closed);
}

#[test]
fn help_and_readme_commands_open_the_viewer() {
    let mut app = app();
    type_line(&mut app, ":help");
    press(&mut app, key(KeyCode::Enter));
    let Overlay::Doc(view) = &app.overlay else {
        panic!("expected the help viewer, got {:?}", app.overlay);
    };
    assert_eq!(view.doc, Doc::Help);

    // q closes the viewer; the app stays up.
    press(&mut app, key(KeyCode::Char('q')));
    assert_eq!(app.overlay, Overlay::Closed);
    assert!(!app.should_quit);

    type_line(&mut app, ":readme");
    press(&mut app, key(KeyCode::Enter));
    let Overlay::Doc(view) = &app.overlay else {
        panic!("expected the readme viewer, got {:?}", app.overlay);
    };
    assert_eq!(view.doc, Doc::Readme);

    type_line(&mut app, ":");
    assert_eq!(app.overlay, Overlay::Prompt(String::new()));
    press(&mut app, key(KeyCode::Esc));
    assert_eq!(app.overlay, Overlay::Closed);
    assert!(!app.should_quit);
}

fn scroll_of(app: &App) -> u16 {
    let Overlay::Doc(view) = &app.overlay else {
        panic!("expected an open viewer");
    };
    view.scroll
}

#[test]
fn doc_viewer_scrolls_with_keys_and_wheel_and_clamps() {
    let mut app = app();
    type_line(&mut app, ":readme");
    press(&mut app, key(KeyCode::Enter));

    press(&mut app, key(KeyCode::Up));
    assert_eq!(scroll_of(&app), 0, "clamped at the top");

    press(&mut app, key(KeyCode::Down));
    assert_eq!(scroll_of(&app), 1);
    app.handle_scroll(3);
    assert_eq!(scroll_of(&app), 4);
    press(&mut app, key(KeyCode::PageDown));
    assert_eq!(scroll_of(&app), 19);
    press(&mut app, key(KeyCode::Home));
    assert_eq!(scroll_of(&app), 0);

    press(&mut app, key(KeyCode::End));
    let bottom = scroll_of(&app);
    assert!(bottom > 0);
    press(&mut app, key(KeyCode::Down));
    assert_eq!(scroll_of(&app), bottom, "clamped at the bottom");

    // The wheel means nothing once the viewer closes.
    press(&mut app, key(KeyCode::Esc));
    app.handle_scroll(3);
    assert_eq!(app.overlay, Overlay::Closed);
}

#[test]
fn unknown_and_empty_commands_report_via_status() {
    let mut app = app();
    type_line(&mut app, ":frobnicate");
    press(&mut app, key(KeyCode::Enter));
    assert_eq!(app.overlay, Overlay::Closed);
    assert!(app.status.contains("unknown command: frobnicate"));

    app.status.clear();
    type_line(&mut app, ":");
    press(&mut app, key(KeyCode::Enter));
    assert_eq!(app.overlay, Overlay::Closed);
    assert!(app.status.is_empty(), "an empty line closes silently");
}

#[test]
fn q_and_quit_commands_quit_the_app() {
    for line in [":q", ":quit"] {
        let mut app = app();
        type_line(&mut app, line);
        press(&mut app, key(KeyCode::Enter));
        assert!(app.should_quit);
    }
}

// --- deferred searches ----------------------------------------------

fn deferred_app_with_pool() -> App<'static> {
    let mut app = app_with(pair());
    app.defer_searches();
    app
}

#[test]
fn deferred_searches_park_a_request_and_apply_its_outcome() {
    let f = fixture();
    let mut app = deferred_app_with_pool();
    type_line(&mut app, "daedream");
    press(&mut app, key(KeyCode::Enter));
    assert!(app.searching());
    assert!(app.plans.is_empty(), "plans arrive only via apply");
    assert!(app.status.contains("target"), "status not overwritten yet");

    // The spinner advances only while a search is awaited.
    app.on_tick();
    app.on_tick();
    assert_eq!(app.spinner(), Some(2));

    let request = app.take_pending_search().expect("request parked");
    assert!(app.take_pending_search().is_none());
    app.apply_search_outcome(run_search(f.solver, request));
    assert!(!app.searching());
    assert!(!app.plans.is_empty());
    assert!(app.status.contains("plan(s) found"));

    app.on_tick();
    assert_eq!(app.spinner(), None, "idle apps have no spinner");
}

#[test]
fn a_superseded_search_outcome_is_discarded() {
    let f = fixture();
    let mut app = deferred_app_with_pool();
    type_line(&mut app, "daedream");
    press(&mut app, key(KeyCode::Enter));
    let stale = app.take_pending_search().expect("first request");

    press(&mut app, key(KeyCode::Right));
    let fresh = app.take_pending_search().expect("superseding request");

    app.apply_search_outcome(run_search(f.solver, stale));
    assert!(app.plans.is_empty(), "stale outcome must not apply");
    assert!(app.searching(), "still waiting for the fresh answer");

    app.apply_search_outcome(run_search(f.solver, fresh));
    assert!(!app.plans.is_empty());
    assert!(!app.searching());
}

#[test]
fn dropping_the_target_cancels_an_in_flight_search() {
    let f = fixture();
    let mut app = deferred_app_with_pool();
    type_line(&mut app, "daedream");
    press(&mut app, key(KeyCode::Enter));
    let in_flight = app.take_pending_search().expect("request dispatched");

    app.target = None;
    press(&mut app, key(KeyCode::F(2)));
    assert!(!app.searching(), "spinner must not run forever");

    app.apply_search_outcome(run_search(f.solver, in_flight));
    assert!(app.plans.is_empty(), "cancelled outcome must not apply");
}

fn app_with_saved_plans(labels: &[&str]) -> App<'static> {
    let mut app = app();
    for label in labels {
        app.saved.add(saved(label, EGG));
    }
    app
}

#[test]
fn x_in_the_library_deletes_the_selected_plan() {
    let mut app = app_with_saved_plans(&["one", "two"]);
    press(&mut app, key(KeyCode::F(9)));

    press(&mut app, key(KeyCode::Char('x')));
    assert_eq!(app.saved.plans.len(), 1);
    assert!(app.status.contains("deleted"));

    press(&mut app, key(KeyCode::Char('x')));
    assert!(app.saved.plans.is_empty());

    press(&mut app, key(KeyCode::Char('x')));
    assert!(app.status.contains("nothing to delete"));
}

#[test]
fn x_types_into_filters_and_stays_inert_in_live_results() {
    let mut app = app_with_saved_plans(&["one"]);
    press(&mut app, key(KeyCode::Char('x')));
    assert_eq!(app.species_filter, "x");
    assert_eq!(app.saved.plans.len(), 1);

    app.focus = Pane::Results;
    press(&mut app, key(KeyCode::Char('x')));
    assert_eq!(app.saved.plans.len(), 1);
}

#[test]
fn iv_keys_fire_from_the_library_as_before() {
    let mut app = app_with_saved_plans(&["one"]);
    press(&mut app, key(KeyCode::F(9)));

    press(&mut app, key(KeyCode::Char('d')));
    assert_eq!(app.iv_thresholds.defense, Some(iv(10)));
    assert!(!app.viewing_saved);
    assert_eq!(app.saved.plans.len(), 1, "the saved plan is untouched");
}

#[test]
fn clear_command_cancels_an_in_flight_search() {
    let f = fixture();
    let mut app = deferred_app_with_pool();
    type_line(&mut app, "daedream");
    press(&mut app, key(KeyCode::Enter));
    let in_flight = app.take_pending_search().expect("request dispatched");
    assert!(app.searching());

    type_line(&mut app, ":clear");
    press(&mut app, key(KeyCode::Enter));
    assert!(!app.searching(), ":clear must stop the spinner");
    assert!(app.status.contains("cleared"));

    app.apply_search_outcome(run_search(f.solver, in_flight));
    assert!(app.plans.is_empty(), "cleared question must stay cleared");
}

#[test]
fn deferred_replan_of_a_saved_plan_announces_the_comparison() {
    let f = fixture();
    let mut app = deferred_app_with_pool();
    app.saved.add(saved("Daedream — 1 step(s), 2.00 eggs", 2 * EGG));

    press(&mut app, key(KeyCode::F(9)));
    press(&mut app, key(KeyCode::Enter));
    assert!(app.searching());

    let request = app.take_pending_search().expect("replan request");
    app.apply_search_outcome(run_search(f.solver, request));
    assert!(app.status.contains("re-planned"));
    assert!(app.status.contains("saved plan was 2.00"));
    assert_eq!(app.focus, Pane::Results);
}

#[test]
fn w_saves_the_plan_and_o_opens_the_library_idempotently() {
    let mut app = app_with(pair());
    type_line(&mut app, "daedream");
    press(&mut app, key(KeyCode::Enter));
    assert!(!app.plans.is_empty());

    type_line(&mut app, ":w");
    press(&mut app, key(KeyCode::Enter));
    assert_eq!(app.saved.plans.len(), 1);
    assert!(app.status.contains("saved"));

    type_line(&mut app, ":o");
    press(&mut app, key(KeyCode::Enter));
    assert!(app.viewing_saved);
    assert_eq!(app.focus, Pane::Results);

    // :o again keeps the library open; it never toggles closed.
    type_line(&mut app, ":o");
    press(&mut app, key(KeyCode::Enter));
    assert!(app.viewing_saved);
    assert!(app.status.contains("already"));

    // :w inside the library explains itself instead of saving.
    type_line(&mut app, ":w");
    press(&mut app, key(KeyCode::Enter));
    assert_eq!(app.saved.plans.len(), 1);
    assert!(app.status.contains("already viewing"));
}

#[test]
fn dd_deletes_in_the_library_and_reports_elsewhere() {
    let mut app = app_with_saved_plans(&["one", "two"]);

    type_line(&mut app, ":dd");
    press(&mut app, key(KeyCode::Enter));
    assert_eq!(app.saved.plans.len(), 2);
    assert!(app.status.contains(":o opens the library"));

    type_line(&mut app, ":o");
    press(&mut app, key(KeyCode::Enter));
    type_line(&mut app, ":dd");
    press(&mut app, key(KeyCode::Enter));
    assert_eq!(app.saved.plans.len(), 1);
    assert!(app.status.contains("deleted"));
}

#[test]
fn clear_resets_the_goal_but_keeps_filters_and_iv_floors() {
    let first_passive = app().passive_rows()[0].name.clone();
    let mut owned = pair();
    owned[0].passives = vec![first_passive];
    let mut app = app_with(owned);
    type_line(&mut app, "daedream");
    press(&mut app, key(KeyCode::Enter));
    app.focus = Pane::Passives;
    press(&mut app, key(KeyCode::Enter));
    app.iv_thresholds.hp = Some(iv(50));
    assert!(app.target.is_some());
    assert_eq!(app.selected_passives.len(), 1);
    assert!(!app.plans.is_empty());

    type_line(&mut app, ":clear");
    press(&mut app, key(KeyCode::Enter));
    assert!(app.target.is_none());
    assert!(app.progenitors.is_empty());
    assert!(app.selected_passives.is_empty());
    assert!(app.plans.is_empty());
    assert!(app.status.contains("cleared"));
    assert_eq!(app.species_filter, "daedream", "filters survive :clear");
    assert!(app.iv_thresholds.hp.is_some(), "IV floors survive :clear");

    type_line(&mut app, ":clear");
    press(&mut app, key(KeyCode::Enter));
    assert!(app.status.contains("nothing selected"));
}

#[test]
fn clicks_stop_at_an_open_overlay() {
    let mut app = app();
    type_line(&mut app, ":");
    app.handle_click(Click { pane: Pane::Passives, row: Some(0) }, false);
    assert_eq!(app.focus, Pane::Pals);
    assert!(app.selected_passives.is_empty());
}

// --- commands and documents -----------------------------------------

#[test]
fn commands_parse_with_synonyms_and_trimmed_whitespace() {
    assert_eq!(Command::parse("help"), Ok(Command::Open(Doc::Help)));
    assert_eq!(Command::parse(" readme "), Ok(Command::Open(Doc::Readme)));
    assert_eq!(Command::parse("q"), Ok(Command::Quit));
    assert_eq!(Command::parse("quit"), Ok(Command::Quit));
    let unknown = Command::parse("frobnicate").unwrap_err();
    assert_eq!(unknown.message(), "frobnicate");
}

#[test]
fn embedded_docs_render_to_nonempty_markdown() {
    let documents = documents();
    for doc in [Doc::Help, Doc::Readme] {
        assert!(!tui_markdown::from_str(doc.markdown(documents)).lines.is_empty());
    }
    assert_eq!(Doc::Help.title(), " Help ");
    assert_eq!(Doc::Readme.title(), " README ");
}

fn rendered(markdown: &str) -> Vec<String> {
    tui_markdown::from_str(markdown)
        .lines
        .iter()
        .map(|line| line.spans.iter().map(|span| span.content.as_ref()).collect::<String>())
        .collect()
}

#[test]
fn preprocessing_preserves_authored_breaks_outside_code_fences() {
    let source = "para line one\npara line two\n\n```\ncode stays\nverbatim\n```\n";
    let processed = preserve_line_breaks(source);
    assert!(processed.contains("para line one  \n"));
    assert!(processed.contains("code stays\n"));
    assert!(!processed.contains("code stays  "));

    let lines = rendered(&processed);
    assert!(lines.contains(&"para line one".to_owned()));
    assert!(lines.contains(&"para line two".to_owned()));
    assert_eq!(preserve_line_breaks("a\r\n\nb"), "a  \n\nb  \n");
}

#[test]
fn scrolling_clamps_to_both_ends() {
    let mut view = DocView::open(Doc::Readme, documents());
    assert_eq!(view.scroll, 0);

    view.scroll_lines(-1);
    assert_eq!(view.scroll, 0, "cannot scroll above the top");

    view.scroll_lines(3);
    assert_eq!(view.scroll, 3);
    view.scroll_pages(1);
    assert_eq!(view.scroll, 3 + PAGE_LINES);

    view.scroll_to_bottom();
    let bottom = view.scroll;
    assert!(bottom > 0);
    view.scroll_lines(1);
    assert_eq!(view.scroll, bottom, "cannot scroll past the last line");

    view.scroll_to_top();
    assert_eq!(view.scroll, 0);
}

#[test]
fn pages_know_how_many_lines_they_render_to() {
    let documents = documents();
    let view = DocView::open(Doc::Readme, documents);
    assert_eq!(usize::from(view.line_count), rendered(Doc::Readme.markdown(documents)).len());
    assert!(view.line_count >= 60);
}

// --- the library file -----------------------------------------------

#[test]
fn stores_add_and_remove_by_position() {
    let mut store = PlanStore::fresh("plans.json".to_owned());
    assert!(store.plans.is_empty());
    store.add(saved("first", EGG));
    store.add(saved("second", EGG));
    assert_eq!(store.plans[0], saved("first", EGG));
    let removed = store.remove(0);
    assert_eq!(removed.unwrap().label, "first");
    assert!(store.remove(5).is_none());
    let store = PlanStore::loaded(store.path, store.plans);
    assert_eq!(store.plans.len(), 1);
    assert_eq!(store.plans[0].label, "second");
}

#[test]
fn the_library_has_a_place_on_every_system() {
    assert_eq!(
        library_path(Platform::Linux, "/home/me"),
        "/home/me/.local/share/palworld_tools/plans.json"
    );
    assert_eq!(
        library_path(Platform::MacOs, "/Users/me"),
        "/Users/me/Library/Application Support/palworld_tools/plans.json"
    );
    assert_eq!(
        library_path(Platform::Windows, "C:\\Data"),
        "C:\\Data\\palworld_tools\\plans.json"
    );
}

// --- what is shown --------------------------------------------------

fn flat(line: &TextLine) -> String {
    line.spans.iter().map(|span| span.content.as_str()).collect()
}

fn flat_all(lines: &[TextLine]) -> Vec<String> {
    lines.iter().map(flat).collect()
}

#[test]
fn plan_tree_renders_family_style_with_leaf_tags() {
    let f = fixture();
    let mut lamball = pal("SheepBall", Gender::Male);
    lamball.passives = vec![PassiveName::new("Swift")];
    let plan = PlanNode::Bred(Box::new(BredNode {
        species: PalName::new("BluePlatypus"),
        carried_passives: vec![PassiveName::new("Swift")],
        male: PlanNode::Owned(lamball),
        female: PlanNode::Bred(Box::new(BredNode {
            species: PalName::new("DreamDemon"),
            carried_passives: Vec::new(),
            male: PlanNode::Progenitor(PalName::new("Anubis")),
            female: PlanNode::Wild(PalName::new("PinkCat")),
        })),
    }));

    let lines = flat_all(&plan_tree(f.db, &plan, false));
    assert_eq!(
        lines,
        vec![
            "🥚 Fuack · hatch for Swift".to_owned(),
            "├─ ♂ 🎒 Lamball · Swift".to_owned(),
            "╰─ ♀ 🥚 Daedream".to_owned(),
            "   ├─ ♂ ⭐ Anubis · your progenitor".to_owned(),
            "   ╰─ ♀ 🌿 Cattiva · catch".to_owned(),
        ]
    );
    let with_ivs = flat_all(&plan_tree(f.db, &plan, true));
    assert_eq!(with_ivs[1], "├─ ♂ 🎒 Lamball · Swift · IVs 0/0/0");
}

#[test]
fn scroll_offset_keeps_the_selection_visible() {
    assert_eq!(scroll_offset(0, 5), 0);
    assert_eq!(scroll_offset(4, 5), 0);
    assert_eq!(scroll_offset(5, 5), 1);
    assert_eq!(scroll_offset(10, 3), 8);
    assert_eq!(scroll_offset(10, 0), 0);
}

#[test]
fn clicks_resolve_rows_through_the_layout() {
    let app = app();
    let area = Area { x: 0, y: 0, width: 120, height: 40 };
    let areas = screen(&app, area).areas;

    // First list row of the Pals pane (one below the filter line).
    let inner = areas.species.inner();
    assert_eq!(
        locate_click(&app, area, inner.x, inner.y + 1),
        Some(Click { pane: Pane::Pals, row: Some(0) })
    );
    // The filter line focuses the pane without selecting a row.
    assert_eq!(
        locate_click(&app, area, inner.x, inner.y),
        Some(Click { pane: Pane::Pals, row: None })
    );
    // With no plans, a Results-list click is focus-only.
    let results_inner = areas.results.inner();
    assert_eq!(
        locate_click(&app, area, results_inner.x, results_inner.y),
        Some(Click { pane: Pane::Results, row: None })
    );
    // The status bar is nobody's pane.
    assert_eq!(locate_click(&app, area, 0, 38), None);
}

#[test]
fn the_screen_splits_into_panes_over_two_lines() {
    let areas = screen(&app(), Area { x: 0, y: 0, width: 100, height: 40 }).areas;
    assert_eq!(areas.status, Area { x: 0, y: 38, width: 100, height: 1 });
    assert_eq!(areas.help, Area { x: 0, y: 39, width: 100, height: 1 });
    assert_eq!(areas.species, Area { x: 0, y: 0, width: 24, height: 38 });
    assert_eq!(areas.passives, Area { x: 24, y: 0, width: 26, height: 38 });
    assert_eq!(areas.results, Area { x: 50, y: 0, width: 50, height: 38 });
}

#[test]
fn library_clicks_hit_saved_plans() {
    let mut app = app_with_saved_plans(&["one", "two"]);
    press(&mut app, key(KeyCode::F(9)));
    let pane = Area { x: 50, y: 0, width: 50, height: 38 };
    let none = Area { x: 0, y: 0, width: 0, height: 0 };
    let areas = PaneAreas { species: none, passives: none, results: pane, status: none, help: none };
    let click = locate_in(&app, areas, 60, 2).unwrap();
    assert_eq!(click, Click { pane: Pane::Results, row: Some(1) });
    app.handle_click(click, false);
    assert_eq!(app.saved_cursor, 1);
    assert_eq!(row_index(1, 0, 0, 7, 2), None);
    assert_eq!(row_index(1, 3, 0, 7, 2), None);
}

#[test]
fn passive_tiers_get_their_in_game_colors() {
    let f = fixture();
    let by_rank = |predicate: fn(i8) -> bool| {
        f.db.passives()
            .iter()
            .find(|skill| skill.standard && predicate(skill.rank))
            .expect("data holds passives of every tier")
    };
    let detrimental = by_rank(|rank| rank < 0);
    let regular = by_rank(|rank| (1..=3).contains(&rank));
    let rainbow = by_rank(|rank| rank >= 4);

    assert_eq!(rank_style(detrimental.rank), Tint::Red);
    assert_eq!(rank_style(regular.rank), Tint::Yellow);
    assert_eq!(rank_style(rainbow.rank), Tint::Cyan);
    assert_eq!(rank_style(0), Tint::Plain);

    // The tree renderer applies the tier color to the passive span.
    let mut leaf = pal("SheepBall", Gender::Male);
    leaf.passives = vec![rainbow.name.clone()];
    let lines = plan_tree(f.db, &PlanNode::Owned(leaf), false);
    let rainbow_span = lines[0]
        .spans
        .iter()
        .find(|span| span.content == rainbow.display_name.as_str())
        .expect("passive span present");
    assert_eq!(rainbow_span.tint, Tint::Cyan);
}

#[test]
fn prompt_and_doc_overlays_render_over_the_panes() {
    let mut app = app();
    app.status = "all quiet".to_owned();
    assert_eq!(flat(&status_line(&app)), "all quiet");
    app.overlay = Overlay::Prompt("hel".to_owned());
    let line = status_line(&app);
    assert_eq!(flat(&line), ":hel ");
    assert_eq!(line.spans[1].tint, Tint::Reversed);
}

#[test]
fn draws_all_panes_without_panicking() {
    let mut app = app();
    app.species_filter = "lamb".to_owned();
    let shown = screen(&app, Area { x: 0, y: 0, width: 120, height: 40 });
    assert_eq!(shown.species.title, " Pals ");
    assert_eq!(shown.species.filter, "/lamb");
    assert_eq!(flat_all(&shown.species.items), ["Lamball"]);
    assert!(shown.species.focused);
    assert_eq!(shown.passives.title, " Passives (0/4 picked) ");
    assert_eq!(shown.results.title, " Plans — no target · depth ≤ 3 · wild off ");
    assert_eq!(flat_all(&shown.results.detail), ["run a search (F5) to see plans"]);
}

#[test]
fn panes_show_marks_floors_and_searches() {
    let mut app = deferred_app_with_pool();
    app.progenitors = vec![PalName::new("PinkCat")];
    app.species_filter = "lamb".to_owned();
    let pals = species_pane(&app);
    assert_eq!(pals.title, " Pals — progenitors: 1 ");
    assert_eq!(flat_all(&pals.items), ["[P] Cattiva", "    Lamball"]);
    app.selected_passives = vec![PassiveName::new("Swift")];
    app.passive_filter = "leg".to_owned();
    let passives = passives_pane(&app);
    assert_eq!(passives.title, " Passives (1/4 picked) ");
    assert_eq!(flat_all(&passives.items), ["[x] Swift", "[ ] Legend"]);

    app.progenitors.clear();
    app.selected_passives.clear();
    app.iv_thresholds.hp = Some(iv(80));
    app.allow_wild = true;
    app.target = Some(PalName::new("DreamDemon"));
    app.run_search();
    app.on_tick();
    assert_eq!(
        results_pane(&app).title,
        " Plans / — Daedream · depth ≤ 3 · wild on · IV ≥ 80/–/– "
    );
    assert_eq!(iv_title(IvThresholds::default()), "");
}

#[test]
fn the_plans_pane_lists_costs_and_the_library_its_banner() {
    let mut app = app_with(pair());
    app.target = Some(PalName::new("DreamDemon"));
    app.run_search();
    let live = results_pane(&app);
    assert_eq!(live.items[0], "1. 1.00 expected eggs, 1 step(s)");
    assert_eq!(flat_all(&live.detail)[0], "🥚 Daedream");

    press(&mut app, key(KeyCode::F(8)));
    press(&mut app, key(KeyCode::F(9)));
    assert_eq!(app.status, "library: 1 saved plan(s) · plans.json");
    let library = results_pane(&app);
    assert_eq!(library.title, " Saved plans (1) ");
    assert_eq!(library.items, ["Daedream — 1 step(s), 1.00 eggs"]);
    assert_eq!(
        flat_all(&library.detail)[0],
        "✓ all pals still available · Enter re-plans with the current box"
    );
    app.owned.clear();
    assert_eq!(
        flat_all(&results_pane(&app).detail)[0],
        "⚠ 2 pal(s) no longer in your box — Enter re-plans with the current box"
    );
    app.saved.plans.clear();
    assert_eq!(
        flat_all(&results_pane(&app).detail),
        ["library empty — F8 saves the highlighted plan"]
    );
}

// --- laws on concrete values ----------------------------------------

#[test]
fn toggling_a_passive_twice_undoes_it() {
    let mut app = app();
    press(&mut app, key(KeyCode::Tab));
    press(&mut app, key(KeyCode::Enter));
    assert_eq!(app.selected_passives.len(), 1);
    press(&mut app, key(KeyCode::Enter));
    assert!(app.selected_passives.is_empty());
}

#[test]
fn stepping_a_minimum_down_undoes_stepping_it_up() {
    let mut app = app();
    app.focus = Pane::Results;
    for _ in 0..12 {
        press(&mut app, key(KeyCode::Char('h')));
    }
    assert_eq!(app.iv_thresholds.hp, Some(iv(100)));
    press(&mut app, key(KeyCode::Char('H')));
    assert_eq!(app.iv_thresholds.hp, Some(iv(90)));
    for _ in 0..9 {
        press(&mut app, key(KeyCode::Char('H')));
    }
    assert_eq!(app.iv_thresholds.hp, None);
}

#[test]
fn toggling_the_library_twice_returns_to_the_plans() {
    let mut app = app_with_saved_plans(&["one"]);
    press(&mut app, ctrl('l'));
    assert!(app.viewing_saved);
    press(&mut app, ctrl('l'));
    assert!(!app.viewing_saved);
}

#[test]
fn escape_closes_a_layer_before_it_quits() {
    let mut app = app();
    press(&mut app, key(KeyCode::Char(':')));
    press(&mut app, key(KeyCode::Esc));
    assert_eq!(app.overlay, Overlay::Closed);
    assert!(!app.should_quit);
    press(&mut app, key(KeyCode::Esc));
    assert!(app.should_quit);
}

#[test]
fn erasing_undoes_typing_and_the_wheel_leaves_the_panes_alone() {
    let mut app = app();
    type_line(&mut app, "azu");
    press(&mut app, key(KeyCode::Backspace));
    assert_eq!(app.species_filter, "az");
    app.handle_scroll(3);
    app.handle_scroll(-5);
    assert_eq!((app.species_cursor, app.passive_cursor), (0, 0));
    assert_eq!(app.overlay, Overlay::Closed);
}

#[test]
fn idle_apps_show_no_spinner() {
    let mut app = app();
    app.on_tick();
    assert_eq!(app.spinner(), None);
    assert!(!app.searching());
}

#[test]
fn every_authored_line_stays_a_line() {
    let text = "one\n\n```\nlet x = 1;\n\n```\nlast";
    let prepared = preserve_line_breaks(text);
    let lines: Vec<&str> = prepared.lines().collect();
    assert_eq!(lines.len(), 7);
    assert_eq!(lines[0], "one  ");
    assert_eq!(lines[1], "");
    assert_eq!(lines[3], "let x = 1;");
    assert_eq!(lines[6], "last  ");
}

#[test]
fn panes_end_at_the_nearest_cells() {
    let app = app();
    let edge = |x: u16, width: u16, percent: u32| {
        ((100 * u32::from(x) + u32::from(width) * percent + 50) / 100) as u16
    };
    for x in [0u16, 3, 40_000] {
        for width in (0u16..220).chain([1000, 4001, 25_535]) {
            for height in [0u16, 1, 2, 3, 4, 5, 6, 7, 8, 24, 51] {
                let areas = screen(&app, Area { x, y: x, width, height }).areas;
                let (first, second, last) = (edge(x, width, 24), edge(x, width, 50), x + width);
                assert_eq!((areas.species.x, areas.species.x + areas.species.width), (x, first));
                assert_eq!(
                    (areas.passives.x, areas.passives.x + areas.passives.width),
                    (first, second)
                );
                assert_eq!(
                    (areas.results.x, areas.results.x + areas.results.width),
                    (second, last)
                );
                let body = if height >= 7 { height - 2 } else { height.min(5) };
                for pane in [areas.species, areas.passives, areas.results] {
                    assert_eq!((pane.y, pane.height), (x, body));
                }
                if height < 7 {
                    for line in [areas.status, areas.help] {
                        assert_eq!((line.x, line.width), (x, width));
                        assert!(line.y >= x && line.y + line.height <= x + height);
                    }
                    continue;
                }
                assert_eq!(
                    areas.status,
                    Area { x, y: x + height - 2, width, height: 1 }
                );
                assert_eq!(areas.help, Area { x, y: x + height - 1, width, height: 1 });
            }
        }
    }
}

#[test]
fn minimums_below_ten_are_off() {
    let mut app = app();
    app.focus = Pane::Results;
    app.iv_thresholds.hp = Some(iv(25));
    press(&mut app, key(KeyCode::Char('H')));
    assert_eq!(app.iv_thresholds.hp, Some(iv(15)));
    press(&mut app, key(KeyCode::Char('H')));
    assert_eq!(app.iv_thresholds.hp, None);
    app.iv_thresholds.attack = Some(iv(95));
    press(&mut app, key(KeyCode::Char('a')));
    assert_eq!(app.iv_thresholds.attack, Some(iv(100)));
}

#[test]
fn control_letters_do_not_leak() {
    for pane in [Pane::Pals, Pane::Passives, Pane::Results] {
        for c in 'a'..='z' {
            let mut app = app();
            app.focus = pane;
            app.iv_thresholds.hp = Some(iv(50));
            let before = app.iv_thresholds;
            press(&mut app, ctrl(c));
            assert_eq!(app.species_filter, "");
            assert_eq!(app.passive_filter, "");
            assert_eq!(app.iv_thresholds, before);
            assert!(!app.should_quit);
        }
    }
}

#[test]
fn unparsable_libraries_are_kept() {
    let place = || "plans.json".to_owned();
    let StoreStep::Open(store) = open_store(place(), StoreRead::Absent) else {
        panic!("a fresh library");
    };
    assert_eq!(store.path, "plans.json");
    assert!(store.plans.is_empty());
    let StoreStep::Open(store) = open_store(place(), StoreRead::Plans(vec![saved("one", EGG)]))
    else {
        panic!("a loaded library");
    };
    assert_eq!(store.plans[0].label, "one");
    let StoreStep::BackUp { cause } =
        open_store(place(), StoreRead::Unparsable("not a list".to_owned()))
    else {
        panic!("a backup");
    };
    assert_eq!(
        backup_message("plans.json", "plans.json.bak", &cause, true),
        "plans.json was unparsable (not a list); moved to plans.json.bak"
    );
    assert_eq!(
        backup_message("plans.json", "plans.json.bak", &cause, false),
        "plans.json is unparsable (not a list) and could not be backed up"
    );
}

#[test]
fn lines_may_end_in_carriage_returns() {
    let prepared = preserve_line_breaks("one\r\n\r\n```\r\nx = 1\r\n```\r\nlast\r\n");
    assert_eq!(prepared, preserve_line_breaks("one\n\n```\nx = 1\n```\nlast\n"));
}

#[test]
fn scrolling_takes_any_position() {
    let mut view = DocView { doc: Doc::Help, scroll: 900, line_count: 40 };
    view.scroll_lines(-1);
    assert_eq!(view.scroll, 39);
    let mut view = DocView { doc: Doc::Help, scroll: 900, line_count: 40 };
    view.scroll_pages(-60);
    assert_eq!(view.scroll, 0);
}
