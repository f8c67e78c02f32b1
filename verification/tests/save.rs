//! Reading saves.

use flate2::write::ZlibEncoder;
use flate2::Compression;
use palworld_tools::child::ChildIndex;
use palworld_tools::db::{
    parse_breeding_db, parse_pal_db, RawBreedingEntry, RawBreedingFile, RawBreedingMechanics,
    RawDb, RawGenderProbability, RawPal, RawPalId, RawParentGender, RawPassiveSkill, RawSteps,
    RawStepsRow,
};
use palworld_tools::iv::IvOdds;
use palworld_tools::model::{BreedingDb, Gender, PalDb};
use palworld_tools::passives::PassiveOdds;
use palworld_tools::pool::load::{pool_of_save, Loaded};
use palworld_tools::save::container::{check_length, decompress, has_save_magic, ContainerError};
use palworld_tools::save::level::{
    decode_character, looks_like_sav, read_level_sav, RawCharacter, SaveError,
};
use palworld_tools::search::solver::Solver;
use std::collections::BTreeMap;
use std::io::Write;

fn raw_pal(dex: u16, internal: &str, name: &str, wild: bool) -> RawPal {
    RawPal {
        id: RawPalId { pal_dex_no: dex, is_variant: false },
        name: name.to_owned(),
        internal_name: internal.to_owned(),
        breeding_power: 1000 + u32::from(dex),
        breeding_power_priority: u32::from(dex),
        guaranteed_passives_internal_ids: Vec::new(),
        min_wild_level: if wild { Some(1) } else { None },
        max_wild_level: if wild { Some(9) } else { None },
    }
}

fn raw_skill(internal: &str, name: &str, rank: i8) -> RawPassiveSkill {
    RawPassiveSkill {
        name: name.to_owned(),
        internal_name: internal.to_owned(),
        rank,
        is_standard_passive_skill: true,
        random_inheritance_allowed: true,
        random_inheritance_weight: 100,
        surgery_cost: 0,
        surgery_item: None,
    }
}

const SPECIES: [(&str, &str, bool); 16] = [
    ("SheepBall", "Lamball", true),
    ("PinkCat", "Cattiva", true),
    ("DreamDemon", "Daedream", true),
    ("BluePlatypus", "Fuack", true),
    ("Anubis", "Anubis", false),
    ("BlueThunderHorse", "Azurmane", false),
    ("WingGolem", "Knocklem", true),
    ("NightLady", "Bellanoir", false),
    ("CatMage", "Katress", true),
    ("FoxMage", "Wixen", true),
    ("CatMage_Fire", "Katress Ignis", false),
    ("FoxMage_Dark", "Wixen Noct", false),
    ("LazyDragon", "Relaxaurus", true),
    ("ElecCat", "Sparkit", true),
    ("LazyDragon_Electric", "Relaxaurus Lux", true),
    ("Alpaca", "Melpaca", true),
];

const SPECIAL: [(&str, &str, &str); 5] = [
    ("SheepBall", "PinkCat", "DreamDemon"),
    ("SheepBall", "DreamDemon", "BluePlatypus"),
    ("Anubis", "LazyDragon", "WingGolem"),
    ("BlueThunderHorse", "LazyDragon", "WingGolem"),
    ("LazyDragon", "ElecCat", "LazyDragon_Electric"),
];

fn weights(entries: &[(u8, u32)]) -> BTreeMap<u8, u32> {
    entries.iter().copied().collect()
}

fn raw_db() -> RawDb {
    let pals: Vec<RawPal> = SPECIES
        .iter()
        .enumerate()
        .map(|(i, (internal, name, wild))| raw_pal(i as u16 + 1, internal, name, *wild))
        .collect();
    RawDb {
        version: "v27".to_owned(),
        breeding_gender_probability: SPECIES
            .iter()
            .map(|(internal, _, _)| RawGenderProbability {
                pal: (*internal).to_owned(),
                male: 500_000_000,
                female: 500_000_000,
            })
            .collect(),
        pals,
        passive_skills: vec![
            raw_skill("MoveSpeed_up_1", "Nimble", 1),
            raw_skill("Swift", "Swift", 3),
            raw_skill("Brave", "Brave", 1),
            raw_skill("Legend", "Legend", 4),
            raw_skill("Coward", "Coward", -1),
            raw_skill("Runner", "Runner", 2),
        ],
        breeding_mechanics: RawBreedingMechanics {
            iv_inheritance_weights: weights(&[(1, 3), (2, 2), (3, 1)]),
            passive_inheritance_weights: weights(&[(1, 4), (2, 3), (3, 2), (4, 1)]),
            passive_random_weights: weights(&[(0, 4), (1, 3), (2, 2), (3, 1)]),
        },
    }
}

fn entry(
    a: &str,
    a_gender: RawParentGender,
    b: &str,
    b_gender: RawParentGender,
    child: &str,
) -> RawBreedingEntry {
    RawBreedingEntry {
        parent1_internal_name: a.to_owned(),
        parent1_gender: a_gender,
        parent2_internal_name: b.to_owned(),
        parent2_gender: b_gender,
        child_internal_name: child.to_owned(),
    }
}

fn raw_entries() -> Vec<RawBreedingEntry> {
    let mut out = Vec::new();
    for (i, (a, _, _)) in SPECIES.iter().enumerate() {
        for (b, _, _) in &SPECIES[i..] {
            if *a == "CatMage" && *b == "FoxMage" {
                out.push(entry(a, RawParentGender::Female, b, RawParentGender::Male, "CatMage_Fire"));
                out.push(entry(a, RawParentGender::Male, b, RawParentGender::Female, "FoxMage_Dark"));
                continue;
            }
            let child = SPECIAL
                .iter()
                .find(|(x, y, _)| x == a && y == b)
                .map_or(*b, |(_, _, child)| *child);
            out.push(entry(a, RawParentGender::Wildcard, b, RawParentGender::Wildcard, child));
        }
    }
    out
}

/// Steps between every two species, by repeated widening.
fn raw_steps(entries: &[RawBreedingEntry]) -> Vec<RawStepsRow> {
    let mut rows = Vec::new();
    for (from, _, _) in &SPECIES {
        let mut reached: BTreeMap<String, u32> = BTreeMap::new();
        reached.insert((*from).to_owned(), 0);
        for round in 1..=SPECIES.len() as u32 {
            let mut next = reached.clone();
            for e in entries {
                for parent in [&e.parent1_internal_name, &e.parent2_internal_name] {
                    if reached.contains_key(parent) && !reached.contains_key(&e.child_internal_name) {
                        next.insert(e.child_internal_name.clone(), round);
                    }
                }
            }
            reached = next;
        }
        rows.push(RawStepsRow {
            from: (*from).to_owned(),
            to: SPECIES
                .iter()
                .map(|(to, _, _)| RawSteps {
                    to: (*to).to_owned(),
                    steps: reached.get(*to).copied().unwrap_or(10_000),
                })
                .collect(),
        });
    }
    rows
}

#[allow(dead_code)]
struct Fixture {
    db: &'static PalDb,
    breeding: &'static BreedingDb,
    index: &'static ChildIndex,
    odds: &'static PassiveOdds,
    iv_odds: &'static IvOdds,
    solver: &'static Solver<'static>,
}

fn fixture() -> Fixture {
    let db: &'static PalDb = Box::leak(Box::new(parse_pal_db(raw_db()).unwrap()));
    let entries = raw_entries();
    let min_breeding_steps = raw_steps(&entries);
    let file = RawBreedingFile { breeding: entries, min_breeding_steps };
    let breeding: &'static BreedingDb =
        Box::leak(Box::new(parse_breeding_db(file, db).map_err(|e| e.message()).unwrap()));
    let index: &'static ChildIndex = Box::leak(Box::new(
        ChildIndex::build(breeding).map_err(|e| e.message()).unwrap(),
    ));
    let odds: &'static PassiveOdds =
        Box::leak(Box::new(PassiveOdds::from_mechanics(db.mechanics()).unwrap()));
    let iv_odds: &'static IvOdds =
        Box::leak(Box::new(IvOdds::from_mechanics(db.mechanics()).unwrap()));
    let solver: &'static Solver<'static> =
        Box::leak(Box::new(Solver::new(db, index, odds, iv_odds)));
    Fixture { db, breeding, index, odds, iv_odds, solver }
}

// --- building saves -------------------------------------------------

fn u32_le(n: usize) -> Vec<u8> {
    (n as u32).to_le_bytes().to_vec()
}

fn fstring(text: &str) -> Vec<u8> {
    let mut out = u32_le(text.len() + 1);
    out.extend_from_slice(text.as_bytes());
    out.push(0);
    out
}

/// A property: name, type, length, index, what the type adds to the
/// header, a terminator and the body.
fn property(name: &str, kind: &str, header: &[u8], body: &[u8]) -> Vec<u8> {
    let mut out = fstring(name);
    out.extend(fstring(kind));
    out.extend(u32_le(body.len()));
    out.extend(u32_le(0));
    out.extend_from_slice(header);
    out.push(0);
    out.extend_from_slice(body);
    out
}

/// The fields of a struct, closed.
fn fields(parts: &[Vec<u8>]) -> Vec<u8> {
    let mut out = parts.concat();
    out.extend(fstring("None"));
    out
}

fn record(name: &str, kind: &str, parts: &[Vec<u8>]) -> Vec<u8> {
    let mut header = fstring(kind);
    header.extend([0u8; 16]);
    property(name, "StructProperty", &header, &fields(parts))
}

fn name(field: &str, value: &str) -> Vec<u8> {
    property(field, "NameProperty", &[], &fstring(value))
}

fn gender(value: &str) -> Vec<u8> {
    property("Gender", "EnumProperty", &fstring("EPalGenderType"), &fstring(value))
}

fn flag(field: &str, value: bool) -> Vec<u8> {
    let mut out = fstring(field);
    out.extend(fstring("BoolProperty"));
    out.extend([0u8; 8]);
    out.push(u8::from(value));
    out.push(0);
    out
}

fn names(field: &str, values: &[&str]) -> Vec<u8> {
    let mut body = u32_le(values.len());
    for value in values {
        body.extend(fstring(value));
    }
    property(field, "ArrayProperty", &fstring("NameProperty"), &body)
}

fn payload(field: &str, bytes: &[u8]) -> Vec<u8> {
    let mut body = u32_le(bytes.len());
    body.extend_from_slice(bytes);
    property(field, "ArrayProperty", &fstring("ByteProperty"), &body)
}

/// A map from structs to structs.
fn map(field: &str, entries: &[(Vec<u8>, Vec<u8>)]) -> Vec<u8> {
    let mut header = fstring("StructProperty");
    header.extend(fstring("StructProperty"));
    let mut body = u32_le(0);
    body.extend(u32_le(entries.len()));
    for (key, value) in entries {
        body.extend_from_slice(key);
        body.extend_from_slice(value);
    }
    property(field, "MapProperty", &header, &body)
}

fn character(parameters: &[Vec<u8>]) -> Vec<u8> {
    fields(&[record("SaveParameter", "PalIndividualCharacterSaveParameter", parameters)])
}

/// The character map's entries: a key of its own and the payload.
fn character_map(characters: &[Vec<u8>]) -> Vec<u8> {
    let entries: Vec<(Vec<u8>, Vec<u8>)> = characters
        .iter()
        .enumerate()
        .map(|(i, bytes)| {
            (
                fields(&[name("InstanceId", &format!("pal-{i}"))]),
                fields(&[payload("RawData", bytes)]),
            )
        })
        .collect();
    map("CharacterSaveParameterMap", &entries)
}

/// A whole GVAS stream.
fn gvas(properties: &[Vec<u8>]) -> Vec<u8> {
    let mut out = b"GVAS".to_vec();
    out.extend(u32_le(3));
    out.extend(u32_le(0x20A));
    out.extend(u32_le(1008));
    for part in [5u16, 1, 1] {
        out.extend(part.to_le_bytes());
    }
    out.extend(u32_le(0));
    out.extend(fstring("++UE5+Release-5.1"));
    out.extend(u32_le(3));
    out.extend(u32_le(0));
    out.extend(fstring("/Script/Pal.PalWorldSaveGame"));
    out.extend(fields(properties));
    out.extend(u32_le(0));
    out
}

fn world(parts: &[Vec<u8>]) -> Vec<u8> {
    gvas(&[record("worldSaveData", "PalWorldSaveData", parts)])
}

fn deflated(data: &[u8]) -> Vec<u8> {
    let mut encoder = ZlibEncoder::new(Vec::new(), Compression::default());
    encoder.write_all(data).unwrap();
    encoder.finish().unwrap()
}

/// A 12-byte header before a body.
fn contained(expected: usize, magic: &[u8; 3], save_type: u8, body: &[u8]) -> Vec<u8> {
    let mut out = u32_le(expected);
    out.extend(u32_le(body.len()));
    out.extend_from_slice(magic);
    out.push(save_type);
    out.extend_from_slice(body);
    out
}

fn zlib_save(data: &[u8]) -> Vec<u8> {
    contained(data.len(), b"PlZ", 0x31, &deflated(data))
}

/// One stored block of an Oodle stream.
fn oodle_save(data: &[u8]) -> Vec<u8> {
    assert!(data.len() <= 0x40000);
    let mut body = vec![0xCC, 0x06];
    body.extend_from_slice(data);
    contained(data.len(), b"PlM", 0x31, &body)
}

/// The Xbox prefix before a save.
fn xbox(save: &[u8]) -> Vec<u8> {
    let mut out = vec![0u8; 8];
    out.extend_from_slice(b"CNK");
    out.push(0x30);
    out.extend_from_slice(save);
    out
}

fn lamball() -> Vec<u8> {
    character(&[
        name("CharacterID", "SheepBall"),
        gender("EPalGenderType::Male"),
        names("PassiveSkillList", &["Swift", "Brave"]),
    ])
}

fn read_lamball() -> RawCharacter {
    RawCharacter {
        character_id: Some("SheepBall".to_owned()),
        gender: Some("EPalGenderType::Male".to_owned()),
        passives: vec!["Swift".to_owned(), "Brave".to_owned()],
        is_player: false,
    }
}

fn player() -> Vec<u8> {
    character(&[name("CharacterID", "Hero"), flag("IsPlayer", true)])
}

// --- sniffing -------------------------------------------------------

#[test]
fn sniffing_requires_the_plz_magic() {
    assert!(!looks_like_sav(b"species = \"Lamball\""));
    assert!(!looks_like_sav(&[0u8; 8]));
    let mut sav = vec![0u8; 16];
    sav[8..11].copy_from_slice(b"PlZ");
    assert!(looks_like_sav(&sav));
}

#[test]
fn every_known_container_is_a_save() {
    for magic in [b"PlZ", b"PlM", b"CNK"] {
        let mut sav = vec![0u8; 16];
        sav[8..11].copy_from_slice(magic);
        assert!(has_save_magic(&sav));
        assert!(looks_like_sav(&sav));
        assert!(!matches!(read_level_sav(&sav), Err(SaveError::NotASave)));
        assert!(!has_save_magic(&sav[..12]));
    }
    assert!(!has_save_magic(&[0u8; 16]));
}

#[test]
fn non_saves_are_rejected_before_parsing() {
    assert!(matches!(
        read_level_sav(b"not a save at all, definitely toml"),
        Err(SaveError::NotASave)
    ));
}

#[test]
fn corrupt_container_fails_loudly_not_by_panic() {
    let mut sav = vec![0u8; 64];
    sav[8..11].copy_from_slice(b"PlZ");
    sav[11] = 0x31;
    assert!(matches!(
        read_level_sav(&sav),
        Err(SaveError::Gvas(_) | SaveError::HintDiscovery { .. })
    ));
}

// --- containers -----------------------------------------------------

#[test]
fn zlib_streams_are_inflated() {
    let data = b"the quick brown fox jumps over the lazy dog, twice over".repeat(4);
    let once = contained(data.len(), b"PlZ", 0x31, &deflated(&data));
    assert_eq!(decompress(&once), Ok(data.clone()));
    let twice = contained(data.len(), b"PlZ", 0x32, &deflated(&deflated(&data)));
    assert_eq!(decompress(&twice), Ok(data));
}

#[test]
fn oodle_streams_are_extracted() {
    let data = b"an oodle stream of one stored block".to_vec();
    assert_eq!(decompress(&oodle_save(&data)), Ok(data));
}

#[test]
fn xbox_prefixes_are_stripped() {
    let data = b"either kind of container may stand behind the prefix".to_vec();
    assert_eq!(decompress(&xbox(&zlib_save(&data))), Ok(data.clone()));
    assert_eq!(decompress(&xbox(&oodle_save(&data))), Ok(data));
}

#[test]
fn each_container_failure_has_its_own_report() {
    assert_eq!(decompress(b"short"), Err(ContainerError::NotASave));
    assert_eq!(decompress(&xbox(&[0u8; 20])), Err(ContainerError::NotASave));
    assert_eq!(
        decompress(&contained(4, b"PlM", 0x32, b"body")),
        Err(ContainerError::Unsupported { magic: *b"PlM", save_type: 0x32 })
    );
    assert_eq!(
        decompress(&contained(4, b"PlZ", 0x30, b"body")),
        Err(ContainerError::Unsupported { magic: *b"PlZ", save_type: 0x30 })
    );
    assert!(matches!(
        decompress(&contained(4, b"PlZ", 0x31, b"not zlib")),
        Err(ContainerError::Zlib(_))
    ));
    assert!(matches!(
        decompress(&contained(4, b"PlZ", 0x32, &deflated(b"not zlib inside"))),
        Err(ContainerError::Zlib(_))
    ));
    assert!(matches!(
        decompress(&contained(4, b"PlM", 0x31, &[0x00, 0x00, 1, 2, 3, 4])),
        Err(ContainerError::Oodle(_))
    ));
    assert_eq!(
        decompress(&contained(9, b"PlZ", 0x31, &deflated(b"four"))),
        Err(ContainerError::LengthMismatch { expected: 9, actual: 4 })
    );
    assert_eq!(check_length(vec![7], 1), Ok(vec![7]));
    assert_eq!(
        ContainerError::LengthMismatch { expected: 9, actual: 4 }.message(),
        "decompressed length 4 does not match header claim 9"
    );
    assert_eq!(
        ContainerError::NotASave.message(),
        "not a Palworld save container (no PlZ/PlM magic)"
    );
}

// --- levels ---------------------------------------------------------

#[test]
fn characters_are_read_from_every_container() {
    let data = world(&[character_map(&[lamball(), player()])]);
    for save in [
        zlib_save(&data),
        contained(data.len(), b"PlZ", 0x32, &deflated(&deflated(&data))),
        oodle_save(&data),
        xbox(&zlib_save(&data)),
        xbox(&oodle_save(&data)),
    ] {
        let level = read_level_sav(&save).unwrap();
        assert_eq!(level.characters.len(), 2);
        assert_eq!(level.characters[0], read_lamball());
        assert!(level.characters[1].is_player);
        assert!(level.discovered_hints.is_empty());
    }
}

#[test]
fn container_failures_are_passed_on() {
    assert!(matches!(
        read_level_sav(&contained(4, b"PlM", 0x31, &[0x00, 0x00, 1, 2, 3, 4])),
        Err(SaveError::Container(ContainerError::Oodle(_)))
    ));
    assert!(matches!(
        read_level_sav(&xbox(&contained(9, b"PlZ", 0x31, &deflated(b"four")))),
        Err(SaveError::Container(ContainerError::LengthMismatch { expected: 9, actual: 4 }))
    ));
}

#[test]
fn streams_that_are_no_gvas_are_reported() {
    let Err(error) = read_level_sav(&zlib_save(b"no magic here")) else {
        panic!("not a GVAS stream");
    };
    assert!(matches!(error, SaveError::Gvas(_)));
    assert!(error.message().starts_with("GVAS parse failed: "));
}

#[test]
fn a_world_without_a_character_map_is_reported() {
    for data in [
        gvas(&[]),
        world(&[]),
        world(&[name("CharacterSaveParameterMap", "a name")]),
    ] {
        let Err(error) = read_level_sav(&zlib_save(&data)) else {
            panic!("no character map");
        };
        assert_eq!(error, SaveError::MissingCharacterMap);
        assert_eq!(
            error.message(),
            "worldSaveData.CharacterSaveParameterMap not found or not the expected shape"
        );
    }
}

#[test]
fn missing_hints_are_discovered() {
    let unseen = map("Unseen", &[(fields(&[]), fields(&[name("A", "b")]))]);
    let data = world(&[unseen, character_map(&[lamball()])]);
    let level = read_level_sav(&zlib_save(&data)).unwrap();
    assert_eq!(level.characters, vec![read_lamball()]);
    let path = "worldSaveData.StructProperty.Unseen.MapProperty";
    assert_eq!(
        level.discovered_hints,
        vec![
            (format!("{path}.Key.StructProperty"), "Struct".to_owned()),
            (format!("{path}.Value.StructProperty"), "Struct".to_owned()),
        ]
    );
}

#[test]
fn a_misread_struct_is_tried_as_a_guid() {
    // Sixteen bytes that are no list of fields.
    let guid = vec![0xFFu8; 16];
    let keyed = map("Keyed", &[(guid, fields(&[name("A", "b")]))]);
    let data = world(&[keyed, character_map(&[lamball()])]);
    let level = read_level_sav(&zlib_save(&data)).unwrap();
    assert_eq!(level.characters, vec![read_lamball()]);
    let path = "worldSaveData.StructProperty.Keyed.MapProperty";
    assert_eq!(
        level.discovered_hints,
        vec![
            (format!("{path}.Key.StructProperty"), "Guid".to_owned()),
            (format!("{path}.Value.StructProperty"), "Struct".to_owned()),
        ]
    );
}

#[test]
fn endless_discovery_is_given_up() {
    let mut parts: Vec<Vec<u8>> = (0..40)
        .map(|i| map(&format!("Unseen{i}"), &[(fields(&[]), fields(&[]))]))
        .collect();
    parts.push(character_map(&[lamball()]));
    let Err(error) = read_level_sav(&zlib_save(&world(&parts))) else {
        panic!("eighty paths need a hint");
    };
    let path = "worldSaveData.StructProperty.Unseen31.MapProperty.Value.StructProperty";
    assert_eq!(
        error,
        SaveError::HintDiscovery { attempts: 64, path: path.to_owned() }
    );
    assert_eq!(
        error.message(),
        format!("hint discovery did not converge after 64 attempts (last path: {path})")
    );
}

#[test]
fn characters_decode_from_their_payload() {
    assert_eq!(decode_character(&lamball()), read_lamball());
    assert_eq!(decode_character(&Vec::new()), RawCharacter::default());
    assert_eq!(decode_character(&b"garbage that is no property".to_vec()), RawCharacter::default());
    // What follows the parameters may be cut off.
    let whole = lamball();
    assert_eq!(decode_character(&whole[..whole.len() - 3].to_vec()), read_lamball());
    // A text serves as an id, a name as a gender.
    let other = character(&[
        property("CharacterID", "StrProperty", &[], &fstring("PinkCat")),
        name("Gender", "EPalGenderType::Female"),
    ]);
    assert_eq!(
        decode_character(&other),
        RawCharacter {
            character_id: Some("PinkCat".to_owned()),
            gender: Some("EPalGenderType::Female".to_owned()),
            passives: Vec::new(),
            is_player: false,
        }
    );
}

#[test]
fn a_save_becomes_a_pool() {
    let f = fixture();
    let data = world(&[character_map(&[
        lamball(),
        player(),
        character(&[name("CharacterID", "BOSS_SheepBall"), gender("EPalGenderType::Male"),
            names("PassiveSkillList", &["Swift", "Brave"])]),
        character(&[name("CharacterID", "Nobody"), gender("EPalGenderType::Male")]),
        Vec::new(),
    ])]);
    let Ok(Loaded::Pool { owned, status }) = pool_of_save("Level.sav", &oodle_save(&data), f.db)
    else {
        panic!("a readable save");
    };
    assert_eq!(owned.len(), 1);
    assert_eq!(owned[0].species.as_str(), "SheepBall");
    assert_eq!(owned[0].gender, Gender::Male);
    assert_eq!(owned[0].passives.len(), 2);
    assert_eq!(
        status,
        "2 pal(s) imported from Level.sav (1 player(s), 2 other entries skipped); \
         1 unique breeding profile(s)"
    );
}

#[test]
fn prefixed_failures_are_those_of_the_inner_container() {
    for inner in [
        contained(4, b"PlM", 0x32, b"body"),
        contained(4, b"PlZ", 0x31, b"not zlib"),
        contained(4, b"PlM", 0x31, &[0x00, 0x00, 1, 2, 3, 4]),
        contained(9, b"PlZ", 0x31, &deflated(b"four")),
        contained(9, b"???", 0x31, b"body"),
    ] {
        let plain = decompress(&inner);
        assert!(plain.is_err());
        assert_eq!(decompress(&xbox(&inner)), plain);
    }
}

/// A Mermaid stream whose only chunk names a mode that does not exist.
fn unknown_mode() -> Vec<u8> {
    let mut body = vec![0x8C, 0x0A, 0x00, 0x00, 0x16, 0x90, 0x00, 0x14];
    body.extend([0u8; 20]);
    contained(64, b"PlM", 0x31, &body)
}

#[test]
fn extractor_panics_are_reported() {
    let error = decompress(&unknown_mode()).unwrap_err();
    assert_eq!(error, ContainerError::Oodle("the extractor panicked".to_owned()));
    assert_eq!(
        error.message(),
        "oodle decompression failed: the extractor panicked"
    );
    assert!(matches!(
        read_level_sav(&unknown_mode()),
        Err(SaveError::Container(ContainerError::Oodle(_)))
    ));
}

/// A boolean whose padding byte is not zero.
fn bad_flag() -> Vec<u8> {
    let mut out = flag("IsPlayer", true);
    *out.last_mut().unwrap() = 1;
    out
}

#[test]
fn reader_panics_are_reported() {
    let error = read_level_sav(&zlib_save(&gvas(&[bad_flag()]))).unwrap_err();
    assert_eq!(error, SaveError::Gvas("the property reader panicked".to_owned()));
    // An undecodable payload leaves a character of which nothing is known.
    assert_eq!(decode_character(&fields(&[bad_flag()])), RawCharacter::default());
    assert_eq!(
        decode_character(&character(&[name("CharacterID", "SheepBall"), bad_flag()])),
        RawCharacter::default()
    );
}
