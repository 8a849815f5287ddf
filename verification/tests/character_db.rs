use ffbetool::character_db::{resolve_unit_id, CharacterInfo, Db, LookupResult};
use ffbetool::cli::UnitIdentifier;
use ffbetool::FfbeError;

fn character(kind: &str, name: &str, rarity: Option<&str>) -> CharacterInfo {
    CharacterInfo {
        kind: String::from(kind),
        name: String::from(name),
        rarity: rarity.map(String::from),
    }
}

#[test]
fn test_find_character_by_name_exact_match() {
    let mut db: Db = Db::new();
    let kain = character("summon", "Kain", None);
    let rosa = character("summon", "Rosa", None);
    let cecil = character("summon", "Cecil", None);
    db.insert(204000203, kain.clone());
    db.insert(204000304, rosa.clone());
    db.insert(204000103, cecil.clone());

    match db.find_by_name("Rosa") {
        LookupResult::Found(uid) => assert_eq!(uid, 204000304),
        _ => panic!("Expected Found result for Rosa"),
    }

    match db.find_by_name("Cecil") {
        LookupResult::Found(uid) => assert_eq!(uid, 204000103),
        _ => panic!("Expected Found result for Cecil"),
    }

    match db.find_by_name("Kain") {
        LookupResult::Found(uid) => assert_eq!(uid, 204000203),
        _ => panic!("Expected Found result for Kain"),
    }
}

#[test]
fn test_find_character_by_name_case_insensitive() {
    let mut db: Db = Db::new();
    let rain = character("story", "Rain", None);
    let cecil = character("summon", "Cecil", None);
    db.insert(100000102, rain);
    db.insert(204000103, cecil);

    match db.find_by_name("RAIN") {
        LookupResult::Found(uid) => {
            assert_eq!(uid, 100000102);
        }
        _ => panic!("Expected Found result for RAIN"),
    }

    match db.find_by_name("cEcIL") {
        LookupResult::Found(uid) => {
            assert_eq!(uid, 204000103);
        }
        _ => panic!("Expected Found result for cEcIL"),
    }
}

#[test]
fn test_find_character_by_name_not_found() {
    let mut db: Db = Db::new();
    let rain = character("story", "Rain", None);
    db.insert(100000102, rain);

    match db.find_by_name("NonExistent") {
        LookupResult::NotFound => {} // Expected
        _ => panic!("Expected NotFound result for NonExistent"),
    }
}

#[test]
fn test_find_character_by_name_multiple_matches() {
    let mut db: Db = Db::new();
    let lightning1 = character("summon", "Lightning", Some("5"));
    let lightning2 = character("summon", "Radiant Lightning", Some("NV"));
    let lightning3 = character("event", "Lightning (FFXIII-2)", Some("NV"));

    db.insert(213000105, lightning1);
    db.insert(213001005, lightning2);
    db.insert(250000205, lightning3);

    // an exact match takes priority
    match db.find_by_name("Lightning") {
        LookupResult::Found(uid) => {
            assert_eq!(uid, 213000105);
        }
        _ => panic!("Expected Found result for exact match 'Lightning'"),
    }

    // no exact match for "Light": every character with a name like it
    match db.find_by_name("Light") {
        LookupResult::Multiple(matches) => {
            assert!(matches.len() >= 2);
            let uids: Vec<u32> = matches.iter().map(|(uid, _)| *uid).collect();
            assert!(uids.contains(&213000105)); // Lightning
            assert!(uids.contains(&213001005)); // Radiant Lightning
            assert!(uids.contains(&250000205)); // Lightning (FFXIII-2)
        }
        _ => panic!("Expected Multiple result for partial match 'Light'"),
    }
}

#[test]
fn test_find_character_by_name_partial_match() {
    let mut db: Db = Db::new();
    let radiant_lightning = character("summon", "Radiant Lightning", Some("NV"));
    let dark_knight_cecil = character("summon", "Dark Knight Cecil", Some("4"));

    db.insert(213001005, radiant_lightning);
    db.insert(204000403, dark_knight_cecil);

    match db.find_by_name("Radiant") {
        LookupResult::Multiple(matches) => {
            assert_eq!(matches.len(), 1);
            assert_eq!(matches[0].0, 213001005);
            assert_eq!(matches[0].1.name, "Radiant Lightning");
        }
        _ => panic!("Expected Multiple result for Radiant"),
    }

    match db.find_by_name("Knight") {
        LookupResult::Multiple(matches) => {
            assert_eq!(matches.len(), 1);
            assert_eq!(matches[0].0, 204000403);
            assert_eq!(matches[0].1.name, "Dark Knight Cecil");
        }
        _ => panic!("Expected Multiple result for Knight"),
    }
}

#[test]
fn two_characters_of_one_name_are_listed_after_the_similar_ones() {
    let mut db = Db::new();
    db.insert(1, character("a", "Rain", Some("5")));
    db.insert(2, character("b", "rain", None));
    db.insert(3, character("c", "Rainbow", None));
    db.insert(4, character("d", "Cloud", None));
    match db.find_by_name("RAIN") {
        LookupResult::Multiple(matches) => {
            assert_eq!(matches.len(), 3);
            assert_eq!(matches[0].0, 3);
            assert_eq!(matches[0].1, character("c", "Rainbow", None));
            let mut rest = vec![matches[1].0, matches[2].0];
            rest.sort();
            assert_eq!(rest, vec![1, 2]);
        }
        _ => panic!("a list was expected"),
    }
}

#[test]
fn a_longer_query_matches_the_names_within_it() {
    let mut db = Db::new();
    db.insert(7, character("a", "Fina", None));
    db.insert(8, character("a", "Lasswell", None));
    match db.find_by_name("dark fina") {
        LookupResult::Multiple(matches) => {
            assert_eq!(matches.len(), 1);
            assert_eq!(matches[0].0, 7);
        }
        _ => panic!("a list was expected"),
    }
    // only ASCII letters lose their case
    db.insert(9, character("a", "Élan", None));
    assert!(matches!(db.find_by_name("élan"), LookupResult::NotFound));
    assert!(matches!(db.find_by_name("ÉLAN"), LookupResult::Found(9)));
}

#[test]
fn the_empty_name_is_like_every_name() {
    let mut db = Db::new();
    assert!(matches!(db.find_by_name(""), LookupResult::NotFound));
    db.insert(1, character("a", "Rain", None));
    db.insert(2, character("a", "Fina", None));
    match db.find_by_name("") {
        LookupResult::Multiple(matches) => assert_eq!(matches.len(), 2),
        _ => panic!("a list was expected"),
    }
}

#[test]
fn insert_replaces_and_entries_list_each_character_once() {
    let mut db = Db::new();
    assert_eq!(db.entries().len(), 0);
    db.insert(5, character("a", "Rain", None));
    db.insert(6, character("a", "Fina", None));
    db.insert(5, character("b", "Lasswell", None));
    let mut entries = db.entries();
    entries.sort_by_key(|(uid, _)| *uid);
    assert_eq!(
        entries,
        vec![
            (5, character("b", "Lasswell", None)),
            (6, character("a", "Fina", None)),
        ]
    );
    assert_eq!(db.iter().count(), 2);
    assert!(matches!(db.find_by_name("Rain"), LookupResult::NotFound));
}

#[test]
fn unit_identifiers_resolve_to_unit_numbers() {
    let mut db = Db::new();
    db.insert(100000102, character("story", "Rain", None));
    db.insert(213000105, character("summon", "Lightning", None));
    db.insert(213001005, character("summon", "Radiant Lightning", None));
    assert_eq!(resolve_unit_id(&UnitIdentifier::Id(42), &db).unwrap(), 42);
    assert_eq!(
        resolve_unit_id(&UnitIdentifier::Name("rain".to_string()), &db).unwrap(),
        100000102
    );
    match resolve_unit_id(&UnitIdentifier::Name("Light".to_string()), &db) {
        Err(FfbeError::CharacterNotFound(name)) => assert_eq!(name, "Light"),
        _ => panic!("an error was expected"),
    }
    let missing = resolve_unit_id(&UnitIdentifier::Name("Nobody".to_string()), &db).unwrap_err();
    assert_eq!(missing.message(), "Character not found in DB: Nobody");
}
