use chat_rooms::names::Names;
use chat_rooms::naming::{compose_name, ADJECTIVES, ANIMALS};
use chat_rooms::random_name;

fn is_word_pair(name: &str) -> bool {
    ADJECTIVES
        .iter()
        .any(|adjective| ANIMALS.iter().any(|animal| name == format!("{adjective}{animal}")))
}

#[test]
fn new_registry_is_empty() {
    let names = Names::new();
    assert_eq!(names.len(), 0);
    assert_eq!(names.to_string(), "");
    assert!(!names.contains("swiftFox"));
}

#[test]
fn insert_reports_whether_the_name_was_free() {
    let mut names = Names::new();
    assert!(names.insert("swiftFox".to_string()));
    assert!(!names.insert("swiftFox".to_string()));
    assert!(names.insert("nimbleOwl".to_string()));
    assert_eq!(names.len(), 2);
    assert!(names.contains("swiftFox"));
    assert!(names.contains("nimbleOwl"));
    assert!(!names.contains("swiftfox"));
}

#[test]
fn remove_frees_the_name_for_reuse() {
    let mut names = Names::new();
    assert!(names.insert("swiftFox".to_string()));
    assert!(names.insert("nimbleOwl".to_string()));
    names.remove("swiftFox");
    assert!(!names.contains("swiftFox"));
    assert!(names.contains("nimbleOwl"));
    assert_eq!(names.len(), 1);
    assert!(names.insert("swiftFox".to_string()));
    assert_eq!(names.len(), 2);
}

#[test]
fn remove_of_an_absent_name_changes_nothing() {
    let mut names = Names::new();
    assert!(names.insert("swiftFox".to_string()));
    names.remove("nimbleOwl");
    assert_eq!(names.len(), 1);
    assert_eq!(names.to_string(), "swiftFox ");
}

#[test]
fn to_string_lists_every_name_with_a_trailing_space() {
    let mut names = Names::new();
    names.insert("swiftFox".to_string());
    names.insert("nimbleOwl".to_string());
    names.insert("calmLynx".to_string());
    assert_eq!(names.to_string(), "swiftFox nimbleOwl calmLynx ");
    names.remove("nimbleOwl");
    assert_eq!(names.to_string(), "swiftFox calmLynx ");
}

#[test]
fn get_unique_without_draws_claims_nothing() {
    let mut names = Names::new();
    assert_eq!(names.get_unique(0), None);
    assert_eq!(names.len(), 0);
}

#[test]
fn get_unique_on_an_empty_registry_succeeds_with_one_draw() {
    let mut names = Names::new();
    let name = names.get_unique(1).expect("the first draw is free");
    assert!(is_word_pair(&name));
    assert!(names.contains(&name));
    assert_eq!(names.len(), 1);
}

#[test]
fn get_unique_never_hands_out_a_name_twice() {
    let mut names = Names::new();
    let mut granted: Vec<String> = Vec::new();
    for _ in 0..200 {
        if let Some(name) = names.get_unique(8) {
            assert!(is_word_pair(&name));
            assert!(!granted.contains(&name));
            granted.push(name);
        }
        assert_eq!(names.len(), granted.len());
    }
    assert!(!granted.is_empty());
    for name in &granted {
        assert!(!names.insert(name.clone()));
    }
}

#[test]
fn get_unique_gives_up_when_every_name_is_taken() {
    let mut names = Names::new();
    for adjective in ADJECTIVES {
        for animal in ANIMALS {
            assert!(names.insert(compose_name(adjective, animal)));
        }
    }
    let held = names.len();
    assert_eq!(held, ADJECTIVES.len() * ANIMALS.len());
    assert_eq!(names.get_unique(50), None);
    assert_eq!(names.len(), held);
}

#[test]
fn random_name_is_an_adjective_followed_by_an_animal() {
    for _ in 0..100 {
        let name = random_name();
        assert!(is_word_pair(&name), "{name}");
    }
}

#[test]
fn random_name_varies() {
    let first = random_name();
    let mut differs = false;
    for _ in 0..200 {
        if random_name() != first {
            differs = true;
        }
    }
    assert!(differs);
}

#[test]
fn compose_name_joins_the_two_words() {
    assert_eq!(compose_name("swift", "Fox"), "swiftFox");
    assert_eq!(compose_name("", "Owl"), "Owl");
    assert_eq!(compose_name("nimble", ""), "nimble");
}

#[test]
fn list_all_is_a_snapshot_in_claim_order() {
    let mut names = Names::new();
    assert_eq!(names.list_all(), Vec::<String>::new());
    names.insert("swiftFox".to_string());
    names.insert("nimbleOwl".to_string());
    let snapshot = names.list_all();
    names.remove("swiftFox");
    assert_eq!(snapshot, vec!["swiftFox".to_string(), "nimbleOwl".to_string()]);
    assert_eq!(names.list_all(), vec!["nimbleOwl".to_string()]);
}

#[test]
fn get_unique_succeeds_at_once_while_no_generated_name_is_held() {
    let mut names = Names::new();
    names.insert("alice".to_string());
    names.insert("bob".to_string());
    let name = names.get_unique(1).expect("no generated name is held");
    assert!(is_word_pair(&name));
    assert_eq!(names.list_all(), vec!["alice".to_string(), "bob".to_string(), name]);
}
