use pointercrate_list::error::DemonError;
use pointercrate_list::ledger::{shift_down, shift_up, Demon, DemonWithCreators, Ledger};
use pointercrate_list::names::{dedup_by_keys, dedup_names, find_by_key, find_player, Player};
use pointercrate_list::video::validate;
use pointercrate_list::post::{NewDemon, PostDemon, RequestContext};
use pointercrate_list::tier::{list_state, ListState};

fn entry(name: &str, position: i16) -> Demon {
    Demon {
        name: name.to_string(),
        position,
        requirement: 50,
        video: None,
        verifier: 1,
        publisher: 1,
    }
}

fn ledger_of(names: &[&str]) -> Ledger {
    let mut ledger = Ledger::new();
    for (i, name) in names.iter().enumerate() {
        ledger.insert(entry(name, (i + 1) as i16));
    }
    ledger
}

fn names_in_order(ledger: &Ledger) -> Vec<(String, i16)> {
    Demon::all(ledger)
        .into_iter()
        .map(|d| (d.name, d.position))
        .collect()
}

fn players() -> Vec<Player> {
    vec![
        Player { id: 1, name: "Alice".to_string() },
        Player { id: 2, name: "Bob".to_string() },
        Player { id: 3, name: "a".to_string() },
        Player { id: 4, name: "b".to_string() },
    ]
}

fn context(may_edit_list: bool) -> RequestContext {
    RequestContext { may_edit_list, players: players() }
}

fn request(name: &str, position: i16, creators: &[&str]) -> PostDemon {
    PostDemon {
        name: name.to_string(),
        position,
        requirement: 60,
        verifier: "alice".to_string(),
        publisher: "BOB".to_string(),
        creators: creators.iter().map(|c| c.to_string()).collect(),
        video: Some("https://example.com/v".to_string()),
    }
}

#[test]
fn insert_in_the_middle_shifts_the_rest() {
    let mut ledger = ledger_of(&["A", "B", "C"]);
    let created = Demon::create_from(request("D", 2, &[]), &mut ledger, &context(true)).unwrap();
    assert_eq!(created.position, 2);
    assert_eq!(created.verifier, 1);
    assert_eq!(created.publisher, 2);
    assert_eq!(
        names_in_order(&ledger),
        vec![
            ("A".to_string(), 1),
            ("D".to_string(), 2),
            ("B".to_string(), 3),
            ("C".to_string(), 4)
        ]
    );
}

#[test]
fn insert_position_past_the_end_is_rejected() {
    let ledger = ledger_of(&["A", "B", "C"]);
    assert!(matches!(
        ledger.validate_position(5),
        Err(DemonError::PositionOutOfBounds { maximal: 4 })
    ));
    assert!(ledger.validate_position(4).is_ok());
    assert!(ledger.validate_position(1).is_ok());
    assert!(ledger.validate_position(0).is_err());
    assert!(ledger.validate_move_position(4).is_err());
    assert!(ledger.validate_move_position(3).is_ok());
}

#[test]
fn creators_differing_in_case_are_attached_once() {
    let mut ledger = ledger_of(&["A"]);
    Demon::create_from(request("X", 1, &["a", "A", "b"]), &mut ledger, &context(true)).unwrap();
    assert_eq!(ledger.links.len(), 2);
    assert_eq!(ledger.links[0].creator, 3);
    assert_eq!(ledger.links[1].creator, 4);
    assert!(ledger.links.iter().all(|l| l.demon == "X"));
}

#[test]
fn dedup_keeps_first_spelling() {
    let names = vec!["a".to_string(), "A".to_string(), "b".to_string(), "B".to_string()];
    assert_eq!(dedup_names(&names), vec!["a".to_string(), "b".to_string()]);
}

#[test]
fn tiers_follow_the_thresholds() {
    assert_eq!(list_state(1), ListState::Main);
    assert_eq!(list_state(75), ListState::Main);
    assert_eq!(list_state(76), ListState::Extended);
    assert_eq!(list_state(150), ListState::Extended);
    assert_eq!(list_state(151), ListState::Legacy);
    assert_eq!(ListState::Main.to_string(), "MAIN");
    assert_eq!(ListState::Extended.to_string(), "EXTENDED");
    assert_eq!(ListState::Legacy.to_string(), "LEGACY");
    assert_eq!(entry("A", 80).into_partial().state(), ListState::Extended);
}

#[test]
fn failure_after_shift_leaves_list_unchanged() {
    let mut ledger = ledger_of(&["A", "B", "C"]);
    let before = names_in_order(&ledger);
    let r = Demon::create_from(request("D", 1, &["a", "nobody"]), &mut ledger, &context(true));
    match r {
        Err(DemonError::PlayerNotFound { name }) => assert_eq!(name, "nobody"),
        other => panic!("unexpected {:?}", other),
    }
    assert_eq!(names_in_order(&ledger), before);
    assert_eq!(ledger.links.len(), 0);
}

#[test]
fn each_error_kind() {
    let mut ledger = ledger_of(&["A", "B"]);
    let r = Demon::create_from(request("D", 1, &[]), &mut ledger, &context(false));
    assert!(matches!(r, Err(DemonError::Unauthorized)));
    let mut bad = request("D", 1, &[]);
    bad.requirement = 101;
    let r = Demon::create_from(bad, &mut ledger, &context(true));
    assert!(matches!(r, Err(DemonError::RequirementOutOfBounds)));
    let mut bad = request("D", 1, &[]);
    bad.requirement = -1;
    let r = Demon::create_from(bad, &mut ledger, &context(true));
    assert!(matches!(r, Err(DemonError::RequirementOutOfBounds)));
    let r = Demon::create_from(request("a", 1, &[]), &mut ledger, &context(true));
    assert!(matches!(r, Err(DemonError::NameTaken)));
    let r = Demon::create_from(request("D", 4, &[]), &mut ledger, &context(true));
    assert!(matches!(r, Err(DemonError::PositionOutOfBounds { maximal: 3 })));
    let mut bad = request("D", 1, &[]);
    bad.publisher = "carol".to_string();
    let r = Demon::create_from(bad, &mut ledger, &context(true));
    match r {
        Err(DemonError::PlayerNotFound { name }) => assert_eq!(name, "carol"),
        other => panic!("unexpected {:?}", other),
    }
    let mut bad = request("D", 1, &[]);
    bad.verifier = "dave".to_string();
    let r = Demon::create_from(bad, &mut ledger, &context(true));
    match r {
        Err(DemonError::PlayerNotFound { name }) => assert_eq!(name, "dave"),
        other => panic!("unexpected {:?}", other),
    }
    assert_eq!(ledger.len(), 2);
}

#[test]
fn append_at_the_end() {
    let mut ledger = ledger_of(&["A", "B"]);
    Demon::create_from(request("Z", 3, &[]), &mut ledger, &context(true)).unwrap();
    assert_eq!(Demon::by_position(&ledger, 3).unwrap().name, "Z");
    assert_eq!(Demon::by_name(&ledger, &"z".to_string()).unwrap().position, 3);
    assert!(Demon::by_position(&ledger, 4).is_none());
    assert!(Demon::by_name(&ledger, &"Q".to_string()).is_none());
}

#[test]
fn two_inserts_at_the_same_position_are_serialized() {
    let mut ledger = ledger_of(&["A", "B"]);
    Demon::create_from(request("D", 2, &[]), &mut ledger, &context(true)).unwrap();
    Demon::create_from(request("E", 2, &[]), &mut ledger, &context(true)).unwrap();
    assert_eq!(Demon::by_name(&ledger, &"E".to_string()).unwrap().position, 2);
    assert_eq!(Demon::by_name(&ledger, &"D".to_string()).unwrap().position, 3);
    assert_eq!(Demon::by_name(&ledger, &"B".to_string()).unwrap().position, 4);
}

#[test]
fn delete_closes_the_gap() {
    let mut ledger = ledger_of(&["A", "B", "C", "D"]);
    let gone = ledger.delete(2);
    assert_eq!(gone.name, "B");
    assert_eq!(
        names_in_order(&ledger),
        vec![("A".to_string(), 1), ("C".to_string(), 2), ("D".to_string(), 3)]
    );
}

#[test]
fn move_forward_and_back() {
    let mut ledger = ledger_of(&["A", "B", "C", "D"]);
    ledger.move_to(1, 3);
    assert_eq!(
        names_in_order(&ledger),
        vec![
            ("B".to_string(), 1),
            ("C".to_string(), 2),
            ("A".to_string(), 3),
            ("D".to_string(), 4)
        ]
    );
    ledger.move_to(4, 1);
    assert_eq!(
        names_in_order(&ledger),
        vec![
            ("D".to_string(), 1),
            ("B".to_string(), 2),
            ("C".to_string(), 3),
            ("A".to_string(), 4)
        ]
    );
}

#[test]
fn shifts_move_only_the_tail() {
    let mut rows = vec![entry("A", 1), entry("B", 2), entry("C", 3)];
    shift_down(&mut rows, 2);
    assert_eq!(rows.iter().map(|d| d.position).collect::<Vec<_>>(), vec![1, 3, 4]);
    shift_up(&mut rows, 2);
    assert_eq!(rows.iter().map(|d| d.position).collect::<Vec<_>>(), vec![1, 2, 3]);
}

#[test]
fn validation_rules() {
    assert!(Demon::validate_requirement(0).is_ok());
    assert!(Demon::validate_requirement(100).is_ok());
    assert!(Demon::validate_requirement(101).is_err());
    let ledger = ledger_of(&["Bloodbath"]);
    assert!(matches!(ledger.validate_name(&"BLOODBATH".to_string()), Err(DemonError::NameTaken)));
    assert!(ledger.validate_name(&"Sonic Wave".to_string()).is_ok());
    assert_eq!(find_player(&players(), &"ALICE".to_string()), Some(1));
    assert_eq!(find_player(&players(), &"nobody".to_string()), None);
}

#[test]
fn new_row_becomes_entry() {
    let row = NewDemon {
        name: "N".to_string(),
        position: 1,
        requirement: 5,
        verifier: 7,
        publisher: 8,
        video: None,
    };
    let d = row.into_demon();
    assert_eq!((d.position, d.requirement, d.verifier, d.publisher), (1, 5, 7, 8));
}

#[test]
fn positions_stay_dense_through_changes() {
    let mut ledger = ledger_of(&["A", "B", "C"]);
    ledger.insert(entry("D", 1));
    ledger.move_to(2, 4);
    ledger.delete(3);
    ledger.insert(entry("E", 4));
    ledger.move_to(4, 1);
    ledger.delete(1);
    let positions: Vec<i16> = Demon::all(&ledger).iter().map(|d| d.position).collect();
    assert_eq!(positions, vec![1, 2, 3]);
    let mut empty = ledger_of(&["A"]);
    empty.delete(1);
    assert_eq!(empty.len(), 0);
}

#[test]
fn delete_drops_the_creator_links() {
    let mut ledger = ledger_of(&["A", "B"]);
    Demon::create_from(request("X", 1, &["a"]), &mut ledger, &context(true)).unwrap();
    Demon::create_from(request("Y", 1, &["b", "a"]), &mut ledger, &context(true)).unwrap();
    assert_eq!(ledger.links.len(), 3);
    let gone = ledger.delete(2);
    assert_eq!(gone.name, "X");
    assert_eq!(ledger.links.len(), 2);
    assert!(ledger.links.iter().all(|l| l.demon == "Y"));
    assert_eq!(
        names_in_order(&ledger),
        vec![("Y".to_string(), 1), ("A".to_string(), 2), ("B".to_string(), 3)]
    );
}

#[test]
fn malformed_video_is_rejected() {
    let mut ledger = ledger_of(&["A"]);
    for bad in ["", "youtube.com/watch", "https://", "http://a b", "ftp://x", "https://vidéo"] {
        let mut r = request("D", 1, &[]);
        r.video = Some(bad.to_string());
        let out = Demon::create_from(r, &mut ledger, &context(true));
        assert!(matches!(out, Err(DemonError::MalformedVideo)), "{:?}", bad);
    }
    assert_eq!(ledger.len(), 1);
    assert!(validate(&"https://www.youtube.com/watch?v=abc".to_string()).is_ok());
    assert!(validate(&"http://x".to_string()).is_ok());
    let mut r = request("D", 1, &[]);
    r.video = None;
    assert!(Demon::create_from(r, &mut ledger, &context(true)).is_ok());
}

#[test]
fn hydrated_entry_carries_its_creators() {
    let mut ledger = ledger_of(&["A"]);
    Demon::create_from(request("X", 2, &["b", "Alice", "B"]), &mut ledger, &context(true)).unwrap();
    let h = DemonWithCreators::by_name(&ledger, &"x".to_string()).unwrap();
    assert_eq!(h.demon.name, "X");
    assert_eq!(h.demon.position, 2);
    assert_eq!(h.creators, vec![4, 1]);
    let a = DemonWithCreators::by_name(&ledger, &"A".to_string()).unwrap();
    assert!(a.creators.is_empty());
    assert!(DemonWithCreators::by_name(&ledger, &"nope".to_string()).is_none());
}

#[test]
fn keyed_lookup_and_dedup() {
    let keys: Vec<String> = ["a", "b", "a", "c", "b"].iter().map(|k| k.to_string()).collect();
    assert_eq!(dedup_by_keys(&keys), vec![0, 1, 3]);
    assert_eq!(find_by_key(&keys, &"b".to_string()), Some(1));
    assert_eq!(find_by_key(&keys, &"B".to_string()), None);
    assert_eq!(dedup_by_keys(&Vec::new()), Vec::<usize>::new());
}

#[test]
fn well_formedness_is_checked() {
    let mut ledger = ledger_of(&["A", "B"]);
    assert!(ledger.is_well_formed());
    ledger.rows[1].position = 5;
    assert!(!ledger.is_well_formed());
    ledger.rows[1].position = 2;
    ledger.rows[1].name = "a".to_string();
    assert!(!ledger.is_well_formed());
    assert!(Ledger::new().is_well_formed());
}

#[test]
fn hydrated_create_lists_only_the_new_creators() {
    let mut ledger = ledger_of(&["A"]);
    Demon::create_from(request("X", 1, &["Alice"]), &mut ledger, &context(true)).unwrap();
    ledger.delete(1);
    let h = DemonWithCreators::create_from(request("X", 2, &["a", "A", "b"]), &mut ledger, &context(true)).unwrap();
    assert_eq!(h.demon.name, "X");
    assert_eq!(h.demon.position, 2);
    assert_eq!(h.demon.verifier, 1);
    assert_eq!(h.demon.publisher, 2);
    assert_eq!(h.creators, vec![3, 4]);
    assert_eq!(ledger.links.len(), 2);
    let r = DemonWithCreators::create_from(request("x", 1, &[]), &mut ledger, &context(true));
    assert!(matches!(r, Err(DemonError::NameTaken)));
}

#[test]
fn stray_link_breaks_well_formedness() {
    let mut ledger = ledger_of(&["A"]);
    Demon::create_from(request("X", 1, &["b"]), &mut ledger, &context(true)).unwrap();
    assert!(ledger.is_well_formed());
    ledger.links[0].demon = "Nobody".to_string();
    assert!(!ledger.is_well_formed());
}
