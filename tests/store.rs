use namecast::{api_chunks, ApiError, CountryResult, Db, ErrorQueue, Gender, GenderResult, Remote};

fn names(list: &[&str]) -> Vec<String> {
    list.iter().map(|s| s.to_string()).collect()
}

fn female(percent: u8, count: u32) -> GenderResult {
    GenderResult { gender: Some(Gender::Female), percent, count }
}

fn male(percent: u8, count: u32) -> GenderResult {
    GenderResult { gender: Some(Gender::Male), percent, count }
}

#[test]
fn remote_starts_loading() {
    let r: Remote<u32> = Remote::default();
    assert!(matches!(r, Remote::Loading));
}

#[test]
fn tracking_is_idempotent() {
    let mut db = Db::new();
    let list = names(&["Alice", "Bob", "Alice", "Carol"]);
    let first = db.start_any_requests(&list);
    assert_eq!(first, names(&["Alice", "Bob", "Carol"]));
    let second = db.start_any_requests(&list);
    assert!(second.is_empty());
    for n in names(&["Alice", "Bob", "Carol"]) {
        assert!(matches!(db.gender(&n), Remote::Loading));
        assert!(matches!(db.country(&n), Remote::Loading));
    }
}

#[test]
fn tracking_skips_known_names_only() {
    let mut db = Db::new();
    db.start_any_requests(&names(&["Alice"]));
    let fresh = db.start_any_requests(&names(&["Bob", "Alice", "Dan", "Bob"]));
    assert_eq!(fresh, names(&["Bob", "Dan"]));
}

#[test]
fn failed_lookup_is_not_retried() {
    let mut db = Db::new();
    let mut errors = ErrorQueue::new();
    let list = names(&["Alice"]);
    db.start_any_requests(&list);
    db.apply_genders(&list, Err(ApiError::LimitExceeded), &mut errors, 0);
    assert!(db.start_any_requests(&list).is_empty());
    assert!(matches!(db.gender(&list[0]), Remote::Error));
}

#[test]
fn end_to_end_success() {
    let mut db = Db::new();
    let mut errors = ErrorQueue::new();
    let list = names(&["Alice", "Bob"]);
    let fresh = db.start_any_requests(&list);
    let chunks = api_chunks(&fresh);
    assert_eq!(chunks.len(), 1);
    let results = vec![("Alice".to_string(), female(97, 500)), ("Bob".to_string(), male(99, 800))];
    db.apply_genders(&chunks[0], Ok(results), &mut errors, 0);
    match db.gender(&list[0]) {
        Remote::Success(g) => {
            assert_eq!(g.percent, 97);
            assert_eq!(g.count, 500);
            assert_eq!(g.summarised(), "F");
        }
        _ => panic!("Alice should be resolved"),
    }
    match db.gender(&list[1]) {
        Remote::Success(g) => assert_eq!(g.summarised(), "M"),
        _ => panic!("Bob should be resolved"),
    }
    assert!(errors.entries().is_empty());
}

#[test]
fn end_to_end_rate_limited() {
    let mut db = Db::new();
    let mut errors = ErrorQueue::new();
    let list = names(&["Alice", "Bob"]);
    let fresh = db.start_any_requests(&list);
    db.apply_genders(&fresh, Err(ApiError::LimitExceeded), &mut errors, 5);
    assert!(matches!(db.gender(&list[0]), Remote::Error));
    assert!(matches!(db.gender(&list[1]), Remote::Error));
    assert_eq!(errors.entries().len(), 1);
    assert_eq!(errors.entries()[0].message, "Daily API limit exceeded - try again tomorrow");
    assert_eq!(errors.entries()[0].id, 1);
    assert_eq!(errors.entries()[0].published_at, 5);
}

#[test]
fn fields_are_independent() {
    let mut db = Db::new();
    let mut errors = ErrorQueue::new();
    let list = names(&["Alice", "Bob"]);
    db.start_any_requests(&list);
    db.apply_genders(&list, Err(ApiError::Transport("offline".to_string())), &mut errors, 0);
    assert!(matches!(db.country(&list[0]), Remote::Loading));
    let countries = vec![(
        "Alice".to_string(),
        vec![CountryResult { country: "GB".to_string(), percent: 40 }],
    )];
    db.apply_countries(&list, Ok(countries), &mut errors, 0);
    assert!(matches!(db.gender(&list[0]), Remote::Error));
    match db.country(&list[0]) {
        Remote::Success(c) => {
            assert_eq!(c.len(), 1);
            assert_eq!(c[0].country, "GB");
            assert_eq!(c[0].percent, 40);
        }
        _ => panic!("Alice's countries should be resolved"),
    }
    assert!(matches!(db.country(&list[1]), Remote::Loading));
    assert_eq!(errors.entries().len(), 1);
}

#[test]
fn failing_chunk_is_isolated() {
    let mut db = Db::new();
    let mut errors = ErrorQueue::new();
    let list: Vec<String> = (0..25).map(|i| format!("n{}", i)).collect();
    let fresh = db.start_any_requests(&list);
    let chunks = api_chunks(&fresh);
    assert_eq!(chunks.len(), 3);
    let answer = |chunk: &Vec<String>| -> Vec<(String, GenderResult)> {
        chunk.iter().map(|n| (n.clone(), female(90, 1))).collect()
    };
    db.apply_genders(&chunks[2], Ok(answer(&chunks[2])), &mut errors, 0);
    db.apply_genders(&chunks[1], Err(ApiError::ServerError(503, "Unavailable".to_string())), &mut errors, 0);
    db.apply_genders(&chunks[0], Ok(answer(&chunks[0])), &mut errors, 0);
    for (i, n) in list.iter().enumerate() {
        if (10..20).contains(&i) {
            assert!(matches!(db.gender(n), Remote::Error));
        } else {
            assert!(matches!(db.gender(n), Remote::Success(_)));
        }
    }
    assert_eq!(errors.entries().len(), 1);
    assert_eq!(errors.entries()[0].message, "Server returned error code 503 (Unavailable)");
}

#[test]
fn unanswered_name_stays_loading() {
    let mut db = Db::new();
    let mut errors = ErrorQueue::new();
    let list = names(&["Alice", "Zzz"]);
    db.start_any_requests(&list);
    db.apply_genders(&list, Ok(vec![("Alice".to_string(), female(60, 3))]), &mut errors, 0);
    assert!(matches!(db.gender(&list[1]), Remote::Loading));
    match db.gender(&list[0]) {
        Remote::Success(g) => assert_eq!(g.summarised(), "F??"),
        _ => panic!("Alice should be resolved"),
    }
}

#[test]
fn answers_for_untracked_names_are_ignored() {
    let mut db = Db::new();
    let mut errors = ErrorQueue::new();
    let list = names(&["Alice"]);
    db.start_any_requests(&list);
    let results = vec![("Stranger".to_string(), male(99, 1)), ("Alice".to_string(), female(99, 1))];
    db.apply_genders(&list, Ok(results), &mut errors, 0);
    assert!(matches!(db.gender(&list[0]), Remote::Success(_)));
    assert!(db.start_any_requests(&names(&["Stranger"])) == names(&["Stranger"]));
}

#[test]
fn set_slots_directly() {
    let mut db = Db::new();
    let list = names(&["Alice"]);
    db.start_any_requests(&list);
    db.set_gender(&list[0], Remote::Success(male(80, 2)));
    db.set_country(&list[0], Remote::Error);
    assert!(matches!(db.gender(&list[0]), Remote::Success(g) if g.summarised() == "M?"));
    assert!(matches!(db.country(&list[0]), Remote::Error));
}

#[test]
fn mf_column_lines() {
    let mut db = Db::new();
    let mut errors = ErrorQueue::new();
    let list = names(&["Alice", "Bob", "Carol", "Alice"]);
    db.start_any_requests(&list);
    db.apply_genders(&list[0..1], Ok(vec![("Alice".to_string(), female(97, 5))]), &mut errors, 0);
    db.apply_genders(&list[2..3], Err(ApiError::LimitExceeded), &mut errors, 0);
    assert_eq!(db.mf_column(&list), "F\n?\n?\nF");
    assert_eq!(db.mf_column(&[]), "");
    assert!(db.contains(&list[1]));
    assert!(!db.contains(&"Dan".to_string()));
}
