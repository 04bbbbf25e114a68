use namecast::{api_chunks, check_status, fmt_params, normalise_name, ApiError, Gender, GenderResult};

fn names(list: &[&str]) -> Vec<String> {
    list.iter().map(|s| s.to_string()).collect()
}

fn gender(gender: Option<Gender>, percent: u8) -> GenderResult {
    GenderResult { gender, percent, count: 100 }
}

#[test]
fn summarised_labels() {
    assert_eq!(gender(Some(Gender::Female), 97).summarised(), "F");
    assert_eq!(gender(Some(Gender::Male), 99).summarised(), "M");
    assert_eq!(gender(Some(Gender::Female), 85).summarised(), "F");
    assert_eq!(gender(Some(Gender::Female), 84).summarised(), "F?");
    assert_eq!(gender(Some(Gender::Male), 75).summarised(), "M?");
    assert_eq!(gender(Some(Gender::Male), 74).summarised(), "M??");
    assert_eq!(gender(Some(Gender::Female), 0).summarised(), "F??");
    assert_eq!(gender(None, 100).summarised(), "?");
}

#[test]
fn status_200_is_success() {
    assert!(check_status(200, "OK".to_string()).is_ok());
}

#[test]
fn status_429_is_rate_limited() {
    let err = check_status(429, "Too Many Requests".to_string()).unwrap_err();
    assert!(matches!(err, ApiError::LimitExceeded));
    assert_eq!(err.message(), "Daily API limit exceeded - try again tomorrow");
}

#[test]
fn other_status_is_server_error() {
    let err = check_status(500, "Internal Server Error".to_string()).unwrap_err();
    assert!(matches!(&err, ApiError::ServerError(500, t) if t == "Internal Server Error"));
    assert_eq!(err.message(), "Server returned error code 500 (Internal Server Error)");
    let err = check_status(201, "Created".to_string()).unwrap_err();
    assert_eq!(err.message(), "Server returned error code 201 (Created)");
    let err = check_status(0, String::new()).unwrap_err();
    assert_eq!(err.message(), "Server returned error code 0 ()");
    let err = check_status(65535, "x".to_string()).unwrap_err();
    assert_eq!(err.message(), "Server returned error code 65535 (x)");
}

#[test]
fn transport_error_message() {
    let err = ApiError::Transport("connection refused".to_string());
    assert_eq!(err.message(), "API request failed: connection refused");
}

#[test]
fn query_string_single_name() {
    assert_eq!(fmt_params(&names(&["JoAnn"])), "?name[]=JoAnn");
}

#[test]
fn query_string_two_names() {
    assert_eq!(fmt_params(&names(&["A", "B"])), "?name[]=A&name[]=B");
}

#[test]
fn query_string_encodes_values_only() {
    assert_eq!(fmt_params(&names(&["Jo Ann", "a&b"])), "?name[]=Jo%20Ann&name[]=a%26b");
    assert_eq!(fmt_params(&names(&["Zoë"])), "?name[]=Zo%C3%AB");
}

#[test]
fn query_string_empty() {
    assert_eq!(fmt_params(&[]), "");
}

#[test]
fn chunks_of_twenty_five() {
    let list: Vec<String> = (0..25).map(|i| format!("n{}", i)).collect();
    let chunks = api_chunks(&list);
    assert_eq!(chunks.len(), 3);
    assert_eq!(chunks[0], list[0..10].to_vec());
    assert_eq!(chunks[1], list[10..20].to_vec());
    assert_eq!(chunks[2], list[20..25].to_vec());
}

#[test]
fn chunks_edges() {
    assert!(api_chunks(&[]).is_empty());
    let ten: Vec<String> = (0..10).map(|i| format!("n{}", i)).collect();
    assert_eq!(api_chunks(&ten), vec![ten.clone()]);
    let eleven: Vec<String> = (0..11).map(|i| format!("n{}", i)).collect();
    let chunks = api_chunks(&eleven);
    assert_eq!(chunks.len(), 2);
    assert_eq!(chunks[1], vec!["n10".to_string()]);
}

#[test]
fn normalise_keeps_first_ascii_word() {
    assert_eq!(normalise_name("José"), "Jose");
    assert_eq!(normalise_name("Jo Ann"), "Jo");
    assert_eq!(normalise_name("Mary-Jane"), "Mary");
    assert_eq!(normalise_name("Æneid"), "AEneid");
    assert_eq!(normalise_name("Alice"), "Alice");
    assert_eq!(normalise_name(""), "");
}

#[test]
fn confidence_labels() {
    assert_eq!(namecast::confidence_label(97), "97%");
    assert_eq!(namecast::confidence_label(100), "100%");
    assert_eq!(namecast::confidence_label(5), "5%");
    assert_eq!(namecast::confidence_label(0), "");
}
