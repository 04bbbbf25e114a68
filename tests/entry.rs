use namecast::parse_names;

fn names(list: &[&str]) -> Vec<String> {
    list.iter().map(|s| s.to_string()).collect()
}

#[test]
fn parse_lines_trimmed_and_normalised() {
    let text = "Alice\n  Bob \n\nFirst\nJosé María\n";
    assert_eq!(parse_names(text), names(&["Alice", "Bob", "Jose"]));
}

#[test]
fn parse_skips_column_title_only_when_exact() {
    assert_eq!(parse_names("First"), Vec::<String>::new());
    assert_eq!(parse_names(" First\t"), Vec::<String>::new());
    assert_eq!(parse_names("Firsty\nfirst"), names(&["Firsty", "first"]));
}

#[test]
fn parse_empty_and_blank() {
    assert!(parse_names("").is_empty());
    assert!(parse_names("\n \n\t\n").is_empty());
}

#[test]
fn parse_unicode_white_space_and_duplicates() {
    assert_eq!(parse_names("\u{3000}Zoë\u{a0}\nZoe\r\n"), names(&["Zoe", "Zoe"]));
}
