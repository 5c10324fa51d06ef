use eris::cli_args::parse;

#[test]
fn test_parse_default_db() {
    let args = parse(vec!["eris".to_string()]);
    assert_eq!(args.db, "members.sqlite3");
}

#[test]
fn test_parse_explicit_db() {
    let args = parse(vec!["eris".to_string(), "club.sqlite3".to_string()]);
    assert_eq!(args.db, "club.sqlite3");
}

#[test]
fn test_parse_no_args() {
    let args = parse(Vec::new());
    assert_eq!(args.db, "members.sqlite3");
}
