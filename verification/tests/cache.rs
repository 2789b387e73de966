use nps::cache::{
    cache_from_listing, lines_of_listing, normalize_listing, parse_json_to_lines, CacheError,
    ListedPackage,
};
use nps::record::parse_record;

#[test]
fn json_entry_becomes_a_cache_line() {
    let json = r#"{"ns.x.pkgA":{"version":"1","description":"d1"}}"#;
    assert_eq!(parse_json_to_lines(json).unwrap(), "pkgA 1 d1");
}

#[test]
fn lines_are_sorted() {
    let json = r#"{
        "a.b.zeta": {"version": "1", "description": "last"},
        "z.z.alpha": {"version": "2", "description": "first"},
        "a.b.Beta": {"version": "3", "description": "capitals sort first"},
        "m.m.alpha": {"version": "1", "description": "lower version"}
    }"#;
    assert_eq!(
        parse_json_to_lines(json).unwrap(),
        "Beta 3 capitals sort first\nalpha 1 lower version\nalpha 2 first\nzeta 1 last"
    );
}

#[test]
fn name_is_what_follows_the_second_dot() {
    let json = r#"{"legacyPackages.x86_64-linux.python3Packages.numpy":{"version":"1","description":"d"}}"#;
    assert_eq!(
        parse_json_to_lines(json).unwrap(),
        "python3Packages.numpy 1 d"
    );
    let json = r#"{"a.b.":{"version":"1","description":"d"}}"#;
    assert_eq!(parse_json_to_lines(json).unwrap(), " 1 d");
}

#[test]
fn other_members_are_ignored() {
    let json = r#"{"a.b.c":{"pname":"x","version":"1","extra":[1,2],"n":null,"description":"d"}}"#;
    assert_eq!(parse_json_to_lines(json).unwrap(), "c 1 d");
}

#[test]
fn empty_object_gives_an_empty_cache() {
    assert_eq!(parse_json_to_lines("{}").unwrap(), "");
}

#[test]
fn malformed_json_is_reported() {
    for json in ["", "{", "[]", "null", r#"{"a.b.c": 1}"#, r#"{"a.b.c": "text"}"#, "{} x"] {
        assert!(
            matches!(parse_json_to_lines(json), Err(CacheError::Malformed(_))),
            "{:?}",
            json
        );
    }
}

#[test]
fn missing_member_is_reported() {
    for json in [
        r#"{"a.b.c":{"version":"1"}}"#,
        r#"{"a.b.c":{"description":"d"}}"#,
        r#"{"a.b.c":{}}"#,
        r#"{"a.b.c":{"version":1,"description":"d"}}"#,
        r#"{"a.b.c":{"version":"1","description":null}}"#,
        r#"{"a.b.c":{"version":"1","description":"d"},"a.b.d":{"version":"1"}}"#,
    ] {
        assert!(
            matches!(parse_json_to_lines(json), Err(CacheError::MissingField)),
            "{:?}",
            json
        );
    }
}

#[test]
fn identifier_without_name_is_reported() {
    for json in [
        r#"{"a.b":{"version":"1","description":"d"}}"#,
        r#"{"a":{"version":"1","description":"d"}}"#,
        r#"{"":{"version":"1","description":"d"}}"#,
        r#"{"a.b.c":{"version":"1","description":"d"},"ab":{"version":"1","description":"d"}}"#,
    ] {
        assert!(
            matches!(parse_json_to_lines(json), Err(CacheError::MissingName)),
            "{:?}",
            json
        );
    }
}

#[test]
fn missing_member_outweighs_missing_name() {
    let json = r#"{"a":{"version":"1","description":"d"},"x.y.z":{"version":"1"}}"#;
    assert!(matches!(
        parse_json_to_lines(json),
        Err(CacheError::MissingField)
    ));
}

fn listed(identifier: &str, members: &[(&str, Option<&str>)]) -> ListedPackage {
    ListedPackage {
        identifier: identifier.to_string(),
        members: members
            .iter()
            .map(|(key, text)| (key.to_string(), text.map(|text| text.to_string())))
            .collect(),
    }
}

#[test]
fn lines_follow_the_listing() {
    let listing = vec![
        listed("a.b.two", &[("description", Some("d2")), ("version", Some("2"))]),
        listed("a.b.one", &[("version", Some("1")), ("description", Some("d1"))]),
    ];
    assert_eq!(
        lines_of_listing(&listing).unwrap(),
        vec!["two 2 d2", "one 1 d1"]
    );
    assert_eq!(cache_from_listing(&listing).unwrap(), "one 1 d1\ntwo 2 d2");
}

#[test]
fn listing_with_gaps_yields_no_lines() {
    let nameless = vec![listed("ab", &[("version", Some("1")), ("description", Some("d"))])];
    assert!(matches!(
        lines_of_listing(&nameless),
        Err(CacheError::MissingName)
    ));
    let incomplete = vec![listed("a.b.c", &[("version", None), ("description", Some("d"))])];
    assert!(matches!(
        lines_of_listing(&incomplete),
        Err(CacheError::MissingField)
    ));
    assert!(matches!(
        cache_from_listing(&incomplete),
        Err(CacheError::MissingField)
    ));
}

#[test]
fn runs_of_whitespace_become_single_spaces() {
    assert_eq!(
        normalize_listing("nixos.foo      1.0    a  description\n"),
        "nixos.foo 1.0 a  description\n"
    );
    assert_eq!(
        normalize_listing("a \t b\t\tc d\nlonger-name   2   text"),
        "a b c d\nlonger-name 2 text"
    );
}

#[test]
fn lines_without_three_fields_stay() {
    for line in ["", "name", "name version", "  name version text", "name  ", "\n\n"] {
        assert_eq!(normalize_listing(line), line, "{:?}", line);
    }
    assert_eq!(normalize_listing("name version "), "name version ");
    assert_eq!(normalize_listing("name  version  "), "name version ");
}

#[test]
fn line_feeds_stay_where_they_are() {
    assert_eq!(
        normalize_listing("a  1  x\n\nb  2  y\n\n"),
        "a 1 x\n\nb 2 y\n\n"
    );
    assert_eq!(normalize_listing("a  1  x\r\nb  2  y"), "a 1 x\r\nb 2 y");
}

#[test]
fn normalized_line_holds_the_same_record() {
    for line in ["a  1  x y  z", "name\tversion\t\ttext", "n v d ", "n v  "] {
        let normalized = normalize_listing(line);
        assert_eq!(parse_record(&normalized), parse_record(line), "{:?}", line);
    }
}
