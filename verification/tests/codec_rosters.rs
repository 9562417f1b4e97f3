use golstats::codec::{encode_rosters, parse_rosters};

fn rosters(groups: &[&[&str]]) -> Vec<Vec<String>> {
    groups.iter().map(|g| g.iter().map(|s| s.to_string()).collect()).collect()
}

#[test]
fn encodes_nested_rosters() {
    let r = rosters(&[&["Alice", "Bob"], &["Carol", "Dave"]]);
    assert_eq!(encode_rosters(&r), "[[\"Alice\", \"Bob\"], [\"Carol\", \"Dave\"]]");
}

#[test]
fn encodes_empty_rosters() {
    let r: Vec<Vec<String>> = Vec::new();
    assert_eq!(encode_rosters(&r), "[]");
    let one_empty = rosters(&[&[]]);
    assert_eq!(encode_rosters(&one_empty), "[[]]");
}

#[test]
fn round_trips_the_sample_rosters() {
    let r = rosters(&[&["Alice", "Bob"], &["Carol", "Dave"]]);
    let text = encode_rosters(&r);
    assert_eq!(parse_rosters(&text), Some(r));
}

#[test]
fn round_trips_awkward_names() {
    let r = rosters(&[&["a], [b", "c, d"], &[""]]);
    let text = encode_rosters(&r);
    assert_eq!(parse_rosters(&text), Some(r));
}

#[test]
fn round_trips_empty() {
    assert_eq!(parse_rosters("[]"), Some(Vec::new()));
}

#[test]
fn rejects_malformed_text() {
    assert_eq!(parse_rosters(""), None);
    assert_eq!(parse_rosters("["), None);
    assert_eq!(parse_rosters("[[\"a\"]"), None);
    assert_eq!(parse_rosters("[[\"a\"]] "), None);
    assert_eq!(parse_rosters("[[a]]"), None);
}
