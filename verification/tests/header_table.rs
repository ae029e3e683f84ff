use conduit_bridge::headers::HeaderTable;

fn lines(pairs: &[(&str, &str)]) -> Vec<(String, String)> {
    pairs.iter().map(|&(n, v)| (n.to_string(), v.to_string())).collect()
}

#[test]
fn case_insensitive_lookup() {
    let t = HeaderTable::from_lines(&lines(&[("Content-Type", "text/plain")]));
    assert_eq!(t.find("content-type"), Some(vec!["text/plain"]));
    assert_eq!(t.find("Content-Type"), Some(vec!["text/plain"]));
    assert_eq!(t.find("CONTENT-TYPE"), Some(vec!["text/plain"]));
}

#[test]
fn fold_keeps_first_spelling_and_line_order() {
    let t = HeaderTable::from_lines(&lines(&[
        ("Accept", "a"),
        ("ACCEPT", "b"),
        ("X-One", "1"),
        ("accept", "c"),
    ]));
    let all = t.all();
    assert_eq!(all.len(), 2);
    assert_eq!(all[0].0, "Accept");
    assert_eq!(all[0].1, vec!["a", "b", "c"]);
    assert_eq!(all[1].0, "X-One");
    assert_eq!(all[1].1, vec!["1"]);
}

#[test]
fn refolding_all_output_changes_nothing() {
    let t = HeaderTable::from_lines(&lines(&[
        ("Set-Cookie", "a=1"),
        ("set-cookie", "b=2"),
        ("Via", "proxy"),
    ]));
    let flattened: Vec<(String, String)> = t
        .all()
        .iter()
        .flat_map(|(n, vs)| vs.iter().map(|v| (n.to_string(), v.to_string())).collect::<Vec<_>>())
        .collect();
    let again = HeaderTable::from_lines(&flattened);
    let before: Vec<(String, Vec<String>)> = t
        .all()
        .iter()
        .map(|(n, vs)| (n.to_string(), vs.iter().map(|v| v.to_string()).collect()))
        .collect();
    let after: Vec<(String, Vec<String>)> = again
        .all()
        .iter()
        .map(|(n, vs)| (n.to_string(), vs.iter().map(|v| v.to_string()).collect()))
        .collect();
    assert_eq!(before, after);
}

#[test]
fn has_and_absent() {
    let t = HeaderTable::from_lines(&lines(&[("Host", "example.com")]));
    assert!(t.has("host"));
    assert!(t.has("HOST"));
    assert!(!t.has("Content-Length"));
    assert_eq!(t.find("Content-Length"), None);
    assert!(t.find_raw("Accept").is_none());
}

#[test]
fn values_are_not_split_or_trimmed() {
    let t = HeaderTable::from_lines(&lines(&[("Accept", "text/html, text/plain")]));
    assert_eq!(t.find("accept"), Some(vec!["text/html, text/plain"]));
    let two = HeaderTable::from_lines(&lines(&[("Accept", "text/html"), ("Accept", "text/plain")]));
    assert_eq!(two.find("accept"), Some(vec!["text/html", "text/plain"]));
}

#[test]
fn empty_tables() {
    let t = HeaderTable::from_lines(&Vec::new());
    assert_eq!(t.all().len(), 0);
    assert!(!t.has("Anything"));
}

#[test]
fn find_raw_returns_stored_values() {
    let t = HeaderTable::from_lines(&lines(&[("X-N", "1"), ("x-n", "2")]));
    let vs = t.find_raw("X-N").unwrap();
    assert_eq!(vs, &vec!["1".to_string(), "2".to_string()]);
}
