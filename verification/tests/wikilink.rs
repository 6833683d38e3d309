//! The wikilink scanner: the `[[target]]` syntax.

use zk_index::wikilink_parser::WikilinkScanner;

fn run(src: &str, pos: usize) -> Option<(String, usize)> {
    WikilinkScanner::run(src, pos, src.chars().count())
        .map(|(w, len)| (w.target, len))
}

#[test]
fn wikilink_matches_simple_target() {
    assert_eq!(run("[[file1]]", 0), Some(("file1".to_string(), 9)));
}

#[test]
fn wikilink_matches_in_the_middle() {
    let src = "see [[other note]] here";
    assert_eq!(run(src, 4), Some(("other note".to_string(), 14)));
}

#[test]
fn wikilink_consumes_only_its_span() {
    let src = "[[a]] [[b]]";
    assert_eq!(run(src, 0), Some(("a".to_string(), 5)));
    assert_eq!(run(src, 6), Some(("b".to_string(), 5)));
}

#[test]
fn wikilink_target_stops_at_first_closing_bracket() {
    assert_eq!(run("[[a]]]", 0), Some(("a".to_string(), 5)));
}

#[test]
fn wikilink_rejects_near_misses() {
    assert_eq!(run("[file1]", 0), None);
    assert_eq!(run("[[]]", 0), None);
    assert_eq!(run("[[file1]", 0), None);
    assert_eq!(run("[[file1", 0), None);
    assert_eq!(run("[[a]b]]", 0), None);
    assert_eq!(run("file1", 0), None);
    assert_eq!(run("[[", 0), None);
}

#[test]
fn wikilink_respects_the_scan_limit() {
    // The closing brackets lie beyond pos_max, so nothing matches.
    assert_eq!(WikilinkScanner::run("[[file1]]", 0, 8).map(|m| m.0.target), None);
}

#[test]
fn wikilink_accepts_multibyte_targets() {
    assert_eq!(run("[[héllo wörld]]", 0), Some(("héllo wörld".to_string(), 15)));
}
