use refglob::glob::{glob_match_refs, matches_glob, select_matching};

fn owned(names: &[&str]) -> Vec<String> {
    names.iter().map(|name| name.to_string()).collect()
}

#[test]
fn wildcard_segment_selects_by_position() {
    let all = [
        "fedora/36/aarch64/silverblue",
        "fedora/36/aarch64/testing/silverblue",
        "fedora/36/x86_64/silverblue",
    ];
    let matched = glob_match_refs(&all, "fedora/36/*/silverblue");
    assert_eq!(
        matched,
        vec!["fedora/36/aarch64/silverblue", "fedora/36/x86_64/silverblue"]
    );
}

#[test]
fn literal_glob_selects_the_equal_name() {
    let all = ["a/b/c"];
    assert_eq!(glob_match_refs(&all, "a/b/c"), vec!["a/b/c"]);
}

#[test]
fn no_refs_give_no_matches() {
    let all: [&str; 0] = [];
    assert_eq!(glob_match_refs(&all, "fedora/*"), Vec::<&str>::new());
    assert_eq!(glob_match_refs(&all, ""), Vec::<&str>::new());
    assert_eq!(glob_match_refs(&all, "*"), Vec::<&str>::new());
}

#[test]
fn matched_names_have_the_segment_count_of_the_glob() {
    let all = ["a", "a/b", "a/b/c", "x/y", "a/b/c/d", "/", "a/"];
    let matched = glob_match_refs(&all, "*/*");
    assert_eq!(matched, vec!["a/b", "x/y", "/", "a/"]);
    for name in matched {
        assert_eq!(name.split('/').count(), 2);
    }
}

#[test]
fn wildcards_alone_select_every_name_of_their_count() {
    let all = ["a/b/c", "a/b", "x/y/z", "//", "one", "p/q/r/s"];
    assert_eq!(glob_match_refs(&all, "*/*/*"), vec!["a/b/c", "x/y/z", "//"]);
    assert_eq!(glob_match_refs(&all, "*"), vec!["one"]);
}

#[test]
fn glob_without_wildcard_selects_only_itself() {
    let all = ["a/b", "a/b/c", "a/B/c", "a/b/c ", "a/b/cc", "a/b/c"];
    assert_eq!(glob_match_refs(&all, "a/b/c"), vec!["a/b/c", "a/b/c"]);
    assert!(matches_glob("a/b/c", "a/b/c"));
    assert!(!matches_glob("a/b/C", "a/b/c"));
    assert!(!matches_glob("a/b", "a/b/c"));
}

#[test]
fn selection_keeps_order_and_repetitions() {
    let all = ["r/3", "q/1", "r/1", "r/3", "s/t/u", "r/2", "r/3"];
    assert_eq!(
        glob_match_refs(&all, "r/*"),
        vec!["r/3", "r/1", "r/3", "r/2", "r/3"]
    );
}

#[test]
fn selecting_twice_gives_the_same() {
    let all = ["a/1", "b/1", "a/2", "a/1/x", "a/3"];
    let once = glob_match_refs(&all, "a/*");
    let again = glob_match_refs(&all, "a/*");
    assert_eq!(once, again);
    let from_selection = glob_match_refs(&once, "a/*");
    assert_eq!(from_selection, once);
}

#[test]
fn wildcard_stands_for_a_whole_segment_only() {
    assert!(matches_glob("a/b", "a/*"));
    assert!(!matches_glob("a/b/c", "a/*"));
    assert!(!matches_glob("a", "a/*"));
    assert!(!matches_glob("ab/c", "a*/c"));
    assert!(matches_glob("a*/c", "a*/c"));
    assert!(!matches_glob("a/b", "**"));
    assert!(!matches_glob("a/b", "a/**"));
    assert!(matches_glob("a/**", "a/**"));
    assert!(matches_glob("a/*", "a/*"));
}

#[test]
fn empty_segments_are_segments() {
    assert!(matches_glob("", ""));
    assert!(matches_glob("", "*"));
    assert!(!matches_glob("a", ""));
    assert!(matches_glob("a/", "a/*"));
    assert!(matches_glob("/b", "*/b"));
    assert!(matches_glob("a//c", "a/*/c"));
    assert!(!matches_glob("a/c", "a//c"));
    assert!(matches_glob("a//c", "a//c"));
}

#[test]
fn names_are_compared_byte_for_byte() {
    assert!(matches_glob("caf\u{e9}/\u{4e2d}", "caf\u{e9}/*"));
    assert!(!matches_glob("cafe\u{301}/x", "caf\u{e9}/*"));
    assert!(matches_glob("\u{1f980}/\u{1f980}", "*/\u{1f980}"));
    assert!(!matches_glob("a/\u{ff0a}", "a/b"));
    assert!(!matches_glob("a/b", "a/\u{ff0a}"));
}

#[test]
fn owned_selection_agrees_with_borrowed_selection() {
    let names = owned(&["os/1/x", "os/2/y", "os/1", "other/1/x", "os/3/x"]);
    assert_eq!(
        select_matching(&names, "os/*/x"),
        owned(&["os/1/x", "os/3/x"])
    );
    assert_eq!(select_matching(&names, "nothing"), Vec::<String>::new());
    assert_eq!(select_matching(&Vec::new(), "*"), Vec::<String>::new());
}
