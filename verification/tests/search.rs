use influence::search::{
    contains_str, filter_matching, search_all, HISTORY_MATCH_LIMIT, PROGRAM_MATCH_LIMIT,
};

fn strings(items: &[&str]) -> Vec<String> {
    items.iter().map(|s| s.to_string()).collect()
}

#[test]
fn substring_search_finds_inner_matches() {
    assert!(contains_str("hello world", "lo wo"));
    assert!(contains_str("hello", "hello"));
    assert!(contains_str("hello", "h"));
    assert!(contains_str("hello", "o"));
}

#[test]
fn substring_search_rejects_absent_needles() {
    assert!(!contains_str("hello", "xyz"));
    assert!(!contains_str("hello", "hello!"));
    assert!(!contains_str("", "x"));
}

#[test]
fn empty_needle_always_matches() {
    assert!(contains_str("anything", ""));
    assert!(contains_str("", ""));
}

#[test]
fn filter_keeps_matches_in_order() {
    let list = strings(&["git log", "ls", "git status", "top"]);
    let r = filter_matching(&list, &"git".to_string(), list.len());
    assert_eq!(r, strings(&["git log", "git status"]));
}

#[test]
fn filter_stops_at_the_cap() {
    let list = strings(&["m1", "x", "m2", "m3", "m4", "m5", "m6", "m7"]);
    let r = filter_matching(&list, &"m".to_string(), 5);
    assert_eq!(r, strings(&["m1", "m2", "m3", "m4", "m5"]));
}

#[test]
fn search_limits_are_five_and_ten() {
    assert_eq!(HISTORY_MATCH_LIMIT, 5);
    assert_eq!(PROGRAM_MATCH_LIMIT, 10);
}

#[test]
fn empty_query_clears_all_sections() {
    let bookmarks = strings(&["a", "b"]);
    let history = strings(&["c"]);
    let programs = strings(&["d"]);
    let r = search_all(&bookmarks, &history, &programs, &"".to_string());
    assert!(r.bookmarks.is_empty());
    assert!(r.history.is_empty());
    assert!(r.programs.is_empty());
}

#[test]
fn search_caps_history_and_programs_but_not_bookmarks() {
    let bookmarks: Vec<String> = (0..12).map(|i| format!("bk{}", i)).collect();
    let history: Vec<String> = (0..7).map(|i| format!("hist{}", i)).collect();
    let programs: Vec<String> = (0..15).map(|i| format!("prog{}", i)).collect();
    let r = search_all(&bookmarks, &history, &programs, &"1".to_string());
    // bookmarks matching "1": bk1, bk10, bk11 — all kept
    assert_eq!(r.bookmarks, strings(&["bk1", "bk10", "bk11"]));
    // history matching "1": hist1 only
    assert_eq!(r.history, strings(&["hist1"]));
    // programs matching "1": prog1, prog10..prog14 — capped at ten, six here
    assert_eq!(r.programs, strings(&["prog1", "prog10", "prog11", "prog12", "prog13", "prog14"]));

    let everything = search_all(&bookmarks, &history, &programs, &"g".to_string());
    assert_eq!(everything.history.len(), 0);
    assert_eq!(everything.programs.len(), 10);
}
