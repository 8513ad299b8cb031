use influence::history::{record, HISTORY_MAXLEN};

fn strings(items: &[&str]) -> Vec<String> {
    items.iter().map(|s| s.to_string()).collect()
}

#[test]
fn record_promotes_existing_entry() {
    let history = strings(&["b", "a"]);
    let result = record(&history, &"a".to_string(), 5);
    assert_eq!(result, strings(&["a", "b"]));
}

#[test]
fn record_prepends_new_entry() {
    let history = strings(&["b"]);
    let result = record(&history, &"a".to_string(), 5);
    assert_eq!(result, strings(&["a", "b"]));
}

#[test]
fn record_on_full_history_drops_oldest() {
    let history = strings(&["a", "b", "c"]);
    let result = record(&history, &"x".to_string(), 3);
    assert_eq!(result, strings(&["x", "a", "b"]));
}

#[test]
fn record_on_full_history_with_existing_keeps_all_others() {
    let history = strings(&["a", "b", "c"]);
    let result = record(&history, &"c".to_string(), 3);
    assert_eq!(result, strings(&["c", "a", "b"]));
}

#[test]
fn record_twice_is_idempotent() {
    let history = strings(&["x", "y", "z"]);
    let once = record(&history, &"y".to_string(), 2);
    let twice = record(&once, &"y".to_string(), 2);
    assert_eq!(once, twice);
}

#[test]
fn record_removes_every_occurrence() {
    let history = strings(&["a", "b", "a"]);
    let result = record(&history, &"a".to_string(), 5);
    assert_eq!(result, strings(&["a", "b"]));
}

#[test]
fn record_accepts_empty_command() {
    let history: Vec<String> = Vec::new();
    let result = record(&history, &"".to_string(), 5);
    assert_eq!(result, strings(&[""]));
}

#[test]
fn record_with_zero_cap_empties_history() {
    let history = strings(&["a", "b"]);
    let result = record(&history, &"c".to_string(), 0);
    assert!(result.is_empty());
}

#[test]
fn history_cap_is_fifty() {
    assert_eq!(HISTORY_MAXLEN, 50);
    let history: Vec<String> = (0..50).map(|i| format!("cmd{}", i)).collect();
    let result = record(&history, &"fresh".to_string(), HISTORY_MAXLEN);
    assert_eq!(result.len(), 50);
    assert_eq!(result[0], "fresh");
    assert_eq!(result[49], "cmd48");
}
