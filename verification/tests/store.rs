use influence::model::Model;
use influence::policy::RunOptions;
use influence::store::{decode_list, encode_list, FileStore};

fn strings(items: &[&str]) -> Vec<String> {
    items.iter().map(|s| s.to_string()).collect()
}

#[test]
fn encode_terminates_each_entry_with_a_newline() {
    assert_eq!(encode_list(&strings(&["a", "b"])), "a\nb\n");
}

#[test]
fn encode_of_empty_list_is_empty_text() {
    assert_eq!(encode_list(&Vec::new()), "");
}

#[test]
fn decode_splits_on_newlines() {
    assert_eq!(decode_list("a\nb\n"), strings(&["a", "b"]));
}

#[test]
fn decode_keeps_an_unterminated_last_line() {
    assert_eq!(decode_list("a\nb"), strings(&["a", "b"]));
}

#[test]
fn decode_of_empty_text_is_empty_list() {
    assert_eq!(decode_list(""), Vec::<String>::new());
}

#[test]
fn decode_of_bare_newline_is_one_empty_entry() {
    assert_eq!(decode_list("\n"), strings(&[""]));
}

#[test]
fn round_trip_preserves_entries_and_order() {
    let list = strings(&["make test", "", "cargo build", "ls -la"]);
    assert_eq!(decode_list(&encode_list(&list)), list);
}

#[test]
fn store_paths_are_fixed() {
    assert_eq!(FileStore::Bookmarks.rel_path(), ".config/influence/bookmarks.txt");
    assert_eq!(FileStore::History.rel_path(), ".config/influence/history.txt");
}

#[test]
fn recorded_run_rewrites_the_persisted_history() {
    // the history file held "b" then "a"; the user runs "a" recorded
    let loaded = decode_list("b\na\n");
    let mut model = Model::new(Vec::new(), loaded, Vec::new());
    let persist = model.commit_run(&"a".to_string(), RunOptions { quit: true, record: true });
    assert!(persist);
    assert_eq!(model.history, strings(&["a", "b"]));
    assert_eq!(encode_list(&model.history), "a\nb\n");
}
