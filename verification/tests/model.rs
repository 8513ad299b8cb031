use influence::model::Model;
use influence::policy::RunOptions;

fn strings(items: &[&str]) -> Vec<String> {
    items.iter().map(|s| s.to_string()).collect()
}

#[test]
fn new_model_wants_the_results_page_first() {
    let model = Model::new(strings(&["b"]), strings(&["h"]), strings(&["p"]));
    assert_eq!(model.bookmarks, strings(&["b"]));
    assert_eq!(model.history, strings(&["h"]));
    assert_eq!(model.programs, strings(&["p"]));
    assert!(model.focus_results_page);
}

#[test]
fn unrecorded_run_changes_nothing_and_owes_no_flush() {
    let mut model = Model::new(Vec::new(), strings(&["a", "b"]), Vec::new());
    let persist = model.commit_run(&"c".to_string(), RunOptions { quit: true, record: false });
    assert!(!persist);
    assert_eq!(model.history, strings(&["a", "b"]));
}

#[test]
fn recorded_run_promotes_and_owes_a_flush() {
    let mut model = Model::new(Vec::new(), strings(&["a", "b"]), Vec::new());
    let persist = model.commit_run(&"b".to_string(), RunOptions { quit: false, record: true });
    assert!(persist);
    assert_eq!(model.history, strings(&["b", "a"]));
}

#[test]
fn removing_an_entry_shifts_the_rest() {
    let mut model = Model::new(Vec::new(), strings(&["a", "b", "c"]), Vec::new());
    model.remove_history_entry(1);
    assert_eq!(model.history, strings(&["a", "c"]));
}

#[test]
fn only_the_first_edit_switches_to_results() {
    let mut model = Model::new(Vec::new(), Vec::new(), Vec::new());
    assert!(model.note_input_changed());
    assert!(!model.note_input_changed());
    assert!(!model.focus_results_page);
}

#[test]
fn results_come_from_the_models_lists() {
    let model = Model::new(
        strings(&["git push", "deploy"]),
        strings(&["git pull"]),
        strings(&["git", "gitk", "vim"]),
    );
    let r = model.results_for(&"git".to_string());
    assert_eq!(r.bookmarks, strings(&["git push"]));
    assert_eq!(r.history, strings(&["git pull"]));
    assert_eq!(r.programs, strings(&["git", "gitk"]));
}
