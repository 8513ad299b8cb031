use influence::programs::{index_programs, is_executable_mode};

fn strings(items: &[&str]) -> Vec<String> {
    items.iter().map(|s| s.to_string()).collect()
}

#[test]
fn index_dedupes_and_sorts() {
    let names = strings(&["vim", "ls", "vim", "awk", "ls"]);
    assert_eq!(index_programs(names), strings(&["awk", "ls", "vim"]));
}

#[test]
fn index_of_sorted_distinct_names_is_unchanged() {
    let names = strings(&["cat", "dd", "ps"]);
    assert_eq!(index_programs(names.clone()), names);
}

#[test]
fn index_of_nothing_is_empty() {
    assert_eq!(index_programs(Vec::new()), Vec::<String>::new());
}

#[test]
fn any_execute_bit_marks_a_program() {
    assert!(is_executable_mode(0o755));
    assert!(is_executable_mode(0o100));
    assert!(is_executable_mode(0o010));
    assert!(is_executable_mode(0o001));
    assert!(!is_executable_mode(0o644));
    assert!(!is_executable_mode(0o000));
}
