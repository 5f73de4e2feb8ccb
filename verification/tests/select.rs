use nmclean::select::{all_in_range, copy_paths, select_paths};

fn items() -> Vec<String> {
    vec!["a/node_modules".to_string(), "b/node_modules".to_string(), "c/node_modules".to_string()]
}

#[test]
fn select_paths_takes_the_chosen_items_in_order_of_choice() {
    assert_eq!(
        select_paths(&items(), &vec![2, 0]),
        vec!["c/node_modules".to_string(), "a/node_modules".to_string()]
    );
    assert_eq!(select_paths(&items(), &vec![1]), vec!["b/node_modules".to_string()]);
    assert_eq!(select_paths(&items(), &vec![0, 1, 2]), items());
}

#[test]
fn select_paths_with_no_choice_is_empty() {
    assert!(select_paths(&items(), &vec![]).is_empty());
}

#[test]
fn select_paths_keeps_a_position_chosen_twice() {
    assert_eq!(
        select_paths(&items(), &vec![1, 1]),
        vec!["b/node_modules".to_string(), "b/node_modules".to_string()]
    );
}

#[test]
fn all_in_range_tests_every_position() {
    assert!(all_in_range(&vec![], 0));
    assert!(all_in_range(&vec![0, 2, 1], 3));
    assert!(!all_in_range(&vec![0, 3], 3));
    assert!(!all_in_range(&vec![0], 0));
}

#[test]
fn copy_paths_copies_every_path() {
    assert_eq!(copy_paths(&items()), items());
    assert!(copy_paths(&vec![]).is_empty());
}
