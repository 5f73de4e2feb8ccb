use nmclean::error::CleanError;
use nmclean::report::{
    format_list_line, format_list_report, format_no_matches, format_selection_report,
    push_decimal, push_right_aligned,
};

fn decimal(n: usize) -> String {
    let mut out = String::new();
    push_decimal(&mut out, n);
    out
}

fn aligned(n: usize, width: usize) -> String {
    let mut out = String::new();
    push_right_aligned(&mut out, n, width);
    out
}

#[test]
fn decimal_digits_of_numbers() {
    assert_eq!(decimal(0), "0");
    assert_eq!(decimal(7), "7");
    assert_eq!(decimal(10), "10");
    assert_eq!(decimal(1234567890), "1234567890");
    assert_eq!(decimal(usize::MAX), usize::MAX.to_string());
}

#[test]
fn push_decimal_writes_at_the_end() {
    let mut out = String::from("n = ");
    push_decimal(&mut out, 42);
    assert_eq!(out, "n = 42");
}

#[test]
fn right_aligned_fills_the_field_with_blanks() {
    assert_eq!(aligned(1, 3), "  1");
    assert_eq!(aligned(12, 3), " 12");
    assert_eq!(aligned(123, 3), "123");
    assert_eq!(aligned(1234, 3), "1234");
    assert_eq!(aligned(5, 0), "5");
    for n in [0usize, 9, 10, 99, 100, 999, 1000, 54321] {
        assert_eq!(aligned(n, 3), format!("{:>3}", n));
    }
}

#[test]
fn list_line_has_index_colon_and_path() {
    assert_eq!(format_list_line(1, "root/a/node_modules"), "  1: root/a/node_modules");
    assert_eq!(format_list_line(42, "x"), " 42: x");
    assert_eq!(format_list_line(1000, "x"), "1000: x");
}

#[test]
fn list_report_numbers_the_matches_from_one() {
    let items = vec!["root/a/node_modules".to_string(), "root/b/node_modules".to_string()];
    assert_eq!(
        format_list_report("root", &items),
        vec!["  1: root/a/node_modules".to_string(), "  2: root/b/node_modules".to_string()]
    );
}

#[test]
fn list_report_of_nothing_says_so() {
    assert_eq!(format_list_report("some/root", &vec![]), vec!["No node_modules found under some/root".to_string()]);
    assert_eq!(format_no_matches("."), "No node_modules found under .");
}

#[test]
fn selection_report_counts_and_shows_each_path() {
    let selected = vec!["b/node_modules".to_string(), "a/node_modules".to_string()];
    assert_eq!(
        format_selection_report(&selected),
        vec![
            "Selected 2 directories".to_string(),
            " b/node_modules".to_string(),
            " a/node_modules".to_string()
        ]
    );
    assert_eq!(format_selection_report(&vec![]), vec!["Selected 0 directories".to_string()]);
}

#[test]
fn error_messages_name_the_path() {
    let traversal =
        CleanError::Traversal { path: "root/x".to_string(), cause: "permission denied".to_string() };
    assert_eq!(traversal.message(), "failed to read root/x: permission denied");
    assert_eq!(traversal.path(), "root/x");
    let metadata = CleanError::Metadata { path: "a/node_modules".to_string(), cause: "gone".to_string() };
    assert_eq!(metadata.message(), "failed to stat a/node_modules: gone");
    assert_eq!(metadata.path(), "a/node_modules");
    let refusal = CleanError::SymlinkRefusal { path: "b/node_modules".to_string() };
    assert_eq!(refusal.message(), "Refusing to delete symlink: b/node_modules");
    assert_eq!(refusal.path(), "b/node_modules");
    let deletion = CleanError::Deletion { path: "c/node_modules".to_string(), cause: "busy".to_string() };
    assert_eq!(deletion.message(), "failed to remove c/node_modules: busy");
    assert_eq!(deletion.path(), "c/node_modules");
}

#[test]
fn duplicate_copies_a_failure() {
    let deletion = CleanError::Deletion { path: "c/node_modules".to_string(), cause: "busy".to_string() };
    match deletion.duplicate() {
        CleanError::Deletion { path, cause } => {
            assert_eq!(path, "c/node_modules");
            assert_eq!(cause, "busy");
        }
        _ => panic!("a copy is of the same kind"),
    }
}
