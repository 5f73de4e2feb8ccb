use nmclean::order::{place, Placement};
use nmclean::path::{chars_of, same_text, split_components};

fn names(path: &str) -> Vec<String> {
    split_components(&chars_of(path)).iter().map(|name| name.iter().collect::<String>()).collect()
}

fn placed(a: &str, b: &str) -> Placement {
    place(&chars_of(a), &chars_of(b))
}

#[test]
fn chars_are_the_characters_of_the_text() {
    assert_eq!(chars_of("a/é"), vec!['a', '/', 'é']);
    assert!(chars_of("").is_empty());
}

#[test]
fn components_are_the_runs_between_separators() {
    assert_eq!(names("root/a/node_modules"), vec!["root", "a", "node_modules"]);
    assert_eq!(names("./a"), vec![".", "a"]);
    assert_eq!(names("a"), vec!["a"]);
}

#[test]
fn separators_alone_add_no_component() {
    assert!(names("").is_empty());
    assert!(names("/").is_empty());
    assert!(names("///").is_empty());
    assert_eq!(names("/a//b/"), vec!["a", "b"]);
    assert_eq!(names("a/b"), names("a//b/"));
}

#[test]
fn same_text_compares_every_character() {
    assert!(same_text(&chars_of("node_modules"), &chars_of("node_modules")));
    assert!(!same_text(&chars_of("node_modules"), &chars_of("node_module")));
    assert!(!same_text(&chars_of("node_modules"), &chars_of("node-modules")));
    assert!(same_text(&chars_of(""), &chars_of("")));
}

#[test]
fn place_orders_by_first_difference() {
    assert_eq!(placed("a", "b"), Placement::Before);
    assert_eq!(placed("b", "a"), Placement::After);
    assert_eq!(placed("abc", "abd"), Placement::Before);
    assert_eq!(placed("abc", "abc"), Placement::Same);
    assert_eq!(placed("", ""), Placement::Same);
}

#[test]
fn place_puts_a_text_before_its_extensions() {
    assert_eq!(placed("ab", "abc"), Placement::Before);
    assert_eq!(placed("abc", "ab"), Placement::After);
    assert_eq!(placed("", "a"), Placement::Before);
}

#[test]
fn place_agrees_with_the_order_of_strings() {
    let texts = ["", "a", "a-b/x", "a/x", "A/x", "a/é", "a/z", "é", "z", "a/x/y", "~"];
    for a in texts {
        for b in texts {
            let expected = if a < b {
                Placement::Before
            } else if a == b {
                Placement::Same
            } else {
                Placement::After
            };
            assert_eq!(placed(a, b), expected);
        }
    }
}
