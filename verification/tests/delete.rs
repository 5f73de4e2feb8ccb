use nmclean::delete::{DeleteAction, DeleteEvent, Deletion};
use nmclean::entry::EntryKind;
use nmclean::error::CleanError;

fn selection() -> Vec<String> {
    vec!["a/node_modules".to_string(), "b/node_modules".to_string(), "c/node_modules".to_string()]
}

fn inspect_path(deletion: &Deletion) -> String {
    match deletion.action() {
        DeleteAction::Inspect { path } => path,
        other => panic!("an inspection should be due, not {:?}", other),
    }
}

fn remove_path(deletion: &Deletion) -> String {
    match deletion.action() {
        DeleteAction::Remove { path } => path,
        other => panic!("a removal should be due, not {:?}", other),
    }
}

/// Runs a deletion against a scripted file system and returns what was
/// removed, in order, with the way the deletion ended.
fn run(selected: Vec<String>, links: &[&str], unreadable: &[&str], stuck: &[&str]) -> (Vec<String>, Vec<String>, Option<CleanError>) {
    let mut deletion = Deletion::new(selected);
    let mut inspected = Vec::new();
    let mut removed = Vec::new();
    for _ in 0..100 {
        match deletion.action() {
            DeleteAction::Inspect { path } => {
                inspected.push(path.clone());
                if unreadable.contains(&path.as_str()) {
                    deletion.advance(DeleteEvent::InspectFailed { cause: "no such file".to_string() });
                } else if links.contains(&path.as_str()) {
                    deletion.advance(DeleteEvent::Inspected(EntryKind::Symlink));
                } else {
                    deletion.advance(DeleteEvent::Inspected(EntryKind::Directory));
                }
            }
            DeleteAction::Remove { path } => {
                if stuck.contains(&path.as_str()) {
                    deletion.advance(DeleteEvent::RemoveFailed { cause: "busy".to_string() });
                } else {
                    removed.push(path);
                    deletion.advance(DeleteEvent::Removed);
                }
            }
            DeleteAction::Succeed => return (inspected, removed, None),
            DeleteAction::Fail(error) => return (inspected, removed, Some(error)),
        }
    }
    panic!("the deletion does not end");
}

#[test]
fn deletion_of_nothing_succeeds_at_once() {
    let deletion = Deletion::new(vec![]);
    assert!(matches!(deletion.action(), DeleteAction::Succeed));
}

#[test]
fn deletion_inspects_then_removes_each_path_in_order() {
    let mut deletion = Deletion::new(selection());
    assert_eq!(inspect_path(&deletion), "a/node_modules");
    deletion.advance(DeleteEvent::Inspected(EntryKind::Directory));
    assert_eq!(remove_path(&deletion), "a/node_modules");
    deletion.advance(DeleteEvent::Removed);
    assert_eq!(inspect_path(&deletion), "b/node_modules");
    deletion.advance(DeleteEvent::Inspected(EntryKind::Directory));
    assert_eq!(remove_path(&deletion), "b/node_modules");
    deletion.advance(DeleteEvent::Removed);
    assert_eq!(inspect_path(&deletion), "c/node_modules");
    deletion.advance(DeleteEvent::Inspected(EntryKind::Directory));
    assert_eq!(remove_path(&deletion), "c/node_modules");
    deletion.advance(DeleteEvent::Removed);
    assert!(matches!(deletion.action(), DeleteAction::Succeed));
}

#[test]
fn full_run_removes_everything_in_selection_order() {
    let selected = vec!["z".to_string(), "a".to_string(), "m".to_string()];
    let (inspected, removed, failure) = run(selected.clone(), &[], &[], &[]);
    assert_eq!(inspected, selected);
    assert_eq!(removed, selected);
    assert!(failure.is_none());
}

#[test]
fn symlink_is_refused_and_nothing_is_removed() {
    let (inspected, removed, failure) = run(vec!["link/node_modules".to_string()], &["link/node_modules"], &[], &[]);
    assert_eq!(inspected, vec!["link/node_modules".to_string()]);
    assert!(removed.is_empty());
    match failure {
        Some(CleanError::SymlinkRefusal { path }) => assert_eq!(path, "link/node_modules"),
        other => panic!("the link should be refused, not {:?}", other),
    }
}

#[test]
fn symlink_stops_the_deletion_before_later_paths() {
    let (inspected, removed, failure) = run(selection(), &["b/node_modules"], &[], &[]);
    assert_eq!(inspected, vec!["a/node_modules".to_string(), "b/node_modules".to_string()]);
    assert_eq!(removed, vec!["a/node_modules".to_string()]);
    match failure {
        Some(CleanError::SymlinkRefusal { path }) => assert_eq!(path, "b/node_modules"),
        other => panic!("the link should be refused, not {:?}", other),
    }
}

#[test]
fn metadata_failure_stops_the_deletion() {
    let (inspected, removed, failure) = run(selection(), &[], &["a/node_modules"], &[]);
    assert_eq!(inspected, vec!["a/node_modules".to_string()]);
    assert!(removed.is_empty());
    match failure {
        Some(CleanError::Metadata { path, cause }) => {
            assert_eq!(path, "a/node_modules");
            assert_eq!(cause, "no such file");
        }
        other => panic!("the deletion should fail on metadata, not {:?}", other),
    }
}

#[test]
fn removal_failure_stops_the_deletion() {
    let (inspected, removed, failure) = run(selection(), &[], &[], &["b/node_modules"]);
    assert_eq!(inspected, vec!["a/node_modules".to_string(), "b/node_modules".to_string()]);
    assert_eq!(removed, vec!["a/node_modules".to_string()]);
    match failure {
        Some(CleanError::Deletion { path, cause }) => {
            assert_eq!(path, "b/node_modules");
            assert_eq!(cause, "busy");
        }
        other => panic!("the deletion should fail on removal, not {:?}", other),
    }
}

#[test]
fn a_file_is_handed_to_removal_like_a_directory() {
    let mut deletion = Deletion::new(vec!["a/node_modules".to_string()]);
    deletion.advance(DeleteEvent::Inspected(EntryKind::File));
    assert_eq!(remove_path(&deletion), "a/node_modules");
}

#[test]
fn events_that_answer_nothing_change_nothing() {
    let mut deletion = Deletion::new(selection());
    deletion.advance(DeleteEvent::Removed);
    deletion.advance(DeleteEvent::RemoveFailed { cause: "busy".to_string() });
    assert_eq!(inspect_path(&deletion), "a/node_modules");
    deletion.advance(DeleteEvent::Inspected(EntryKind::Directory));
    deletion.advance(DeleteEvent::Inspected(EntryKind::Symlink));
    deletion.advance(DeleteEvent::InspectFailed { cause: "gone".to_string() });
    assert_eq!(remove_path(&deletion), "a/node_modules");
}

#[test]
fn nothing_happens_after_a_failure() {
    let mut deletion = Deletion::new(selection());
    deletion.advance(DeleteEvent::Inspected(EntryKind::Symlink));
    deletion.advance(DeleteEvent::Inspected(EntryKind::Directory));
    deletion.advance(DeleteEvent::Removed);
    match deletion.action() {
        DeleteAction::Fail(CleanError::SymlinkRefusal { path }) => assert_eq!(path, "a/node_modules"),
        other => panic!("the failure should stay, not {:?}", other),
    }
}

#[test]
fn nothing_happens_after_success() {
    let mut deletion = Deletion::new(vec!["a".to_string()]);
    deletion.advance(DeleteEvent::Inspected(EntryKind::Directory));
    deletion.advance(DeleteEvent::Removed);
    deletion.advance(DeleteEvent::Inspected(EntryKind::Directory));
    deletion.advance(DeleteEvent::Removed);
    assert!(matches!(deletion.action(), DeleteAction::Succeed));
}
