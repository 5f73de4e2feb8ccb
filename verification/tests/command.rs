use nmclean::command::{Command, Event, Options, Request};
use nmclean::delete::DeleteEvent;
use nmclean::entry::{Entry, EntryKind, WalkItem};
use nmclean::error::CleanError;

fn options(all: bool, dry_run: bool, yes: bool) -> Options {
    Options { all, dry_run, yes }
}

fn matches_found() -> Vec<String> {
    vec!["root/a/node_modules".to_string(), "root/b/node_modules".to_string()]
}

fn dir(path: &str) -> WalkItem {
    WalkItem::Visited(Entry { path: path.to_string(), kind: EntryKind::Directory })
}

/// A walk of a tree that holds the two matches, and more beneath them.
fn walked() -> Event {
    Event::Walked(vec![
        dir("root"),
        dir("root/b"),
        dir("root/b/node_modules"),
        dir("root/b/node_modules/pkg/node_modules"),
        dir("root/a"),
        dir("root/a/node_modules"),
        WalkItem::Visited(Entry { path: "root/a/node_modules/x.js".to_string(), kind: EntryKind::File }),
    ])
}

/// A walk of a tree without any match.
fn walked_nothing() -> Event {
    Event::Walked(vec![dir("root"), dir("root/src")])
}

/// A walk that failed.
fn walked_into_failure() -> Event {
    Event::Walked(vec![
        dir("root"),
        dir("root/a/node_modules"),
        WalkItem::Failed { path: "root/x".to_string(), cause: "denied".to_string() },
    ])
}

fn delete_command(all: bool, dry_run: bool, yes: bool) -> Command {
    Command::delete("root".to_string(), None, options(all, dry_run, yes))
}

fn lines(texts: &[&str]) -> Vec<String> {
    texts.iter().map(|text| text.to_string()).collect()
}

#[test]
fn command_starts_by_asking_for_a_walk_that_follows_no_links() {
    match Command::delete("some/root".to_string(), Some(3), options(false, false, false)).request() {
        Request::Walk { root, max_depth, follow_links } => {
            assert_eq!(root, "some/root");
            assert_eq!(max_depth, Some(3));
            assert!(!follow_links);
        }
        other => panic!("a walk should be asked for, not {:?}", other),
    }
    match Command::list(".".to_string(), None).request() {
        Request::Walk { root, max_depth, follow_links } => {
            assert_eq!(root, ".");
            assert_eq!(max_depth, None);
            assert!(!follow_links);
        }
        other => panic!("a walk should be asked for, not {:?}", other),
    }
}

#[test]
fn list_prints_the_matches_and_ends() {
    let mut command = Command::list("root".to_string(), None);
    let printed = command.advance(walked());
    assert_eq!(printed, lines(&["  1: root/a/node_modules", "  2: root/b/node_modules"]));
    assert!(matches!(command.request(), Request::Finish));
}

#[test]
fn list_of_an_empty_tree_says_so() {
    let mut command = Command::list("root".to_string(), None);
    let printed = command.advance(walked_nothing());
    assert_eq!(printed, lines(&["No node_modules found under root"]));
    assert!(matches!(command.request(), Request::Finish));
}

#[test]
fn delete_of_an_empty_tree_ends_without_prompting() {
    for all in [false, true] {
        for dry_run in [false, true] {
            for yes in [false, true] {
                let mut command = delete_command(all, dry_run, yes);
                let printed = command.advance(walked_nothing());
                assert_eq!(printed, lines(&["No node_modules found under root"]));
                assert!(matches!(command.request(), Request::Finish));
            }
        }
    }
}

#[test]
fn scan_failure_aborts_the_command() {
    for mut command in [Command::list("root".to_string(), None), delete_command(true, false, true)] {
        let printed = command.advance(walked_into_failure());
        assert!(printed.is_empty());
        match command.request() {
            Request::Abort(CleanError::Traversal { path, cause }) => {
                assert_eq!(path, "root/x");
                assert_eq!(cause, "denied");
            }
            other => panic!("the command should abort, not {:?}", other),
        }
    }
}

#[test]
fn without_all_the_user_is_asked_to_choose() {
    let mut command = delete_command(false, false, false);
    let printed = command.advance(walked());
    assert!(printed.is_empty());
    match command.request() {
        Request::Choose { prompt, labels } => {
            assert_eq!(prompt, "Select node_modules to delete (space to toggle, enter to confirm)");
            assert_eq!(labels, matches_found());
        }
        other => panic!("a choice should be asked for, not {:?}", other),
    }
}

#[test]
fn choosing_nothing_ends_cleanly() {
    let mut command = delete_command(false, false, false);
    command.advance(walked());
    let printed = command.advance(Event::Chosen(vec![]));
    assert_eq!(printed, lines(&["Nothing selected"]));
    assert!(matches!(command.request(), Request::Finish));
}

#[test]
fn the_selection_is_shown_before_the_confirmation() {
    let mut command = delete_command(false, false, false);
    command.advance(walked());
    let printed = command.advance(Event::Chosen(vec![1]));
    assert_eq!(printed, lines(&["Selected 1 directories", " root/b/node_modules"]));
    match command.request() {
        Request::Confirm { prompt, default } => {
            assert_eq!(prompt, "Proceed with deletion?");
            assert!(!default);
        }
        other => panic!("a confirmation should be asked for, not {:?}", other),
    }
}

#[test]
fn declining_cancels_without_deleting() {
    let mut command = delete_command(true, false, false);
    command.advance(walked());
    let printed = command.advance(Event::Confirmed(false));
    assert_eq!(printed, lines(&["Cancelled."]));
    assert!(matches!(command.request(), Request::Finish));
}

#[test]
fn all_selects_every_match_without_prompting() {
    let mut command = delete_command(true, false, true);
    let printed = command.advance(walked());
    assert_eq!(
        printed,
        lines(&["Selected 2 directories", " root/a/node_modules", " root/b/node_modules"])
    );
    match command.request() {
        Request::Inspect { path } => assert_eq!(path, "root/a/node_modules"),
        other => panic!("the deletion should begin, not {:?}", other),
    }
}

#[test]
fn dry_run_stops_after_showing_the_selection() {
    for yes in [false, true] {
        let mut command = delete_command(true, true, yes);
        let printed = command.advance(walked());
        assert_eq!(
            printed,
            lines(&[
                "Selected 2 directories",
                " root/a/node_modules",
                " root/b/node_modules",
                "Dry run: nothing deleted."
            ])
        );
        assert!(matches!(command.request(), Request::Finish));
        let printed = command.advance(Event::Confirmed(true));
        assert!(printed.is_empty());
        assert!(matches!(command.request(), Request::Finish));
    }
}

#[test]
fn dry_run_after_a_choice_deletes_nothing() {
    let mut command = delete_command(false, true, false);
    command.advance(walked());
    let printed = command.advance(Event::Chosen(vec![0, 1]));
    assert_eq!(printed.last().map(|line| line.as_str()), Some("Dry run: nothing deleted."));
    assert!(matches!(command.request(), Request::Finish));
}

#[test]
fn confirmed_deletion_runs_to_done() {
    let mut command = delete_command(false, false, false);
    command.advance(walked());
    command.advance(Event::Chosen(vec![1, 0]));
    let printed = command.advance(Event::Confirmed(true));
    assert!(printed.is_empty());
    let mut removed = Vec::new();
    let mut printed = Vec::new();
    for _ in 0..10 {
        let event = match command.request() {
            Request::Inspect { .. } => Event::Deletion(DeleteEvent::Inspected(EntryKind::Directory)),
            Request::Remove { path } => {
                removed.push(path);
                Event::Deletion(DeleteEvent::Removed)
            }
            Request::Finish => break,
            other => panic!("unexpected request {:?}", other),
        };
        let mut said = command.advance(event);
        printed.append(&mut said);
    }
    assert!(matches!(command.request(), Request::Finish));
    assert_eq!(removed, vec!["root/b/node_modules".to_string(), "root/a/node_modules".to_string()]);
    assert_eq!(printed, lines(&["Done."]));
}

#[test]
fn symlink_in_the_selection_aborts_the_command() {
    let mut command = delete_command(true, false, true);
    command.advance(walked());
    let printed = command.advance(Event::Deletion(DeleteEvent::Inspected(EntryKind::Symlink)));
    assert!(printed.is_empty());
    match command.request() {
        Request::Abort(CleanError::SymlinkRefusal { path }) => assert_eq!(path, "root/a/node_modules"),
        other => panic!("the command should abort, not {:?}", other),
    }
    command.advance(Event::Deletion(DeleteEvent::Removed));
    assert!(matches!(command.request(), Request::Abort(_)));
}

#[test]
fn removal_failure_aborts_the_command_before_later_paths() {
    let mut command = delete_command(true, false, true);
    command.advance(walked());
    command.advance(Event::Deletion(DeleteEvent::Inspected(EntryKind::Directory)));
    let printed = command.advance(Event::Deletion(DeleteEvent::RemoveFailed { cause: "busy".to_string() }));
    assert!(printed.is_empty());
    match command.request() {
        Request::Abort(CleanError::Deletion { path, cause }) => {
            assert_eq!(path, "root/a/node_modules");
            assert_eq!(cause, "busy");
        }
        other => panic!("the command should abort, not {:?}", other),
    }
}

#[test]
fn events_that_answer_nothing_are_ignored() {
    let mut command = delete_command(false, false, false);
    let printed = command.advance(Event::Confirmed(true));
    assert!(printed.is_empty());
    assert!(matches!(command.request(), Request::Walk { .. }));
    command.advance(walked());
    let printed = command.advance(Event::Deletion(DeleteEvent::Removed));
    assert!(printed.is_empty());
    assert!(matches!(command.request(), Request::Choose { .. }));
}
