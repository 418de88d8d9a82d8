//! The marks that keep a server running.

use portside::keeplist::{KeepMark, Keeplist, FILE_NAME};

fn mark(project_root: &str, command: &str) -> KeepMark {
    KeepMark { project_root: project_root.to_string(), command: command.to_string() }
}

#[test]
fn unmarked_server_is_not_marked() {
    let list = Keeplist::default();
    assert!(!list.is_marked("/proj", "npm run dev"));
}

#[test]
fn set_true_then_is_marked() {
    let mut list = Keeplist::default();
    list.set("/proj", "npm run dev", true);
    assert!(list.is_marked("/proj", "npm run dev"));
}

#[test]
fn set_false_clears_mark() {
    let mut list = Keeplist::default();
    list.set("/proj", "npm run dev", true);
    list.set("/proj", "npm run dev", false);
    assert!(!list.is_marked("/proj", "npm run dev"));
}

#[test]
fn keyed_by_project_and_command_not_pid() {
    let mut list = Keeplist::default();
    list.set("/proj-a", "npm run dev", true);
    assert!(!list.is_marked("/proj-a", "npm run build"));
    assert!(!list.is_marked("/proj-b", "npm run dev"));
}

/// What is written are the marks in their order; what is read back is the same list.
#[test]
fn survives_save_and_load_round_trip() {
    let mut list = Keeplist::default();
    list.set("/proj", "npm run dev", true);
    let written: Vec<KeepMark> = list.marks().clone();

    let reloaded = Keeplist::load(Some(written));
    assert!(reloaded.is_marked("/proj", "npm run dev"));
    assert_eq!(reloaded.marks(), list.marks());
}

#[test]
fn load_missing_file_starts_empty_not_error() {
    let list = Keeplist::load(None);
    assert!(!list.is_marked("/anything", "anything"));
    assert!(list.marks().is_empty());
}

/// The marks stand in the order of their paths and then of their commands, each once.
#[test]
fn marks_are_in_order_and_distinct() {
    let mut list = Keeplist::default();
    list.set("/b", "z", true);
    list.set("/a/c", "y", true);
    list.set("/b", "a", true);
    list.set("/a", "y", true);
    list.set("/b", "z", true);
    list.set("/a-b", "y", true);
    assert_eq!(
        list.marks(),
        &vec![mark("/a", "y"), mark("/a/c", "y"), mark("/a-b", "y"), mark("/b", "a"), mark("/b", "z")]
    );
}

/// A root is compared as a path: a trailing slash or a dot makes no other project.
#[test]
fn roots_are_compared_as_paths() {
    let mut list = Keeplist::default();
    list.set("/proj/", "npm run dev", true);
    assert!(list.is_marked("/proj", "npm run dev"));
    assert!(list.is_marked("//proj/.", "npm run dev"));
    assert!(!list.is_marked("proj", "npm run dev"));
    list.set("/proj", "npm run dev", false);
    assert!(list.marks().is_empty());
}

/// Clearing a mark that is not set changes nothing, and the other marks stay.
#[test]
fn setting_one_mark_leaves_the_others() {
    let mut list = Keeplist::default();
    list.set("/a", "x", true);
    list.set("/b", "x", true);
    list.set("/c", "x", false);
    list.set("/a", "x", false);
    assert!(!list.is_marked("/a", "x"));
    assert!(list.is_marked("/b", "x"));
    assert_eq!(list.marks().len(), 1);
}

/// A file edited by hand may hold a mark twice and in any order.
#[test]
fn a_file_in_disorder_is_read() {
    let list = Keeplist::from_marks(&vec![mark("/b", "x"), mark("/a", "x"), mark("/b/", "x")]);
    assert_eq!(list.marks(), &vec![mark("/a", "x"), mark("/b", "x")]);
    assert_eq!(FILE_NAME, "keeplist.json");
}

/// A mark stays as it was first spelled, and a new one is kept as it is given.
#[test]
fn a_mark_keeps_its_first_spelling() {
    let mut list = Keeplist::default();
    list.set("/b/./c/", "x", true);
    list.set("/a", "x", true);
    list.set("/b/c", "x", true);
    assert_eq!(list.marks(), &vec![mark("/a", "x"), mark("/b/./c/", "x")]);

    // Written and read back, it is the same letter for letter.
    let reread = Keeplist::load(Some(list.marks().clone()));
    assert_eq!(reread.marks(), list.marks());

    // Cleared and set again, it is spelled anew.
    list.set("/b/c", "x", false);
    list.set("/b/c", "x", true);
    assert_eq!(list.marks(), &vec![mark("/a", "x"), mark("/b/c", "x")]);
}
