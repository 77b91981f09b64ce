use mmv::action::Action;
use mmv::changeset::{ChangeSet, Record, Workspace};
use mmv::paths::{join, parent_of};
use mmv::plan::Step;

fn record(source: &str, action: Action) -> Record {
    Record { source: String::from(source), action }
}

#[test]
fn join_inserts_a_separator_only_where_needed() {
    assert_eq!(join("ws", "a.txt"), "ws/a.txt");
    assert_eq!(join("ws/", "a.txt"), "ws/a.txt");
    assert_eq!(join("", "a.txt"), "a.txt");
    assert_eq!(join("/out", "sub/b.txt"), "/out/sub/b.txt");
}

#[test]
fn parent_of_cuts_at_the_last_separator() {
    assert_eq!(parent_of("/out/renamed.txt"), Some(String::from("/out")));
    assert_eq!(parent_of("a/b/c.txt"), Some(String::from("a/b")));
    assert_eq!(parent_of("/top.txt"), Some(String::from("/")));
    assert_eq!(parent_of("bare.txt"), None);
}

#[test]
fn plan_copies_before_removing_and_walks_records_in_order() {
    let cs = ChangeSet::create(
        Workspace::at(String::from("ws")),
        vec![
            record("a.txt", Action::Move(String::from("renamed.txt"))),
            record("b.txt", Action::Delete),
            record("c.txt", Action::Ignore(String::from("c.txt"))),
        ],
    );
    let plan = cs.execute_plan("/out");
    assert_eq!(
        plan,
        vec![
            Step::EnsureDirs { path: String::from("/out") },
            Step::CopyFile { from: String::from("ws/a.txt"), to: String::from("/out/renamed.txt") },
            Step::RemoveFile { path: String::from("ws/a.txt") },
            Step::RemoveFile { path: String::from("ws/b.txt") },
        ]
    );
}

#[test]
fn plan_for_ignores_only_is_empty() {
    let cs = ChangeSet::create(
        Workspace::at(String::from("ws")),
        vec![record("a.txt", Action::Ignore(String::from("a.txt")))],
    );
    assert!(cs.execute_plan("/out").is_empty());
}

#[test]
fn plan_makes_nested_destination_directories() {
    let cs = ChangeSet::create(
        Workspace::at(String::from("ws")),
        vec![record("a.txt", Action::Move(String::from("deep/nest/a.txt")))],
    );
    let plan = cs.execute_plan("/out");
    assert_eq!(plan[0], Step::EnsureDirs { path: String::from("/out/deep/nest") });
    assert_eq!(
        plan[1],
        Step::CopyFile { from: String::from("ws/a.txt"), to: String::from("/out/deep/nest/a.txt") }
    );
    assert_eq!(plan[2], Step::RemoveFile { path: String::from("ws/a.txt") });
}
