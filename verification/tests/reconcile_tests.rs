use mmv::action::Action;
use mmv::changeset::{ChangeSet, Record, Workspace};
use mmv::reconcile::{reconcile, sort_paths};

fn strings(v: &[&str]) -> Vec<String> {
    v.iter().map(|s| String::from(*s)).collect()
}

fn record(source: &str, action: Action) -> Record {
    Record { source: String::from(source), action }
}

#[test]
fn reconcile_from_nothing_defaults_every_file_to_ignore() {
    // What `init` stages: every scanned file enters with a placeholder
    // ignore whose comment is the path itself.
    let tree = strings(&["a.txt", "b.txt"]);
    let r = reconcile(&Vec::new(), &tree);
    assert_eq!(r.records.len(), 2);
    assert_eq!(r.records[0], record("a.txt", Action::Ignore(String::from("a.txt"))));
    assert_eq!(r.records[1], record("b.txt", Action::Ignore(String::from("b.txt"))));
    assert_eq!(r.added, strings(&["a.txt", "b.txt"]));
    assert!(r.removed.is_empty());
}

#[test]
fn init_then_edit_then_import_yields_the_edited_mapping() {
    let tree = strings(&["a.txt", "b.txt"]);
    let ws = Workspace::at(String::from("."));
    let cs = ChangeSet::create(ws.clone(), reconcile(&Vec::new(), &tree).records);
    let (sources, targets) = cs.export();
    assert_eq!(sources, strings(&["a.txt", "b.txt"]));
    assert_eq!(targets, strings(&[" a.txt", " b.txt"]));

    // The human rewrites the target column.
    let edited = strings(&["renamed.txt", ""]);
    let imp = ws.import(sources, edited);
    assert!(imp.is_clean());
    let cs = imp.clean().expect("clean");
    assert_eq!(cs.records()[0], record("a.txt", Action::Move(String::from("renamed.txt"))));
    assert_eq!(cs.records()[1], record("b.txt", Action::Delete));
}

#[test]
fn reconcile_drops_vanished_files_and_reports_them() {
    let records = vec![
        record("a.txt", Action::Ignore(String::from("a.txt"))),
        record("b.txt", Action::Ignore(String::from("b.txt"))),
    ];
    let tree = strings(&["a.txt"]);
    let r = reconcile(&records, &tree);
    assert_eq!(r.records.len(), 1);
    assert_eq!(r.records[0].source, "a.txt");
    assert!(r.added.is_empty());
    assert_eq!(r.removed, strings(&["b.txt"]));
}

#[test]
fn reconcile_adds_discovered_files_with_placeholder_ignore() {
    let records = vec![
        record("a.txt", Action::Ignore(String::from("a.txt"))),
        record("b.txt", Action::Ignore(String::from("b.txt"))),
    ];
    let tree = strings(&["a.txt", "b.txt", "c.txt"]);
    let r = reconcile(&records, &tree);
    assert_eq!(r.records.len(), 3);
    assert_eq!(r.records[2], record("c.txt", Action::Ignore(String::from("c.txt"))));
    assert_eq!(r.added, strings(&["c.txt"]));
    assert!(r.removed.is_empty());
}

#[test]
fn reconcile_keeps_actions_of_files_still_present() {
    // A pending delete or move is never reset while the file exists.
    let records = vec![
        record("a.txt", Action::Move(String::from("renamed.txt"))),
        record("b.txt", Action::Delete),
    ];
    let tree = strings(&["a.txt", "b.txt"]);
    let r = reconcile(&records, &tree);
    assert_eq!(r.records, records);
    assert!(r.added.is_empty());
    assert!(r.removed.is_empty());
}

#[test]
fn reconcile_twice_is_byte_identical() {
    let records = vec![
        record("a.txt", Action::Move(String::from("renamed.txt"))),
        record("c.txt", Action::Ignore(String::from("note"))),
    ];
    let tree = strings(&["a.txt", "b.txt", "c.txt"]);
    let ws = Workspace::at(String::from("."));

    let first = reconcile(&records, &tree);
    let second = reconcile(&first.records, &tree);
    assert_eq!(second.records, first.records);
    assert!(second.added.is_empty());
    assert!(second.removed.is_empty());

    let lines1 = ChangeSet::create(ws.clone(), first.records).export();
    let lines2 = ChangeSet::create(ws, second.records).export();
    assert_eq!(lines1, lines2);
}

#[test]
fn sort_paths_orders_and_deduplicates() {
    let scanned = strings(&["b/z.txt", "a.txt", "b/z.txt", "b.txt"]);
    let sorted = sort_paths(&scanned);
    assert_eq!(sorted, strings(&["a.txt", "b.txt", "b/z.txt"]));
}
