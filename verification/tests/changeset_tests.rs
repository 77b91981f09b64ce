use mmv::action::Action;
use mmv::changeset::{ChangeSet, ChangeSetImport, Record, Workspace};
use mmv::error::ProgramError;

fn strings(v: &[&str]) -> Vec<String> {
    v.iter().map(|s| String::from(*s)).collect()
}

#[test]
fn workspace_paths_are_fixed_names_under_the_directory() {
    let ws = Workspace::at(String::from("some/dir"));
    assert_eq!(ws.sources_path(), "some/dir/.mmv.sources");
    assert_eq!(ws.targets_path(), "some/dir/.mmv.targets");
}

#[test]
fn workspace_path_with_trailing_separator_is_not_doubled() {
    let ws = Workspace::at(String::from("dir/"));
    assert_eq!(ws.sources_path(), "dir/.mmv.sources");
}

#[test]
fn workspace_open_needs_both_sidecar_files() {
    assert!(Workspace::open(String::from("d"), true, true).is_some());
    assert!(Workspace::open(String::from("d"), true, false).is_none());
    assert!(Workspace::open(String::from("d"), false, true).is_none());
    assert!(Workspace::open(String::from("d"), false, false).is_none());
}

#[test]
fn import_pairs_lines_by_position() {
    let ws = Workspace::at(String::from("."));
    let imp = ws.import(strings(&["a.txt", "b.txt"]), strings(&["renamed.txt", ""]));
    assert!(imp.is_clean());
    let records = imp.records();
    assert_eq!(records.len(), 2);
    assert_eq!(records[0].source, "a.txt");
    assert_eq!(records[0].action, Action::Move(String::from("renamed.txt")));
    assert_eq!(records[1].source, "b.txt");
    assert_eq!(records[1].action, Action::Delete);
}

#[test]
fn import_sorts_records_by_path() {
    let ws = Workspace::at(String::from("."));
    let imp = ws.import(strings(&["b.txt", "a.txt"]), strings(&[" b.txt", " a.txt"]));
    let records = imp.records();
    assert_eq!(records[0].source, "a.txt");
    assert_eq!(records[1].source, "b.txt");
}

#[test]
fn import_duplicate_sources_collapse_last_write_wins() {
    let ws = Workspace::at(String::from("."));
    let imp = ws.import(strings(&["a.txt", "a.txt"]), strings(&[" first", " second"]));
    assert!(imp.is_clean());
    let records = imp.records();
    assert_eq!(records.len(), 1);
    assert_eq!(records[0].action, Action::Ignore(String::from("second")));
}

#[test]
fn import_with_more_sources_keeps_the_tail_unmapped() {
    let ws = Workspace::at(String::from("."));
    let imp = ws.import(
        strings(&["a.txt", "b.txt", "c.txt"]),
        strings(&["renamed.txt", ""]),
    );
    assert!(!imp.is_clean());
    assert_eq!(imp.unmapped_sources, strings(&["c.txt"]));
    assert!(imp.unmapped_targets.is_empty());
    assert_eq!(imp.records.len(), 2);
    assert!(imp.clean().is_none());
}

#[test]
fn import_with_more_targets_keeps_the_tail_unmapped() {
    let ws = Workspace::at(String::from("."));
    let imp = ws.import(strings(&["a.txt"]), strings(&["x", "", " y"]));
    assert!(!imp.is_clean());
    assert!(imp.unmapped_sources.is_empty());
    assert_eq!(
        imp.unmapped_targets,
        vec![Action::Delete, Action::Ignore(String::from("y"))]
    );
}

#[test]
fn clean_promotes_a_clean_import() {
    let ws = Workspace::at(String::from("w"));
    let imp = ws.import(strings(&["a.txt"]), strings(&[" a.txt"]));
    let cs = imp.clean().expect("import is clean");
    assert_eq!(cs.path(), "w");
    assert_eq!(cs.records().len(), 1);
}

#[test]
fn empty_import_has_nothing() {
    let imp = ChangeSetImport::empty(Workspace::at(String::from(".")));
    assert!(imp.is_clean());
    assert!(imp.records().is_empty());
}

#[test]
fn export_writes_one_line_per_record() {
    let ws = Workspace::at(String::from("."));
    let cs = ChangeSet::create(
        ws,
        vec![
            Record { source: String::from("a.txt"), action: Action::Move(String::from("renamed.txt")) },
            Record { source: String::from("b.txt"), action: Action::Delete },
            Record { source: String::from("c.txt"), action: Action::Ignore(String::from("c.txt")) },
        ],
    );
    let (sources, targets) = cs.export();
    assert_eq!(sources, strings(&["a.txt", "b.txt", "c.txt"]));
    assert_eq!(targets, strings(&["renamed.txt", "", " c.txt"]));
}

#[test]
fn split_hands_back_the_parts() {
    let ws = Workspace::at(String::from("w"));
    let records = vec![Record { source: String::from("a"), action: Action::Delete }];
    let cs = ChangeSet::create(ws, records.clone());
    let (ws2, rs2) = cs.split();
    assert_eq!(ws2.path, "w");
    assert_eq!(rs2, records);
}

#[test]
fn records_mut_edits_in_place() {
    let ws = Workspace::at(String::from("."));
    let mut imp = ws.import(strings(&["a.txt"]), strings(&[""]));
    imp.records_mut().push(Record {
        source: String::from("b.txt"),
        action: Action::Ignore(String::from("b.txt")),
    });
    assert_eq!(imp.records().len(), 2);
}

#[test]
fn error_messages_name_the_condition() {
    assert_eq!(ProgramError::NotInitialized.message(), "Not initialized");
    assert_eq!(ProgramError::NotClean.message(), "Not clean");
    assert_eq!(ProgramError::InternalError.message(), "Internal error");
}
