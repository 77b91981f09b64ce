use mmv::action::Action;

#[test]
fn parse_empty_line_is_delete() {
    assert_eq!(Action::parse(""), Action::Delete);
}

#[test]
fn parse_whitespace_only_line_is_delete() {
    assert_eq!(Action::parse(" "), Action::Delete);
    assert_eq!(Action::parse("\t  "), Action::Delete);
}

#[test]
fn parse_indented_line_is_ignore_with_trimmed_comment() {
    assert_eq!(Action::parse(" a.txt"), Action::Ignore(String::from("a.txt")));
    assert_eq!(Action::parse("\tsome note  "), Action::Ignore(String::from("some note")));
}

#[test]
fn parse_unindented_line_is_move_of_raw_line() {
    assert_eq!(Action::parse("renamed.txt"), Action::Move(String::from("renamed.txt")));
    assert_eq!(Action::parse("dir/with space.txt"), Action::Move(String::from("dir/with space.txt")));
    // Trailing whitespace stays part of the path: the line is taken verbatim.
    assert_eq!(Action::parse("name.txt "), Action::Move(String::from("name.txt ")));
}

#[test]
fn format_move_is_the_path() {
    assert_eq!(Action::Move(String::from("a/b.txt")).format(), "a/b.txt");
}

#[test]
fn format_delete_is_the_empty_line() {
    assert_eq!(Action::Delete.format(), "");
}

#[test]
fn format_ignore_prefixes_one_space() {
    assert_eq!(Action::Ignore(String::from("a.txt")).format(), " a.txt");
}

#[test]
fn round_trip_canonical_actions() {
    let cases = vec![
        Action::Move(String::from("x/y.txt")),
        Action::Delete,
        Action::Ignore(String::from("note")),
    ];
    for a in cases {
        assert_eq!(Action::parse(&a.format()), a);
    }
}

#[test]
fn round_trip_boundary_empty_ignore_degrades_to_delete() {
    // An empty comment formats to a single space, and an all-whitespace
    // line trims to nothing, so it comes back as a delete.
    let line = Action::Ignore(String::new()).format();
    assert_eq!(line, " ");
    assert_eq!(Action::parse(&line), Action::Delete);
}
