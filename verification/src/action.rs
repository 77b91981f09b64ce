//! The per-file action and its one-line text form.
//!
//! Each line of the target-list file encodes one action.  An empty (or
//! all-whitespace) line deletes the file, a line whose first character is
//! whitespace is a comment and leaves the file alone, and any other line is
//! the relative path the file moves to.

use vstd::prelude::*;

use crate::text::{is_whitespace, is_ws, lemma_trim_shape, lemma_trimmed_fixpoint, trim_spec,
    trim_str};

verus! {

/// What happens to one file.
#[derive(Debug, Clone, PartialEq, Eq)]
pub enum Action {
    /// Copy the file to this relative path under the destination root, then
    /// remove the original.
    Move(String),
    /// Remove the file.
    Delete,
    /// Leave the file alone; the comment is free text kept for round-trips.
    Ignore(String),
}

/// The mathematical form of an [`Action`].
pub enum ActionV {
    Move(Seq<char>),
    Delete,
    Ignore(Seq<char>),
}

impl View for Action {
    type V = ActionV;

    open spec fn view(&self) -> ActionV {
        match self {
            Action::Move(p) => ActionV::Move(p@),
            Action::Delete => ActionV::Delete,
            Action::Ignore(c) => ActionV::Ignore(c@),
        }
    }
}

/// The action encoded by one line of text: delete when the line trims to
/// nothing, a trimmed comment when the line starts with whitespace, and
/// otherwise a move to the line taken verbatim as a path.
pub open spec fn parse_spec(s: Seq<char>) -> ActionV {
    if trim_spec(s).len() == 0 {
        ActionV::Delete
    } else if is_ws(s[0]) {
        ActionV::Ignore(trim_spec(s))
    } else {
        ActionV::Move(s)
    }
}

/// The one-line text form of an action: the path itself for a move, the
/// empty line for a delete, and the comment behind a single space for an
/// ignore.
pub open spec fn format_spec(a: ActionV) -> Seq<char> {
    match a {
        ActionV::Move(p) => p,
        ActionV::Delete => Seq::empty(),
        ActionV::Ignore(c) => seq![' '] + c,
    }
}

/// An action that some line parses to: a move's path is non-empty and does
/// not start with whitespace, and an ignore's comment is non-empty and
/// trimmed.
pub open spec fn canonical(a: ActionV) -> bool {
    match a {
        ActionV::Move(p) => p.len() > 0 && !is_ws(p[0]),
        ActionV::Delete => true,
        ActionV::Ignore(c) => c.len() > 0 && trim_spec(c) == c,
    }
}

impl Action {
    /// Reads one line of the target-list file as an action.
    pub fn parse(line: &str) -> (r: Action)
        ensures
            r@ == parse_spec(line@),
    {
        let trimmed = trim_str(line);
        if trimmed.unicode_len() == 0 {
            Action::Delete
        } else {
            proof {
                lemma_trim_shape(line@);
            }
            if is_whitespace(line.get_char(0)) {
                Action::Ignore(trimmed.to_owned())
            } else {
                Action::Move(line.to_owned())
            }
        }
    }

    /// Writes the action as one line of the target-list file.
    pub fn format(&self) -> (r: String)
        ensures
            r@ == format_spec(self@),
    {
        match self {
            Action::Move(p) => p.clone(),
            Action::Delete => {
                let r = String::new();
                r
            },
            Action::Ignore(c) => {
                let r = String::from_str(" ").concat(c.as_str());
                proof {
                    reveal_strlit(" ");
                    assert(" "@ =~= seq![' ']);
                }
                r
            },
        }
    }

    /// Builds a copy whose text form is the same.
    pub fn duplicate(&self) -> (r: Action)
        ensures
            r@ == self@,
    {
        match self {
            Action::Move(p) => Action::Move(p.clone()),
            Action::Delete => Action::Delete,
            Action::Ignore(c) => Action::Ignore(c.clone()),
        }
    }
}

/// Every parsed action is canonical.
pub proof fn lemma_parse_canonical(s: Seq<char>)
    ensures
        canonical(parse_spec(s)),
{
    lemma_trim_shape(s);
    if trim_spec(s).len() > 0 && !is_ws(s[0]) {
        assert(s.len() > 0);
    }
    if trim_spec(s).len() > 0 {
        lemma_trim_idempotent(s);
    }
}

/// Trimming is idempotent.
pub proof fn lemma_trim_idempotent(s: Seq<char>)
    ensures
        trim_spec(trim_spec(s)) == trim_spec(s),
{
    let t = trim_spec(s);
    lemma_trim_shape(s);
    if t.len() == 0 {
        assert(trim_spec(t) =~= t);
    } else {
        assert(!is_ws(t[0]));
        assert(!is_ws(t[t.len() - 1]));
        assert(crate::text::trim_start_spec(t) == t);
        assert(crate::text::trim_end_spec(t) == t);
    }
}

/// Parsing the text form of a canonical action gives the action back.  A
/// non-canonical ignore loses its surrounding whitespace, and an
/// all-whitespace ignore comes back as a delete, so those stay out.
pub proof fn lemma_parse_format_round_trip(a: ActionV)
    requires
        canonical(a),
    ensures
        parse_spec(format_spec(a)) == a,
{
    match a {
        ActionV::Move(p) => {
            lemma_trim_of_unindented(p);
        },
        ActionV::Delete => {
            assert(trim_spec(Seq::<char>::empty()) =~= Seq::<char>::empty());
        },
        ActionV::Ignore(c) => {
            let line = seq![' '] + c;
            assert(line.len() == c.len() + 1);
            assert(is_ws(line[0]));
            assert(line.skip(1) =~= c);
            lemma_trimmed_fixpoint(c);
            assert(crate::text::trim_start_spec(line) == crate::text::trim_start_spec(c));
            assert(crate::text::trim_start_spec(c) == c);
            assert(trim_spec(line) == crate::text::trim_end_spec(c));
            assert(crate::text::trim_end_spec(c) == c);
        },
    }
}

/// Every non-empty line that does not start with whitespace parses to a
/// move whose path is the raw line.
pub proof fn lemma_parse_unindented(s: Seq<char>)
    requires
        s.len() > 0,
        !is_ws(s[0]),
    ensures
        parse_spec(s) == ActionV::Move(s),
{
    lemma_trim_of_unindented(s);
}

/// The trim of a line whose first character is not whitespace keeps that
/// character, so such a line never parses to a delete.
proof fn lemma_trim_of_unindented(s: Seq<char>)
    requires
        s.len() > 0,
        !is_ws(s[0]),
    ensures
        trim_spec(s).len() > 0,
{
    assert(crate::text::trim_start_spec(s) == s);
    crate::text::lemma_trim_end_keeps_head(s);
}

} // verus!
