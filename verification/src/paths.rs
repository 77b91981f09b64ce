//! Textual operations on relative paths.
//!
//! Paths are plain text with `/` as the separator.  Joining appends a
//! component below a base, and the parent of a path is its text up to the
//! last separator.

use vstd::prelude::*;

verus! {

/// `rel` appended below `base`, inserting a separator only where needed.
pub open spec fn path_join(base: Seq<char>, rel: Seq<char>) -> Seq<char> {
    if base.len() == 0 {
        rel
    } else if base[base.len() - 1] == '/' {
        base + rel
    } else {
        base + seq!['/'] + rel
    }
}

/// Joins a relative path below a base path.
pub fn join(base: &str, rel: &str) -> (r: String)
    ensures
        r@ == path_join(base@, rel@),
{
    let len = base.unicode_len();
    if len == 0 {
        rel.to_owned()
    } else if base.get_char(len - 1) == '/' {
        base.to_owned().concat(rel)
    } else {
        let r = base.to_owned().concat("/").concat(rel);
        proof {
            reveal_strlit("/");
            assert("/"@ =~= seq!['/']);
        }
        r
    }
}

/// The text of a path up to its last separator: the directory the path
/// lies in, or nothing for a bare file name.  The parent of an entry
/// directly under the root is the root itself.
pub open spec fn parent_spec(s: Seq<char>) -> Option<Seq<char>>
    decreases s.len(),
{
    if s.len() == 0 {
        None
    } else if s[s.len() - 1] == '/' {
        if s.len() == 1 {
            Some(seq!['/'])
        } else {
            Some(s.take(s.len() - 1))
        }
    } else {
        parent_spec(s.take(s.len() - 1))
    }
}

/// A slash-free suffix does not change the parent.
proof fn lemma_parent_drop_suffix(s: Seq<char>, j: int)
    requires
        0 <= j <= s.len(),
        forall|k: int| j <= k < s.len() ==> s[k] != '/',
    ensures
        parent_spec(s) == parent_spec(s.take(j)),
    decreases s.len() - j,
{
    if j < s.len() {
        assert(s[s.len() - 1] != '/');
        lemma_parent_drop_suffix(s.take(s.len() - 1), j);
        assert(s.take(s.len() - 1).take(j) =~= s.take(j));
    } else {
        assert(s.take(j) =~= s);
    }
}

/// The directory part of a path, if it has one.
pub fn parent_of(s: &str) -> (r: Option<String>)
    ensures
        match r {
            Some(p) => parent_spec(s@) == Some(p@),
            None => parent_spec(s@) is None,
        },
{
    let len = s.unicode_len();
    let mut j: usize = len;
    while j > 0 && s.get_char(j - 1) != '/'
        invariant
            0 <= j <= len,
            len == s@.len(),
            forall|k: int| j <= k < len ==> s@[k] != '/',
        decreases j,
    {
        j = j - 1;
    }
    proof {
        lemma_parent_drop_suffix(s@, j as int);
    }
    if j == 0 {
        proof {
            assert(s@.take(0) =~= Seq::<char>::empty());
        }
        None
    } else if j == 1 {
        let r = s.substring_char(0, 1);
        proof {
            assert(s@.take(1) =~= s@.subrange(0, 1));
            assert(s@.take(1)[0] == '/');
            assert(s@.take(1) =~= seq!['/']);
        }
        Some(r.to_owned())
    } else {
        let r = s.substring_char(0, j - 1);
        proof {
            let t = s@.take(j as int);
            assert(t[t.len() - 1] == '/');
            assert(t.take(j - 1) =~= s@.subrange(0, j - 1));
        }
        Some(r.to_owned())
    }
}

} // verus!
