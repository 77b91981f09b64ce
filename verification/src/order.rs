//! Lexicographic order on relative paths.
//!
//! The changeset keeps its records sorted by path, the exported source-list
//! is written in that order, and reconciliation merge-joins the stored
//! records with a freshly scanned tree.  All three use this one order, so a
//! single comparator defines it: character-by-character comparison of the
//! path's text, shorter prefixes first.

use vstd::prelude::*;

verus! {

/// Strict lexicographic order on character sequences: `a` comes before `b`.
pub open spec fn seq_lt(a: Seq<char>, b: Seq<char>) -> bool
    decreases a.len(),
{
    if b.len() == 0 {
        false
    } else if a.len() == 0 {
        true
    } else if a[0] != b[0] {
        (a[0] as u32) < (b[0] as u32)
    } else {
        seq_lt(a.skip(1), b.skip(1))
    }
}

/// Distinct characters have distinct code points.
proof fn char_facts(c: char)
    ensures
        c as u32 == c as int,
        0 <= c as int <= 0x10FFFF,
{
}

/// The order is irreflexive.
pub proof fn lemma_seq_lt_irrefl(a: Seq<char>)
    ensures
        !seq_lt(a, a),
    decreases a.len(),
{
    if a.len() > 0 {
        lemma_seq_lt_irrefl(a.skip(1));
    }
}

/// The order is transitive.
pub proof fn lemma_seq_lt_trans(a: Seq<char>, b: Seq<char>, c: Seq<char>)
    requires
        seq_lt(a, b),
        seq_lt(b, c),
    ensures
        seq_lt(a, c),
    decreases a.len(),
{
    if a.len() > 0 && b.len() > 0 && c.len() > 0 {
        if a[0] == b[0] && b[0] == c[0] {
            lemma_seq_lt_trans(a.skip(1), b.skip(1), c.skip(1));
        }
    }
}

/// The order is total: incomparable sequences are equal.
pub proof fn lemma_seq_lt_total(a: Seq<char>, b: Seq<char>)
    requires
        !seq_lt(a, b),
        !seq_lt(b, a),
    ensures
        a == b,
    decreases a.len(),
{
    if a.len() == 0 || b.len() == 0 {
        if a.len() == 0 && b.len() > 0 {
            assert(seq_lt(a, b));
        }
        if b.len() == 0 && a.len() > 0 {
            assert(seq_lt(b, a));
        }
        assert(a =~= b);
    } else {
        if a[0] != b[0] {
            if (a[0] as u32) < (b[0] as u32) {
                assert(seq_lt(a, b));
            } else {
                assert((b[0] as u32) < (a[0] as u32)) by {
                    char_facts(a[0]);
                    char_facts(b[0]);
                }
                assert(seq_lt(b, a));
            }
            assert(false);
        }
        lemma_seq_lt_total(a.skip(1), b.skip(1));
        assert(a.skip(1) == b.skip(1));
        assert(a.skip(1).len() == a.len() - 1);
        assert(b.skip(1).len() == b.len() - 1);
        assert(a.len() == b.len());
        assert forall|i: int| 0 <= i < a.len() implies a[i] == b[i] by {
            if i > 0 {
                assert(a.skip(1)[i - 1] == b.skip(1)[i - 1]);
            }
        }
        assert(a =~= b);
    }
}

/// The order is asymmetric.
pub proof fn lemma_seq_lt_asymm(a: Seq<char>, b: Seq<char>)
    requires
        seq_lt(a, b),
    ensures
        !seq_lt(b, a),
    decreases a.len(),
{
    if a.len() > 0 && b.len() > 0 && a[0] == b[0] {
        lemma_seq_lt_asymm(a.skip(1), b.skip(1));
    }
}

/// The outcome of a three-way comparison.
pub enum Rel {
    Before,
    Equal,
    After,
}

/// Compares two strings in the path order.
pub fn str_compare(a: &str, b: &str) -> (r: Rel)
    ensures
        r is Before <==> seq_lt(a@, b@),
        r is After <==> seq_lt(b@, a@),
        r is Equal <==> a@ == b@,
{
    let a_len = a.unicode_len();
    let b_len = b.unicode_len();
    let mut i: usize = 0;
    proof {
        assert(a@.skip(0) =~= a@);
        assert(b@.skip(0) =~= b@);
    }
    loop
        invariant
            0 <= i <= a_len,
            i <= b_len,
            a_len == a@.len(),
            b_len == b@.len(),
            forall|k: int| 0 <= k < i ==> a@[k] == b@[k],
            seq_lt(a@, b@) == seq_lt(a@.skip(i as int), b@.skip(i as int)),
            seq_lt(b@, a@) == seq_lt(b@.skip(i as int), a@.skip(i as int)),
        decreases a_len - i,
    {
        if i == a_len || i == b_len {
            proof {
                if a_len == b_len {
                    assert(a@ =~= b@);
                    lemma_seq_lt_irrefl(a@);
                } else if i == a_len {
                    assert(a@.skip(i as int).len() == 0);
                    assert(b@.skip(i as int).len() > 0);
                    if seq_lt(b@, a@) {
                        lemma_seq_lt_asymm(b@, a@);
                    }
                    assert(seq_lt(a@.skip(i as int), b@.skip(i as int)));
                } else {
                    assert(b@.skip(i as int).len() == 0);
                    assert(a@.skip(i as int).len() > 0);
                    assert(seq_lt(b@.skip(i as int), a@.skip(i as int)));
                }
            }
            if a_len == b_len {
                return Rel::Equal;
            } else if i == a_len {
                return Rel::Before;
            } else {
                return Rel::After;
            }
        }
        let ca = a.get_char(i);
        let cb = b.get_char(i);
        if ca != cb {
            proof {
                let sa = a@.skip(i as int);
                let sb = b@.skip(i as int);
                assert(sa[0] == a@[i as int]);
                assert(sb[0] == b@[i as int]);
                assert(sa.len() > 0 && sb.len() > 0);
            }
            if (ca as u32) < (cb as u32) {
                return Rel::Before;
            } else {
                return Rel::After;
            }
        }
        proof {
            let sa = a@.skip(i as int);
            let sb = b@.skip(i as int);
            assert(sa[0] == a@[i as int]);
            assert(sb[0] == b@[i as int]);
            assert(sa.skip(1) =~= a@.skip(i + 1));
            assert(sb.skip(1) =~= b@.skip(i + 1));
        }
        i = i + 1;
    }
}

} // verus!
