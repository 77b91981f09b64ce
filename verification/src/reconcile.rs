//! Reconciliation: diffing a changeset against a fresh tree scan.
//!
//! The stored records and the scanned tree are both sorted by the one path
//! order, so a single merge-join walks them together: a path only in the
//! tree is a newly discovered file and enters with a placeholder ignore
//! action, a path only in the records belongs to a vanished file and is
//! dropped, and a path in both keeps whatever action the user had set.

use vstd::prelude::*;

use crate::action::{Action, ActionV};
use crate::changeset::{Record, has_key, lemma_lookup_at, lookup, sorted_unique, strs_view};
use crate::order::{Rel, lemma_seq_lt_irrefl, lemma_seq_lt_trans, seq_lt, str_compare};

verus! {

/// The paths of a tree scan, strictly sorted in the path order.
pub open spec fn tree_sorted(tree: Seq<Seq<char>>) -> bool {
    forall|i: int, j: int| 0 <= i < j < tree.len() ==> seq_lt(#[trigger] tree[i], #[trigger] tree[j])
}

/// The tree contains this path.
pub open spec fn in_tree(tree: Seq<Seq<char>>, k: Seq<char>) -> bool {
    exists|i: int| 0 <= i < tree.len() && #[trigger] tree[i] == k
}

/// The list of strings contains this text.
pub open spec fn str_in(ss: Seq<String>, k: Seq<char>) -> bool {
    exists|i: int| 0 <= i < ss.len() && (#[trigger] ss[i])@ == k
}

/// Appending a string adds exactly its text to the list's contents.
proof fn lemma_str_in_push(ss: Seq<String>, x: String, k: Seq<char>)
    ensures
        str_in(ss.push(x), k) <==> str_in(ss, k) || x@ == k,
{
    let sp = ss.push(x);
    if str_in(sp, k) {
        let i = choose|i: int| 0 <= i < sp.len() && (#[trigger] sp[i])@ == k;
        if i < ss.len() {
            assert(ss[i]@ == k);
        } else {
            assert(x@ == k);
        }
    }
    if str_in(ss, k) {
        let i = choose|i: int| 0 <= i < ss.len() && (#[trigger] ss[i])@ == k;
        assert(sp[i]@ == k);
    }
    if x@ == k {
        assert(sp[ss.len() as int]@ == k);
    }
}

/// The outcome of one reconciliation: the new records, and the paths that
/// were reported as discovered or as vanished.
pub struct Reconciliation {
    /// One record per path of the scanned tree, sorted by path.
    pub records: Vec<Record>,
    /// Paths found in the tree but not in the old records.
    pub added: Vec<String>,
    /// Paths found in the old records but no longer in the tree.
    pub removed: Vec<String>,
}

/// What reconciliation yields: exactly one record per tree path, in tree
/// order, carrying the old action where the path was already known and a
/// placeholder ignore naming the path itself where it was not; the
/// discovered and vanished paths are reported.
pub open spec fn reconcile_post(
    old_rs: Seq<Record>,
    tree: Seq<Seq<char>>,
    r: Reconciliation,
) -> bool {
    &&& r.records@.len() == tree.len()
    &&& sorted_unique(r.records@)
    &&& (forall|a: int| 0 <= a < tree.len() ==> (#[trigger] r.records@[a]).source@ == tree[a])
    &&& (forall|a: int|
        0 <= a < tree.len() ==> (#[trigger] r.records@[a]).action@ == (if has_key(
            old_rs,
            tree[a],
        ) {
            lookup(old_rs, tree[a])
        } else {
            ActionV::Ignore(tree[a])
        }))
    &&& (forall|k: Seq<char>|
        #[trigger] str_in(r.added@, k) <==> in_tree(tree, k) && !has_key(old_rs, k))
    &&& (forall|k: Seq<char>|
        #[trigger] str_in(r.removed@, k) <==> has_key(old_rs, k) && !in_tree(tree, k))
}

/// Merge-joins the sorted old records with the sorted tree scan.
pub fn reconcile(records: &Vec<Record>, tree: &Vec<String>) -> (r: Reconciliation)
    requires
        sorted_unique(records@),
        tree_sorted(strs_view(tree@)),
    ensures
        reconcile_post(records@, strs_view(tree@), r),
{
    let ghost old_rs = records@;
    let ghost tv = strs_view(tree@);
    let mut out: Vec<Record> = Vec::new();
    let mut added: Vec<String> = Vec::new();
    let mut removed: Vec<String> = Vec::new();
    let mut ti: usize = 0;
    let mut ri: usize = 0;
    while ti < tree.len() || ri < records.len()
        invariant
            0 <= ti <= tv.len(),
            0 <= ri <= old_rs.len(),
            tv == strs_view(tree@),
            old_rs == records@,
            tree_sorted(tv),
            sorted_unique(old_rs),
            out@.len() == ti,
            forall|a: int| 0 <= a < ti ==> (#[trigger] out@[a]).source@ == tv[a],
            forall|a: int|
                0 <= a < ti ==> (#[trigger] out@[a]).action@ == (if has_key(old_rs, tv[a]) {
                    lookup(old_rs, tv[a])
                } else {
                    ActionV::Ignore(tv[a])
                }),
            forall|k: Seq<char>|
                #[trigger] str_in(added@, k) <==> (exists|a: int|
                    0 <= a < ti && #[trigger] tv[a] == k) && !has_key(old_rs, k),
            forall|k: Seq<char>|
                #[trigger] str_in(removed@, k) <==> (exists|b: int|
                    0 <= b < ri && (#[trigger] old_rs[b]).source@ == k) && !in_tree(tv, k),
            forall|a: int, b: int|
                0 <= a < ti && ri <= b < old_rs.len() ==> seq_lt(
                    #[trigger] tv[a],
                    (#[trigger] old_rs[b]).source@,
                ),
            forall|a: int, b: int|
                0 <= b < ri && ti <= a < tv.len() ==> seq_lt(
                    (#[trigger] old_rs[b]).source@,
                    #[trigger] tv[a],
                ),
        decreases tv.len() - ti + old_rs.len() - ri,
    {
        let take_tree: bool;
        let matched: bool;
        if ti == tree.len() {
            take_tree = false;
            matched = false;
        } else if ri == records.len() {
            take_tree = true;
            matched = false;
        } else {
            match str_compare(tree[ti].as_str(), records[ri].source.as_str()) {
                Rel::Before => {
                    take_tree = true;
                    matched = false;
                },
                Rel::Equal => {
                    take_tree = true;
                    matched = true;
                },
                Rel::After => {
                    take_tree = false;
                    matched = false;
                },
            }
        }
        if take_tree && matched {
            out.push(Record { source: tree[ti].clone(), action: records[ri].action.duplicate() });
            proof {
                let k = tv[ti as int];
                assert(old_rs[ri as int].source@ == k);
                lemma_lookup_at(old_rs, ri as int);
                assert(has_key(old_rs, k));
                assert forall|kk: Seq<char>| #[trigger] str_in(added@, kk) implies (exists|a: int|
                    0 <= a < ti + 1 && #[trigger] tv[a] == kk) && !has_key(old_rs, kk) by {
                    let a = choose|a: int| 0 <= a < ti && #[trigger] tv[a] == kk;
                    assert(tv[a] == kk);
                }
                assert forall|kk: Seq<char>|
                    (exists|a: int| 0 <= a < ti + 1 && #[trigger] tv[a] == kk) && !has_key(
                        old_rs,
                        kk,
                    ) implies #[trigger] str_in(added@, kk) by {
                    let a = choose|a: int| 0 <= a < ti + 1 && #[trigger] tv[a] == kk;
                    assert(a < ti || kk == k);
                }
            }
            ti = ti + 1;
            ri = ri + 1;
        } else if take_tree {
            let ghost added_before = added@;
            out.push(Record { source: tree[ti].clone(), action: Action::Ignore(tree[ti].clone()) });
            added.push(tree[ti].clone());
            proof {
                let k = tv[ti as int];
                let x = added@.last();
                assert(added@ == added_before.push(x));
                assert(x@ == k);
                assert forall|b: int| 0 <= b < old_rs.len() implies (#[trigger] old_rs[b]).source@
                    != k by {
                    if b < ri {
                        assert(seq_lt(old_rs[b].source@, k));
                        if old_rs[b].source@ == k {
                            lemma_seq_lt_irrefl(k);
                        }
                    } else {
                        assert(ri < old_rs.len());
                        assert(seq_lt(k, old_rs[ri as int].source@));
                        if ri < b {
                            lemma_seq_lt_trans(k, old_rs[ri as int].source@, old_rs[b].source@);
                        }
                        if old_rs[b].source@ == k {
                            lemma_seq_lt_irrefl(k);
                        }
                    }
                }
                assert(!has_key(old_rs, k));
                assert forall|a: int, b: int|
                    0 <= a < ti + 1 && ri <= b < old_rs.len() implies seq_lt(
                    #[trigger] tv[a],
                    (#[trigger] old_rs[b]).source@,
                ) by {
                    if a == ti {
                        assert(seq_lt(k, old_rs[ri as int].source@));
                        if ri < b {
                            lemma_seq_lt_trans(k, old_rs[ri as int].source@, old_rs[b].source@);
                        }
                    }
                }
                assert forall|kk: Seq<char>| #[trigger] str_in(added@, kk) implies (exists|a: int|
                    0 <= a < ti + 1 && #[trigger] tv[a] == kk) && !has_key(old_rs, kk) by {
                    lemma_str_in_push(added_before, x, kk);
                    if str_in(added_before, kk) {
                        let a = choose|a: int| 0 <= a < ti && #[trigger] tv[a] == kk;
                        assert(tv[a] == kk);
                    } else {
                        assert(kk == k);
                        assert(tv[ti as int] == kk);
                    }
                }
                assert forall|kk: Seq<char>|
                    (exists|a: int| 0 <= a < ti + 1 && #[trigger] tv[a] == kk) && !has_key(
                        old_rs,
                        kk,
                    ) implies #[trigger] str_in(added@, kk) by {
                    lemma_str_in_push(added_before, x, kk);
                    let a = choose|a: int| 0 <= a < ti + 1 && #[trigger] tv[a] == kk;
                    if a < ti {
                        assert(tv[a] == kk);
                        assert(str_in(added_before, kk));
                    } else {
                        assert(kk == k);
                    }
                }
            }
            ti = ti + 1;
        } else {
            let ghost removed_before = removed@;
            removed.push(records[ri].source.clone());
            proof {
                let k = old_rs[ri as int].source@;
                let x = removed@.last();
                assert(removed@ == removed_before.push(x));
                assert(x@ == k);
                assert forall|a: int| 0 <= a < tv.len() implies #[trigger] tv[a] != k by {
                    if a < ti {
                        assert(seq_lt(tv[a], k));
                        if tv[a] == k {
                            lemma_seq_lt_irrefl(k);
                        }
                    } else {
                        assert(ti < tv.len());
                        assert(seq_lt(k, tv[ti as int]));
                        if ti < a {
                            lemma_seq_lt_trans(k, tv[ti as int], tv[a]);
                        }
                        if tv[a] == k {
                            lemma_seq_lt_irrefl(k);
                        }
                    }
                }
                assert(!in_tree(tv, k));
                assert forall|a: int, b: int|
                    0 <= b < ri + 1 && ti <= a < tv.len() implies seq_lt(
                    (#[trigger] old_rs[b]).source@,
                    #[trigger] tv[a],
                ) by {
                    if b == ri {
                        assert(seq_lt(k, tv[ti as int]));
                        if ti < a {
                            lemma_seq_lt_trans(k, tv[ti as int], tv[a]);
                        }
                    }
                }
                assert forall|kk: Seq<char>| #[trigger] str_in(removed@, kk) implies (exists|b: int|
                    0 <= b < ri + 1 && (#[trigger] old_rs[b]).source@ == kk) && !in_tree(
                    tv,
                    kk,
                ) by {
                    lemma_str_in_push(removed_before, x, kk);
                    if str_in(removed_before, kk) {
                        let b = choose|b: int|
                            0 <= b < ri && (#[trigger] old_rs[b]).source@ == kk;
                        assert(old_rs[b].source@ == kk);
                    } else {
                        assert(kk == k);
                        assert(old_rs[ri as int].source@ == kk);
                    }
                }
                assert forall|kk: Seq<char>|
                    (exists|b: int| 0 <= b < ri + 1 && (#[trigger] old_rs[b]).source@ == kk)
                        && !in_tree(tv, kk) implies #[trigger] str_in(removed@, kk) by {
                    lemma_str_in_push(removed_before, x, kk);
                    let b = choose|b: int| 0 <= b < ri + 1 && (#[trigger] old_rs[b]).source@ == kk;
                    if b < ri {
                        assert(old_rs[b].source@ == kk);
                        assert(str_in(removed_before, kk));
                    } else {
                        assert(kk == k);
                    }
                }
            }
            ri = ri + 1;
        }
    }
    proof {
        assert forall|i: int, j: int| 0 <= i < j < out@.len() implies seq_lt(
            (#[trigger] out@[i]).source@,
            (#[trigger] out@[j]).source@,
        ) by {
            assert(out@[i].source@ == tv[i]);
            assert(out@[j].source@ == tv[j]);
        }
    }
    Reconciliation { records: out, added, removed }
}

/// Reconciliation carries the action of every path that is both in the
/// old records and in the tree over unchanged: a file the user marked is
/// never reset while it still exists.
pub proof fn lemma_reconcile_keeps_existing(
    old_rs: Seq<Record>,
    tree: Seq<Seq<char>>,
    r: Reconciliation,
    k: Seq<char>,
)
    requires
        reconcile_post(old_rs, tree, r),
        has_key(old_rs, k),
        in_tree(tree, k),
    ensures
        has_key(r.records@, k),
        lookup(r.records@, k) == lookup(old_rs, k),
{
    let a = choose|a: int| 0 <= a < tree.len() && #[trigger] tree[a] == k;
    assert(r.records@[a].source@ == k);
    lemma_lookup_at(r.records@, a);
}

/// Reconciliation is idempotent while the tree is unchanged: a second run
/// yields the same records — hence byte-identical sidecar files — and
/// reports nothing discovered and nothing vanished.
pub proof fn lemma_reconcile_idempotent(
    old_rs: Seq<Record>,
    tree: Seq<Seq<char>>,
    first: Reconciliation,
    second: Reconciliation,
)
    requires
        tree_sorted(tree),
        reconcile_post(old_rs, tree, first),
        reconcile_post(first.records@, tree, second),
    ensures
        second.records@.len() == first.records@.len(),
        forall|a: int|
            0 <= a < first.records@.len() ==> (#[trigger] second.records@[a]).source@
                == first.records@[a].source@ && second.records@[a].action@
                == first.records@[a].action@,
        second.added@.len() == 0,
        second.removed@.len() == 0,
{
    assert forall|a: int|
        0 <= a < first.records@.len() implies (#[trigger] second.records@[a]).source@
        == first.records@[a].source@ && second.records@[a].action@
        == first.records@[a].action@ by {
        let k = tree[a];
        assert(first.records@[a].source@ == k);
        lemma_lookup_at(first.records@, a);
    }
    if second.added@.len() > 0 {
        let k = second.added@[0]@;
        assert(str_in(second.added@, k));
        let a = choose|a: int| 0 <= a < tree.len() && #[trigger] tree[a] == k;
        assert(first.records@[a].source@ == k);
        assert(has_key(first.records@, k));
    }
    if second.removed@.len() > 0 {
        let k = second.removed@[0]@;
        assert(str_in(second.removed@, k));
        assert(has_key(first.records@, k));
        let i = choose|i: int|
            0 <= i < first.records@.len() && (#[trigger] first.records@[i]).source@ == k;
        assert(tree[i] == k);
        assert(in_tree(tree, k));
    }
}

/// Inserting a fresh path between its sorted neighbours keeps the list
/// sorted and adds exactly that path.
proof fn lemma_insert_path_post(orig: Seq<String>, at: int, x: String)
    requires
        tree_sorted(strs_view(orig)),
        0 <= at <= orig.len(),
        forall|k: int| 0 <= k < at ==> seq_lt((#[trigger] orig[k])@, x@),
        at < orig.len() ==> seq_lt(x@, orig[at]@),
    ensures
        tree_sorted(strs_view(orig.insert(at, x))),
        forall|k: Seq<char>|
            #[trigger] str_in(orig.insert(at, x), k) <==> str_in(orig, k) || x@ == k,
{
    let now = orig.insert(at, x);
    assert forall|i: int, j: int| 0 <= i < j < now.len() implies seq_lt(
        #[trigger] strs_view(now)[i],
        #[trigger] strs_view(now)[j],
    ) by {
        assert(strs_view(now)[i] == now[i]@);
        assert(strs_view(now)[j] == now[j]@);
        assert forall|t: int| 0 <= t < orig.len() implies #[trigger] strs_view(orig)[t]
            == orig[t]@ by {}
        if i < at && j > at {
            assert(seq_lt(strs_view(orig)[i], strs_view(orig)[j - 1]));
        } else if i == at && j > at {
            if j - 1 > at {
                assert(seq_lt(strs_view(orig)[at], strs_view(orig)[j - 1]));
                lemma_seq_lt_trans(x@, orig[at]@, orig[j - 1]@);
            }
        } else if i < at && j == at {
            assert(seq_lt(orig[i]@, x@));
        } else if j < at || (i > at && j > at) {
            let ii: int = if i < at {
                i
            } else {
                i - 1
            };
            let jj: int = if j < at {
                j
            } else {
                j - 1
            };
            assert(seq_lt(strs_view(orig)[ii], strs_view(orig)[jj]));
        }
    }
    assert forall|k: Seq<char>| #[trigger] str_in(now, k) implies str_in(orig, k) || x@ == k by {
        let i = choose|i: int| 0 <= i < now.len() && (#[trigger] now[i])@ == k;
        if i < at {
            assert(orig[i]@ == k);
        } else if i > at {
            assert(orig[i - 1]@ == k);
        }
    }
    assert forall|k: Seq<char>| str_in(orig, k) || x@ == k implies #[trigger] str_in(now, k) by {
        if x@ == k {
            assert(now[at]@ == k);
        } else {
            let i = choose|i: int| 0 <= i < orig.len() && (#[trigger] orig[i])@ == k;
            if i < at {
                assert(now[i]@ == k);
            } else {
                assert(now[i + 1]@ == k);
            }
        }
    }
}

/// Inserts a path into a sorted list of paths; a path already present
/// stays as the one copy.
fn insert_path(out: &mut Vec<String>, p: String)
    requires
        tree_sorted(strs_view(old(out)@)),
    ensures
        tree_sorted(strs_view(final(out)@)),
        forall|k: Seq<char>|
            #[trigger] str_in(final(out)@, k) <==> str_in(old(out)@, k) || k == p@,
{
    let ghost orig = out@;
    let mut i: usize = 0;
    let mut found: bool = false;
    loop
        invariant_except_break
            !found,
        invariant
            0 <= i <= orig.len(),
            out@ == orig,
            tree_sorted(strs_view(orig)),
            forall|k: int| 0 <= k < i ==> seq_lt((#[trigger] orig[k])@, p@),
        ensures
            out@ == orig,
            forall|k: int| 0 <= k < i ==> seq_lt((#[trigger] orig[k])@, p@),
            found ==> i < orig.len() && orig[i as int]@ == p@,
            !found ==> i == orig.len() || seq_lt(p@, orig[i as int]@),
            i <= orig.len(),
        decreases orig.len() - i,
    {
        if i == out.len() {
            break;
        }
        proof {
            assert(strs_view(orig)[i as int] == orig[i as int]@);
        }
        match str_compare(out[i].as_str(), p.as_str()) {
            Rel::Before => {
                i = i + 1;
            },
            Rel::Equal => {
                found = true;
                break;
            },
            Rel::After => {
                break;
            },
        }
    }
    if found {
        proof {
            assert(str_in(orig, p@));
        }
    } else {
        out.insert(i, p);
        proof {
            lemma_insert_path_post(orig, i as int, p);
        }
    }
}

/// Sorts a tree scan into the path order and drops duplicate paths, so it
/// is ordered the same way as the records it will be merged with.
pub fn sort_paths(paths: &Vec<String>) -> (r: Vec<String>)
    ensures
        tree_sorted(strs_view(r@)),
        forall|k: Seq<char>| #[trigger] str_in(r@, k) <==> str_in(paths@, k),
{
    let mut out: Vec<String> = Vec::new();
    let mut i: usize = 0;
    while i < paths.len()
        invariant
            0 <= i <= paths@.len(),
            tree_sorted(strs_view(out@)),
            forall|k: Seq<char>|
                #[trigger] str_in(out@, k) <==> exists|j: int|
                    0 <= j < i && (#[trigger] paths@[j])@ == k,
        decreases paths@.len() - i,
    {
        let ghost before = out@;
        insert_path(&mut out, paths[i].clone());
        proof {
            assert forall|k: Seq<char>| #[trigger] str_in(out@, k) implies exists|j: int|
                0 <= j < i + 1 && (#[trigger] paths@[j])@ == k by {
                if str_in(before, k) {
                    let j = choose|j: int| 0 <= j < i && (#[trigger] paths@[j])@ == k;
                    assert(paths@[j]@ == k);
                } else {
                    assert(paths@[i as int]@ == k);
                }
            }
            assert forall|k: Seq<char>|
                (exists|j: int| 0 <= j < i + 1 && (#[trigger] paths@[j])@ == k) implies #[trigger] str_in(
                out@,
                k,
            ) by {
                let j = choose|j: int| 0 <= j < i + 1 && (#[trigger] paths@[j])@ == k;
                if j < i {
                    assert(str_in(before, k));
                }
            }
        }
        i = i + 1;
    }
    proof {
        assert forall|k: Seq<char>| #[trigger] str_in(out@, k) <==> str_in(paths@, k) by {
            if str_in(out@, k) {
                let j = choose|j: int| 0 <= j < paths@.len() && (#[trigger] paths@[j])@ == k;
                assert(paths@[j]@ == k);
            }
            if str_in(paths@, k) {
                let j = choose|j: int| 0 <= j < paths@.len() && (#[trigger] paths@[j])@ == k;
                assert(paths@[j]@ == k);
                assert(str_in(out@, k));
            }
        }
    }
    out
}

} // verus!
