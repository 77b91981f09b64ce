//! The changeset model: a workspace, its sorted records, and the
//! positional import of the two sidecar files.
//!
//! A record pairs a relative source path with an action.  A changeset keeps
//! its records sorted by path with unique keys, so the exported source-list
//! is deterministic and reconciliation can merge-join against a sorted tree
//! scan.

use vstd::prelude::*;

use crate::action::{Action, ActionV, format_spec, parse_spec};
use crate::order::{Rel, lemma_seq_lt_irrefl, lemma_seq_lt_trans, seq_lt, str_compare};
use crate::paths::path_join;

verus! {

/// One pending action for one file.
#[derive(Debug, Clone, PartialEq, Eq)]
pub struct Record {
    /// The file's current path, relative to the workspace.
    pub source: String,
    /// What happens to the file.
    pub action: Action,
}

/// The records are strictly sorted by source path, so every key is unique.
pub open spec fn sorted_unique(rs: Seq<Record>) -> bool {
    forall|i: int, j: int|
        0 <= i < j < rs.len() ==> seq_lt(#[trigger] rs[i].source@, #[trigger] rs[j].source@)
}

/// Some record carries this source path.
pub open spec fn has_key(rs: Seq<Record>, k: Seq<char>) -> bool {
    exists|i: int| 0 <= i < rs.len() && #[trigger] rs[i].source@ == k
}

/// The position of the record that carries a source path.
pub open spec fn key_index(rs: Seq<Record>, k: Seq<char>) -> int {
    choose|i: int| 0 <= i < rs.len() && #[trigger] rs[i].source@ == k
}

/// The action recorded for a source path.
pub open spec fn lookup(rs: Seq<Record>, k: Seq<char>) -> ActionV {
    rs[key_index(rs, k)].action@
}

/// In a sorted record list the action looked up by key is the action
/// stored at the key's position.
pub proof fn lemma_lookup_at(rs: Seq<Record>, i: int)
    requires
        sorted_unique(rs),
        0 <= i < rs.len(),
    ensures
        has_key(rs, rs[i].source@),
        lookup(rs, rs[i].source@) == rs[i].action@,
{
    let k = rs[i].source@;
    assert(has_key(rs, k));
    let j = key_index(rs, k);
    assert(0 <= j < rs.len() && rs[j].source@ == k);
    if i < j {
        assert(seq_lt(rs[i].source@, rs[j].source@));
        lemma_seq_lt_irrefl(k);
    }
    if j < i {
        assert(seq_lt(rs[j].source@, rs[i].source@));
        lemma_seq_lt_irrefl(k);
    }
    assert(i == j);
}

/// Inserts one pairing into a sorted record list: an existing record for
/// the same path is overwritten, any other record is kept as it stands.
pub fn insert_record(records: &mut Vec<Record>, source: String, action: Action)
    requires
        sorted_unique(old(records)@),
    ensures
        sorted_unique(final(records)@),
        final(records)@.len() <= old(records)@.len() + 1,
        old(records)@.len() <= final(records)@.len(),
        forall|k: Seq<char>|
            #[trigger] has_key(final(records)@, k) <==> has_key(old(records)@, k) || k
                == source@,
        lookup(final(records)@, source@) == action@,
        forall|k: Seq<char>|
            has_key(old(records)@, k) && k != source@ ==> #[trigger] lookup(final(records)@, k)
                == lookup(old(records)@, k),
{
    let ghost orig = records@;
    let mut i: usize = 0;
    let mut found: bool = false;
    loop
        invariant_except_break
            !found,
        invariant
            0 <= i <= orig.len(),
            records@ == orig,
            sorted_unique(orig),
            forall|k: int| 0 <= k < i ==> seq_lt(#[trigger] orig[k].source@, source@),
        ensures
            records@ == orig,
            forall|k: int| 0 <= k < i ==> seq_lt(#[trigger] orig[k].source@, source@),
            found ==> i < orig.len() && orig[i as int].source@ == source@,
            !found ==> i == orig.len() || seq_lt(source@, orig[i as int].source@),
            i <= orig.len(),
        decreases orig.len() - i,
    {
        if i == records.len() {
            break;
        }
        match str_compare(records[i].source.as_str(), source.as_str()) {
            Rel::Before => {
                i = i + 1;
            },
            Rel::Equal => {
                found = true;
                break;
            },
            Rel::After => {
                break;
            },
        }
    }
    let rec = Record { source, action };
    if found {
        let _ = records.remove(i);
        records.insert(i, rec);
        proof {
            let now = records@;
            assert(now =~= orig.update(i as int, rec));
            lemma_replace_post(orig, i as int, rec);
        }
    } else {
        records.insert(i, rec);
        proof {
            lemma_insert_post(orig, i as int, rec);
        }
    }
}

/// Replacing the record at a key's own position rewrites that key's action
/// and leaves every other pairing alone.
proof fn lemma_replace_post(orig: Seq<Record>, at: int, rec: Record)
    requires
        sorted_unique(orig),
        0 <= at < orig.len(),
        orig[at].source@ == rec.source@,
    ensures
        sorted_unique(orig.update(at, rec)),
        forall|k: Seq<char>|
            #[trigger] has_key(orig.update(at, rec), k) <==> has_key(orig, k) || k == rec.source@,
        lookup(orig.update(at, rec), rec.source@) == rec.action@,
        forall|k: Seq<char>|
            has_key(orig, k) && k != rec.source@ ==> #[trigger] lookup(orig.update(at, rec), k)
                == lookup(orig, k),
{
    let now = orig.update(at, rec);
    assert forall|i: int, j: int| 0 <= i < j < now.len() implies seq_lt(
        #[trigger] now[i].source@,
        #[trigger] now[j].source@,
    ) by {
        assert(seq_lt(orig[i].source@, orig[j].source@));
    }
    assert forall|k: Seq<char>| #[trigger] has_key(now, k) implies has_key(orig, k) || k
        == rec.source@ by {
        let i = choose|i: int| 0 <= i < now.len() && #[trigger] now[i].source@ == k;
        if i != at {
            assert(orig[i].source@ == k);
        }
    }
    assert forall|k: Seq<char>| has_key(orig, k) || k == rec.source@ implies #[trigger] has_key(
        now,
        k,
    ) by {
        if k == rec.source@ {
            assert(now[at].source@ == k);
        } else {
            let i = choose|i: int| 0 <= i < orig.len() && #[trigger] orig[i].source@ == k;
            assert(now[i].source@ == k);
        }
    }
    lemma_lookup_at(now, at);
    assert forall|k: Seq<char>|
        has_key(orig, k) && k != rec.source@ implies #[trigger] lookup(now, k) == lookup(
        orig,
        k,
    ) by {
        let i = choose|i: int| 0 <= i < orig.len() && #[trigger] orig[i].source@ == k;
        lemma_lookup_at(orig, i);
        assert(now[i].source@ == k);
        lemma_lookup_at(now, i);
    }
}

/// Inserting a fresh key between its sorted neighbours keeps the list
/// sorted, adds exactly that pairing and leaves every other one alone.
proof fn lemma_insert_post(orig: Seq<Record>, at: int, rec: Record)
    requires
        sorted_unique(orig),
        0 <= at <= orig.len(),
        forall|k: int| 0 <= k < at ==> seq_lt(#[trigger] orig[k].source@, rec.source@),
        at < orig.len() ==> seq_lt(rec.source@, orig[at].source@),
    ensures
        sorted_unique(orig.insert(at, rec)),
        forall|k: Seq<char>|
            #[trigger] has_key(orig.insert(at, rec), k) <==> has_key(orig, k) || k
                == rec.source@,
        lookup(orig.insert(at, rec), rec.source@) == rec.action@,
        forall|k: Seq<char>|
            has_key(orig, k) && k != rec.source@ ==> #[trigger] lookup(orig.insert(at, rec), k)
                == lookup(orig, k),
{
    let now = orig.insert(at, rec);
    assert(now.len() == orig.len() + 1);
    assert forall|i: int| 0 <= i < now.len() implies now[i] == (if i < at {
        orig[i]
    } else if i == at {
        rec
    } else {
        orig[i - 1]
    }) by {}
    assert forall|i: int, j: int| 0 <= i < j < now.len() implies seq_lt(
        #[trigger] now[i].source@,
        #[trigger] now[j].source@,
    ) by {
        if i < at && j > at {
            assert(seq_lt(orig[i].source@, orig[j - 1].source@));
        } else if i == at && j > at {
            if at < orig.len() {
                if j - 1 > at {
                    lemma_seq_lt_trans(rec.source@, orig[at].source@, orig[j - 1].source@);
                }
            }
        } else if i < at && j == at {
            assert(seq_lt(orig[i].source@, rec.source@));
        } else if j < at || (i > at && j > at) {
            assert(seq_lt(orig[if i < at {
                i
            } else {
                i - 1
            }].source@, orig[if j < at {
                j
            } else {
                j - 1
            }].source@));
        }
    }
    assert forall|k: Seq<char>| #[trigger] has_key(now, k) implies has_key(orig, k) || k
        == rec.source@ by {
        let i = choose|i: int| 0 <= i < now.len() && #[trigger] now[i].source@ == k;
        if i < at {
            assert(orig[i].source@ == k);
        } else if i > at {
            assert(orig[i - 1].source@ == k);
        }
    }
    assert forall|k: Seq<char>| has_key(orig, k) || k == rec.source@ implies #[trigger] has_key(
        now,
        k,
    ) by {
        if k == rec.source@ {
            assert(now[at].source@ == k);
        } else {
            let i = choose|i: int| 0 <= i < orig.len() && #[trigger] orig[i].source@ == k;
            if i < at {
                assert(now[i].source@ == k);
            } else {
                assert(now[i + 1].source@ == k);
            }
        }
    }
    lemma_lookup_at(now, at);
    assert forall|k: Seq<char>|
        has_key(orig, k) && k != rec.source@ implies #[trigger] lookup(now, k) == lookup(
        orig,
        k,
    ) by {
        let i = choose|i: int| 0 <= i < orig.len() && #[trigger] orig[i].source@ == k;
        lemma_lookup_at(orig, i);
        if i < at {
            assert(now[i].source@ == k);
            lemma_lookup_at(now, i);
        } else {
            assert(now[i + 1].source@ == k);
            lemma_lookup_at(now, i + 1);
        }
    }
}

/// The views of a list of strings.
pub open spec fn strs_view(ss: Seq<String>) -> Seq<Seq<char>> {
    ss.map_values(|s: String| s@)
}

/// The last position before `n` at which a key occurs, or a negative
/// number when it does not: with duplicate source lines the last write
/// wins.
pub open spec fn last_idx(ss: Seq<Seq<char>>, n: int, k: Seq<char>) -> int
    decreases n,
{
    if n <= 0 {
        -1
    } else if ss[n - 1] == k {
        n - 1
    } else {
        last_idx(ss, n - 1, k)
    }
}

/// A key that occurs before `n` has its last occurrence before `n`, at the
/// key itself.
pub proof fn lemma_last_idx_props(ss: Seq<Seq<char>>, n: int, k: Seq<char>)
    requires
        exists|idx: int| 0 <= idx < n && #[trigger] ss[idx] == k,
    ensures
        0 <= last_idx(ss, n, k) < n,
        ss[last_idx(ss, n, k)] == k,
    decreases n,
{
    if ss[n - 1] != k {
        let idx = choose|idx: int| 0 <= idx < n && #[trigger] ss[idx] == k;
        assert(0 <= idx < n - 1);
        lemma_last_idx_props(ss, n - 1, k);
    }
}

/// A directory whose changeset lives in two sidecar files inside it.
#[derive(Debug, Clone)]
pub struct Workspace {
    /// The directory the changeset describes.
    pub path: String,
}

/// The shorter of the two sidecar files' line counts: the number of fully
/// paired lines.
pub open spec fn paired_len(ss: Seq<Seq<char>>, ts: Seq<Seq<char>>) -> int {
    if ss.len() <= ts.len() {
        ss.len() as int
    } else {
        ts.len() as int
    }
}

/// What a positional import of the two sidecar files' lines yields: the
/// paired prefix as a sorted mapping with the last write winning on
/// duplicate paths, and the unpaired tail of either file kept aside.
pub open spec fn import_post(
    r: ChangeSetImport,
    ws: Workspace,
    ss: Seq<Seq<char>>,
    ts: Seq<Seq<char>>,
) -> bool {
    let m = paired_len(ss, ts);
    &&& r.workspace == ws
    &&& sorted_unique(r.records@)
    &&& r.records@.len() <= m
    &&& (forall|k: Seq<char>|
        #[trigger] has_key(r.records@, k) <==> exists|idx: int| 0 <= idx < m && #[trigger] ss[idx]
            == k)
    &&& (forall|k: Seq<char>|
        #[trigger] has_key(r.records@, k) ==> lookup(r.records@, k) == parse_spec(
            ts[last_idx(ss, m, k)],
        ))
    &&& r.unmapped_sources@.len() == ss.len() - m
    &&& (forall|j: int|
        0 <= j < ss.len() - m ==> (#[trigger] r.unmapped_sources@[j])@ == ss[m + j])
    &&& r.unmapped_targets@.len() == ts.len() - m
    &&& (forall|j: int|
        0 <= j < ts.len() - m ==> (#[trigger] r.unmapped_targets@[j])@ == parse_spec(ts[m + j]))
}

/// Importing sidecar files with equal line counts leaves nothing
/// unmapped — the import is clean — and collapses duplicates, so the
/// mapping holds at most one record per line.
pub proof fn lemma_import_aligned(
    r: ChangeSetImport,
    ws: Workspace,
    ss: Seq<Seq<char>>,
    ts: Seq<Seq<char>>,
)
    requires
        import_post(r, ws, ss, ts),
        ss.len() == ts.len(),
    ensures
        r.records@.len() <= ss.len(),
        clean_spec(r),
{
}

/// Importing sidecar files with unequal line counts puts exactly the
/// difference into the longer side's unmapped list, and the import is not
/// clean.
pub proof fn lemma_import_misaligned(
    r: ChangeSetImport,
    ws: Workspace,
    ss: Seq<Seq<char>>,
    ts: Seq<Seq<char>>,
)
    requires
        import_post(r, ws, ss, ts),
    ensures
        ts.len() < ss.len() ==> r.unmapped_sources@.len() == ss.len() - ts.len()
            && r.unmapped_targets@.len() == 0,
        ss.len() < ts.len() ==> r.unmapped_targets@.len() == ts.len() - ss.len()
            && r.unmapped_sources@.len() == 0,
        ss.len() != ts.len() ==> !clean_spec(r),
{
}

/// A possibly misaligned changeset read back from the sidecar files.
#[derive(Debug, Clone)]
pub struct ChangeSetImport {
    /// The workspace the sidecar files belong to.
    pub workspace: Workspace,
    /// The fully paired lines, sorted by source path.
    pub records: Vec<Record>,
    /// Source lines with no target line to pair with.
    pub unmapped_sources: Vec<String>,
    /// Target lines with no source line to pair with.
    pub unmapped_targets: Vec<Action>,
}

/// An import is clean when every line found a partner.
pub open spec fn clean_spec(s: ChangeSetImport) -> bool {
    s.unmapped_sources@.len() == 0 && s.unmapped_targets@.len() == 0
}

impl ChangeSetImport {
    /// An import with nothing in it.
    pub fn empty(workspace: Workspace) -> (r: Self)
        ensures
            r.workspace == workspace,
            r.records@.len() == 0,
            r.unmapped_sources@.len() == 0,
            r.unmapped_targets@.len() == 0,
    {
        Self {
            workspace,
            records: Vec::new(),
            unmapped_sources: Vec::new(),
            unmapped_targets: Vec::new(),
        }
    }

    /// Pairs the lines of the two sidecar files by position: line `i` of
    /// the source-list names the file that line `i` of the target-list
    /// decides about.  Lines of either file beyond the other's end go to
    /// the unmapped lists.
    pub fn import(workspace: Workspace, sources: Vec<String>, targets: Vec<String>) -> (r: Self)
        ensures
            import_post(r, workspace, strs_view(sources@), strs_view(targets@)),
    {
        let ghost ss = strs_view(sources@);
        let ghost ts = strs_view(targets@);
        let m = if sources.len() <= targets.len() {
            sources.len()
        } else {
            targets.len()
        };
        let mut records: Vec<Record> = Vec::new();
        let mut i: usize = 0;
        while i < m
            invariant
                0 <= i <= m,
                m == paired_len(ss, ts),
                ss == strs_view(sources@),
                ts == strs_view(targets@),
                m <= sources@.len(),
                m <= targets@.len(),
                sorted_unique(records@),
                records@.len() <= i,
                forall|k: Seq<char>|
                    #[trigger] has_key(records@, k) <==> exists|idx: int|
                        0 <= idx < i && #[trigger] ss[idx] == k,
                forall|k: Seq<char>|
                    #[trigger] has_key(records@, k) ==> lookup(records@, k) == parse_spec(
                        ts[last_idx(ss, i as int, k)],
                    ),
            decreases m - i,
        {
            let ghost before = records@;
            let source = sources[i].clone();
            let target = Action::parse(targets[i].as_str());
            proof {
                assert(source@ == ss[i as int]);
                assert(targets@[i as int]@ == ts[i as int]);
            }
            insert_record(&mut records, source, target);
            proof {
                assert forall|k: Seq<char>| #[trigger] has_key(records@, k) implies exists|idx: int|
                    0 <= idx < i + 1 && #[trigger] ss[idx] == k by {
                    if k == ss[i as int] {
                        assert(ss[i as int] == k);
                    } else {
                        assert(has_key(before, k));
                        let idx = choose|idx: int| 0 <= idx < i && #[trigger] ss[idx] == k;
                        assert(ss[idx] == k);
                    }
                }
                assert forall|k: Seq<char>|
                    (exists|idx: int| 0 <= idx < i + 1 && #[trigger] ss[idx] == k) implies #[trigger] has_key(
                    records@,
                    k,
                ) by {
                    let idx = choose|idx: int| 0 <= idx < i + 1 && #[trigger] ss[idx] == k;
                    if idx < i {
                        assert(has_key(before, k));
                    }
                }
                assert forall|k: Seq<char>| #[trigger] has_key(records@, k) implies lookup(
                    records@,
                    k,
                ) == parse_spec(ts[last_idx(ss, i + 1, k)]) by {
                    if k == ss[i as int] {
                        assert(last_idx(ss, i + 1, k) == i);
                    } else {
                        assert(last_idx(ss, i + 1, k) == last_idx(ss, i as int, k));
                        assert(has_key(before, k));
                    }
                }
            }
            i = i + 1;
        }
        let mut unmapped_sources: Vec<String> = Vec::new();
        let mut j: usize = m;
        while j < sources.len()
            invariant
                m <= j <= sources@.len(),
                ss == strs_view(sources@),
                unmapped_sources@.len() == j - m,
                forall|t: int|
                    0 <= t < j - m ==> (#[trigger] unmapped_sources@[t])@ == ss[m + t],
            decreases sources@.len() - j,
        {
            unmapped_sources.push(sources[j].clone());
            j = j + 1;
        }
        let mut unmapped_targets: Vec<Action> = Vec::new();
        let mut j: usize = m;
        while j < targets.len()
            invariant
                m <= j <= targets@.len(),
                ts == strs_view(targets@),
                unmapped_targets@.len() == j - m,
                forall|t: int|
                    0 <= t < j - m ==> (#[trigger] unmapped_targets@[t])@ == parse_spec(ts[m + t]),
            decreases targets@.len() - j,
        {
            unmapped_targets.push(Action::parse(targets[j].as_str()));
            j = j + 1;
        }
        Self { workspace, records, unmapped_sources, unmapped_targets }
    }

    /// The workspace the import was read from.
    pub fn workspace(&self) -> (r: &Workspace)
        ensures
            *r == self.workspace,
    {
        &self.workspace
    }

    /// The directory of that workspace.
    pub fn path(&self) -> (r: &String)
        ensures
            *r == self.workspace.path,
    {
        &self.workspace.path
    }

    /// The paired records.
    pub fn records(&self) -> (r: &Vec<Record>)
        ensures
            *r == self.records,
    {
        &self.records
    }

    /// The paired records, open to change.
    pub fn records_mut(&mut self) -> (r: &mut Vec<Record>)
        ensures
            *r == old(self).records,
    {
        &mut self.records
    }

    /// Whether every line found a partner.
    pub fn is_clean(&self) -> (r: bool)
        ensures
            r == clean_spec(*self),
    {
        self.unmapped_sources.len() == 0 && self.unmapped_targets.len() == 0
    }

    /// Promotes a clean import to a changeset; a misaligned one yields
    /// nothing and must go back to the editor.
    pub fn clean(self) -> (r: Option<ChangeSet>)
        ensures
            r is Some <==> clean_spec(self),
            r matches Some(cs) ==> cs.workspace == self.workspace && cs.records == self.records,
    {
        if self.is_clean() {
            Some(ChangeSet { workspace: self.workspace, records: self.records })
        } else {
            None
        }
    }
}

/// A fully paired changeset: one action per source path, sorted by path.
#[derive(Debug, Clone)]
pub struct ChangeSet {
    /// The workspace the changeset belongs to.
    pub workspace: Workspace,
    /// One record per file of the tree snapshot, sorted by source path.
    pub records: Vec<Record>,
}

impl ChangeSet {
    /// Wraps a workspace and its records.
    pub fn create(workspace: Workspace, records: Vec<Record>) -> (r: Self)
        ensures
            r.workspace == workspace,
            r.records == records,
    {
        Self { workspace, records }
    }

    /// The lines of the two sidecar files: line `i` of the first names the
    /// `i`-th source path, line `i` of the second formats its action.
    pub fn export(&self) -> (r: (Vec<String>, Vec<String>))
        ensures
            r.0@.len() == self.records@.len(),
            r.1@.len() == self.records@.len(),
            forall|i: int|
                0 <= i < self.records@.len() ==> (#[trigger] r.0@[i])@ == self.records@[i].source@,
            forall|i: int|
                0 <= i < self.records@.len() ==> (#[trigger] r.1@[i])@ == format_spec(
                    self.records@[i].action@,
                ),
    {
        let mut sources: Vec<String> = Vec::new();
        let mut targets: Vec<String> = Vec::new();
        let mut i: usize = 0;
        while i < self.records.len()
            invariant
                0 <= i <= self.records@.len(),
                sources@.len() == i,
                targets@.len() == i,
                forall|t: int|
                    0 <= t < i ==> (#[trigger] sources@[t])@ == self.records@[t].source@,
                forall|t: int|
                    0 <= t < i ==> (#[trigger] targets@[t])@ == format_spec(
                        self.records@[t].action@,
                    ),
            decreases self.records@.len() - i,
        {
            sources.push(self.records[i].source.clone());
            targets.push(self.records[i].action.format());
            i = i + 1;
        }
        (sources, targets)
    }

    /// The workspace the changeset belongs to.
    pub fn workspace(&self) -> (r: &Workspace)
        ensures
            *r == self.workspace,
    {
        &self.workspace
    }

    /// The directory of that workspace.
    pub fn path(&self) -> (r: &String)
        ensures
            *r == self.workspace.path,
    {
        &self.workspace.path
    }

    /// The records.
    pub fn records(&self) -> (r: &Vec<Record>)
        ensures
            *r == self.records,
    {
        &self.records
    }

    /// Takes the changeset apart into its workspace and its records.
    pub fn split(self) -> (r: (Workspace, Vec<Record>))
        ensures
            r.0 == self.workspace,
            r.1 == self.records,
    {
        (self.workspace, self.records)
    }
}

impl Workspace {
    /// A workspace at a directory, whether or not it is initialized.
    pub fn at(path: String) -> (r: Self)
        ensures
            r.path == path,
    {
        Self { path }
    }

    /// A workspace at a directory, provided both sidecar files are present
    /// there: the caller passes what it found on disk.
    pub fn open(path: String, sources_present: bool, targets_present: bool) -> (r: Option<Self>)
        ensures
            r is Some <==> sources_present && targets_present,
            r matches Some(w) ==> w.path == path,
    {
        if sources_present && targets_present {
            Some(Self::at(path))
        } else {
            None
        }
    }

    /// Pairs the given sidecar file lines into an import for this
    /// workspace.
    pub fn import(self, sources: Vec<String>, targets: Vec<String>) -> (r: ChangeSetImport)
        ensures
            import_post(r, self, strs_view(sources@), strs_view(targets@)),
    {
        ChangeSetImport::import(self, sources, targets)
    }

    /// The workspace directory.
    pub fn path(&self) -> (r: &String)
        ensures
            *r == self.path,
    {
        &self.path
    }

    /// The name of the source-list sidecar file.
    pub open spec fn sources_name() -> Seq<char> {
        ".mmv.sources"@
    }

    /// The name of the target-list sidecar file.
    pub open spec fn targets_name() -> Seq<char> {
        ".mmv.targets"@
    }

    /// Where the source-list sidecar file lives.
    pub fn sources_path(&self) -> (r: String)
        ensures
            r@ == path_join(self.path@, Self::sources_name()),
    {
        crate::paths::join(self.path.as_str(), ".mmv.sources")
    }

    /// Where the target-list sidecar file lives.
    pub fn targets_path(&self) -> (r: String)
        ensures
            r@ == path_join(self.path@, Self::targets_name()),
    {
        crate::paths::join(self.path.as_str(), ".mmv.targets")
    }
}

} // verus!
