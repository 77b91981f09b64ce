//! The execution engine's plan: the ordered filesystem steps that apply a
//! changeset.
//!
//! Records are walked in path order.  A move becomes three steps — make the
//! destination's directories, copy the bytes, remove the original — and a
//! delete becomes a single removal.  The copy of a move always stands
//! immediately before the removal of its source, so a failure between the
//! two leaves the original intact; at worst a duplicate exists at the
//! destination.

use vstd::prelude::*;

use crate::action::ActionV;
use crate::changeset::{ChangeSet, Record};
use crate::paths::{parent_spec, path_join};

verus! {

/// One filesystem operation of the plan.
#[derive(Debug, Clone, PartialEq, Eq)]
pub enum Step {
    /// Create this directory and its missing parents.
    EnsureDirs { path: String },
    /// Duplicate the file at `from` to `to`; the copy must be complete
    /// before any later step runs.
    CopyFile { from: String, to: String },
    /// Remove the file at this path.
    RemoveFile { path: String },
}

/// The mathematical form of a [`Step`].
pub enum StepV {
    EnsureDirs { path: Seq<char> },
    CopyFile { from: Seq<char>, to: Seq<char> },
    RemoveFile { path: Seq<char> },
}

impl View for Step {
    type V = StepV;

    open spec fn view(&self) -> StepV {
        match self {
            Step::EnsureDirs { path } => StepV::EnsureDirs { path: path@ },
            Step::CopyFile { from, to } => StepV::CopyFile { from: from@, to: to@ },
            Step::RemoveFile { path } => StepV::RemoveFile { path: path@ },
        }
    }
}

/// The views of a list of steps.
pub open spec fn steps_view(ss: Seq<Step>) -> Seq<StepV> {
    ss.map_values(|s: Step| s@)
}

/// The steps one record contributes: nothing for an ignore, one removal
/// for a delete, and directories–copy–removal for a move.
pub open spec fn record_steps(root: Seq<char>, dest: Seq<char>, r: Record) -> Seq<StepV> {
    match r.action@ {
        ActionV::Move(t) => {
            let from = path_join(root, r.source@);
            let to = path_join(dest, t);
            (match parent_spec(to) {
                Some(p) => seq![StepV::EnsureDirs { path: p }],
                None => Seq::<StepV>::empty(),
            }) + seq![StepV::CopyFile { from, to }, StepV::RemoveFile { path: from }]
        },
        ActionV::Delete => seq![StepV::RemoveFile { path: path_join(root, r.source@) }],
        ActionV::Ignore(_) => Seq::<StepV>::empty(),
    }
}

/// The whole plan: each record's steps in record order.
pub open spec fn plan_spec(root: Seq<char>, dest: Seq<char>, rs: Seq<Record>) -> Seq<StepV>
    decreases rs.len(),
{
    if rs.len() == 0 {
        Seq::empty()
    } else {
        plan_spec(root, dest, rs.drop_last()) + record_steps(root, dest, rs.last())
    }
}

impl ChangeSet {
    /// Lays out the filesystem steps that apply this changeset against a
    /// destination root, in record order.
    pub fn execute_plan(&self, dest: &str) -> (r: Vec<Step>)
        ensures
            steps_view(r@) == plan_spec(self.workspace.path@, dest@, self.records@),
    {
        let ghost root_v = self.workspace.path@;
        let ghost dest_v = dest@;
        let mut out: Vec<Step> = Vec::new();
        let mut i: usize = 0;
        proof {
            assert(self.records@.take(0) =~= Seq::<Record>::empty());
            assert(steps_view(out@) =~= plan_spec(root_v, dest_v, self.records@.take(0)));
        }
        while i < self.records.len()
            invariant
                0 <= i <= self.records@.len(),
                root_v == self.workspace.path@,
                dest_v == dest@,
                steps_view(out@) == plan_spec(root_v, dest_v, self.records@.take(i as int)),
            decreases self.records@.len() - i,
        {
            let ghost out_before = out@;
            let rec = &self.records[i];
            match &rec.action {
                crate::action::Action::Move(t) => {
                    let from = crate::paths::join(self.workspace.path.as_str(), rec.source.as_str());
                    let to = crate::paths::join(dest, t.as_str());
                    match crate::paths::parent_of(to.as_str()) {
                        Some(p) => {
                            out.push(Step::EnsureDirs { path: p });
                        },
                        None => {},
                    }
                    out.push(Step::CopyFile { from: from.clone(), to });
                    out.push(Step::RemoveFile { path: from });
                },
                crate::action::Action::Delete => {
                    let path = crate::paths::join(self.workspace.path.as_str(), rec.source.as_str());
                    out.push(Step::RemoveFile { path });
                },
                crate::action::Action::Ignore(_) => {},
            }
            proof {
                assert(steps_view(out@) =~= steps_view(out_before) + record_steps(
                    root_v,
                    dest_v,
                    self.records@[i as int],
                ));
                lemma_plan_take_step(root_v, dest_v, self.records@, i as int);
            }
            i = i + 1;
        }
        proof {
            assert(self.records@.take(self.records@.len() as int) =~= self.records@);
        }
        out
    }
}

/// Extending the planned prefix by one record appends that record's steps.
proof fn lemma_plan_take_step(root: Seq<char>, dest: Seq<char>, rs: Seq<Record>, i: int)
    requires
        0 <= i < rs.len(),
    ensures
        plan_spec(root, dest, rs.take(i + 1)) == plan_spec(root, dest, rs.take(i)) + record_steps(
            root,
            dest,
            rs[i],
        ),
{
    let t1 = rs.take(i + 1);
    assert(t1.len() == i + 1);
    assert(t1.drop_last() =~= rs.take(i));
    assert(t1.last() == rs[i]);
}

/// Every copy of the plan is immediately followed by the removal of the
/// file it copied from: for each moved file the duplication completes
/// before its source is removed, whatever happens later.
pub proof fn lemma_copy_precedes_removal(root: Seq<char>, dest: Seq<char>, rs: Seq<Record>, i: int)
    requires
        0 <= i < plan_spec(root, dest, rs).len(),
        plan_spec(root, dest, rs)[i] is CopyFile,
    ensures
        i + 1 < plan_spec(root, dest, rs).len(),
        plan_spec(root, dest, rs)[i] matches StepV::CopyFile { from, to } ==> plan_spec(
            root,
            dest,
            rs,
        )[i + 1] == (StepV::RemoveFile { path: from }),
    decreases rs.len(),
{
    let plan = plan_spec(root, dest, rs);
    let prefix = plan_spec(root, dest, rs.drop_last());
    let steps = record_steps(root, dest, rs.last());
    if i < prefix.len() {
        lemma_copy_precedes_removal(root, dest, rs.drop_last(), i);
        assert(plan[i] == prefix[i]);
        assert(plan[i + 1] == prefix[i + 1]);
    } else {
        let j = i - prefix.len();
        assert(plan[i] == steps[j]);
        match rs.last().action@ {
            ActionV::Move(t) => {
                let to = path_join(dest, t);
                match parent_spec(to) {
                    Some(p) => {
                        assert(j == 1);
                        assert(plan[i + 1] == steps[2]);
                    },
                    None => {
                        assert(j == 0);
                        assert(plan[i + 1] == steps[1]);
                    },
                }
            },
            ActionV::Delete => {
                assert(!(steps[j] is CopyFile));
            },
            ActionV::Ignore(_) => {
                assert(steps.len() == 0);
            },
        }
    }
}

} // verus!
