//! The steps of a worker between two runs of the executor: where the next
//! program comes from, and where a program goes once it has been run.

use crate::analyze::RTable;
use crate::corpus::{CQueue, Corpus};
use crate::feedback::{reached, Block, Branch, FeedBack};
use crate::gen::{gen, tables_ok};
use crate::typing::prog_ok;
use crate::plan::plan_cap;
use crate::prog::Prog;
use crate::report::{crash_path_text, CrashedCase, TestCaseRecord};
use crate::script::Script;
use crate::target::Target;
use crate::types::GroupId;
use std::collections::HashMap;
use std::hash::BuildHasher;
use vstd::prelude::*;
use vstd::std_specs::hash::builds_valid_hashers;

verus! {

/// What a fuzzing process is started with.
#[derive(Debug, Clone, PartialEq, Eq)]
pub struct Config {
    /// The file that holds the schema.
    pub fots_bin: String,
    /// The file that holds the programs to start from, if any.
    pub curpus: Option<String>,
    /// How many workers run, each with a guest of its own.
    pub vm_num: usize,
}

/// How the run of a program ended.
pub enum ExecResult {
    /// It ran: the blocks and the branches that each call reached.
    Ran { blocks: Vec<Vec<Block>>, branches: Vec<Vec<Branch>> },
    /// It could not be run, and why.
    Failed(String),
    /// It crashed the guest: what the guest reported, and whether the crash
    /// came again when the program was run again.
    Crashed { crash: String, repo: bool },
}

/// The program to run next: the one at the head of `candidates`, or, where
/// none waits, a fresh one.
pub fn next_prog<S: BuildHasher>(
    candidates: &mut CQueue,
    t: &Target,
    rs: &HashMap<GroupId, RTable, S>,
    conf: &crate::config::Config,
) -> (p: Prog)
    requires
        builds_valid_hashers::<S>(),
        t.wf(),
        conf.wf(),
        tables_ok(t, rs@),
    ensures
        old(candidates).inner@.len() > 0 ==> {
            &&& p == old(candidates).inner@[0]
            &&& final(candidates).inner@ == old(candidates).inner@.drop_first()
        },
        old(candidates).inner@.len() == 0 ==> {
            &&& final(candidates).inner@ == old(candidates).inner@
            &&& rs@.contains_key(p.gid)
            &&& 1 <= p.calls@.len() <= plan_cap(&rs@[p.gid], conf)
            &&& prog_ok(t, conf, p)
        },
{
    match candidates.pop() {
        Some(p) => p,
        None => gen(t, rs, conf),
    }
}

/// Whether a run found anything: a block or a branch that is new.
pub open spec fn found_new(feedback: &FeedBack, blocks: Seq<Vec<Block>>, branches: Seq<Vec<Branch>>) -> bool {
    !reached(blocks).difference(feedback.blocks@).is_empty() || !reached(branches).difference(
        feedback.branches@,
    ).is_empty()
}

/// Files the program `p`, rendered as `stmts`, after its run. A run that
/// reached something new puts `p` into the corpus and its coverage into
/// `feedback`; every run is recorded as an executed case. A failure is
/// recorded as a failed case. A crash is recorded as a crashed case, and
/// comes back with the path of the file it is to be written to at once.
pub fn file_case(
    p: Prog,
    stmts: &Script,
    result: ExecResult,
    corpus: &mut Corpus,
    feedback: &mut FeedBack,
    record: &mut TestCaseRecord,
) -> (out: Option<(String, CrashedCase)>)
    requires
        old(record).can_record(&p, stmts),
    ensures
        match result {
            ExecResult::Ran { blocks, branches } => {
                &&& out is None
                &&& old(feedback).wf() ==> final(feedback).wf()
                &&& final(feedback).blocks@ == old(feedback).blocks@.union(reached(blocks@))
                &&& final(feedback).branches@ == old(feedback).branches@.union(reached(branches@))
                &&& final(corpus).progs@ == if found_new(old(feedback), blocks@, branches@) {
                    old(corpus).progs@.push(p)
                } else {
                    old(corpus).progs@
                }
                &&& final(record).after_executed(
                    old(record),
                    &p,
                    stmts,
                    blocks@,
                    branches@,
                    reached(blocks@).difference(old(feedback).blocks@).len(),
                    reached(branches@).difference(old(feedback).branches@).len(),
                )
            },
            ExecResult::Failed(reason) => {
                &&& out is None
                &&& *final(feedback) == *old(feedback)
                &&& *final(corpus) == *old(corpus)
                &&& final(record).after_failed(old(record), &p, stmts, reason)
            },
            ExecResult::Crashed { crash, repo } => {
                &&& out matches Some((path, case))
                &&& *final(feedback) == *old(feedback)
                &&& *final(corpus) == *old(corpus)
                &&& final(record).after_crash(old(record), &p, stmts, crash, repo, case)
                &&& path@ == crash_path_text(old(record).work_dir@, case.meta.title@)
            },
        },
{
    match result {
        ExecResult::Ran { blocks, branches } => {
            let new_block = feedback.diff_block(blocks.as_slice());
            let new_branch = feedback.diff_branch(branches.as_slice());
            record.insert_executed(
                &p,
                stmts,
                blocks.as_slice(),
                branches.as_slice(),
                &new_block,
                &new_branch,
            );
            if !new_block.is_empty() || !new_branch.is_empty() {
                feedback.merge(blocks.as_slice(), branches.as_slice());
                corpus.insert(p);
            } else {
                proof {
                    lemma_nothing_new(feedback.blocks@, reached(blocks@));
                    lemma_nothing_new(feedback.branches@, reached(branches@));
                }
            }
            None
        },
        ExecResult::Failed(reason) => {
            record.insert_failed(p, stmts, reason);
            None
        },
        ExecResult::Crashed { crash, repo } => Some(record.insert_crash(p, stmts, crash, repo)),
    }
}

proof fn lemma_nothing_new(known: Set<usize>, seen: Set<usize>)
    requires
        seen.difference(known).is_empty(),
    ensures
        known.union(seen) == known,
{
    assert forall|x: usize| known.union(seen).contains(x) implies known.contains(x) by {
        if !known.contains(x) {
            assert(seen.difference(known).contains(x));
        }
    }
    assert(known.union(seen) =~= known);
}

} // verus!
