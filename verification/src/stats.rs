//! What the sampler notes down of the stores at one moment.

use crate::corpus::{CQueue, Corpus};
use crate::feedback::FeedBack;
use crate::report::TestCaseRecord;
use vstd::prelude::*;

verus! {

#[derive(Debug, Clone, Copy, PartialEq, Eq)]
pub struct Stats {
    pub corpus: usize,
    pub blocks: usize,
    pub branches: usize,
    pub candidates: usize,
    pub normal_case: usize,
    pub failed_case: usize,
    pub crashed_case: usize,
}

/// The sizes of the stores as they are.
pub fn sample(corpus: &Corpus, feedback: &FeedBack, candidates: &CQueue, record: &TestCaseRecord) -> (s: Stats)
    ensures
        s.corpus == corpus.progs@.len(),
        s.blocks == feedback.blocks@.len(),
        s.branches == feedback.branches@.len(),
        s.candidates == candidates.inner@.len(),
        s.normal_case == record.normal_num,
        s.failed_case == record.failed_num,
        s.crashed_case == record.crashed_num,
{
    let (normal_case, failed_case, crashed_case) = record.len();
    Stats {
        corpus: corpus.len(),
        blocks: feedback.block_len(),
        branches: feedback.branch_len(),
        candidates: candidates.len(),
        normal_case,
        failed_case,
        crashed_case,
    }
}

} // verus!
