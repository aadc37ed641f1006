//! The record of test cases: the most recent executed, failed and crashed
//! cases, each in a ring of its own, and how many there were of each.

use crate::feedback::{Block, Branch};
use crate::prog::Prog;
use crate::script::Script;
use crate::target::Target;
use circular_queue::CircularQueue;
use std::collections::HashSet;
use std::sync::Arc;
use vstd::prelude::*;
use vstd::string::StringExecFns;

verus! {

/// How many executed cases are kept.
pub const NORMAL_CAP: usize = 65536;

/// How many failed cases are kept.
pub const FAILED_CAP: usize = 65536;

/// How many crashed cases are kept.
pub const CRASH_CAP: usize = 1024;

#[derive(Debug, Clone, PartialEq, Eq)]
pub struct TestCase {
    pub id: usize,
    pub title: String,
    /// When the case was recorded, as an RFC 3339 date and time.
    pub test_time: String,
}

#[derive(Debug, Clone, PartialEq, Eq)]
pub struct ExecutedCase {
    pub meta: TestCase,
    /// The program as text.
    pub p: String,
    /// How many blocks each call reached.
    pub block_num: Vec<usize>,
    /// How many branches each call took.
    pub branch_num: Vec<usize>,
    pub new_branch: usize,
    pub new_block: usize,
}

#[derive(Debug, Clone, PartialEq, Eq)]
pub struct FailedCase {
    pub meta: TestCase,
    pub p: String,
    pub reason: String,
}

#[derive(Debug, Clone, PartialEq, Eq)]
pub struct CrashedCase {
    pub meta: TestCase,
    pub p: String,
    pub repo: bool,
    pub crash: String,
}

/// A recorded case of any of the three kinds.
#[derive(Debug, Clone, PartialEq, Eq)]
pub enum Case {
    Executed(ExecutedCase),
    Failed(FailedCase),
    Crashed(CrashedCase),
}

impl Case {
    pub open spec fn meta(self) -> TestCase {
        match self {
            Case::Executed(c) => c.meta,
            Case::Failed(c) => c.meta,
            Case::Crashed(c) => c.meta,
        }
    }
}

#[verifier::external_type_specification]
#[verifier::external_body]
#[verifier::reject_recursive_types(T)]
pub struct ExCircularQueue<T>(CircularQueue<T>);

/// The cases that a ring holds, oldest first.
pub uninterp spec fn queue_items(q: CircularQueue<Case>) -> Seq<Case>;

/// How many cases a ring was made to hold.
pub uninterp spec fn queue_limit(q: CircularQueue<Case>) -> nat;

/// What a ring of `limit` places holds after `x` is pushed onto `items`:
/// `x` comes last, and where the ring was full the oldest item made room.
pub open spec fn ring_push(items: Seq<Case>, limit: nat, x: Case) -> Seq<Case> {
    if limit == 0 {
        items
    } else if items.len() < limit {
        items.push(x)
    } else {
        items.drop_first().push(x)
    }
}

/// An empty ring of `capacity` places (`CircularQueue::with_capacity`,
/// which sets the places aside at once).
#[verifier::external_body]
fn queue_new(capacity: usize) -> (q: CircularQueue<Case>)
    requires
        capacity <= 65536,
    ensures
        queue_items(q) == Seq::<Case>::empty(),
        queue_limit(q) == capacity,
{
    CircularQueue::with_capacity(capacity)
}

/// `CircularQueue::push`: the new case comes last; a full ring drops its
/// oldest case for it, and a ring without places stays empty.
#[verifier::external_body]
fn queue_push(q: &mut CircularQueue<Case>, x: Case)
    ensures
        queue_limit(*final(q)) == queue_limit(*old(q)),
        queue_items(*final(q)) == ring_push(queue_items(*old(q)), queue_limit(*old(q)), x),
{
    q.push(x);
}

/// `CircularQueue::is_empty`.
#[verifier::external_body]
fn queue_is_empty(q: &CircularQueue<Case>) -> (b: bool)
    ensures
        b == (queue_items(*q).len() == 0),
{
    q.is_empty()
}

/// The cases of a ring, oldest first (`CircularQueue::asc_iter`), copied
/// out.
#[verifier::external_body]
fn queue_to_vec(q: &CircularQueue<Case>) -> (v: Vec<Case>)
    ensures
        v@ == queue_items(*q),
{
    q.asc_iter().cloned().collect()
}

/// The local date and time of the moment of the call, in RFC 3339
/// (`chrono::Local::now`, `DateTime::to_rfc3339`).
#[verifier::external_body]
fn now_text() -> (text: String) {
    chrono::Local::now().to_rfc3339()
}

/// The title of a case: the name of the group, two underscores, and the
/// last statement of the script.
pub open spec fn title_text(group: Seq<char>, stmts: Seq<String>) -> Seq<char> {
    group + seq!['_', '_'] + stmts.last()@
}

/// How many items each of `lists` has.
pub open spec fn sizes(lists: Seq<Vec<usize>>) -> Seq<usize> {
    Seq::new(lists.len(), |i: int| lists[i]@.len() as usize)
}

pub fn count_each(lists: &[Vec<usize>]) -> (nums: Vec<usize>)
    ensures
        nums@ == sizes(lists@),
{
    let mut nums: Vec<usize> = Vec::new();
    let mut i: usize = 0;
    while i < lists.len()
        invariant
            0 <= i <= lists@.len(),
            nums@.len() == i,
            forall|k: int| 0 <= k < i ==> nums@[k] == lists@[k]@.len(),
        decreases lists@.len() - i,
    {
        nums.push(lists[i].len());
        i += 1;
    }
    assert(nums@ =~= sizes(lists@));
    nums
}

/// The ids of `items` are under `bound` and grow from each item to the
/// next.
pub open spec fn ids_ok(items: Seq<Case>, bound: usize) -> bool {
    &&& forall|i: int| 0 <= i < items.len() ==> (#[trigger] items[i]).meta().id < bound
    &&& forall|i: int, j: int|
        0 <= i < j < items.len() ==> (#[trigger] items[i]).meta().id < (#[trigger] items[
            j
        ]).meta().id
}

/// No case of `a` has the id of a case of `b`.
pub open spec fn ids_apart(a: Seq<Case>, b: Seq<Case>) -> bool {
    forall|i: int, j: int|
        0 <= i < a.len() && 0 <= j < b.len() ==> (#[trigger] a[i]).meta().id != (#[trigger] b[
            j
        ]).meta().id
}

/// Pushing a case with the next id keeps the ids of a ring in order.
pub proof fn lemma_ring_push(items: Seq<Case>, limit: nat, x: Case, bound: usize)
    requires
        ids_ok(items, bound),
        items.len() <= limit,
        x.meta().id == bound,
        bound < usize::MAX,
    ensures
        ids_ok(ring_push(items, limit, x), (bound + 1) as usize),
        ring_push(items, limit, x).len() <= limit,
        forall|k: int|
            0 <= k < ring_push(items, limit, x).len() ==> #[trigger] ring_push(items, limit, x)[k]
                == x || items.contains(ring_push(items, limit, x)[k]),
{
    let after = ring_push(items, limit, x);
    assert forall|k: int| 0 <= k < after.len() implies #[trigger] after[k] == x || items.contains(
        after[k],
    ) by {
        if limit == 0 {
            assert(after[k] == items[k]);
        } else if items.len() < limit {
            if k < items.len() {
                assert(after[k] == items[k]);
            }
        } else {
            if k < after.len() - 1 {
                assert(after[k] == items[k + 1]);
            }
        }
    }
    assert forall|i: int, j: int| 0 <= i < j < after.len() implies (#[trigger] after[i]).meta().id
        < (#[trigger] after[j]).meta().id by {
        if limit == 0 {
            assert(after[i] == items[i] && after[j] == items[j]);
        } else if items.len() < limit {
            assert(after[i] == items[i]);
            if j < items.len() {
                assert(after[j] == items[j]);
            }
        } else {
            assert(after[i] == items[i + 1]);
            if j < after.len() - 1 {
                assert(after[j] == items[j + 1]);
            }
        }
    }
    assert forall|i: int| 0 <= i < after.len() implies (#[trigger] after[i]).meta().id < bound
        + 1 by {
        if after[i] != x {
            let w = choose|w: int| 0 <= w < items.len() && items[w] == after[i];
            assert(items[w].meta().id < bound);
        }
    }
}

pub struct TestCaseRecord {
    pub normal: CircularQueue<Case>,
    pub failed: CircularQueue<Case>,
    pub crash: CircularQueue<Case>,
    pub target: Arc<Target>,
    pub id_n: usize,
    pub work_dir: String,
    pub normal_num: usize,
    pub failed_num: usize,
    pub crashed_num: usize,
}

impl TestCaseRecord {
    /// The executed cases kept, oldest first.
    pub open spec fn normal_cases(&self) -> Seq<Case> {
        queue_items(self.normal)
    }

    /// The failed cases kept, oldest first.
    pub open spec fn failed_cases(&self) -> Seq<Case> {
        queue_items(self.failed)
    }

    /// The crashed cases kept, oldest first.
    pub open spec fn crash_cases(&self) -> Seq<Case> {
        queue_items(self.crash)
    }

    /// Each ring has its size and holds cases of its kind only; every case
    /// counts once; and the ids tell the cases apart and tell in what order
    /// they came.
    pub open spec fn wf(&self) -> bool {
        &&& queue_limit(self.normal) == NORMAL_CAP
        &&& queue_limit(self.failed) == FAILED_CAP
        &&& queue_limit(self.crash) == CRASH_CAP
        &&& self.normal_cases().len() <= NORMAL_CAP
        &&& self.failed_cases().len() <= FAILED_CAP
        &&& self.crash_cases().len() <= CRASH_CAP
        &&& self.normal_num + self.failed_num + self.crashed_num == self.id_n
        &&& forall|i: int|
            0 <= i < self.normal_cases().len() ==> #[trigger] self.normal_cases()[i] is Executed
        &&& forall|i: int|
            0 <= i < self.failed_cases().len() ==> #[trigger] self.failed_cases()[i] is Failed
        &&& forall|i: int|
            0 <= i < self.crash_cases().len() ==> #[trigger] self.crash_cases()[i] is Crashed
        &&& ids_ok(self.normal_cases(), self.id_n)
        &&& ids_ok(self.failed_cases(), self.id_n)
        &&& ids_ok(self.crash_cases(), self.id_n)
        &&& ids_apart(self.normal_cases(), self.failed_cases())
        &&& ids_apart(self.normal_cases(), self.crash_cases())
        &&& ids_apart(self.failed_cases(), self.crash_cases())
    }

    /// A program of group `gid` with the script `stmts` can be recorded:
    /// there is an id left, the group is known, and the script has a last
    /// statement to name the case after.
    pub open spec fn can_record(&self, p: &Prog, stmts: &Script) -> bool {
        &&& self.wf()
        &&& self.id_n < usize::MAX
        &&& self.target.groups@.contains_key(p.gid)
        &&& stmts.0@.len() > 0
    }

    /// The head of the case that is recorded next for `p` and `stmts`,
    /// whatever the time.
    pub open spec fn next_meta(&self, p: &Prog, stmts: &Script, meta: TestCase) -> bool {
        &&& meta.id == self.id_n
        &&& meta.title@ == title_text(self.target.groups@[p.gid].ident@, stmts.0@)
    }

    /// A ring that holds `c`, where one does.
    pub open spec fn ring_of(&self, c: Case) -> Seq<Case> {
        if self.normal_cases().contains(c) {
            self.normal_cases()
        } else if self.failed_cases().contains(c) {
            self.failed_cases()
        } else {
            self.crash_cases()
        }
    }

    /// The record is `before` with one more case, the next id given out,
    /// and nothing else changed but the counter and the ring of the kind of
    /// the case.
    pub open spec fn one_more(&self, before: &Self) -> bool {
        &&& self.wf()
        &&& self.id_n == before.id_n + 1
        &&& self.target == before.target
        &&& self.work_dir == before.work_dir
    }

    /// The record is `before` with the executed case of `p` pushed: how
    /// much each call covered, and how many blocks and branches were new.
    pub open spec fn after_executed(
        &self,
        before: &Self,
        p: &Prog,
        stmts: &Script,
        blocks: Seq<Vec<Block>>,
        branches: Seq<Vec<Branch>>,
        new_block: nat,
        new_branch: nat,
    ) -> bool {
        &&& self.one_more(before)
        &&& self.normal_num == before.normal_num + 1
        &&& self.failed_num == before.failed_num
        &&& self.crashed_num == before.crashed_num
        &&& self.failed == before.failed
        &&& self.crash == before.crash
        &&& self.normal_cases().len() > 0
        &&& self.normal_cases() == ring_push(
            before.normal_cases(),
            NORMAL_CAP as nat,
            self.normal_cases().last(),
        )
        &&& self.normal_cases().last() matches Case::Executed(c) && {
            &&& before.next_meta(p, stmts, c.meta)
            &&& c.p@ == crate::script::script_text(stmts.0@)
            &&& c.block_num@ == sizes(blocks)
            &&& c.branch_num@ == sizes(branches)
            &&& c.new_block == new_block
            &&& c.new_branch == new_branch
        }
    }

    /// The record is `before` with the failed case of `p` pushed.
    pub open spec fn after_failed(&self, before: &Self, p: &Prog, stmts: &Script, reason: String) -> bool {
        &&& self.one_more(before)
        &&& self.failed_num == before.failed_num + 1
        &&& self.normal_num == before.normal_num
        &&& self.crashed_num == before.crashed_num
        &&& self.normal == before.normal
        &&& self.crash == before.crash
        &&& self.failed_cases().len() > 0
        &&& self.failed_cases() == ring_push(
            before.failed_cases(),
            FAILED_CAP as nat,
            self.failed_cases().last(),
        )
        &&& self.failed_cases().last() matches Case::Failed(c) && {
            &&& before.next_meta(p, stmts, c.meta)
            &&& c.p@ == crate::script::script_text(stmts.0@)
            &&& c.reason == reason
        }
    }

    /// The record is `before` with the crashed case `case` of `p` pushed.
    pub open spec fn after_crash(
        &self,
        before: &Self,
        p: &Prog,
        stmts: &Script,
        crash: String,
        repo: bool,
        case: CrashedCase,
    ) -> bool {
        &&& self.one_more(before)
        &&& self.crashed_num == before.crashed_num + 1
        &&& self.normal_num == before.normal_num
        &&& self.failed_num == before.failed_num
        &&& self.normal == before.normal
        &&& self.failed == before.failed
        &&& self.crash_cases() == ring_push(
            before.crash_cases(),
            CRASH_CAP as nat,
            Case::Crashed(case),
        )
        &&& before.next_meta(p, stmts, case.meta)
        &&& case.p@ == crate::script::script_text(stmts.0@)
        &&& case.crash == crash
        &&& case.repo == repo
    }

    pub fn new(t: Arc<Target>, work_dir: String) -> (r: Self)
        ensures
            r.wf(),
            r.target == t,
            r.work_dir == work_dir,
            r.id_n == 0,
            r.normal_num == 0 && r.failed_num == 0 && r.crashed_num == 0,
            r.normal_cases().len() == 0 && r.failed_cases().len() == 0 && r.crash_cases().len()
                == 0,
    {
        Self {
            normal: queue_new(NORMAL_CAP),
            failed: queue_new(FAILED_CAP),
            crash: queue_new(CRASH_CAP),
            target: t,
            id_n: 0,
            work_dir,
            normal_num: 0,
            failed_num: 0,
            crashed_num: 0,
        }
    }

    /// The title of the case of `p`.
    pub fn title_of(&self, p: &Prog, stmts: &Script) -> (title: String)
        requires
            self.target.groups@.contains_key(p.gid),
            stmts.0@.len() > 0,
        ensures
            title@ == title_text(self.target.groups@[p.gid].ident@, stmts.0@),
    {
        let mut title = String::from_str(self.target.group_name_of(p.gid));
        proof {
            reveal_strlit("__");
            assert("__"@ =~= seq!['_', '_']);
        }
        title.append("__");
        title.append(stmts.last().as_str());
        title
    }

    /// Hands out the next id.
    fn next_id(&mut self) -> (id: usize)
        requires
            old(self).id_n < usize::MAX,
        ensures
            id == old(self).id_n,
            final(self).id_n == id + 1,
            final(self).normal == old(self).normal,
            final(self).failed == old(self).failed,
            final(self).crash == old(self).crash,
            final(self).target == old(self).target,
            final(self).work_dir == old(self).work_dir,
            final(self).normal_num == old(self).normal_num,
            final(self).failed_num == old(self).failed_num,
            final(self).crashed_num == old(self).crashed_num,
    {
        let next = self.id_n;
        self.id_n += 1;
        next
    }

    /// The head of the next case of `p`, stamped with the time of the call.
    fn next_case(&mut self, p: &Prog, stmts: &Script) -> (meta: TestCase)
        requires
            old(self).can_record(p, stmts),
        ensures
            old(self).next_meta(p, stmts, meta),
            final(self).id_n == old(self).id_n + 1,
            final(self).normal == old(self).normal,
            final(self).failed == old(self).failed,
            final(self).crash == old(self).crash,
            final(self).target == old(self).target,
            final(self).work_dir == old(self).work_dir,
            final(self).normal_num == old(self).normal_num,
            final(self).failed_num == old(self).failed_num,
            final(self).crashed_num == old(self).crashed_num,
    {
        let title = self.title_of(p, stmts);
        TestCase { id: self.next_id(), title, test_time: now_text() }
    }

    /// Records that `p` ran: how much each call covered, and how much of
    /// that was new.
    pub fn insert_executed(
        &mut self,
        p: &Prog,
        stmts: &Script,
        blocks: &[Vec<Block>],
        branches: &[Vec<Branch>],
        new_block: &HashSet<Block>,
        new_branch: &HashSet<Branch>,
    )
        requires
            old(self).can_record(p, stmts),
        ensures
            final(self).after_executed(
                old(self),
                p,
                stmts,
                blocks@,
                branches@,
                new_block@.len(),
                new_branch@.len(),
            ),
    {
        let block_num = count_each(blocks);
        let branch_num = count_each(branches);
        let meta = self.next_case(p, stmts);
        let case = Case::Executed(
            ExecutedCase {
                meta,
                p: stmts.to_string(),
                block_num,
                branch_num,
                new_branch: new_branch.len(),
                new_block: new_block.len(),
            },
        );
        proof {
            lemma_ring_push(old(self).normal_cases(), NORMAL_CAP as nat, case, old(self).id_n);
        }
        queue_push(&mut self.normal, case);
        self.normal_num += 1;
    }

    /// Records that `p` crashed the guest, and hands back what is to be
    /// written out at once: the path of the file and the case. `repo` tells
    /// whether the crash came again when `p` was run again.
    pub fn insert_crash(&mut self, p: Prog, stmts: &Script, crash: String, repo: bool) -> (out: (
        String,
        CrashedCase,
    ))
        requires
            old(self).can_record(&p, stmts),
        ensures
            final(self).after_crash(old(self), &p, stmts, crash, repo, out.1),
            out.0@ == crash_path_text(old(self).work_dir@, out.1.meta.title@),
    {
        let meta = self.next_case(&p, stmts);
        let case = CrashedCase { meta, p: stmts.to_string(), repo, crash };
        let path = self.persist_crash_case(&case);
        let kept = case.copy();
        proof {
            lemma_ring_push(
                old(self).crash_cases(),
                CRASH_CAP as nat,
                Case::Crashed(kept),
                old(self).id_n,
            );
        }
        queue_push(&mut self.crash, Case::Crashed(kept));
        self.crashed_num += 1;
        (path, case)
    }

    /// Records that `p` could not be run, and why.
    pub fn insert_failed(&mut self, p: Prog, stmts: &Script, reason: String)
        requires
            old(self).can_record(&p, stmts),
        ensures
            final(self).after_failed(old(self), &p, stmts, reason),
    {
        let meta = self.next_case(&p, stmts);
        let case = Case::Failed(FailedCase { meta, p: stmts.to_string(), reason });
        proof {
            lemma_ring_push(old(self).failed_cases(), FAILED_CAP as nat, case, old(self).id_n);
        }
        queue_push(&mut self.failed, case);
        self.failed_num += 1;
    }

    /// What is to be written out of the executed and of the failed cases:
    /// for each kind of which a case is kept, the path of the file and the
    /// cases.
    pub fn psersist(&self) -> (out: (Option<(String, Vec<Case>)>, Option<(String, Vec<Case>)>))
        ensures
            snapshot_of(out.0, self.work_dir@, "/normal_case.json"@, self.normal_cases()),
            snapshot_of(out.1, self.work_dir@, "/failed_case.json"@, self.failed_cases()),
    {
        (self.persist_normal_case(), self.persist_failed_case())
    }

    /// How many cases were executed, how many failed and how many crashed.
    pub fn len(&self) -> (n: (usize, usize, usize))
        ensures
            n == (self.normal_num, self.failed_num, self.crashed_num),
    {
        (self.normal_num, self.failed_num, self.crashed_num)
    }

    /// The executed cases kept and the file they go to, where there are
    /// any.
    pub fn persist_normal_case(&self) -> (out: Option<(String, Vec<Case>)>)
        ensures
            snapshot_of(out, self.work_dir@, "/normal_case.json"@, self.normal_cases()),
    {
        if queue_is_empty(&self.normal) {
            return None;
        }
        let cases = queue_to_vec(&self.normal);
        let mut path = self.work_dir.clone();
        path.append("/normal_case.json");
        Some((path, cases))
    }

    /// The failed cases kept and the file they go to, where there are any.
    pub fn persist_failed_case(&self) -> (out: Option<(String, Vec<Case>)>)
        ensures
            snapshot_of(out, self.work_dir@, "/failed_case.json"@, self.failed_cases()),
    {
        if queue_is_empty(&self.failed) {
            return None;
        }
        let cases = queue_to_vec(&self.failed);
        let mut path = self.work_dir.clone();
        path.append("/failed_case.json");
        Some((path, cases))
    }

    /// The file that the crashed case `case` goes to.
    pub fn persist_crash_case(&self, case: &CrashedCase) -> (path: String)
        ensures
            path@ == crash_path_text(self.work_dir@, case.meta.title@),
    {
        let mut path = crash_dir(self.work_dir.as_str());
        path.append("/");
        path.append(case.meta.title.as_str());
        path
    }
}

/// The directory `crashes` of the working directory.
pub open spec fn crash_dir_text(work_dir: Seq<char>) -> Seq<char> {
    work_dir + "/crashes"@
}

/// The directory `reports` of the working directory.
pub open spec fn report_dir_text(work_dir: Seq<char>) -> Seq<char> {
    work_dir + "/reports"@
}

/// A crashed case goes to a file of its own, named by its title, in the
/// directory of crashes.
pub open spec fn crash_path_text(work_dir: Seq<char>, title: Seq<char>) -> Seq<char> {
    crash_dir_text(work_dir) + "/"@ + title
}

/// The directory that crashed cases are written to.
pub fn crash_dir(work_dir: &str) -> (dir: String)
    ensures
        dir@ == crash_dir_text(work_dir@),
{
    let mut dir = String::from_str(work_dir);
    dir.append("/crashes");
    dir
}

/// The directory that samples of the stores are written to.
pub fn report_dir(work_dir: &str) -> (dir: String)
    ensures
        dir@ == report_dir_text(work_dir@),
{
    let mut dir = String::from_str(work_dir);
    dir.append("/reports");
    dir
}

/// `out` is what there is to write of `cases`: nothing where there are
/// none, else all of them, oldest first, and the file `name` of the working
/// directory.
pub open spec fn snapshot_of(
    out: Option<(String, Vec<Case>)>,
    work_dir: Seq<char>,
    name: Seq<char>,
    cases: Seq<Case>,
) -> bool {
    match out {
        None => cases.len() == 0,
        Some((path, list)) => cases.len() > 0 && path@ == work_dir + name && list@ == cases,
    }
}

impl TestCase {
    pub fn copy(&self) -> (c: TestCase)
        ensures
            c == *self,
    {
        TestCase { id: self.id, title: self.title.clone(), test_time: self.test_time.clone() }
    }
}

impl CrashedCase {
    pub fn copy(&self) -> (c: CrashedCase)
        ensures
            c == *self,
    {
        CrashedCase {
            meta: self.meta.copy(),
            p: self.p.clone(),
            repo: self.repo,
            crash: self.crash.clone(),
        }
    }
}

/// The cases that a record holds have ids of their own: no two of them
/// share one, and in each ring a later case has a greater id; and every id
/// is under the next one to be given out.
pub proof fn lemma_ids_distinct(r: &TestCaseRecord, a: Case, b: Case)
    requires
        r.wf(),
        r.normal_cases().contains(a) || r.failed_cases().contains(a) || r.crash_cases().contains(a),
        r.normal_cases().contains(b) || r.failed_cases().contains(b) || r.crash_cases().contains(b),
        a != b,
    ensures
        a.meta().id != b.meta().id,
        a.meta().id < r.id_n,
        b.meta().id < r.id_n,
{
    let qa = r.ring_of(a);
    let qb = r.ring_of(b);
    let i = choose|i: int| 0 <= i < qa.len() && qa[i] == a;
    let j = choose|j: int| 0 <= j < qb.len() && qb[j] == b;
    assert(qa[i].meta().id < r.id_n);
    assert(qb[j].meta().id < r.id_n);
    if qa == qb {
        if i < j {
            assert(qa[i].meta().id < qa[j].meta().id);
        } else if j < i {
            assert(qa[j].meta().id < qa[i].meta().id);
        }
    } else {
        assert(qa[i].meta().id != qb[j].meta().id);
    }
}

} // verus!
