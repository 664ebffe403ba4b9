//! Job records and the execution engine's decisions: what to do next after
//! each step, and what the record holds once a run is over.
use vstd::prelude::*;
use vstd::string::*;

use crate::config::{sum_first, lemma_sum_first_monotone, Config, Problem};
use crate::outcome::{RunResult, State};

verus! {

/// A submission as it arrives: the source, its language, who sends it, to
/// which contest (0 for none) and for which problem.
#[derive(Debug, Clone)]
pub struct JobInfo {
    pub source_code: String,
    pub language: String,
    pub user_id: u32,
    pub contest_id: u32,
    pub problem_id: u32,
}

impl JobInfo {
    pub open spec fn same_as(&self, o: &JobInfo) -> bool {
        &&& self.source_code@ == o.source_code@
        &&& self.language@ == o.language@
        &&& self.user_id == o.user_id
        &&& self.contest_id == o.contest_id
        &&& self.problem_id == o.problem_id
    }

    /// A copy with the same contents.
    pub fn duplicate(&self) -> (r: JobInfo)
        ensures
            r.same_as(self),
    {
        JobInfo {
            source_code: self.source_code.clone(),
            language: self.language.clone(),
            user_id: self.user_id,
            contest_id: self.contest_id,
            problem_id: self.problem_id,
        }
    }
}

/// The outcome of one step: index 0 is compilation, index i the i-th case.
#[derive(Debug, Clone)]
pub struct CaseResult {
    pub id: u32,
    pub result: RunResult,
    pub time: u32,
    pub memory: u32,
    pub info: String,
}

impl CaseResult {
    /// A step with index `id` that has not been reached.
    pub open spec fn is_fresh(&self, id: int) -> bool {
        &&& self.id == id
        &&& self.result == RunResult::Waiting
        &&& self.time == 0
        &&& self.memory == 0
        &&& self.info@ == Seq::<char>::empty()
    }

    pub open spec fn same_as(&self, o: &CaseResult) -> bool {
        &&& self.id == o.id
        &&& self.result == o.result
        &&& self.time == o.time
        &&& self.memory == o.memory
        &&& self.info@ == o.info@
    }

    pub fn new(id: u32) -> (r: CaseResult)
        ensures
            r.is_fresh(id as int),
    {
        CaseResult { id, result: RunResult::Waiting, time: 0, memory: 0, info: String::new() }
    }

    /// A copy with the same contents.
    pub fn duplicate(&self) -> (r: CaseResult)
        ensures
            r.same_as(self),
    {
        CaseResult {
            id: self.id,
            result: self.result,
            time: self.time,
            memory: self.memory,
            info: self.info.clone(),
        }
    }
}

/// What judging one case gave: its outcome and the special judge's message.
#[derive(Debug, Clone)]
pub struct CaseVerdict {
    pub result: RunResult,
    pub info: String,
}

/// What the outside steps of one run gave: whether the scratch directory
/// could be prepared, the compile step's outcome, and the verdicts of the
/// cases that ran, in order.
#[derive(Debug, Clone)]
pub struct Execution {
    pub workspace_ready: bool,
    pub compile: RunResult,
    pub verdicts: Vec<CaseVerdict>,
}

/// The next outside step the engine asks for.
#[derive(Debug, PartialEq, Eq, Structural, Clone, Copy)]
pub enum Action {
    Compile,
    RunCase(usize),
    Finish,
}

/// A case outcome that stops the run: anything but Accepted and Wrong Answer.
pub open spec fn halts(r: RunResult) -> bool {
    r != RunResult::Accepted && r != RunResult::WrongAnswer
}

/// Among the first `k` outcomes, the index of the first that halts, or `k`.
pub open spec fn first_halt(rs: Seq<RunResult>, k: int) -> int
    decreases k,
{
    if k <= 0 {
        0
    } else {
        let h = first_halt(rs, k - 1);
        if h < k - 1 {
            h
        } else if halts(rs[k - 1]) {
            k - 1
        } else {
            k
        }
    }
}

/// Score of the accepted ones among the first `k` outcomes.
pub open spec fn accepted_score(scores: Seq<u64>, rs: Seq<RunResult>, k: int) -> int
    decreases k,
{
    if k <= 0 {
        0
    } else {
        accepted_score(scores, rs, k - 1) + if rs[k - 1] == RunResult::Accepted {
            scores[k - 1] as int
        } else {
            0
        }
    }
}

/// The first halting outcome is the first that halts, and none before it does.
pub proof fn lemma_first_halt(rs: Seq<RunResult>, k: int)
    requires
        0 <= k <= rs.len(),
    ensures
        0 <= first_halt(rs, k) <= k,
        first_halt(rs, k) < k ==> halts(rs[first_halt(rs, k)]),
        forall|j: int| 0 <= j < first_halt(rs, k) ==> !halts(#[trigger] rs[j]),
    decreases k,
{
    if k > 0 {
        lemma_first_halt(rs, k - 1);
    }
}

/// The index of the first halting outcome, characterised.
proof fn lemma_first_halt_is(rs: Seq<RunResult>, k: int, i: int)
    requires
        0 <= i <= k <= rs.len(),
        i < k ==> halts(rs[i]),
        forall|j: int| 0 <= j < i ==> !halts(#[trigger] rs[j]),
    ensures
        first_halt(rs, k) == i,
{
    lemma_first_halt(rs, k);
    let h = first_halt(rs, k);
    if h < i {
        assert(!halts(rs[h]));
    } else if h > i {
        assert(!halts(rs[i]));
    }
}

/// The accepted score of a prefix is at most the full score of that prefix.
proof fn lemma_accepted_score_bound(scores: Seq<u64>, rs: Seq<RunResult>, k: int)
    requires
        0 <= k <= scores.len(),
        k <= rs.len(),
    ensures
        0 <= accepted_score(scores, rs, k) <= sum_first(scores, k),
    decreases k,
{
    if k > 0 {
        lemma_accepted_score_bound(scores, rs, k - 1);
    }
}

/// Two outcome lists that agree on which of the first `k` are accepted give
/// the same accepted score.
pub proof fn lemma_accepted_score_agree(
    scores: Seq<u64>,
    a: Seq<RunResult>,
    b: Seq<RunResult>,
    k: int,
)
    requires
        0 <= k <= a.len(),
        k <= b.len(),
        forall|j: int|
            0 <= j < k ==> (#[trigger] a[j] == RunResult::Accepted) == (b[j]
                == RunResult::Accepted),
    ensures
        accepted_score(scores, a, k) == accepted_score(scores, b, k),
    decreases k,
{
    if k > 0 {
        lemma_accepted_score_agree(scores, a, b, k - 1);
    }
}

/// Outcomes from index `k` on that are not accepted add nothing.
proof fn lemma_accepted_score_tail(scores: Seq<u64>, rs: Seq<RunResult>, k: int, m: int)
    requires
        0 <= k <= m <= rs.len(),
        forall|j: int| k <= j < m ==> #[trigger] rs[j] != RunResult::Accepted,
    ensures
        accepted_score(scores, rs, m) == accepted_score(scores, rs, k),
    decreases m - k,
{
    if m > k {
        lemma_accepted_score_tail(scores, rs, k, m - 1);
    }
}

impl Execution {
    /// The outcome of each recorded case, in order.
    pub open spec fn results(&self) -> Seq<RunResult> {
        self.verdicts@.map_values(|v: CaseVerdict| v.result)
    }

    /// The run records every step that a run over `n` cases reaches: all
    /// `n` verdicts, or those up to and including the first that halts.
    pub open spec fn complete(&self, n: int) -> bool {
        let m = self.verdicts@.len() as int;
        !self.workspace_ready || self.compile != RunResult::CompilationSuccess || (m <= n && (m
            == n || first_halt(self.results(), m) < m))
    }

    /// How many cases ran.
    pub open spec fn cases_run(&self) -> int {
        let m = self.verdicts@.len() as int;
        let h = first_halt(self.results(), m);
        if h < m {
            h + 1
        } else {
            m
        }
    }

    /// The aggregate outcome once compilation has succeeded.
    pub open spec fn cases_outcome(&self) -> RunResult {
        let rs = self.results();
        let m = rs.len() as int;
        let h = first_halt(rs, m);
        if h < m {
            rs[h]
        } else if forall|j: int| 0 <= j < m ==> rs[j] == RunResult::Accepted {
            RunResult::Accepted
        } else {
            RunResult::WrongAnswer
        }
    }

    /// Tells whether the record is complete for a problem of `n` cases.
    pub fn is_complete(&self, n: usize) -> (r: bool)
        ensures
            r == self.complete(n as int),
    {
        if !self.workspace_ready || self.compile != RunResult::CompilationSuccess {
            return true;
        }
        let m = self.verdicts.len();
        if m > n {
            return false;
        }
        if m == n {
            return true;
        }
        let mut i: usize = 0;
        while i < m
            invariant
                i <= m == self.verdicts@.len(),
                m < n,
                self.workspace_ready,
                self.compile == RunResult::CompilationSuccess,
                forall|j: int| 0 <= j < i ==> !halts(#[trigger] self.results()[j]),
            decreases m - i,
        {
            let r = self.verdicts[i].result;
            assert(self.results()[i as int] == r);
            if r != RunResult::Accepted && r != RunResult::WrongAnswer {
                proof {
                    assert(self.results()[i as int] == r);
                    lemma_first_halt_is(self.results(), m as int, i as int);
                }
                return true;
            }
            i = i + 1;
        }
        proof {
            lemma_first_halt_is(self.results(), m as int, m as int);
        }
        false
    }
}

/// The record of one submission.
#[derive(Debug)]
pub struct Job {
    pub user_name: String,
    pub job_id: u32,
    pub info: JobInfo,
    pub score: u64,
    pub created_time: i64,
    pub updated_time: i64,
    pub state: State,
    pub result: RunResult,
    pub case_res: Vec<CaseResult>,
}

/// A job as shown to callers.
#[derive(Debug)]
pub struct Response {
    pub id: u32,
    pub created_time: i64,
    pub updated_time: i64,
    pub submission: JobInfo,
    pub state: State,
    pub result: RunResult,
    pub score: u64,
    pub cases: Vec<CaseResult>,
}

/// Every case of the list after index 0 is accepted.
pub open spec fn all_accepted(cases: Seq<CaseResult>) -> bool {
    forall|i: int| 1 <= i < cases.len() ==> (#[trigger] cases[i]).result == RunResult::Accepted
}

/// The step `c` with outcome `result`, and with message `info` when one is given.
pub open spec fn with_outcome(c: CaseResult, result: RunResult, info: Option<String>) -> CaseResult {
    CaseResult {
        result,
        info: match info {
            Some(m) => m,
            None => c.info,
        },
        ..c
    }
}

/// Sets the outcome (and, when given, the message) of step `i`.
fn set_step(cases: &mut Vec<CaseResult>, i: usize, result: RunResult, info: Option<String>)
    requires
        i < old(cases)@.len(),
    ensures
        final(cases)@ == old(cases)@.update(i as int, with_outcome(old(cases)@[i as int], result, info)),
{
    let mut c = cases.remove(i);
    c.result = result;
    match info {
        Some(m) => {
            c.info = m;
        },
        None => {},
    }
    cases.insert(i, c);
    assert(cases@ =~= old(cases)@.update(i as int, with_outcome(old(cases)@[i as int], result, info)));
}

impl Job {
    /// What never changes once the record exists.
    pub open spec fn same_identity(&self, o: &Job) -> bool {
        &&& self.user_name == o.user_name
        &&& self.job_id == o.job_id
        &&& self.info == o.info
        &&& self.created_time == o.created_time
    }

    /// The record after a run over `p` whose outside steps gave `e`, ending
    /// at `now`, from a record whose score and steps were `prev_score` and
    /// `prev_cases`.
    pub open spec fn executed(
        &self,
        p: &Problem,
        e: &Execution,
        now: i64,
        prev_score: u64,
        prev_cases: Seq<CaseResult>,
    ) -> bool {
        let n = p.cases@.len() as int;
        let cases = self.case_res@;
        &&& self.state == State::Finished
        &&& self.updated_time == now
        &&& !e.workspace_ready ==> {
            &&& self.result == RunResult::SystemError
            &&& self.score == prev_score
            &&& cases == prev_cases
        }
        &&& e.workspace_ready ==> {
            &&& cases.len() == n + 1
            &&& forall|i: int|
                0 <= i <= n ==> (#[trigger] cases[i]).id == i && cases[i].time == 0
                    && cases[i].memory == 0
            &&& cases[0].result == e.compile
            &&& cases[0].info@ == Seq::<char>::empty()
            &&& e.compile != RunResult::CompilationSuccess ==> {
                &&& self.result == e.compile
                &&& self.score == 0
                &&& forall|i: int| 1 <= i <= n ==> (#[trigger] cases[i]).is_fresh(i)
            }
            &&& e.compile == RunResult::CompilationSuccess ==> {
                &&& self.result == e.cases_outcome()
                &&& self.score == accepted_score(p.scores(), e.results(), e.cases_run())
                &&& forall|i: int|
                    1 <= i <= n && i <= e.cases_run() ==> (#[trigger] cases[i]).result
                        == e.verdicts@[i - 1].result && cases[i].info@ == e.verdicts@[i
                        - 1].info@
                &&& forall|i: int|
                    1 <= i <= n && i > e.cases_run() ==> (#[trigger] cases[i]).is_fresh(i)
            }
        }
    }

    /// `new` is what a run over `p` whose outside steps gave `e`, ending at
    /// `now`, makes of `old`.
    pub open spec fn ran(old: Job, new: Job, p: &Problem, e: &Execution, now: i64) -> bool {
        &&& new.same_identity(&old)
        &&& new.executed(p, e, now, old.score, old.case_res@)
    }

    /// A record in state Queueing with no steps yet.
    pub fn new(user_name: &str, job_id: u32, info: &JobInfo, created_time: i64) -> (r: Job)
        ensures
            r.user_name@ == user_name@,
            r.job_id == job_id,
            r.info.same_as(info),
            r.score == 0,
            r.created_time == created_time,
            r.updated_time == created_time,
            r.state == State::Queueing,
            r.result == RunResult::Waiting,
            r.case_res@.len() == 0,
    {
        Job {
            user_name: String::from_str(user_name),
            job_id,
            info: info.duplicate(),
            score: 0,
            created_time,
            updated_time: created_time,
            state: State::Queueing,
            result: RunResult::Waiting,
            case_res: Vec::new(),
        }
    }

    /// The catalog has the job's language and problem.
    pub fn is_valid(&self, config: &Config) -> (r: bool)
        ensures
            r == (config.has_language(self.info.language@) && config.has_problem(
                self.info.problem_id,
            )),
    {
        config.language_index(&self.info.language).is_some() && config.problem_index(
            self.info.problem_id,
        ).is_some()
    }

    /// The record as shown to callers.
    pub fn response(&self) -> (r: Response)
        ensures
            r.id == self.job_id,
            r.created_time == self.created_time,
            r.updated_time == self.updated_time,
            r.submission.same_as(&self.info),
            r.state == self.state,
            r.result == self.result,
            r.score == self.score,
            r.cases@.len() == self.case_res@.len(),
            forall|i: int|
                0 <= i < r.cases@.len() ==> (#[trigger] r.cases@[i]).same_as(&self.case_res@[i]),
    {
        let mut cases: Vec<CaseResult> = Vec::new();
        let mut i: usize = 0;
        while i < self.case_res.len()
            invariant
                i <= self.case_res@.len(),
                cases@.len() == i,
                forall|j: int| 0 <= j < i ==> (#[trigger] cases@[j]).same_as(&self.case_res@[j]),
            decreases self.case_res@.len() - i,
        {
            cases.push(self.case_res[i].duplicate());
            i = i + 1;
        }
        Response {
            id: self.job_id,
            created_time: self.created_time,
            updated_time: self.updated_time,
            submission: self.info.duplicate(),
            state: self.state,
            result: self.result,
            score: self.score,
            cases,
        }
    }

    /// First step of a run. When the scratch directory could not be
    /// prepared the run ends in System Error and nothing else changes;
    /// otherwise the score is reset, every step is set back to Waiting, and
    /// compilation comes next.
    pub fn begin(&mut self, problem: &Problem, workspace_ready: bool, now: i64) -> (a: Action)
        requires
            problem.wf(),
        ensures
            final(self).same_identity(old(self)),
            final(self).updated_time == now,
            !workspace_ready ==> {
                &&& final(self).state == State::Finished
                &&& final(self).result == RunResult::SystemError
                &&& final(self).score == old(self).score
                &&& final(self).case_res == old(self).case_res
                &&& a == Action::Finish
            },
            workspace_ready ==> {
                &&& final(self).state == State::Running
                &&& final(self).result == RunResult::Running
                &&& final(self).score == 0
                &&& final(self).case_res@.len() == problem.cases@.len() + 1
                &&& forall|i: int|
                    0 <= i < final(self).case_res@.len()
                        ==> (#[trigger] final(self).case_res@[i]).is_fresh(i)
                &&& a == Action::Compile
            },
    {
        self.updated_time = now;
        if !workspace_ready {
            self.state = State::Finished;
            self.result = RunResult::SystemError;
            return Action::Finish;
        }
        self.score = 0;
        self.state = State::Running;
        self.result = RunResult::Running;
        let n = problem.cases.len();
        let mut cases: Vec<CaseResult> = Vec::new();
        let mut i: usize = 0;
        while i <= n
            invariant
                n == problem.cases@.len() < u32::MAX,
                i <= n + 1,
                cases@.len() == i,
                forall|j: int| 0 <= j < i ==> (#[trigger] cases@[j]).is_fresh(j),
            decreases n + 1 - i,
        {
            cases.push(CaseResult::new(i as u32));
            i = i + 1;
        }
        self.case_res = cases;
        Action::Compile
    }

    /// Records the compile step's outcome. Success leads to the first case,
    /// or, with no cases, to Accepted; any other outcome ends the run with it.
    pub fn record_compile(&mut self, outcome: RunResult, now: i64) -> (a: Action)
        requires
            old(self).case_res@.len() >= 1,
        ensures
            final(self).same_identity(old(self)),
            final(self).updated_time == now,
            final(self).score == old(self).score,
            final(self).case_res@ == old(self).case_res@.update(
                0,
                with_outcome(old(self).case_res@[0], outcome, None),
            ),
            outcome != RunResult::CompilationSuccess ==> {
                &&& final(self).state == State::Finished
                &&& final(self).result == outcome
                &&& a == Action::Finish
            },
            outcome == RunResult::CompilationSuccess && old(self).case_res@.len() == 1 ==> {
                &&& final(self).state == State::Finished
                &&& final(self).result == RunResult::Accepted
                &&& a == Action::Finish
            },
            outcome == RunResult::CompilationSuccess && old(self).case_res@.len() > 1 ==> {
                &&& final(self).state == old(self).state
                &&& final(self).result == RunResult::CompilationSuccess
                &&& a == Action::RunCase(1)
            },
    {
        self.updated_time = now;
        set_step(&mut self.case_res, 0, outcome, None);
        if outcome != RunResult::CompilationSuccess {
            self.state = State::Finished;
            self.result = outcome;
            return Action::Finish;
        }
        if self.case_res.len() == 1 {
            self.state = State::Finished;
            self.result = RunResult::Accepted;
            return Action::Finish;
        }
        self.result = RunResult::CompilationSuccess;
        Action::RunCase(1)
    }

    /// Tells whether every case after the compile step is accepted.
    fn cases_all_accepted(&self) -> (r: bool)
        ensures
            r == all_accepted(self.case_res@),
    {
        let mut i: usize = 1;
        while i < self.case_res.len()
            invariant
                1 <= i,
                i <= self.case_res@.len() || self.case_res@.len() == 0,
                forall|j: int|
                    1 <= j < i && j < self.case_res@.len() ==> (#[trigger] self.case_res@[j]).result
                        == RunResult::Accepted,
            decreases self.case_res@.len() - i,
        {
            if self.case_res[i].result != RunResult::Accepted {
                return false;
            }
            i = i + 1;
        }
        true
    }

    /// Records the verdict of case `idx` (1-based) and adds its score when
    /// it is accepted. Any outcome but Accepted and Wrong Answer ends the
    /// run with that outcome; after the last case the run ends in Accepted
    /// when every case is accepted, else in Wrong Answer; otherwise the next
    /// case comes.
    pub fn record_case(
        &mut self,
        problem: &Problem,
        idx: usize,
        verdict: RunResult,
        info: String,
        now: i64,
    ) -> (a: Action)
        requires
            old(self).case_res@.len() == problem.cases@.len() + 1,
            1 <= idx <= problem.cases@.len(),
            old(self).score + problem.cases@[idx - 1].score <= u64::MAX,
        ensures
            final(self).same_identity(old(self)),
            final(self).updated_time == now,
            final(self).case_res@ == old(self).case_res@.update(
                idx as int,
                with_outcome(old(self).case_res@[idx as int], verdict, Some(info)),
            ),
            final(self).score == old(self).score + if verdict == RunResult::Accepted {
                problem.cases@[idx - 1].score as int
            } else {
                0
            },
            halts(verdict) ==> {
                &&& final(self).state == State::Finished
                &&& final(self).result == verdict
                &&& a == Action::Finish
            },
            !halts(verdict) && idx == problem.cases@.len() ==> {
                &&& final(self).state == State::Finished
                &&& final(self).result == if all_accepted(final(self).case_res@) {
                    RunResult::Accepted
                } else {
                    RunResult::WrongAnswer
                }
                &&& a == Action::Finish
            },
            !halts(verdict) && idx < problem.cases@.len() ==> {
                &&& final(self).state == old(self).state
                &&& final(self).result == old(self).result
                &&& a == Action::RunCase((idx + 1) as usize)
            },
    {
        self.updated_time = now;
        set_step(&mut self.case_res, idx, verdict, Some(info));
        if verdict == RunResult::Accepted {
            self.score = self.score + problem.cases[idx - 1].score;
        }
        if verdict != RunResult::Accepted && verdict != RunResult::WrongAnswer {
            self.state = State::Finished;
            self.result = verdict;
            return Action::Finish;
        }
        if idx == problem.cases.len() {
            self.state = State::Finished;
            self.result = if self.cases_all_accepted() {
                RunResult::Accepted
            } else {
                RunResult::WrongAnswer
            };
            return Action::Finish;
        }
        Action::RunCase(idx + 1)
    }

    /// The response matches the record.
    pub open spec fn shows(&self, r: &Response) -> bool {
        &&& r.id == self.job_id
        &&& r.created_time == self.created_time
        &&& r.updated_time == self.updated_time
        &&& r.submission.same_as(&self.info)
        &&& r.state == self.state
        &&& r.result == self.result
        &&& r.score == self.score
        &&& r.cases@.len() == self.case_res@.len()
        &&& forall|i: int|
            0 <= i < r.cases@.len() ==> (#[trigger] r.cases@[i]).same_as(&self.case_res@[i])
    }

    /// Runs the engine over the recorded outside steps of one run of
    /// `problem`: the record ends Finished, with the outcome, score and
    /// steps that `executed` describes, and the response shows it.
    pub fn run(&mut self, problem: &Problem, exec: &Execution, now: i64) -> (r: Response)
        requires
            problem.wf(),
            exec.complete(problem.cases@.len() as int),
        ensures
            Job::ran(*old(self), *final(self), problem, exec, now),
            final(self).shows(&r),
    {
        let ghost orig = *self;
        let ghost scores = problem.scores();
        let ghost rs = exec.results();
        let n = problem.cases.len();
        let _ = self.begin(problem, exec.workspace_ready, now);
        if !exec.workspace_ready {
            return self.response();
        }
        let _ = self.record_compile(exec.compile, now);
        if exec.compile != RunResult::CompilationSuccess {
            assert forall|i: int| 1 <= i <= n implies (#[trigger] self.case_res@[i]).is_fresh(i) by {}
            return self.response();
        }
        if n == 0 {
            proof {
                lemma_first_halt_is(rs, 0, 0);
                assert(exec.verdicts@.len() == 0);
            }
            return self.response();
        }
        let mut i: usize = 0;
        while i < n
            invariant
                problem.wf(),
                n == problem.cases@.len() >= 1,
                scores == problem.scores(),
                rs == exec.results(),
                exec.workspace_ready,
                exec.compile == RunResult::CompilationSuccess,
                exec.complete(n as int),
                i <= n,
                i <= exec.verdicts@.len(),
                orig == *old(self),
                self.same_identity(&orig),
                self.updated_time == now,
                self.case_res@.len() == n + 1,
                forall|j: int|
                    0 <= j <= n ==> (#[trigger] self.case_res@[j]).id == j && self.case_res@[j].time
                        == 0 && self.case_res@[j].memory == 0,
                self.case_res@[0].result == RunResult::CompilationSuccess,
                self.case_res@[0].info@ == Seq::<char>::empty(),
                forall|j: int|
                    1 <= j <= i ==> (#[trigger] self.case_res@[j]).result == exec.verdicts@[j
                        - 1].result && self.case_res@[j].info@ == exec.verdicts@[j - 1].info@,
                forall|j: int| i < j <= n ==> (#[trigger] self.case_res@[j]).is_fresh(j),
                forall|j: int| 0 <= j < i ==> !halts(#[trigger] rs[j]),
                self.score == accepted_score(scores, rs, i as int),
                i < n ==> self.state == State::Running && self.result
                    == RunResult::CompilationSuccess,
                i == n ==> self.state == State::Finished && self.result == if all_accepted(
                    self.case_res@,
                ) {
                    RunResult::Accepted
                } else {
                    RunResult::WrongAnswer
                },
            decreases n - i,
        {
            proof {
                lemma_first_halt(rs, exec.verdicts@.len() as int);
                if i == exec.verdicts@.len() {
                    lemma_first_halt_is(rs, i as int, i as int);
                }
                lemma_accepted_score_bound(scores, rs, i as int);
                lemma_sum_first_monotone(scores, i + 1, n as int);
            }
            let v = &exec.verdicts[i];
            assert(rs[i as int] == v.result);
            let _ = self.record_case(problem, i + 1, v.result, v.info.clone(), now);
            if v.result != RunResult::Accepted && v.result != RunResult::WrongAnswer {
                proof {
                    lemma_first_halt_is(rs, exec.verdicts@.len() as int, i as int);
                    assert(accepted_score(scores, rs, i + 1) == accepted_score(scores, rs, i as int));
                    assert forall|j: int|
                        1 <= j <= n && j <= exec.cases_run() implies (#[trigger] self.case_res@[j]).result
                            == exec.verdicts@[j - 1].result && self.case_res@[j].info@
                            == exec.verdicts@[j - 1].info@ by {}
                    assert forall|j: int|
                        1 <= j <= n && j > exec.cases_run() implies (#[trigger] self.case_res@[j]).is_fresh(j) by {}
                }
                return self.response();
            }
            i = i + 1;
        }
        proof {
            let m = exec.verdicts@.len() as int;
            lemma_first_halt(rs, m);
            lemma_first_halt_is(rs, m, m);
            assert(m == n);
            assert(all_accepted(self.case_res@) == (forall|j: int|
                0 <= j < m ==> rs[j] == RunResult::Accepted)) by {
                if all_accepted(self.case_res@) {
                    assert forall|j: int| 0 <= j < m implies rs[j] == RunResult::Accepted by {
                        assert(self.case_res@[j + 1].result == RunResult::Accepted);
                    }
                }
                if forall|j: int| 0 <= j < m ==> rs[j] == RunResult::Accepted {
                    assert forall|j: int| 1 <= j < self.case_res@.len() implies (
                    #[trigger] self.case_res@[j]).result == RunResult::Accepted by {
                        assert(rs[j - 1] == RunResult::Accepted);
                    }
                }
            }
        }
        self.response()
    }
}

/// The outcomes of the cases of a step list, without the compile step.
pub open spec fn case_outcomes(cases: Seq<CaseResult>) -> Seq<RunResult> {
    Seq::new((cases.len() - 1) as nat, |i: int| cases[i + 1].result)
}

/// Once a run over a prepared scratch directory is over, the record holds
/// one step for compilation and one for each case of the problem, even when
/// the run stopped early.
pub proof fn lemma_run_keeps_one_step_per_case(
    old: Job,
    new: Job,
    p: &Problem,
    e: &Execution,
    now: i64,
)
    requires
        Job::ran(old, new, p, e, now),
        e.workspace_ready,
    ensures
        new.case_res@.len() == 1 + p.cases@.len(),
{
}

/// Once a run over a prepared scratch directory is over, the job's score is
/// the sum of the scores of the cases whose outcome is Accepted, and of no
/// others.
pub proof fn lemma_run_score_is_accepted_sum(
    old: Job,
    new: Job,
    p: &Problem,
    e: &Execution,
    now: i64,
)
    requires
        Job::ran(old, new, p, e, now),
        e.workspace_ready,
        e.complete(p.cases@.len() as int),
    ensures
        new.score == accepted_score(p.scores(), case_outcomes(new.case_res@), p.cases@.len() as int),
{
    let n = p.cases@.len() as int;
    let steps = case_outcomes(new.case_res@);
    assert forall|j: int| 0 <= j < n implies #[trigger] steps[j] == new.case_res@[j + 1].result by {}
    if e.compile != RunResult::CompilationSuccess {
        assert forall|j: int| 0 <= j < n implies #[trigger] steps[j] != RunResult::Accepted by {
            assert(new.case_res@[j + 1].is_fresh(j + 1));
        }
        lemma_accepted_score_tail(p.scores(), steps, 0, n);
    } else {
        let rs = e.results();
        let m = rs.len() as int;
        let k = e.cases_run();
        lemma_first_halt(rs, m);
        assert(k <= m && m <= n);
        assert forall|j: int| 0 <= j < k implies (#[trigger] rs[j] == RunResult::Accepted) == (
        steps[j] == RunResult::Accepted) by {
            assert(new.case_res@[j + 1].result == e.verdicts@[j].result);
        }
        lemma_accepted_score_agree(p.scores(), rs, steps, k);
        assert forall|j: int| k <= j < n implies #[trigger] steps[j] != RunResult::Accepted by {
            assert(new.case_res@[j + 1].is_fresh(j + 1));
        }
        lemma_accepted_score_tail(p.scores(), steps, k, n);
    }
}

/// Once a run over a prepared scratch directory is over, a case whose
/// outcome stopped the run (neither Accepted, Wrong Answer nor Waiting)
/// leaves every later case Waiting, and the job's outcome is that case's.
pub proof fn lemma_run_halts_at_first_stop(
    old: Job,
    new: Job,
    p: &Problem,
    e: &Execution,
    now: i64,
    i: int,
)
    requires
        Job::ran(old, new, p, e, now),
        e.workspace_ready,
        e.complete(p.cases@.len() as int),
        1 <= i <= p.cases@.len(),
        halts(new.case_res@[i].result),
        new.case_res@[i].result != RunResult::Waiting,
    ensures
        forall|j: int|
            i < j <= p.cases@.len() ==> (#[trigger] new.case_res@[j]).result == RunResult::Waiting,
        new.result == new.case_res@[i].result,
{
    let n = p.cases@.len() as int;
    if e.compile != RunResult::CompilationSuccess {
        assert(new.case_res@[i].is_fresh(i));
    } else {
        let rs = e.results();
        let m = rs.len() as int;
        let k = e.cases_run();
        lemma_first_halt(rs, m);
        if i > k {
            assert(new.case_res@[i].is_fresh(i));
        } else {
            assert(rs[i - 1] == new.case_res@[i].result);
            assert(i - 1 == first_halt(rs, m));
            assert forall|j: int| i < j <= n implies (#[trigger] new.case_res@[j]).result
                == RunResult::Waiting by {
                assert(new.case_res@[j].is_fresh(j));
            }
        }
    }
}

/// Running a finished job again over the same problem and the same outside
/// results gives the same outcome and the same score.
pub proof fn lemma_rerun_same_outcome(
    j0: Job,
    j1: Job,
    j2: Job,
    p: &Problem,
    e: &Execution,
    t1: i64,
    t2: i64,
)
    requires
        Job::ran(j0, j1, p, e, t1),
        Job::ran(j1, j2, p, e, t2),
    ensures
        j2.result == j1.result,
        j2.score == j1.score,
        j2.state == State::Finished,
{
}

} // verus!
