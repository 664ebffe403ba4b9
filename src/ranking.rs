//! The contest ranking: each user's representative submission per problem,
//! the sort under a tie-breaker, and dense competition ranks.
use vstd::prelude::*;

use crate::config::Config;
use crate::job::Job;
use crate::outcome::AppError;
use crate::store::{copy_ids, JobData, User};

verus! {

/// What a user's place is sorted by: total score (higher first), then the
/// tie-breaker's value (lower first), then the user id (lower first).
#[derive(Debug, Clone, Copy)]
pub struct RankKey {
    pub total: u128,
    pub tie: u128,
    pub user_id: u32,
}

/// `a` is placed above `b` whatever their user ids.
pub open spec fn group_before(a: RankKey, b: RankKey) -> bool {
    a.total > b.total || (a.total == b.total && a.tie < b.tie)
}

/// `a` and `b` share a rank when next to each other.
pub open spec fn same_group(a: RankKey, b: RankKey) -> bool {
    a.total == b.total && a.tie == b.tie
}

/// Entry `i` is listed before entry `j`: by key, then user id, then place in
/// the input.
pub open spec fn key_before(keys: Seq<RankKey>, i: int, j: int) -> bool {
    group_before(keys[i], keys[j]) || (same_group(keys[i], keys[j]) && (keys[i].user_id
        < keys[j].user_id || (keys[i].user_id == keys[j].user_id && i < j)))
}

/// `ord` lists every index of `keys` once, in listing order.
pub open spec fn is_order(keys: Seq<RankKey>, ord: Seq<usize>) -> bool {
    &&& ord.len() == keys.len()
    &&& forall|k: int| 0 <= k < ord.len() ==> #[trigger] ord[k] < keys.len()
    &&& forall|i: usize| i < keys.len() ==> #[trigger] ord.contains(i)
    &&& forall|a: int, b: int|
        0 <= a < b < ord.len() ==> key_before(keys, #[trigger] ord[a] as int, #[trigger] ord[b] as int)
}

/// Dense competition rank of the `k`-th listed entry: the previous entry's
/// rank when they share a group, else `k + 1`.
pub open spec fn rank_at(keys: Seq<RankKey>, ord: Seq<usize>, k: int) -> int
    decreases k,
{
    if k <= 0 {
        1
    } else if same_group(keys[ord[k - 1] as int], keys[ord[k] as int]) {
        rank_at(keys, ord, k - 1)
    } else {
        k + 1
    }
}

proof fn lemma_key_before_trans(keys: Seq<RankKey>, i: int, j: int, k: int)
    requires
        key_before(keys, i, j),
        key_before(keys, j, k),
    ensures
        key_before(keys, i, k),
{
}

/// `a` is before `b` by key, as a comparison.
fn before(keys: &Vec<RankKey>, i: usize, j: usize) -> (r: bool)
    requires
        i < keys@.len(),
        j < keys@.len(),
    ensures
        r == key_before(keys@, i as int, j as int),
{
    let a = keys[i];
    let b = keys[j];
    if a.total != b.total {
        return a.total > b.total;
    }
    if a.tie != b.tie {
        return a.tie < b.tie;
    }
    if a.user_id != b.user_id {
        return a.user_id < b.user_id;
    }
    i < j
}

/// The listing order of the entries.
pub fn sort_order(keys: &Vec<RankKey>) -> (ord: Vec<usize>)
    ensures
        is_order(keys@, ord@),
{
    let mut sorted: Vec<usize> = Vec::new();
    let mut i: usize = 0;
    while i < keys.len()
        invariant
            i <= keys@.len(),
            sorted@.len() == i,
            forall|k: int| 0 <= k < sorted@.len() ==> #[trigger] sorted@[k] < i,
            forall|j: usize| j < i ==> #[trigger] sorted@.contains(j),
            forall|a: int, b: int|
                0 <= a < b < sorted@.len() ==> key_before(
                    keys@,
                    #[trigger] sorted@[a] as int,
                    #[trigger] sorted@[b] as int,
                ),
        decreases keys@.len() - i,
    {
        let mut p: usize = 0;
        while p < sorted.len() && !before(keys, i, sorted[p])
            invariant
                p <= sorted@.len(),
                i < keys@.len(),
                forall|k: int| 0 <= k < sorted@.len() ==> #[trigger] sorted@[k] < i,
                forall|k: int|
                    0 <= k < p ==> !key_before(keys@, i as int, #[trigger] sorted@[k] as int),
            decreases sorted@.len() - p,
        {
            p = p + 1;
        }
        let ghost s0 = sorted@;
        sorted.insert(p, i);
        proof {
            let s1 = sorted@;
            assert(s1 =~= s0.insert(p as int, i));
            assert forall|a: int, b: int| 0 <= a < b < s1.len() implies key_before(
                keys@,
                #[trigger] s1[a] as int,
                #[trigger] s1[b] as int,
            ) by {
                if a < p && b == p {
                    assert(!key_before(keys@, i as int, s0[a] as int));
                    assert(s0[a] < i);
                } else if a < p && b > p {
                    assert(s1[b] == s0[b - 1]);
                } else if a == p && b > p {
                    assert(s1[b] == s0[b - 1]);
                    if b - 1 > p {
                        assert(key_before(keys@, s0[p as int] as int, s0[b - 1] as int));
                        lemma_key_before_trans(keys@, i as int, s0[p as int] as int, s0[b - 1] as int);
                    }
                } else if a > p {
                    assert(s1[a] == s0[a - 1] && s1[b] == s0[b - 1]);
                }
            }
            assert forall|j: usize| j < i + 1 implies #[trigger] s1.contains(j) by {
                if j < i {
                    assert(s0.contains(j));
                    let k = choose|k: int| 0 <= k < s0.len() && s0[k] == j;
                    if k < p {
                        assert(s1[k] == j);
                    } else {
                        assert(s1[k + 1] == j);
                    }
                } else {
                    assert(s1[p as int] == i);
                }
            }
            assert forall|k: int| 0 <= k < s1.len() implies #[trigger] s1[k] < i + 1 by {
                if k > p {
                    assert(s1[k] == s0[k - 1]);
                }
            }
        }
        i = i + 1;
    }
    sorted
}

/// The rank of each listed entry, in listing order.
pub fn ranks(keys: &Vec<RankKey>, ord: &Vec<usize>) -> (r: Vec<usize>)
    requires
        is_order(keys@, ord@),
    ensures
        r@.len() == ord@.len(),
        forall|k: int| 0 <= k < r@.len() ==> #[trigger] r@[k] == rank_at(keys@, ord@, k),
{
    let mut r: Vec<usize> = Vec::new();
    let mut k: usize = 0;
    while k < ord.len()
        invariant
            is_order(keys@, ord@),
            k <= ord@.len(),
            r@.len() == k,
            forall|q: int| 0 <= q < k ==> #[trigger] r@[q] == rank_at(keys@, ord@, q),
        decreases ord@.len() - k,
    {
        let rank: usize = if k == 0 {
            1
        } else {
            let a = keys[ord[k - 1]];
            let b = keys[ord[k]];
            if a.total == b.total && a.tie == b.tie {
                r[k - 1]
            } else {
                k + 1
            }
        };
        r.push(rank);
        k = k + 1;
    }
    r
}

/// The rank is one more than the place of the first entry of its group.
proof fn lemma_rank_is_group_start(keys: Seq<RankKey>, ord: Seq<usize>, k: int)
    requires
        is_order(keys, ord),
        0 <= k < ord.len(),
    ensures
        1 <= rank_at(keys, ord, k) <= k + 1,
        same_group(keys[ord[rank_at(keys, ord, k) - 1] as int], keys[ord[k] as int]),
        rank_at(keys, ord, k) >= 2 ==> !same_group(
            keys[ord[rank_at(keys, ord, k) - 2] as int],
            keys[ord[rank_at(keys, ord, k) - 1] as int],
        ),
    decreases k,
{
    if k > 0 {
        lemma_rank_is_group_start(keys, ord, k - 1);
    }
}

/// Two listed entries with the same total score and tie-breaker value have
/// the same rank; an entry placed above another by them has a smaller rank.
pub proof fn lemma_rank_by_group(keys: Seq<RankKey>, ord: Seq<usize>, a: int, b: int)
    requires
        is_order(keys, ord),
        0 <= a < ord.len(),
        0 <= b < ord.len(),
    ensures
        same_group(keys[ord[a] as int], keys[ord[b] as int]) ==> rank_at(keys, ord, a) == rank_at(
            keys,
            ord,
            b,
        ),
        group_before(keys[ord[a] as int], keys[ord[b] as int]) ==> rank_at(keys, ord, a)
            < rank_at(keys, ord, b),
    decreases (if a < b { b - a } else { a - b }), (if a > b { 1int } else { 0int }),
{
    lemma_rank_is_group_start(keys, ord, a);
    lemma_rank_is_group_start(keys, ord, b);
    if a < b {
        if same_group(keys[ord[a] as int], keys[ord[b] as int]) {
            // every entry between them shares their group
            assert(key_before(keys, ord[b - 1] as int, ord[b] as int) || b - 1 == a);
            if b - 1 > a {
                assert(key_before(keys, ord[a] as int, ord[b - 1] as int));
            }
            assert(same_group(keys[ord[b - 1] as int], keys[ord[b] as int]));
            lemma_rank_by_group(keys, ord, a, b - 1);
        }
        if group_before(keys[ord[a] as int], keys[ord[b] as int]) {
            let gb = rank_at(keys, ord, b) - 1;
            if gb <= a {
                if gb < a {
                    assert(key_before(keys, ord[gb] as int, ord[a] as int));
                }
                assert(key_before(keys, ord[a] as int, ord[b] as int));
            }
        }
    } else if b < a {
        if same_group(keys[ord[a] as int], keys[ord[b] as int]) {
            lemma_rank_by_group(keys, ord, b, a);
        }
        if group_before(keys[ord[a] as int], keys[ord[b] as int]) {
            assert(key_before(keys, ord[b] as int, ord[a] as int));
        }
    }
}

/// Which submission stands for a user on a problem.
#[derive(Debug, PartialEq, Eq, Structural, Clone, Copy)]
pub enum ScoringRule {
    /// The latest submission.
    Latest,
    /// The best-scored submission; the earliest among equal scores.
    Highest,
}

/// What decides between users with equal total scores.
#[derive(Debug, PartialEq, Eq, Structural, Clone, Copy)]
pub enum TieBreaker {
    /// The earlier latest submission wins.
    SubmissionTime,
    /// Fewer submissions win.
    SubmissionCount,
    /// The lower user id wins.
    UserId,
    /// Nothing: such users share a rank.
    NoBreak,
}

/// The parameters of a ranking.
#[derive(Debug, Clone, Copy)]
pub struct RanklistArg {
    pub scoring_rule: ScoringRule,
    pub tie_breaker: TieBreaker,
}

pub fn _default_scoring_rule() -> (r: ScoringRule)
    ensures
        r == ScoringRule::Latest,
{
    ScoringRule::Latest
}

pub fn _default_tie_breaker() -> (r: TieBreaker)
    ensures
        r == TieBreaker::NoBreak,
{
    TieBreaker::NoBreak
}

/// One user's line of a ranking.
#[derive(Debug)]
pub struct ContestRes {
    pub user: User,
    pub rank: usize,
    pub scores: Vec<u64>,
}

impl ContestRes {
    /// A line for `user` with `scores`, not ranked yet (rank 0).
    pub fn new(user: &User, scores: Vec<u64>) -> (r: ContestRes)
        ensures
            r.user.id == user.id,
            r.user.name@ == user.name@,
            r.rank == 0,
            r.scores == scores,
    {
        ContestRes { user: user.duplicate(), rank: 0, scores }
    }
}

/// The job is a submission of user `u` for problem `p` in contest `c`.
pub open spec fn in_scope(j: Job, u: u32, p: u32, c: u32) -> bool {
    j.info.user_id == u && j.info.problem_id == p && j.info.contest_id == c
}

/// Under `rule`, `a` stands for the user at least as well as `b`.
pub open spec fn at_least(rule: ScoringRule, a: Job, b: Job) -> bool {
    match rule {
        ScoringRule::Latest => a.created_time >= b.created_time,
        ScoringRule::Highest => a.score > b.score || (a.score == b.score && a.created_time
            <= b.created_time),
    }
}

/// Among the first `k` jobs, the position of the representative submission
/// of user `u` for problem `p` in contest `c`: the last of those that stand
/// at least as well as all others.
pub open spec fn representative(
    rule: ScoringRule,
    jobs: Seq<Job>,
    u: u32,
    p: u32,
    c: u32,
    k: int,
) -> Option<int>
    decreases k,
{
    if k <= 0 {
        None
    } else {
        let prev = representative(rule, jobs, u, p, c, k - 1);
        if in_scope(jobs[k - 1], u, p, c) && (prev matches Some(r) ==> at_least(
            rule,
            jobs[k - 1],
            jobs[r],
        )) {
            Some(k - 1)
        } else {
            prev
        }
    }
}

/// How many of the first `k` jobs are submissions of `u` for `p` in `c`.
pub open spec fn match_count(jobs: Seq<Job>, u: u32, p: u32, c: u32, k: int) -> int
    decreases k,
{
    if k <= 0 {
        0
    } else {
        match_count(jobs, u, p, c, k - 1) + if in_scope(jobs[k - 1], u, p, c) {
            1int
        } else {
            0
        }
    }
}

/// The score that problem `p` contributes to user `u`: the representative's
/// score, or 0 without a submission.
pub open spec fn problem_score(rule: ScoringRule, jobs: Seq<Job>, u: u32, p: u32, c: u32) -> int {
    match representative(rule, jobs, u, p, c, jobs.len() as int) {
        Some(r) => jobs[r].score as int,
        None => 0,
    }
}

/// Sum of the scores of the first `k` problems of `pids` for user `u`.
pub open spec fn score_sum(
    rule: ScoringRule,
    jobs: Seq<Job>,
    u: u32,
    pids: Seq<u32>,
    c: u32,
    k: int,
) -> int
    decreases k,
{
    if k <= 0 {
        0
    } else {
        score_sum(rule, jobs, u, pids, c, k - 1) + problem_score(rule, jobs, u, pids[k - 1], c)
    }
}

/// Number of submissions of user `u` for the first `k` problems of `pids`.
pub open spec fn count_sum(jobs: Seq<Job>, u: u32, pids: Seq<u32>, c: u32, k: int) -> int
    decreases k,
{
    if k <= 0 {
        0
    } else {
        count_sum(jobs, u, pids, c, k - 1) + match_count(jobs, u, pids[k - 1], c, jobs.len() as int)
    }
}

/// Latest creation time of the representatives for the first `k` problems
/// of `pids`; `None` when none of them has a submission.
pub open spec fn latest_time(
    rule: ScoringRule,
    jobs: Seq<Job>,
    u: u32,
    pids: Seq<u32>,
    c: u32,
    k: int,
) -> Option<i64>
    decreases k,
{
    if k <= 0 {
        None
    } else {
        let prev = latest_time(rule, jobs, u, pids, c, k - 1);
        match representative(rule, jobs, u, pids[k - 1], c, jobs.len() as int) {
            None => prev,
            Some(r) => match prev {
                Some(t) => if jobs[r].created_time > t {
                    Some(jobs[r].created_time)
                } else {
                    Some(t)
                },
                None => Some(jobs[r].created_time),
            },
        }
    }
}

/// The tie-breaker's value for a user (lower is better): the latest
/// activity time (shifted to be non-negative), the submission count, the
/// user id, or nothing.
pub open spec fn tie_value(tb: TieBreaker, time: i64, count: int, u: u32) -> int {
    match tb {
        TieBreaker::SubmissionTime => time + 0x8000_0000_0000_0000,
        TieBreaker::SubmissionCount => count,
        TieBreaker::UserId => u as int,
        TieBreaker::NoBreak => 0,
    }
}

proof fn lemma_at_least_trans(rule: ScoringRule, a: Job, b: Job, c: Job)
    requires
        at_least(rule, a, b),
        at_least(rule, b, c),
    ensures
        at_least(rule, a, c),
{
}

/// The representative is a submission in scope that stands at least as well
/// as every submission in scope, and there is one whenever there is any.
pub proof fn lemma_representative_is_best(
    rule: ScoringRule,
    jobs: Seq<Job>,
    u: u32,
    p: u32,
    c: u32,
    k: int,
)
    requires
        0 <= k <= jobs.len(),
    ensures
        representative(rule, jobs, u, p, c, k) is None <==> forall|j: int|
            0 <= j < k ==> !in_scope(#[trigger] jobs[j], u, p, c),
        representative(rule, jobs, u, p, c, k) matches Some(r) ==> {
            &&& 0 <= r < k
            &&& in_scope(jobs[r], u, p, c)
            &&& forall|j: int|
                0 <= j < k && in_scope(#[trigger] jobs[j], u, p, c) ==> at_least(rule, jobs[r], jobs[j])
        },
    decreases k,
{
    if k > 0 {
        lemma_representative_is_best(rule, jobs, u, p, c, k - 1);
        let prev = representative(rule, jobs, u, p, c, k - 1);
        let x = jobs[k - 1];
        if in_scope(x, u, p, c) {
            match prev {
                Some(r) => {
                    if at_least(rule, x, jobs[r]) {
                        assert forall|j: int|
                            0 <= j < k && in_scope(#[trigger] jobs[j], u, p, c) implies at_least(
                            rule,
                            x,
                            jobs[j],
                        ) by {
                            if j < k - 1 {
                                lemma_at_least_trans(rule, x, jobs[r], jobs[j]);
                            }
                        }
                    } else {
                        assert(at_least(rule, jobs[r], x));
                    }
                },
                None => {},
            }
        }
    }
}

/// Under the Highest rule, the representative has the best score, and among
/// submissions with that score it is the earliest created.
pub proof fn lemma_highest_prefers_earliest(jobs: Seq<Job>, u: u32, p: u32, c: u32, j: int)
    requires
        0 <= j < jobs.len(),
        in_scope(jobs[j], u, p, c),
    ensures
        representative(ScoringRule::Highest, jobs, u, p, c, jobs.len() as int) matches Some(r) && {
            &&& jobs[r].score >= jobs[j].score
            &&& jobs[r].score == jobs[j].score ==> jobs[r].created_time <= jobs[j].created_time
        },
{
    lemma_representative_is_best(ScoringRule::Highest, jobs, u, p, c, jobs.len() as int);
}

/// The representative of `u` for `p` in `c`, and how many submissions there are.
fn pick(jobs: &Vec<Job>, rule: ScoringRule, u: u32, p: u32, c: u32) -> (r: (Option<usize>, usize))
    ensures
        r.0 matches Some(i) ==> i < jobs@.len() && representative(
            rule,
            jobs@,
            u,
            p,
            c,
            jobs@.len() as int,
        ) == Some(i as int),
        r.0 is None ==> representative(rule, jobs@, u, p, c, jobs@.len() as int) is None,
        r.1 == match_count(jobs@, u, p, c, jobs@.len() as int),
{
    let mut best: Option<usize> = None;
    let mut count: usize = 0;
    let mut i: usize = 0;
    while i < jobs.len()
        invariant
            i <= jobs@.len(),
            count <= i,
            count == match_count(jobs@, u, p, c, i as int),
            best matches Some(b) ==> representative(rule, jobs@, u, p, c, i as int) == Some(
                b as int,
            ) && b < i,
            best is None ==> representative(rule, jobs@, u, p, c, i as int) is None,
        decreases jobs@.len() - i,
    {
        let j = &jobs[i];
        if j.info.user_id == u && j.info.problem_id == p && j.info.contest_id == c {
            count = count + 1;
            let take = match best {
                None => true,
                Some(b) => match rule {
                    ScoringRule::Latest => j.created_time >= jobs[b].created_time,
                    ScoringRule::Highest => j.score > jobs[b].score || (j.score == jobs[b].score
                        && j.created_time <= jobs[b].created_time),
                },
            };
            if take {
                best = Some(i);
            }
        }
        i = i + 1;
    }
    (best, count)
}

/// The numbers of one user's line: the score for each problem, their sum,
/// the number of submissions, and the latest representative's time.
fn user_entry(jobs: &Vec<Job>, rule: ScoringRule, u: u32, pids: &Vec<u32>, c: u32) -> (r: (
    Vec<u64>,
    u128,
    u128,
    Option<i64>,
))
    ensures
        r.0@.len() == pids@.len(),
        forall|k: int|
            0 <= k < pids@.len() ==> #[trigger] r.0@[k] == problem_score(rule, jobs@, u, pids@[k], c),
        r.1 == score_sum(rule, jobs@, u, pids@, c, pids@.len() as int),
        r.2 == count_sum(jobs@, u, pids@, c, pids@.len() as int),
        r.3 == latest_time(rule, jobs@, u, pids@, c, pids@.len() as int),
{
    let mut scores: Vec<u64> = Vec::new();
    let mut total: u128 = 0;
    let mut count: u128 = 0;
    let mut latest: Option<i64> = None;
    let mut k: usize = 0;
    while k < pids.len()
        invariant
            k <= pids@.len(),
            scores@.len() == k,
            forall|q: int|
                0 <= q < k ==> #[trigger] scores@[q] == problem_score(rule, jobs@, u, pids@[q], c),
            total == score_sum(rule, jobs@, u, pids@, c, k as int),
            count == count_sum(jobs@, u, pids@, c, k as int),
            total <= k * 0xffff_ffff_ffff_ffff,
            count <= k * 0xffff_ffff_ffff_ffff,
            latest == latest_time(rule, jobs@, u, pids@, c, k as int),
        decreases pids@.len() - k,
    {
        let (rep, n) = pick(jobs, rule, u, pids[k], c);
        let s: u64 = match rep {
            Some(i) => jobs[i].score,
            None => 0,
        };
        proof {
            let kk = k as int;
            let m = 0xffff_ffff_ffff_ffffint;
            assert(kk < m);
            assert((kk + 1) * m <= m * m) by (nonlinear_arith)
                requires
                    kk < m,
                    0 <= kk,
            ;
            assert(kk * m + m == (kk + 1) * m) by (nonlinear_arith);
            assert(n as int <= m);
        }
        scores.push(s);
        total = total + s as u128;
        count = count + n as u128;
        match rep {
            Some(i) => {
                let t = jobs[i].created_time;
                latest = match latest {
                    Some(l) => if t > l {
                        Some(t)
                    } else {
                        Some(l)
                    },
                    None => Some(t),
                };
            },
            None => {},
        }
        k = k + 1;
    }
    (scores, total, count, latest)
}

/// A copy of a list of scores.
fn copy_scores(v: &Vec<u64>) -> (r: Vec<u64>)
    ensures
        r@ == v@,
{
    let mut r: Vec<u64> = Vec::new();
    let mut i: usize = 0;
    while i < v.len()
        invariant
            i <= v@.len(),
            r@ == v@.subrange(0, i as int),
        decreases v@.len() - i,
    {
        r.push(v[i]);
        i = i + 1;
    }
    assert(r@ =~= v@);
    r
}

impl JobData {
    /// The users a ranking covers: every registered user for contest 0,
    /// else the contest's users.
    pub open spec fn scope_users(&self, cid: u32) -> Seq<u32> {
        if cid == 0 {
            self.user_list@.map_values(|x: User| x.id)
        } else {
            self.contests_list@[self.contest_pos(cid)].info.user_ids@
        }
    }

    /// The problems a ranking covers: every catalog problem for contest 0,
    /// else the contest's problems.
    pub open spec fn scope_problems(&self, cid: u32, config: &Config) -> Seq<u32> {
        if cid == 0 {
            config.problems@.map_values(|x: crate::config::Problem| x.id)
        } else {
            self.contests_list@[self.contest_pos(cid)].info.problem_ids@
        }
    }

    /// The sort key of user `u` in the ranking of contest `cid` at `now`; a
    /// user without submissions counts as active at `now`.
    pub open spec fn rank_key(
        &self,
        cid: u32,
        arg: RanklistArg,
        config: &Config,
        now: i64,
        u: u32,
    ) -> RankKey {
        let jobs = self.job_list@;
        let pids = self.scope_problems(cid, config);
        let n = pids.len() as int;
        let time = match latest_time(arg.scoring_rule, jobs, u, pids, cid, n) {
            Some(t) => t,
            None => now,
        };
        RankKey {
            total: score_sum(arg.scoring_rule, jobs, u, pids, cid, n) as u128,
            tie: tie_value(arg.tie_breaker, time, count_sum(jobs, u, pids, cid, n), u) as u128,
            user_id: u,
        }
    }

    /// The sort keys of the users of the ranking, in scope order.
    pub open spec fn rank_keys(&self, cid: u32, arg: RanklistArg, config: &Config, now: i64) -> Seq<
        RankKey,
    > {
        self.scope_users(cid).map_values(|u: u32| self.rank_key(cid, arg, config, now, u))
    }

    /// `line` is the ranking line of user `u` with rank `rank`.
    pub open spec fn is_line(
        &self,
        line: &ContestRes,
        u: u32,
        rank: int,
        cid: u32,
        arg: RanklistArg,
        config: &Config,
    ) -> bool {
        let pids = self.scope_problems(cid, config);
        &&& line.user.id == u
        &&& line.user.name@ == self.user_list@[self.user_pos(u)].name@
        &&& line.rank == rank
        &&& line.scores@.len() == pids.len()
        &&& forall|q: int|
            0 <= q < pids.len() ==> #[trigger] line.scores@[q] == problem_score(
                arg.scoring_rule,
                self.job_list@,
                u,
                pids[q],
                cid,
            )
    }

    /// `res` is the ranking of contest `cid` at `now`, listed in order `ord`
    /// of the scope's users, each line with its dense competition rank.
    pub open spec fn ranked_as(
        &self,
        res: Seq<ContestRes>,
        ord: Seq<usize>,
        cid: u32,
        arg: RanklistArg,
        config: &Config,
        now: i64,
    ) -> bool {
        let keys = self.rank_keys(cid, arg, config, now);
        &&& is_order(keys, ord)
        &&& res.len() == ord.len()
        &&& forall|k: int|
            0 <= k < ord.len() ==> self.is_line(
                &#[trigger] res[k],
                self.scope_users(cid)[ord[k] as int],
                rank_at(keys, ord, k),
                cid,
                arg,
                config,
            )
    }

    /// The ranking of contest `contest_id` (0: every user and problem) at
    /// `now`. Fails with Not Found for an unknown contest or a contest user
    /// that is not registered.
    pub fn ranklist(&self, contest_id: u32, arg: &RanklistArg, config: &Config, now: i64) -> (r:
        Result<Vec<ContestRes>, AppError>)
        ensures
            r is Err <==> (contest_id != 0 && !self.has_contest(contest_id)) || !self.all_users(
                self.scope_users(contest_id),
            ),
            r matches Err(e) ==> e == AppError::ERR_NOT_FOUND,
            r matches Ok(res) ==> exists|ord: Seq<usize>|
                #[trigger] self.ranked_as(res@, ord, contest_id, *arg, config, now),
    {
        let mut users: Vec<u32> = Vec::new();
        let mut pids: Vec<u32> = Vec::new();
        if contest_id == 0 {
            let mut i: usize = 0;
            while i < self.user_list.len()
                invariant
                    i <= self.user_list@.len(),
                    users@ == self.user_list@.map_values(|x: User| x.id).subrange(0, i as int),
                decreases self.user_list@.len() - i,
            {
                users.push(self.user_list[i].id);
                i = i + 1;
            }
            let mut i: usize = 0;
            while i < config.problems.len()
                invariant
                    i <= config.problems@.len(),
                    pids@ == config.problems@.map_values(|x: crate::config::Problem| x.id).subrange(
                        0,
                        i as int,
                    ),
                decreases config.problems@.len() - i,
            {
                pids.push(config.problems[i].id);
                i = i + 1;
            }
            assert(users@ =~= self.scope_users(contest_id));
            assert(pids@ =~= self.scope_problems(contest_id, config));
        } else {
            match self.find_contest(contest_id) {
                Err(e) => { return Err(e); },
                Ok(c) => {
                    users = copy_ids(&c.info.user_ids);
                    pids = copy_ids(&c.info.problem_ids);
                },
            }
        }
        let ghost scope = self.scope_users(contest_id);
        let ghost keys_spec = self.rank_keys(contest_id, *arg, config, now);
        let mut i: usize = 0;
        while i < users.len()
            invariant
                users@ == scope,
                scope == self.scope_users(contest_id),
                i <= users@.len(),
                forall|j: int| 0 <= j < i ==> self.has_user(#[trigger] users@[j]),
            decreases users@.len() - i,
        {
            if self.user_index(users[i]).is_none() {
                assert(!self.has_user(scope[i as int]));
                return Err(AppError::ERR_NOT_FOUND);
            }
            i = i + 1;
        }
        let mut keys: Vec<RankKey> = Vec::new();
        let mut lines: Vec<(Vec<u64>, usize)> = Vec::new();
        let mut i: usize = 0;
        while i < users.len()
            invariant
                users@ == scope,
                scope == self.scope_users(contest_id),
                pids@ == self.scope_problems(contest_id, config),
                keys_spec == self.rank_keys(contest_id, *arg, config, now),
                self.all_users(scope),
                i <= users@.len(),
                keys_spec.len() == users@.len(),
                keys@.len() == i,
                lines@.len() == i,
                forall|j: int| 0 <= j < i ==> #[trigger] keys@[j] == keys_spec[j],
                forall|j: int|
                    0 <= j < i ==> {
                        let line = #[trigger] lines@[j];
                        &&& line.0@.len() == pids@.len()
                        &&& forall|q: int|
                            0 <= q < pids@.len() ==> #[trigger] line.0@[q] == problem_score(
                                arg.scoring_rule,
                                self.job_list@,
                                users@[j],
                                pids@[q],
                                contest_id,
                            )
                        &&& self.first_user(users@[j], line.1 as int)
                        &&& line.1 == self.user_pos(users@[j])
                    },
            decreases users@.len() - i,
        {
            let u = users[i];
            let ui = match self.user_index(u) {
                Some(x) => x,
                None => { return Err(AppError::ERR_NOT_FOUND); },
            };
            let (scores, total, count, latest) = user_entry(
                &self.job_list,
                arg.scoring_rule,
                u,
                &pids,
                contest_id,
            );
            let time: i64 = match latest {
                Some(t) => t,
                None => now,
            };
            let tie: u128 = match arg.tie_breaker {
                TieBreaker::SubmissionTime => ((time as i128) + 0x8000_0000_0000_0000i128) as u128,
                TieBreaker::SubmissionCount => count,
                TieBreaker::UserId => u as u128,
                TieBreaker::NoBreak => 0,
            };
            proof {
                assert(keys_spec[i as int] == self.rank_key(contest_id, *arg, config, now, u));
                assert(users@[i as int] == u);
            }
            keys.push(RankKey { total, tie, user_id: u });
            lines.push((scores, ui));
            i = i + 1;
        }
        let ord = sort_order(&keys);
        let rks = ranks(&keys, &ord);
        assert(keys@ =~= keys_spec);
        let mut res: Vec<ContestRes> = Vec::new();
        let mut k: usize = 0;
        while k < ord.len()
            invariant
                users@ == scope,
                scope == self.scope_users(contest_id),
                pids@ == self.scope_problems(contest_id, config),
                keys@ == keys_spec,
                keys_spec == self.rank_keys(contest_id, *arg, config, now),
                is_order(keys@, ord@),
                lines@.len() == users@.len(),
                keys@.len() == users@.len(),
                rks@.len() == ord@.len(),
                forall|q: int| 0 <= q < rks@.len() ==> #[trigger] rks@[q] == rank_at(keys@, ord@, q),
                forall|j: int|
                    0 <= j < users@.len() ==> {
                        let line = #[trigger] lines@[j];
                        &&& line.0@.len() == pids@.len()
                        &&& forall|q: int|
                            0 <= q < pids@.len() ==> #[trigger] line.0@[q] == problem_score(
                                arg.scoring_rule,
                                self.job_list@,
                                users@[j],
                                pids@[q],
                                contest_id,
                            )
                        &&& self.first_user(users@[j], line.1 as int)
                        &&& line.1 == self.user_pos(users@[j])
                    },
                k <= ord@.len(),
                res@.len() == k,
                forall|q: int|
                    0 <= q < k ==> self.is_line(
                        &#[trigger] res@[q],
                        scope[ord@[q] as int],
                        rank_at(keys_spec, ord@, q),
                        contest_id,
                        *arg,
                        config,
                    ),
            decreases ord@.len() - k,
        {
            let j = ord[k];
            let line = &lines[j];
            let mut entry = ContestRes::new(&self.user_list[line.1], copy_scores(&line.0));
            entry.rank = rks[k];
            res.push(entry);
            proof {
                let l = lines@[j as int];
                assert(l.0@.len() == pids@.len());
            }
            k = k + 1;
        }
        assert(self.ranked_as(res@, ord@, contest_id, *arg, config, now));
        let out: Result<Vec<ContestRes>, AppError> = Ok(res);
        assert(out matches Ok(rr) ==> self.ranked_as(rr@, ord@, contest_id, *arg, config, now));
        out
    }

    /// The ranking of contest `contest_id`, as `ranklist` gives it at the
    /// current time.
    pub fn contest_ranklist(&self, contest_id: u32, arg: &RanklistArg, config: &Config) -> (r:
        Result<Vec<ContestRes>, AppError>)
        ensures
            r is Err <==> (contest_id != 0 && !self.has_contest(contest_id)) || !self.all_users(
                self.scope_users(contest_id),
            ),
            r matches Err(e) ==> e == AppError::ERR_NOT_FOUND,
            r matches Ok(res) ==> exists|now: i64, ord: Seq<usize>|
                #[trigger] self.ranked_as(res@, ord, contest_id, *arg, config, now),
    {
        let now = crate::clock::now_millis();
        self.ranklist(contest_id, arg, config, now)
    }
}

/// In a ranking without a tie-breaker, two users with the same total score
/// get the same rank; with the user-id tie-breaker, of two users with the
/// same total score the one with the lower id gets the smaller rank.
pub proof fn lemma_tie_break_ranks(
    store: &JobData,
    cid: u32,
    arg: RanklistArg,
    config: &Config,
    now: i64,
    ord: Seq<usize>,
    a: int,
    b: int,
)
    requires
        is_order(store.rank_keys(cid, arg, config, now), ord),
        0 <= a < ord.len(),
        0 <= b < ord.len(),
        store.rank_keys(cid, arg, config, now)[ord[a] as int].total == store.rank_keys(
            cid,
            arg,
            config,
            now,
        )[ord[b] as int].total,
    ensures
        arg.tie_breaker == TieBreaker::NoBreak ==> rank_at(
            store.rank_keys(cid, arg, config, now),
            ord,
            a,
        ) == rank_at(store.rank_keys(cid, arg, config, now), ord, b),
        arg.tie_breaker == TieBreaker::UserId && store.scope_users(cid)[ord[a] as int]
            < store.scope_users(cid)[ord[b] as int] ==> rank_at(
            store.rank_keys(cid, arg, config, now),
            ord,
            a,
        ) < rank_at(store.rank_keys(cid, arg, config, now), ord, b),
{
    let keys = store.rank_keys(cid, arg, config, now);
    let users = store.scope_users(cid);
    let ia = ord[a] as int;
    let ib = ord[b] as int;
    assert(keys[ia] == store.rank_key(cid, arg, config, now, users[ia]));
    assert(keys[ib] == store.rank_key(cid, arg, config, now, users[ib]));
    lemma_rank_by_group(keys, ord, a, b);
}

} // verus!
