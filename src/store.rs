//! The job store: users, contests with their submission counters, and the
//! job records; validation of submissions, re-runs, cancellation, listing.
use vstd::prelude::*;
use vstd::string::*;

use crate::clock::{parse_utc_millis, utc_millis_of};
use crate::config::Config;
use crate::job::{Execution, JobInfo, Job, Response};
use crate::outcome::{AppError, State};

verus! {

/// A user as a request names it: with an id to update, without one to add.
#[derive(Debug)]
pub struct UserInfo {
    pub id: Option<u32>,
    pub name: String,
}

/// A registered user.
#[derive(Debug, Clone)]
pub struct User {
    pub id: u32,
    pub name: String,
}

impl User {
    pub fn from(info: UserInfo) -> (r: User)
        requires
            info.id is Some,
        ensures
            r.id == info.id.unwrap(),
            r.name == info.name,
    {
        User { id: info.id.unwrap(), name: info.name }
    }

    /// A copy with the same contents.
    pub fn duplicate(&self) -> (r: User)
        ensures
            r.id == self.id,
            r.name@ == self.name@,
    {
        User { id: self.id, name: self.name.clone() }
    }
}

/// A copy of a list of ids.
pub fn copy_ids(v: &Vec<u32>) -> (r: Vec<u32>)
    ensures
        r@ == v@,
{
    let mut r: Vec<u32> = Vec::new();
    let mut i: usize = 0;
    while i < v.len()
        invariant
            i <= v@.len(),
            r@ == v@.subrange(0, i as int),
        decreases v@.len() - i,
    {
        r.push(v[i]);
        i = i + 1;
    }
    assert(r@ =~= v@);
    r
}

/// Tells whether `x` is in `v`.
pub fn contains_id(v: &Vec<u32>, x: u32) -> (r: bool)
    ensures
        r == v@.contains(x),
{
    let mut i: usize = 0;
    while i < v.len()
        invariant
            i <= v@.len(),
            forall|j: int| 0 <= j < i ==> v@[j] != x,
        decreases v@.len() - i,
    {
        if v[i] == x {
            assert(v@[i as int] == x);
            return true;
        }
        i = i + 1;
    }
    false
}

/// A contest: its time window (RFC 3339 texts), its problems and users,
/// and how many submissions each user may make to each problem.
#[derive(Debug, Clone)]
pub struct ContestInfo {
    pub id: u32,
    pub name: String,
    pub from: String,
    pub to: String,
    pub problem_ids: Vec<u32>,
    pub user_ids: Vec<u32>,
    pub submission_limit: u32,
}

/// A contest as a request names it: with an id to update, without one to add.
#[derive(Debug)]
pub struct HttpcomInfo {
    pub id: Option<u32>,
    pub name: String,
    pub from: String,
    pub to: String,
    pub problem_ids: Vec<u32>,
    pub user_ids: Vec<u32>,
    pub submission_limit: u32,
}

impl ContestInfo {
    pub open spec fn same_as(&self, o: &ContestInfo) -> bool {
        &&& self.id == o.id
        &&& self.name@ == o.name@
        &&& self.from@ == o.from@
        &&& self.to@ == o.to@
        &&& self.problem_ids@ == o.problem_ids@
        &&& self.user_ids@ == o.user_ids@
        &&& self.submission_limit == o.submission_limit
    }

    /// `now` lies in the window [from, to).
    pub open spec fn open_at(&self, now: i64) -> bool {
        &&& utc_millis_of(self.from@) matches Some(f) && f <= now
        &&& utc_millis_of(self.to@) matches Some(t) && now < t
    }

    /// The contest accepts a submission of `user` for `problem` at `now`.
    pub open spec fn admits(&self, user: u32, problem: u32, now: i64) -> bool {
        &&& self.problem_ids@.contains(problem)
        &&& self.user_ids@.contains(user)
        &&& self.open_at(now)
    }

    /// The contest accepts the submission at `now`.
    pub fn is_valid(&self, jobinfo: &JobInfo, now: i64) -> (r: bool)
        ensures
            r == self.admits(jobinfo.user_id, jobinfo.problem_id, now),
    {
        if !contains_id(&self.problem_ids, jobinfo.problem_id) {
            return false;
        }
        if !contains_id(&self.user_ids, jobinfo.user_id) {
            return false;
        }
        match parse_utc_millis(self.from.as_str()) {
            None => { return false; },
            Some(f) => {
                if f > now {
                    return false;
                }
            },
        }
        match parse_utc_millis(self.to.as_str()) {
            None => false,
            Some(t) => now < t,
        }
    }

    pub fn from(info: HttpcomInfo) -> (r: ContestInfo)
        requires
            info.id is Some,
        ensures
            r.id == info.id.unwrap(),
            r.name == info.name,
            r.from == info.from,
            r.to == info.to,
            r.problem_ids == info.problem_ids,
            r.user_ids == info.user_ids,
            r.submission_limit == info.submission_limit,
    {
        ContestInfo {
            id: info.id.unwrap(),
            name: info.name,
            from: info.from,
            to: info.to,
            problem_ids: info.problem_ids,
            user_ids: info.user_ids,
            submission_limit: info.submission_limit,
        }
    }

    /// A copy with the same contents.
    pub fn duplicate(&self) -> (r: ContestInfo)
        ensures
            r.same_as(self),
    {
        ContestInfo {
            id: self.id,
            name: self.name.clone(),
            from: self.from.clone(),
            to: self.to.clone(),
            problem_ids: copy_ids(&self.problem_ids),
            user_ids: copy_ids(&self.user_ids),
            submission_limit: self.submission_limit,
        }
    }
}

/// How many submissions a user has made to a problem of a contest.
#[derive(Debug, Clone, Copy)]
pub struct SubmissionCount {
    pub user_id: u32,
    pub problem_id: u32,
    pub count: u32,
}

/// A contest with its submission counters, at most one per (user, problem).
#[derive(Debug)]
pub struct ContestEntry {
    pub info: ContestInfo,
    pub counters: Vec<SubmissionCount>,
}

/// No two counters share a (user, problem) pair.
pub open spec fn counters_wf(cs: Seq<SubmissionCount>) -> bool {
    forall|i: int, j: int|
        0 <= i < j < cs.len() ==> !(#[trigger] cs[i].user_id == #[trigger] cs[j].user_id
            && cs[i].problem_id == cs[j].problem_id)
}

/// Submissions used so far by `user` on `problem`.
pub open spec fn used(cs: Seq<SubmissionCount>, user: u32, problem: u32) -> int {
    if exists|i: int|
        0 <= i < cs.len() && #[trigger] cs[i].user_id == user && cs[i].problem_id == problem {
        cs[choose|i: int|
            0 <= i < cs.len() && #[trigger] cs[i].user_id == user && cs[i].problem_id
                == problem].count as int
    } else {
        0
    }
}

/// Submissions used so far by `user` on `problem`.
pub fn used_count(cs: &Vec<SubmissionCount>, user: u32, problem: u32) -> (r: u32)
    requires
        counters_wf(cs@),
    ensures
        r == used(cs@, user, problem),
{
    let mut i: usize = 0;
    while i < cs.len()
        invariant
            i <= cs@.len(),
            counters_wf(cs@),
            forall|j: int|
                0 <= j < i ==> !(#[trigger] cs@[j].user_id == user && cs@[j].problem_id == problem),
        decreases cs@.len() - i,
    {
        if cs[i].user_id == user && cs[i].problem_id == problem {
            proof {
                assert(cs@[i as int].user_id == user && cs@[i as int].problem_id == problem);
                let c = choose|k: int|
                    0 <= k < cs@.len() && #[trigger] cs@[k].user_id == user && cs@[k].problem_id
                        == problem;
                if c != i {
                    assert(cs@[c].user_id == cs@[i as int].user_id);
                }
            }
            return cs[i].count;
        }
        i = i + 1;
    }
    0
}

/// Counts one more submission of `user` on `problem`.
fn bump(cs: &mut Vec<SubmissionCount>, user: u32, problem: u32)
    requires
        counters_wf(old(cs)@),
        used(old(cs)@, user, problem) < u32::MAX,
    ensures
        counters_wf(final(cs)@),
        used(final(cs)@, user, problem) == used(old(cs)@, user, problem) + 1,
        forall|u: u32, p: u32|
            !(u == user && p == problem) ==> #[trigger] used(final(cs)@, u, p) == used(
                old(cs)@,
                u,
                p,
            ),
{
    let ghost c0 = cs@;
    let mut i: usize = 0;
    while i < cs.len()
        invariant
            i <= cs@.len(),
            cs@ == c0,
            c0 == old(cs)@,
            counters_wf(c0),
            used(c0, user, problem) < u32::MAX,
            forall|j: int|
                0 <= j < i ==> !(#[trigger] cs@[j].user_id == user && cs@[j].problem_id == problem),
        decreases cs@.len() - i,
    {
        if cs[i].user_id == user && cs[i].problem_id == problem {
            let old_count = used_count(cs, user, problem);
            proof {
                assert(c0[i as int].user_id == user && c0[i as int].problem_id == problem);
                let k0 = choose|k: int|
                    0 <= k < c0.len() && #[trigger] c0[k].user_id == user && c0[k].problem_id
                        == problem;
                if k0 != i {
                    assert(c0[k0].user_id == c0[i as int].user_id);
                }
            }
            let c = SubmissionCount { user_id: user, problem_id: problem, count: old_count + 1 };
            cs.set(i, c);
            proof {
                let c1 = cs@;
                assert forall|a: int, b: int|
                    0 <= a < b < c1.len() implies !(#[trigger] c1[a].user_id == #[trigger] c1[b].user_id
                    && c1[a].problem_id == c1[b].problem_id) by {
                    assert(c0[a].user_id == c1[a].user_id && c0[b].user_id == c1[b].user_id);
                }
                assert(c1[i as int].user_id == user && c1[i as int].problem_id == problem);
                let k = choose|k: int|
                    0 <= k < c1.len() && #[trigger] c1[k].user_id == user && c1[k].problem_id
                        == problem;
                if k != i {
                    assert(c1[k].user_id == c1[i as int].user_id);
                }
                assert forall|u: u32, p: u32| !(u == user && p == problem) implies #[trigger] used(
                    c1,
                    u,
                    p,
                ) == used(c0, u, p) by {
                    if exists|j: int|
                        0 <= j < c0.len() && #[trigger] c0[j].user_id == u && c0[j].problem_id == p {
                        let j = choose|j: int|
                            0 <= j < c0.len() && #[trigger] c0[j].user_id == u && c0[j].problem_id
                                == p;
                        assert(c1[j].user_id == u);
                        let j1 = choose|j: int|
                            0 <= j < c1.len() && #[trigger] c1[j].user_id == u && c1[j].problem_id
                                == p;
                        if j1 != j {
                            assert(c0[j1].user_id == u);
                        }
                    } else {
                        if exists|j: int|
                            0 <= j < c1.len() && #[trigger] c1[j].user_id == u && c1[j].problem_id
                                == p {
                            let j1 = choose|j: int|
                                0 <= j < c1.len() && #[trigger] c1[j].user_id == u
                                    && c1[j].problem_id == p;
                            assert(c0[j1].user_id == u);
                        }
                    }
                }
            }
            return ;
        }
        i = i + 1;
    }
    cs.push(SubmissionCount { user_id: user, problem_id: problem, count: 1 });
    proof {
        let c1 = cs@;
        let n = c0.len() as int;
        assert(c1[n].user_id == user && c1[n].problem_id == problem);
        let k = choose|k: int|
            0 <= k < c1.len() && #[trigger] c1[k].user_id == user && c1[k].problem_id == problem;
        if k != n {
            assert(c0[k].user_id == user);
        }
        assert forall|u: u32, p: u32| !(u == user && p == problem) implies #[trigger] used(c1, u, p)
            == used(c0, u, p) by {
            if exists|j: int|
                0 <= j < c0.len() && #[trigger] c0[j].user_id == u && c0[j].problem_id == p {
                let j = choose|j: int|
                    0 <= j < c0.len() && #[trigger] c0[j].user_id == u && c0[j].problem_id == p;
                assert(c1[j].user_id == u);
                let j1 = choose|j: int|
                    0 <= j < c1.len() && #[trigger] c1[j].user_id == u && c1[j].problem_id == p;
                if j1 != j && j1 < n {
                    assert(c0[j1].user_id == u);
                }
            } else {
                if exists|j: int|
                    0 <= j < c1.len() && #[trigger] c1[j].user_id == u && c1[j].problem_id == p {
                    let j1 = choose|j: int|
                        0 <= j < c1.len() && #[trigger] c1[j].user_id == u && c1[j].problem_id == p;
                    if j1 < n {
                        assert(c0[j1].user_id == u);
                    }
                }
            }
        }
    }
}

/// The store: jobs, users and contests. Contest ids start at 1; id 0 means
/// no contest.
#[derive(Debug)]
pub struct JobData {
    pub job_list: Vec<Job>,
    pub total_jobs: u32,
    pub user_list: Vec<User>,
    pub total_users: u32,
    pub contests_list: Vec<ContestEntry>,
    pub total_contests: u32,
}

impl JobData {
    /// Each contest has at most one counter per (user, problem).
    pub open spec fn wf(&self) -> bool {
        forall|i: int|
            0 <= i < self.contests_list@.len() ==> counters_wf(
                #[trigger] self.contests_list@[i].counters@,
            )
    }

    pub open spec fn has_user(&self, id: u32) -> bool {
        exists|i: int| 0 <= i < self.user_list@.len() && #[trigger] self.user_list@[i].id == id
    }

    pub open spec fn first_user(&self, id: u32, i: int) -> bool {
        &&& 0 <= i < self.user_list@.len()
        &&& self.user_list@[i].id == id
        &&& forall|j: int| 0 <= j < i ==> #[trigger] self.user_list@[j].id != id
    }

    /// The position of the user with id `id` (the first, when several share it).
    pub open spec fn user_pos(&self, id: u32) -> int {
        choose|i: int| self.first_user(id, i)
    }

    pub open spec fn has_contest(&self, id: u32) -> bool {
        exists|i: int|
            0 <= i < self.contests_list@.len() && #[trigger] self.contests_list@[i].info.id == id
    }

    pub open spec fn first_contest(&self, id: u32, i: int) -> bool {
        &&& 0 <= i < self.contests_list@.len()
        &&& self.contests_list@[i].info.id == id
        &&& forall|j: int| 0 <= j < i ==> #[trigger] self.contests_list@[j].info.id != id
    }

    /// The position of the contest with id `id` (the first, when several share it).
    pub open spec fn contest_pos(&self, id: u32) -> int {
        choose|i: int| self.first_contest(id, i)
    }

    pub open spec fn has_job(&self, id: u32) -> bool {
        exists|i: int| 0 <= i < self.job_list@.len() && #[trigger] self.job_list@[i].job_id == id
    }

    pub open spec fn first_job(&self, id: u32, i: int) -> bool {
        &&& 0 <= i < self.job_list@.len()
        &&& self.job_list@[i].job_id == id
        &&& forall|j: int| 0 <= j < i ==> #[trigger] self.job_list@[j].job_id != id
    }

    /// The position of the job with id `id`.
    pub open spec fn job_pos(&self, id: u32) -> int {
        choose|i: int| self.first_job(id, i)
    }

    /// Some user is named `name`.
    pub open spec fn name_taken(&self, name: Seq<char>) -> bool {
        exists|i: int| 0 <= i < self.user_list@.len() && #[trigger] self.user_list@[i].name@ == name
    }

    pub(crate) fn user_index(&self, id: u32) -> (r: Option<usize>)
        ensures
            r is None <==> !self.has_user(id),
            r matches Some(i) ==> self.first_user(id, i as int) && i == self.user_pos(id),
    {
        let mut i: usize = 0;
        while i < self.user_list.len()
            invariant
                i <= self.user_list@.len(),
                forall|j: int| 0 <= j < i ==> #[trigger] self.user_list@[j].id != id,
            decreases self.user_list@.len() - i,
        {
            if self.user_list[i].id == id {
                proof {
                    assert(self.first_user(id, i as int));
                    let k = self.user_pos(id);
                    if k < i {
                        assert(self.user_list@[k].id != id);
                    } else if k > i {
                        assert(self.user_list@[i as int].id != id);
                    }
                }
                return Some(i);
            }
            i = i + 1;
        }
        None
    }

    fn contest_index(&self, id: u32) -> (r: Option<usize>)
        ensures
            r is None <==> !self.has_contest(id),
            r matches Some(i) ==> self.first_contest(id, i as int) && i == self.contest_pos(id),
    {
        let mut i: usize = 0;
        while i < self.contests_list.len()
            invariant
                i <= self.contests_list@.len(),
                forall|j: int| 0 <= j < i ==> #[trigger] self.contests_list@[j].info.id != id,
            decreases self.contests_list@.len() - i,
        {
            if self.contests_list[i].info.id == id {
                proof {
                    assert(self.first_contest(id, i as int));
                    let k = self.contest_pos(id);
                    if k < i {
                        assert(self.contests_list@[k].info.id != id);
                    } else if k > i {
                        assert(self.contests_list@[i as int].info.id != id);
                    }
                }
                return Some(i);
            }
            i = i + 1;
        }
        None
    }

    fn job_index(&self, id: u32) -> (r: Option<usize>)
        ensures
            r is None <==> !self.has_job(id),
            r matches Some(i) ==> self.first_job(id, i as int) && i == self.job_pos(id),
    {
        let mut i: usize = 0;
        while i < self.job_list.len()
            invariant
                i <= self.job_list@.len(),
                forall|j: int| 0 <= j < i ==> #[trigger] self.job_list@[j].job_id != id,
            decreases self.job_list@.len() - i,
        {
            if self.job_list[i].job_id == id {
                proof {
                    assert(self.first_job(id, i as int));
                    let k = self.job_pos(id);
                    if k < i {
                        assert(self.job_list@[k].job_id != id);
                    } else if k > i {
                        assert(self.job_list@[i as int].job_id != id);
                    }
                }
                return Some(i);
            }
            i = i + 1;
        }
        None
    }

    /// The user with id `user_id`.
    pub fn find_user(&self, user_id: u32) -> (r: Result<&User, AppError>)
        ensures
            r is Ok <==> self.has_user(user_id),
            r matches Ok(u) ==> *u == self.user_list@[self.user_pos(user_id)],
            r matches Err(e) ==> e == AppError::ERR_NOT_FOUND,
    {
        match self.user_index(user_id) {
            Some(i) => Ok(&self.user_list[i]),
            None => Err(AppError::ERR_NOT_FOUND),
        }
    }

    /// The user with id `user_id`, to change in place.
    pub fn find_user_mut(&mut self, user_id: u32) -> (r: Result<&mut User, AppError>)
        ensures
            r is Ok <==> old(self).has_user(user_id),
            r matches Err(e) ==> e == AppError::ERR_NOT_FOUND && *final(self) == *old(self),
            r matches Ok(u) ==> {
                &&& *u == old(self).user_list@[old(self).user_pos(user_id)]
                &&& final(self).user_list@ == old(self).user_list@.update(
                    old(self).user_pos(user_id),
                    *final(u),
                )
                &&& final(self).job_list == old(self).job_list
                &&& final(self).contests_list == old(self).contests_list
                &&& final(self).total_jobs == old(self).total_jobs
                &&& final(self).total_users == old(self).total_users
                &&& final(self).total_contests == old(self).total_contests
            },
    {
        match self.user_index(user_id) {
            Some(i) => Ok(&mut self.user_list[i]),
            None => Err(AppError::ERR_NOT_FOUND),
        }
    }

    /// The contest with id `contest_id`.
    pub fn find_contest(&self, contest_id: u32) -> (r: Result<&ContestEntry, AppError>)
        ensures
            r is Ok <==> self.has_contest(contest_id),
            r matches Ok(c) ==> *c == self.contests_list@[self.contest_pos(contest_id)],
            r matches Err(e) ==> e == AppError::ERR_NOT_FOUND,
    {
        match self.contest_index(contest_id) {
            Some(i) => Ok(&self.contests_list[i]),
            None => Err(AppError::ERR_NOT_FOUND),
        }
    }

    /// The contest with id `contest_id`, to change in place.
    pub fn find_contest_mut(&mut self, contest_id: u32) -> (r: Result<&mut ContestEntry, AppError>)
        ensures
            r is Ok <==> old(self).has_contest(contest_id),
            r matches Err(e) ==> e == AppError::ERR_NOT_FOUND && *final(self) == *old(self),
            r matches Ok(c) ==> {
                &&& *c == old(self).contests_list@[old(self).contest_pos(contest_id)]
                &&& final(self).contests_list@ == old(self).contests_list@.update(
                    old(self).contest_pos(contest_id),
                    *final(c),
                )
                &&& final(self).job_list == old(self).job_list
                &&& final(self).user_list == old(self).user_list
                &&& final(self).total_jobs == old(self).total_jobs
                &&& final(self).total_users == old(self).total_users
                &&& final(self).total_contests == old(self).total_contests
            },
    {
        match self.contest_index(contest_id) {
            Some(i) => Ok(&mut self.contests_list[i]),
            None => Err(AppError::ERR_NOT_FOUND),
        }
    }

    /// The job with id `jobid`.
    pub fn find_job(&self, jobid: u32) -> (r: Result<&Job, AppError>)
        ensures
            r is Ok <==> self.has_job(jobid),
            r matches Ok(j) ==> *j == self.job_list@[self.job_pos(jobid)],
            r matches Err(e) ==> e == AppError::ERR_NOT_FOUND,
    {
        match self.job_index(jobid) {
            Some(i) => Ok(&self.job_list[i]),
            None => Err(AppError::ERR_NOT_FOUND),
        }
    }

    /// The job with id `jobid`, to change in place.
    pub fn find_job_mut(&mut self, jobid: u32) -> (r: Result<&mut Job, AppError>)
        ensures
            r is Ok <==> old(self).has_job(jobid),
            r matches Err(e) ==> e == AppError::ERR_NOT_FOUND && *final(self) == *old(self),
            r matches Ok(j) ==> {
                &&& *j == old(self).job_list@[old(self).job_pos(jobid)]
                &&& final(self).job_list@ == old(self).job_list@.update(
                    old(self).job_pos(jobid),
                    *final(j),
                )
                &&& final(self).user_list == old(self).user_list
                &&& final(self).contests_list == old(self).contests_list
                &&& final(self).total_jobs == old(self).total_jobs
                &&& final(self).total_users == old(self).total_users
                &&& final(self).total_contests == old(self).total_contests
            },
    {
        match self.job_index(jobid) {
            Some(i) => Ok(&mut self.job_list[i]),
            None => Err(AppError::ERR_NOT_FOUND),
        }
    }

    /// The job with id `jobid`, as shown to callers.
    pub fn get_job_response(&self, jobid: u32) -> (r: Result<Response, AppError>)
        ensures
            r is Ok <==> self.has_job(jobid),
            r matches Ok(resp) ==> self.job_list@[self.job_pos(jobid)].shows(&resp),
            r matches Err(e) ==> e == AppError::ERR_NOT_FOUND,
    {
        match self.find_job(jobid) {
            Ok(j) => Ok(j.response()),
            Err(e) => Err(e),
        }
    }

    /// Tells whether some user is named `name`.
    fn name_in_use(&self, name: &String) -> (r: bool)
        ensures
            r == self.name_taken(name@),
    {
        let mut i: usize = 0;
        while i < self.user_list.len()
            invariant
                i <= self.user_list@.len(),
                forall|j: int| 0 <= j < i ==> #[trigger] self.user_list@[j].name@ != name@,
            decreases self.user_list@.len() - i,
        {
            if self.user_list[i].name == *name {
                assert(self.user_list@[i as int].name@ == name@);
                return true;
            }
            i = i + 1;
        }
        false
    }

    /// Adds a user (no id given: the next id) or renames one (id given).
    /// Fails with Not Found for an unknown id, with Invalid Argument when
    /// the name is in use, and with Internal when ids are exhausted.
    pub fn post_user(&mut self, info: UserInfo) -> (r: Result<User, AppError>)
        ensures
            info.id matches Some(id) && !old(self).has_user(id) ==> r == Err::<User, AppError>(
                AppError::ERR_NOT_FOUND,
            ),
            !(info.id matches Some(id) && !old(self).has_user(id)) && old(self).name_taken(info.name@)
                ==> r == Err::<User, AppError>(AppError::ERR_INVALID_ARGUMENT),
            info.id is None && !old(self).name_taken(info.name@) && old(self).total_users == u32::MAX
                ==> r == Err::<User, AppError>(AppError::ERR_INTERNAL),
            r is Err ==> *final(self) == *old(self),
            r matches Ok(u) ==> {
                &&& u.name@ == info.name@
                &&& final(self).job_list == old(self).job_list
                &&& final(self).contests_list == old(self).contests_list
                &&& final(self).total_jobs == old(self).total_jobs
                &&& final(self).total_contests == old(self).total_contests
                &&& info.id matches Some(id) ==> {
                    &&& u.id == id
                    &&& final(self).total_users == old(self).total_users
                    &&& final(self).user_list@ == old(self).user_list@.update(
                        old(self).user_pos(id),
                        (User { id, name: info.name }),
                    )
                }
                &&& info.id is None ==> {
                    &&& u.id == old(self).total_users
                    &&& final(self).total_users == old(self).total_users + 1
                    &&& final(self).user_list@ == old(self).user_list@.push(
                        (User { id: old(self).total_users, name: info.name }),
                    )
                }
            },
            r is Ok <==> (info.id matches Some(id) ==> old(self).has_user(id)) && !old(self).name_taken(info.name@) && (info.id is None ==> old(self).total_users < u32::MAX),
            forall|x: u32| old(self).has_user(x) ==> #[trigger] final(self).has_user(x),
    {
        let pos = match info.id {
            Some(id) => {
                match self.user_index(id) {
                    None => { return Err(AppError::ERR_NOT_FOUND); },
                    Some(i) => Some(i),
                }
            },
            None => None,
        };
        if self.name_in_use(&info.name) {
            return Err(AppError::ERR_INVALID_ARGUMENT);
        }
        match pos {
            Some(i) => {
                let user = User::from(info);
                let out = user.duplicate();
                self.user_list.set(i, user);
                proof {
                    assert forall|x: u32| old(self).has_user(x) implies #[trigger] self.has_user(x) by {
                        let k = choose|k: int|
                            0 <= k < old(self).user_list@.len() && #[trigger] old(self).user_list@[k].id == x;
                        assert(self.user_list@[k].id == x);
                    }
                }
                Ok(out)
            },
            None => {
                if self.total_users == u32::MAX {
                    return Err(AppError::ERR_INTERNAL);
                }
                let user = User { id: self.total_users, name: info.name };
                let out = user.duplicate();
                self.user_list.push(user);
                self.total_users = self.total_users + 1;
                proof {
                    assert forall|x: u32| old(self).has_user(x) implies #[trigger] self.has_user(x) by {
                        let k = choose|k: int|
                            0 <= k < old(self).user_list@.len() && #[trigger] old(self).user_list@[k].id == x;
                        assert(self.user_list@[k].id == x);
                    }
                }
                Ok(out)
            },
        }
    }

    /// Every id of `ids` is a registered user.
    pub open spec fn all_users(&self, ids: Seq<u32>) -> bool {
        forall|k: int| 0 <= k < ids.len() ==> self.has_user(#[trigger] ids[k])
    }

    fn users_exist(&self, ids: &Vec<u32>) -> (r: bool)
        ensures
            r == self.all_users(ids@),
    {
        let mut k: usize = 0;
        while k < ids.len()
            invariant
                k <= ids@.len(),
                forall|j: int| 0 <= j < k ==> self.has_user(#[trigger] ids@[j]),
            decreases ids@.len() - k,
        {
            if self.user_index(ids[k]).is_none() {
                return false;
            }
            k = k + 1;
        }
        true
    }

    /// Adds a contest (no id given: the next id) or replaces one (id given),
    /// keeping its counters. Fails with Not Found for an unknown contest id,
    /// an unknown user or a problem the catalog lacks, and with Internal when
    /// ids are exhausted.
    pub fn post_contest(&mut self, info: HttpcomInfo, config: &Config) -> (r: Result<
        ContestInfo,
        AppError,
    >)
        requires
            old(self).wf(),
        ensures
            final(self).wf(),
            r is Err ==> *final(self) == *old(self),
            r matches Err(e) ==> e == if info.id matches Some(id) && !old(self).has_contest(id) {
                AppError::ERR_NOT_FOUND
            } else if !old(self).all_users(info.user_ids@) {
                AppError::ERR_NOT_FOUND
            } else if !(forall|k: int|
                0 <= k < info.problem_ids@.len() ==> config.has_problem(
                    #[trigger] info.problem_ids@[k],
                )) {
                AppError::ERR_NOT_FOUND
            } else {
                AppError::ERR_INTERNAL
            },
            r is Ok <==> (info.id matches Some(id) ==> old(self).has_contest(id)) && old(self).all_users(info.user_ids@) && (forall|k: int|
                0 <= k < info.problem_ids@.len() ==> config.has_problem(
                    #[trigger] info.problem_ids@[k],
                )) && (info.id is None ==> old(self).total_contests < u32::MAX),
            r matches Ok(c) ==> {
                &&& c.name@ == info.name@
                &&& c.from@ == info.from@
                &&& c.to@ == info.to@
                &&& c.problem_ids@ == info.problem_ids@
                &&& c.user_ids@ == info.user_ids@
                &&& c.submission_limit == info.submission_limit
                &&& final(self).job_list == old(self).job_list
                &&& final(self).user_list == old(self).user_list
                &&& final(self).total_jobs == old(self).total_jobs
                &&& final(self).total_users == old(self).total_users
                &&& info.id matches Some(id) ==> {
                    let p = old(self).contest_pos(id);
                    &&& c.id == id
                    &&& final(self).total_contests == old(self).total_contests
                    &&& final(self).contests_list@.len() == old(self).contests_list@.len()
                    &&& final(self).contests_list@[p].info.same_as(&c)
                    &&& final(self).contests_list@[p].counters == old(self).contests_list@[p].counters
                    &&& forall|k: int|
                        0 <= k < old(self).contests_list@.len() && k != p ==> #[trigger] final(self).contests_list@[k] == old(self).contests_list@[k]
                }
                &&& info.id is None ==> {
                    &&& c.id == old(self).total_contests
                    &&& final(self).total_contests == old(self).total_contests + 1
                    &&& final(self).contests_list@.len() == old(self).contests_list@.len() + 1
                    &&& final(self).contests_list@.drop_last() == old(self).contests_list@
                    &&& final(self).contests_list@.last().info.same_as(&c)
                    &&& final(self).contests_list@.last().counters@.len() == 0
                }
            },
    {
        let pos = match info.id {
            Some(id) => {
                match self.contest_index(id) {
                    None => { return Err(AppError::ERR_NOT_FOUND); },
                    Some(i) => Some(i),
                }
            },
            None => None,
        };
        if !self.users_exist(&info.user_ids) {
            return Err(AppError::ERR_NOT_FOUND);
        }
        let mut k: usize = 0;
        while k < info.problem_ids.len()
            invariant
                k <= info.problem_ids@.len(),
                *self == *old(self),
                self.wf(),
                pos matches Some(i) ==> info.id matches Some(id) && i == self.contest_pos(id)
                    && self.first_contest(id, i as int),
                info.id matches Some(id) ==> pos is Some,
                forall|j: int| 0 <= j < k ==> config.has_problem(#[trigger] info.problem_ids@[j]),
            decreases info.problem_ids@.len() - k,
        {
            if config.problem_index(info.problem_ids[k]).is_none() {
                return Err(AppError::ERR_NOT_FOUND);
            }
            k = k + 1;
        }
        match pos {
            Some(i) => {
                let contest = ContestInfo::from(info);
                let out = contest.duplicate();
                let mut entry = self.contests_list.remove(i);
                entry.info = contest;
                self.contests_list.insert(i, entry);
                proof {
                    assert forall|q: int|
                        0 <= q < self.contests_list@.len() implies counters_wf(
                        #[trigger] self.contests_list@[q].counters@,
                    ) by {
                        if q != i {
                            assert(self.contests_list@[q] == old(self).contests_list@[q]);
                        }
                    }
                }
                Ok(out)
            },
            None => {
                if self.total_contests == u32::MAX {
                    return Err(AppError::ERR_INTERNAL);
                }
                let mut info = info;
                info.id = Some(self.total_contests);
                let contest = ContestInfo::from(info);
                let out = contest.duplicate();
                self.contests_list.push(ContestEntry { info: contest, counters: Vec::new() });
                self.total_contests = self.total_contests + 1;
                proof {
                    assert(self.contests_list@.drop_last() =~= old(self).contests_list@);
                    assert forall|q: int|
                        0 <= q < self.contests_list@.len() implies counters_wf(
                        #[trigger] self.contests_list@[q].counters@,
                    ) by {
                        if q < old(self).contests_list@.len() {
                            assert(self.contests_list@[q] == old(self).contests_list@[q]);
                        }
                    }
                }
                Ok(out)
            },
        }
    }

    /// Why a submission is refused, checked in this order; `None` when it
    /// is accepted.
    pub open spec fn submission_error(&self, info: &JobInfo, config: &Config, now: i64) -> Option<
        AppError,
    > {
        let c = self.contests_list@[self.contest_pos(info.contest_id)];
        if !self.has_user(info.user_id) {
            Some(AppError::ERR_NOT_FOUND)
        } else if !config.has_language(info.language@) || !config.has_problem(info.problem_id) {
            Some(AppError::ERR_NOT_FOUND)
        } else if info.contest_id != 0 && !self.has_contest(info.contest_id) {
            Some(AppError::ERR_NOT_FOUND)
        } else if info.contest_id != 0 && !c.info.admits(info.user_id, info.problem_id, now) {
            Some(AppError::ERR_INVALID_ARGUMENT)
        } else if info.contest_id != 0 && used(c.counters@, info.user_id, info.problem_id)
            >= c.info.submission_limit {
            Some(AppError::ERR_RATE_LIMIT)
        } else if self.total_jobs == u32::MAX {
            Some(AppError::ERR_INTERNAL)
        } else {
            None
        }
    }

    /// The record that an accepted submission starts from.
    pub open spec fn is_new_job(&self, j: Job, info: &JobInfo, now: i64) -> bool {
        &&& j.job_id == self.total_jobs
        &&& j.user_name@ == self.user_list@[self.user_pos(info.user_id)].name@
        &&& j.info.same_as(info)
        &&& j.created_time == now
    }

    /// Checks a submission at time `now` and, when it is accepted, gives
    /// the Queueing record it starts as. Changes nothing.
    pub fn check_submission(&self, info: &JobInfo, config: &Config, now: i64) -> (r: Result<
        Job,
        AppError,
    >)
        requires
            self.wf(),
        ensures
            r matches Err(e) ==> self.submission_error(info, config, now) == Some(e),
            r is Ok <==> self.submission_error(info, config, now) is None,
            r matches Ok(j) ==> {
                &&& self.is_new_job(j, info, now)
                &&& j.updated_time == now
                &&& j.score == 0
                &&& j.state == State::Queueing
                &&& j.result == crate::outcome::RunResult::Waiting
                &&& j.case_res@.len() == 0
            },
    {
        let ui = match self.user_index(info.user_id) {
            None => { return Err(AppError::ERR_NOT_FOUND); },
            Some(i) => i,
        };
        let job = Job::new(self.user_list[ui].name.as_str(), self.total_jobs, info, now);
        if !job.is_valid(config) {
            return Err(AppError::ERR_NOT_FOUND);
        }
        if info.contest_id != 0 {
            let ci = match self.contest_index(info.contest_id) {
                None => { return Err(AppError::ERR_NOT_FOUND); },
                Some(i) => i,
            };
            let contest = &self.contests_list[ci];
            if !contest.info.is_valid(info, now) {
                return Err(AppError::ERR_INVALID_ARGUMENT);
            }
            if used_count(&contest.counters, info.user_id, info.problem_id)
                >= contest.info.submission_limit {
                return Err(AppError::ERR_RATE_LIMIT);
            }
        }
        if self.total_jobs == u32::MAX {
            return Err(AppError::ERR_INTERNAL);
        }
        Ok(job)
    }

    /// Reads the clock, then checks a submission as `check_submission`
    /// does at that time. Changes nothing.
    pub fn prepare_job(&self, info: &JobInfo, config: &Config) -> (r: Result<Job, AppError>)
        requires
            self.wf(),
        ensures
            r matches Ok(j) ==> self.submission_error(info, config, j.created_time) is None
                && self.is_new_job(j, info, j.created_time) && j.state
                == State::Queueing,
            r matches Err(e) ==> exists|t: i64| self.submission_error(info, config, t) == Some(e),
    {
        let now = crate::clock::now_millis();
        self.check_submission(info, config, now)
    }

    /// The store after an accepted submission whose run gave `exec` and
    /// ended at `now`: one more job at the end, whose record is that run
    /// over a fresh record, one more job id, and one more submission counted
    /// in the contest, if any. Nothing else changes.
    pub open spec fn submitted(
        old: JobData,
        new: JobData,
        info: &JobInfo,
        config: &Config,
        exec: &Execution,
        now: i64,
    ) -> bool {
        let j = new.job_list@.last();
        let p = config.problems@[config.problem_pos(info.problem_id)];
        let ci = old.contest_pos(info.contest_id);
        &&& new.job_list@.len() == old.job_list@.len() + 1
        &&& new.job_list@.drop_last() == old.job_list@
        &&& old.is_new_job(j, info, now)
        &&& j.executed(&p, exec, now, 0, Seq::empty())
        &&& new.total_jobs == old.total_jobs + 1
        &&& new.user_list == old.user_list
        &&& new.total_users == old.total_users
        &&& new.total_contests == old.total_contests
        &&& info.contest_id == 0 ==> new.contests_list == old.contests_list
        &&& info.contest_id != 0 ==> {
            &&& new.contests_list@.len() == old.contests_list@.len()
            &&& forall|k: int|
                0 <= k < old.contests_list@.len() && k != ci ==> #[trigger] new.contests_list@[k]
                    == old.contests_list@[k]
            &&& new.contests_list@[ci].info == old.contests_list@[ci].info
            &&& used(new.contests_list@[ci].counters@, info.user_id, info.problem_id) == used(
                old.contests_list@[ci].counters@,
                info.user_id,
                info.problem_id,
            ) + 1
            &&& forall|u: u32, q: u32|
                !(u == info.user_id && q == info.problem_id) ==> #[trigger] used(
                    new.contests_list@[ci].counters@,
                    u,
                    q,
                ) == used(old.contests_list@[ci].counters@, u, q)
        }
    }

    /// Submits a job at time `now` whose outside steps gave `exec`: checks
    /// it (see `submission_error`), and when it is accepted runs the engine
    /// over `exec`, counts the submission in its contest and stores the
    /// record. A refused submission changes nothing.
    pub fn add_job(&mut self, info: &JobInfo, config: &Config, exec: &Execution, now: i64) -> (r:
        Result<Response, AppError>)
        requires
            old(self).wf(),
            config.wf(),
            config.has_problem(info.problem_id) ==> exec.complete(
                config.problems@[config.problem_pos(info.problem_id)].cases@.len() as int,
            ),
        ensures
            final(self).wf(),
            r matches Err(e) ==> old(self).submission_error(info, config, now) == Some(e) && *final(
                self) == *old(self),
            r is Ok <==> old(self).submission_error(info, config, now) is None,
            r matches Ok(resp) ==> JobData::submitted(*old(self), *final(self), info, config, exec, now)
                && final(self).job_list@.last().shows(&resp),
    {
        let mut job = match self.check_submission(info, config, now) {
            Err(e) => { return Err(e); },
            Ok(j) => j,
        };
        let pi = match config.problem_index(info.problem_id) {
            None => { return Err(AppError::ERR_NOT_FOUND); },
            Some(i) => i,
        };
        let ghost fresh = job;
        let resp = job.run(&config.problems[pi], exec, now);
        if info.contest_id != 0 {
            let ci = match self.contest_index(info.contest_id) {
                None => { return Err(AppError::ERR_NOT_FOUND); },
                Some(i) => i,
            };
            let ghost c0 = self.contests_list@;
            bump(&mut self.contests_list[ci].counters, info.user_id, info.problem_id);
            proof {
                assert forall|q: int|
                    0 <= q < self.contests_list@.len() implies counters_wf(
                    #[trigger] self.contests_list@[q].counters@,
                ) by {
                    if q != ci {
                        assert(self.contests_list@[q] == c0[q]);
                    }
                }
            }
        }
        self.total_jobs = self.total_jobs + 1;
        self.job_list.push(job);
        proof {
            assert(self.job_list@.drop_last() =~= old(self).job_list@);
            assert(fresh.case_res@ =~= Seq::<crate::job::CaseResult>::empty());
        }
        Ok(resp)
    }

    /// Runs a finished job again over the outside steps `exec`, ending at
    /// `now`. Fails with Not Found for an unknown job (or a problem the
    /// catalog lacks) and with Invalid State for a job that is not Finished.
    pub fn rerun_job(&mut self, jobid: u32, config: &Config, exec: &Execution, now: i64) -> (r:
        Result<Response, AppError>)
        requires
            config.wf(),
            old(self).has_job(jobid) ==> {
                let pid = old(self).job_list@[old(self).job_pos(jobid)].info.problem_id;
                config.has_problem(pid) ==> exec.complete(
                    config.problems@[config.problem_pos(pid)].cases@.len() as int,
                )
            },
        ensures
            ({
                let pos = old(self).job_pos(jobid);
                let j = old(self).job_list@[pos];
                &&& !old(self).has_job(jobid) ==> r == Err::<Response, AppError>(
                    AppError::ERR_NOT_FOUND,
                )
                &&& old(self).has_job(jobid) && j.state != State::Finished ==> r == Err::<
                    Response,
                    AppError,
                >(AppError::ERR_INVALID_STATE)
                &&& old(self).has_job(jobid) && j.state == State::Finished && !config.has_problem(
                    j.info.problem_id,
                ) ==> r == Err::<Response, AppError>(AppError::ERR_NOT_FOUND)
                &&& r is Err ==> *final(self) == *old(self)
                &&& r is Ok <==> old(self).has_job(jobid) && j.state == State::Finished
                    && config.has_problem(j.info.problem_id)
                &&& r matches Ok(resp) ==> {
                    &&& final(self).job_list@.len() == old(self).job_list@.len()
                    &&& Job::ran(
                        j,
                        final(self).job_list@[pos],
                        &config.problems@[config.problem_pos(j.info.problem_id)],
                        exec,
                        now,
                    )
                    &&& forall|k: int|
                        0 <= k < old(self).job_list@.len() && k != pos ==> #[trigger] final(self).job_list@[k]
                            == old(self).job_list@[k]
                    &&& final(self).user_list == old(self).user_list
                    &&& final(self).contests_list == old(self).contests_list
                    &&& final(self).total_jobs == old(self).total_jobs
                    &&& final(self).total_users == old(self).total_users
                    &&& final(self).total_contests == old(self).total_contests
                    &&& final(self).job_list@[pos].shows(&resp)
                }
            }),
    {
        let i = match self.job_index(jobid) {
            None => { return Err(AppError::ERR_NOT_FOUND); },
            Some(i) => i,
        };
        if self.job_list[i].state != State::Finished {
            return Err(AppError::ERR_INVALID_STATE);
        }
        let pi = match config.problem_index(self.job_list[i].info.problem_id) {
            None => { return Err(AppError::ERR_NOT_FOUND); },
            Some(k) => k,
        };
        let job = &mut self.job_list[i];
        let resp = job.run(&config.problems[pi], exec, now);
        Ok(resp)
    }

    /// Removes a job that is still Queueing. Fails with Not Found for an
    /// unknown job and with Invalid State for any other state.
    pub fn cancel_job(&mut self, jobid: u32) -> (r: Result<(), AppError>)
        ensures
            ({
                let pos = old(self).job_pos(jobid);
                &&& !old(self).has_job(jobid) ==> r == Err::<(), AppError>(AppError::ERR_NOT_FOUND)
                &&& old(self).has_job(jobid) && old(self).job_list@[pos].state != State::Queueing
                    ==> r == Err::<(), AppError>(AppError::ERR_INVALID_STATE)
                &&& r is Err ==> *final(self) == *old(self)
                &&& r is Ok <==> old(self).has_job(jobid) && old(self).job_list@[pos].state
                    == State::Queueing
                &&& r is Ok ==> {
                    &&& final(self).job_list@ == old(self).job_list@.remove(pos)
                    &&& final(self).user_list == old(self).user_list
                    &&& final(self).contests_list == old(self).contests_list
                    &&& final(self).total_jobs == old(self).total_jobs
                    &&& final(self).total_users == old(self).total_users
                    &&& final(self).total_contests == old(self).total_contests
                }
            }),
    {
        let i = match self.job_index(jobid) {
            None => { return Err(AppError::ERR_NOT_FOUND); },
            Some(i) => i,
        };
        if self.job_list[i].state != State::Queueing {
            return Err(AppError::ERR_INVALID_STATE);
        }
        let _ = self.job_list.remove(i);
        Ok(())
    }
}

/// `ord` lists every index of `keys` once, by key and then by index.
pub open spec fn sorted_by_key(keys: Seq<u32>, ord: Seq<usize>) -> bool {
    &&& ord.len() == keys.len()
    &&& forall|k: int| 0 <= k < ord.len() ==> #[trigger] ord[k] < keys.len()
    &&& forall|i: usize| i < keys.len() ==> #[trigger] ord.contains(i)
    &&& forall|a: int, b: int|
        0 <= a < b < ord.len() ==> keys[#[trigger] ord[a] as int] < keys[#[trigger] ord[b] as int]
            || (keys[ord[a] as int] == keys[ord[b] as int] && ord[a] < ord[b])
}

/// The indices of `keys`, by key and then by index.
pub fn order_by_key(keys: &Vec<u32>) -> (ord: Vec<usize>)
    ensures
        sorted_by_key(keys@, ord@),
{
    let mut sorted: Vec<usize> = Vec::new();
    let mut i: usize = 0;
    while i < keys.len()
        invariant
            i <= keys@.len(),
            sorted@.len() == i,
            forall|k: int| 0 <= k < sorted@.len() ==> #[trigger] sorted@[k] < i,
            forall|j: usize| j < i ==> #[trigger] sorted@.contains(j),
            forall|a: int, b: int|
                0 <= a < b < sorted@.len() ==> keys@[#[trigger] sorted@[a] as int] < keys@[
                    #[trigger] sorted@[b] as int] || (keys@[sorted@[a] as int] == keys@[sorted@[
                    b] as int] && sorted@[a] < sorted@[b]),
        decreases keys@.len() - i,
    {
        let key = keys[i];
        let mut p: usize = 0;
        while p < sorted.len() && keys[sorted[p]] <= key
            invariant
                p <= sorted@.len(),
                i < keys@.len(),
                key == keys@[i as int],
                forall|k: int| 0 <= k < sorted@.len() ==> #[trigger] sorted@[k] < i,
                forall|k: int| 0 <= k < p ==> keys@[#[trigger] sorted@[k] as int] <= key,
            decreases sorted@.len() - p,
        {
            p = p + 1;
        }
        let ghost s0 = sorted@;
        sorted.insert(p, i);
        proof {
            let s1 = sorted@;
            assert(s1 =~= s0.insert(p as int, i));
            assert forall|a: int, b: int| 0 <= a < b < s1.len() implies keys@[#[trigger] s1[a] as int]
                < keys@[#[trigger] s1[b] as int] || (keys@[s1[a] as int] == keys@[s1[b] as int]
                && s1[a] < s1[b]) by {
                if a < p && b == p {
                    assert(s0[a] < i);
                } else if a < p && b > p {
                    assert(s1[b] == s0[b - 1]);
                } else if a == p && b > p {
                    assert(s1[b] == s0[b - 1]);
                    if b - 1 > p {
                        assert(keys@[s0[p as int] as int] <= keys@[s0[b - 1] as int]);
                    }
                } else if a > p {
                    assert(s1[a] == s0[a - 1] && s1[b] == s0[b - 1]);
                }
            }
            assert forall|j: usize| j < i + 1 implies #[trigger] s1.contains(j) by {
                if j < i {
                    assert(s0.contains(j));
                    let k = choose|k: int| 0 <= k < s0.len() && s0[k] == j;
                    if k < p {
                        assert(s1[k] == j);
                    } else {
                        assert(s1[k + 1] == j);
                    }
                } else {
                    assert(s1[p as int] == i);
                }
            }
            assert forall|k: int| 0 <= k < s1.len() implies #[trigger] s1[k] < i + 1 by {
                if k > p {
                    assert(s1[k] == s0[k - 1]);
                }
            }
        }
        i = i + 1;
    }
    sorted
}

impl JobData {
    /// The id of each user, in stored order.
    pub open spec fn user_ids(&self) -> Seq<u32> {
        self.user_list@.map_values(|u: User| u.id)
    }

    /// The id of each contest, in stored order.
    pub open spec fn contest_ids(&self) -> Seq<u32> {
        self.contests_list@.map_values(|c: ContestEntry| c.info.id)
    }

    /// Copies of all users, by id (users with equal ids in stored order).
    pub fn users_by_id(&self) -> (r: Vec<User>)
        ensures
            exists|ord: Seq<usize>|
                #[trigger] sorted_by_key(self.user_ids(), ord) && r@.len()
                    == ord.len() && forall|k: int|
                    0 <= k < ord.len() ==> (#[trigger] r@[k]).id == self.user_list@[ord[k] as int].id
                        && r@[k].name@ == self.user_list@[ord[k] as int].name@,
    {
        let mut ids: Vec<u32> = Vec::new();
        let mut i: usize = 0;
        while i < self.user_list.len()
            invariant
                i <= self.user_list@.len(),
                ids@ == self.user_list@.map_values(|u: User| u.id).subrange(0, i as int),
            decreases self.user_list@.len() - i,
        {
            ids.push(self.user_list[i].id);
            i = i + 1;
        }
        assert(ids@ =~= self.user_ids());
        let ord = order_by_key(&ids);
        let mut r: Vec<User> = Vec::new();
        let mut k: usize = 0;
        while k < ord.len()
            invariant
                sorted_by_key(ids@, ord@),
                ids@.len() == self.user_list@.len(),
                k <= ord@.len(),
                r@.len() == k,
                forall|q: int|
                    0 <= q < k ==> (#[trigger] r@[q]).id == self.user_list@[ord@[q] as int].id
                        && r@[q].name@ == self.user_list@[ord@[q] as int].name@,
            decreases ord@.len() - k,
        {
            r.push(self.user_list[ord[k]].duplicate());
            k = k + 1;
        }
        assert(sorted_by_key(self.user_ids(), ord@));
        r
    }

    /// Copies of all contests, by id (contests with equal ids in stored order).
    pub fn contests_by_id(&self) -> (r: Vec<ContestInfo>)
        ensures
            exists|ord: Seq<usize>|
                #[trigger] sorted_by_key(self.contest_ids(), ord)
                    && r@.len() == ord.len() && forall|k: int|
                    0 <= k < ord.len() ==> (#[trigger] r@[k]).same_as(
                        &self.contests_list@[ord[k] as int].info,
                    ),
    {
        let mut ids: Vec<u32> = Vec::new();
        let mut i: usize = 0;
        while i < self.contests_list.len()
            invariant
                i <= self.contests_list@.len(),
                ids@ == self.contests_list@.map_values(|c: ContestEntry| c.info.id).subrange(
                    0,
                    i as int,
                ),
            decreases self.contests_list@.len() - i,
        {
            ids.push(self.contests_list[i].info.id);
            i = i + 1;
        }
        assert(ids@ =~= self.contest_ids());
        let ord = order_by_key(&ids);
        let mut r: Vec<ContestInfo> = Vec::new();
        let mut k: usize = 0;
        while k < ord.len()
            invariant
                sorted_by_key(ids@, ord@),
                ids@.len() == self.contests_list@.len(),
                k <= ord@.len(),
                r@.len() == k,
                forall|q: int|
                    0 <= q < k ==> (#[trigger] r@[q]).same_as(&self.contests_list@[ord@[q] as int].info),
            decreases ord@.len() - k,
        {
            r.push(self.contests_list[ord[k]].info.duplicate());
            k = k + 1;
        }
        assert(sorted_by_key(self.contest_ids(), ord@));
        r
    }
}

impl Default for JobData {
    /// An empty store with the `root` user (id 0); the next user id is 1 and
    /// the next contest id is 1.
    fn default() -> (r: JobData)
        ensures
            r.job_list@.len() == 0,
            r.total_jobs == 0,
            r.user_list@.len() == 1,
            r.user_list@[0].id == 0,
            r.user_list@[0].name@ == "root"@,
            r.total_users == 1,
            r.contests_list@.len() == 0,
            r.total_contests == 1,
            r.wf(),
    {
        let mut user_list: Vec<User> = Vec::new();
        user_list.push(User { id: 0, name: String::from_str("root") });
        JobData {
            job_list: Vec::new(),
            total_jobs: 0,
            user_list,
            total_users: 1,
            contests_list: Vec::new(),
            total_contests: 1,
        }
    }
}

/// A submission to a contest that passes the checks before it is refused
/// with Rate Limit exactly when the user has used up the contest's limit on
/// that problem, and is accepted otherwise (while job ids last).
pub proof fn lemma_rate_limit(s: JobData, info: &JobInfo, config: &Config, now: i64)
    requires
        s.has_user(info.user_id),
        config.has_language(info.language@),
        config.has_problem(info.problem_id),
        info.contest_id != 0,
        s.has_contest(info.contest_id),
        s.contests_list@[s.contest_pos(info.contest_id)].info.admits(
            info.user_id,
            info.problem_id,
            now,
        ),
        s.total_jobs < u32::MAX,
    ensures
        ({
            let c = s.contests_list@[s.contest_pos(info.contest_id)];
            &&& used(c.counters@, info.user_id, info.problem_id) >= c.info.submission_limit
                ==> s.submission_error(info, config, now) == Some(AppError::ERR_RATE_LIMIT)
            &&& used(c.counters@, info.user_id, info.problem_id) < c.info.submission_limit
                ==> s.submission_error(info, config, now) is None
        }),
{
}

/// Each accepted submission to a contest counts one more submission of its
/// user to its problem there, and no other count changes.
pub proof fn lemma_submission_counted(
    s0: JobData,
    s1: JobData,
    info: &JobInfo,
    config: &Config,
    exec: &Execution,
    now: i64,
)
    requires
        JobData::submitted(s0, s1, info, config, exec, now),
        info.contest_id != 0,
        s0.has_contest(info.contest_id),
    ensures
        s1.has_contest(info.contest_id),
        s1.contest_pos(info.contest_id) == s0.contest_pos(info.contest_id),
        ({
            let c0 = s0.contests_list@[s0.contest_pos(info.contest_id)];
            let c1 = s1.contests_list@[s1.contest_pos(info.contest_id)];
            &&& c1.info == c0.info
            &&& used(c1.counters@, info.user_id, info.problem_id) == used(
                c0.counters@,
                info.user_id,
                info.problem_id,
            ) + 1
            &&& forall|u: u32, q: u32|
                !(u == info.user_id && q == info.problem_id) ==> #[trigger] used(c1.counters@, u, q)
                    == used(c0.counters@, u, q)
        }),
{
    let id = info.contest_id;
    let p = s0.contest_pos(id);
    let i0 = choose|i: int|
        0 <= i < s0.contests_list@.len() && #[trigger] s0.contests_list@[i].info.id == id;
    lemma_first_contest_exists(s0, id, i0);
    assert forall|k: int| 0 <= k < s0.contests_list@.len() implies #[trigger] s1.contests_list@[k].info
        == s0.contests_list@[k].info by {
        if k != p {
            assert(s1.contests_list@[k] == s0.contests_list@[k]);
        }
    }
    assert(s1.first_contest(id, p));
    let q = s1.contest_pos(id);
    if q < p {
        assert(s1.contests_list@[q].info == s0.contests_list@[q].info);
    } else if q > p {
        assert(s1.contests_list@[p].info.id != id);
    }
}

/// When some contest has id `id`, a first one has it.
proof fn lemma_first_contest_exists(s: JobData, id: u32, i: int)
    requires
        0 <= i < s.contests_list@.len(),
        s.contests_list@[i].info.id == id,
    ensures
        s.first_contest(id, s.contest_pos(id)),
    decreases i,
{
    if exists|j: int| 0 <= j < i && #[trigger] s.contests_list@[j].info.id == id {
        let j = choose|j: int| 0 <= j < i && #[trigger] s.contests_list@[j].info.id == id;
        lemma_first_contest_exists(s, id, j);
    } else {
        assert(s.first_contest(id, i));
    }
}

/// A submission naming a contest is refused before anything runs: with Not
/// Found when there is no such contest, and with Invalid Argument when the
/// contest is closed at that time or does not include its user or problem.
pub proof fn lemma_contest_validity(s: JobData, info: &JobInfo, config: &Config, now: i64)
    requires
        s.has_user(info.user_id),
        config.has_language(info.language@),
        config.has_problem(info.problem_id),
        info.contest_id != 0,
    ensures
        !s.has_contest(info.contest_id) ==> s.submission_error(info, config, now) == Some(
            AppError::ERR_NOT_FOUND,
        ),
        s.has_contest(info.contest_id) && !s.contests_list@[s.contest_pos(
            info.contest_id,
        )].info.admits(info.user_id, info.problem_id, now) ==> s.submission_error(
            info,
            config,
            now,
        ) == Some(AppError::ERR_INVALID_ARGUMENT),
{
}

} // verus!
