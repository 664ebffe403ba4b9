//! Listing jobs: the filter of a listing request, and the listing itself,
//! in order of creation.
use vstd::prelude::*;

use crate::clock::{parse_utc_millis, utc_millis_of};
use crate::job::{Job, Response};
use crate::outcome::{RunResult, State};
use crate::store::JobData;

verus! {

/// A filter over jobs; each field that is given must match. `from` and `to`
/// are RFC 3339 times that bound the creation time, both exclusive.
#[derive(Debug)]
pub struct UrlQuery {
    pub user_id: Option<u32>,
    pub user_name: Option<String>,
    pub contest_id: Option<u32>,
    pub problem_id: Option<u32>,
    pub language: Option<String>,
    pub from: Option<String>,
    pub to: Option<String>,
    pub state: Option<State>,
    pub result: Option<RunResult>,
}

impl UrlQuery {
    /// The job matches every field that is given. A time bound that is no
    /// valid time matches no job.
    pub open spec fn accepts(&self, job: &Job) -> bool {
        &&& self.user_id matches Some(x) ==> job.info.user_id == x
        &&& self.user_name matches Some(x) ==> job.user_name@ == x@
        &&& self.contest_id matches Some(x) ==> job.info.contest_id == x
        &&& self.problem_id matches Some(x) ==> job.info.problem_id == x
        &&& self.language matches Some(x) ==> job.info.language@ == x@
        &&& self.from matches Some(x) ==> (utc_millis_of(x@) matches Some(t) && job.created_time
            > t)
        &&& self.to matches Some(x) ==> (utc_millis_of(x@) matches Some(t) && job.created_time < t)
        &&& self.state matches Some(x) ==> job.state == x
        &&& self.result matches Some(x) ==> job.result == x
    }

    /// Tells whether the job matches the filter.
    pub fn predicate(&self, job: &Job) -> (r: bool)
        ensures
            r == self.accepts(job),
    {
        match self.user_id {
            Some(x) => if job.info.user_id != x {
                return false;
            },
            None => {},
        }
        match &self.user_name {
            Some(x) => if job.user_name != *x {
                return false;
            },
            None => {},
        }
        match self.contest_id {
            Some(x) => if job.info.contest_id != x {
                return false;
            },
            None => {},
        }
        match self.problem_id {
            Some(x) => if job.info.problem_id != x {
                return false;
            },
            None => {},
        }
        match &self.language {
            Some(x) => if job.info.language != *x {
                return false;
            },
            None => {},
        }
        match &self.from {
            Some(x) => match parse_utc_millis(x.as_str()) {
                Some(t) => if !(job.created_time > t) {
                    return false;
                },
                None => { return false; },
            },
            None => {},
        }
        match &self.to {
            Some(x) => match parse_utc_millis(x.as_str()) {
                Some(t) => if !(job.created_time < t) {
                    return false;
                },
                None => { return false; },
            },
            None => {},
        }
        match self.state {
            Some(x) => if job.state != x {
                return false;
            },
            None => {},
        }
        match self.result {
            Some(x) => if job.result != x {
                return false;
            },
            None => {},
        }
        true
    }
}

/// Job `i` comes before job `j`: created earlier, or at the same time and
/// stored earlier.
pub open spec fn listed_before(jobs: Seq<Job>, i: int, j: int) -> bool {
    jobs[i].created_time < jobs[j].created_time || (jobs[i].created_time == jobs[j].created_time
        && i < j)
}

impl JobData {
    /// `ord` lists the positions of exactly the jobs that `query` accepts,
    /// in order of creation time, ties in order of storage.
    pub open spec fn listing(&self, query: &UrlQuery, ord: Seq<int>) -> bool {
        let jobs = self.job_list@;
        &&& forall|k: int|
            0 <= k < ord.len() ==> 0 <= #[trigger] ord[k] < jobs.len() && query.accepts(
                &jobs[ord[k]],
            )
        &&& forall|i: int|
            0 <= i < jobs.len() && query.accepts(&#[trigger] jobs[i]) ==> ord.contains(i)
        &&& forall|a: int, b: int|
            0 <= a < b < ord.len() ==> listed_before(jobs, #[trigger] ord[a], #[trigger] ord[b])
    }

    /// The jobs that `query` accepts, in order of creation.
    pub fn list_jobs(&self, query: &UrlQuery) -> (r: Vec<Response>)
        ensures
            exists|ord: Seq<int>|
                self.listing(query, ord) && r@.len() == ord.len() && forall|k: int|
                    0 <= k < ord.len() ==> self.job_list@[#[trigger] ord[k]].shows(&r@[k]),
    {
        let jobs = &self.job_list;
        let mut sorted: Vec<usize> = Vec::new();
        let mut i: usize = 0;
        while i < jobs.len()
            invariant
                jobs == &self.job_list,
                i <= jobs@.len(),
                forall|k: int|
                    0 <= k < sorted@.len() ==> #[trigger] sorted@[k] < i && query.accepts(
                        &jobs@[sorted@[k] as int],
                    ),
                forall|j: int|
                    0 <= j < i && query.accepts(&#[trigger] jobs@[j]) ==> sorted@.contains(
                        j as usize,
                    ),
                forall|a: int, b: int|
                    0 <= a < b < sorted@.len() ==> listed_before(
                        jobs@,
                        #[trigger] sorted@[a] as int,
                        #[trigger] sorted@[b] as int,
                    ),
            decreases jobs@.len() - i,
        {
            if query.predicate(&jobs[i]) {
                let t = jobs[i].created_time;
                let mut p: usize = 0;
                while p < sorted.len() && jobs[sorted[p]].created_time <= t
                    invariant
                        p <= sorted@.len(),
                        forall|k: int| 0 <= k < sorted@.len() ==> #[trigger] sorted@[k] < i,
                        i < jobs@.len(),
                        t == jobs@[i as int].created_time,
                        forall|k: int|
                            0 <= k < p ==> jobs@[#[trigger] sorted@[k] as int].created_time <= t,
                    decreases sorted@.len() - p,
                {
                    p = p + 1;
                }
                let ghost s0 = sorted@;
                sorted.insert(p, i);
                proof {
                    let s1 = sorted@;
                    assert(s1 =~= s0.insert(p as int, i));
                    assert forall|a: int, b: int|
                        0 <= a < b < s1.len() implies listed_before(
                        jobs@,
                        #[trigger] s1[a] as int,
                        #[trigger] s1[b] as int,
                    ) by {
                        if a < p && b == p {
                        } else if a < p && b > p {
                            assert(s1[b] == s0[b - 1]);
                        } else if a == p && b > p {
                            assert(s1[b] == s0[b - 1]);
                            if b - 1 > p {
                                assert(listed_before(jobs@, s0[p as int] as int, s0[b - 1] as int));
                            }
                        } else if a > p {
                            assert(s1[a] == s0[a - 1] && s1[b] == s0[b - 1]);
                        }
                    }
                    assert forall|j: int|
                        0 <= j < i + 1 && query.accepts(&#[trigger] jobs@[j]) implies s1.contains(
                        j as usize,
                    ) by {
                        if j < i {
                            let k = choose|k: int| 0 <= k < s0.len() && s0[k] == j as usize;
                            if k < p {
                                assert(s1[k] == j as usize);
                            } else {
                                assert(s1[k + 1] == j as usize);
                            }
                        } else {
                            assert(s1[p as int] == i);
                        }
                    }
                    assert forall|k: int| 0 <= k < s1.len() implies #[trigger] s1[k] < i + 1
                        && query.accepts(&jobs@[s1[k] as int]) by {
                        if k < p {
                        } else if k > p {
                            assert(s1[k] == s0[k - 1]);
                        }
                    }
                }
            }
            i = i + 1;
        }
        let mut r: Vec<Response> = Vec::new();
        let mut k: usize = 0;
        while k < sorted.len()
            invariant
                jobs == &self.job_list,
                k <= sorted@.len(),
                r@.len() == k,
                forall|q: int| 0 <= q < sorted@.len() ==> #[trigger] sorted@[q] < jobs@.len(),
                forall|q: int|
                    0 <= q < k ==> jobs@[#[trigger] sorted@[q] as int].shows(&r@[q]),
            decreases sorted@.len() - k,
        {
            r.push(jobs[sorted[k]].response());
            k = k + 1;
        }
        let ghost ord = sorted@.map_values(|x: usize| x as int);
        proof {
            assert forall|x: int|
                0 <= x < jobs@.len() && query.accepts(&#[trigger] jobs@[x]) implies ord.contains(x) by {
                let q = choose|q: int| 0 <= q < sorted@.len() && sorted@[q] == x as usize;
                assert(ord[q] == x);
            }
            assert forall|a: int, b: int| 0 <= a < b < ord.len() implies listed_before(
                jobs@,
                #[trigger] ord[a],
                #[trigger] ord[b],
            ) by {
                assert(listed_before(jobs@, sorted@[a] as int, sorted@[b] as int));
            }
            assert(self.listing(query, ord));
        }
        r
    }
}

} // verus!
