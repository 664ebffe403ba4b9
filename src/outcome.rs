//! Outcomes, lifecycle states and the error taxonomy, with their
//! external text labels.
use vstd::prelude::*;
use vstd::string::*;

verus! {

/// Lifecycle state of a job record.
#[derive(Debug, PartialEq, Eq, Structural, Clone, Copy)]
pub enum State {
    Queueing,
    Running,
    Finished,
    Canceled,
}

/// Outcome of the compile step, of one case, or of a whole job.
#[derive(Debug, PartialEq, Eq, Structural, Clone, Copy)]
pub enum RunResult {
    Waiting,
    Running,
    Accepted,
    CompilationError,
    CompilationSuccess,
    WrongAnswer,
    RuntimeError,
    TimeLimitExceeded,
    MemoryLimitExceeded,
    SystemError,
    SpjError,
    Skipped,
}

/// The human-readable label of an outcome.
pub open spec fn label_of(r: RunResult) -> Seq<char> {
    match r {
        RunResult::Waiting => "Waiting"@,
        RunResult::Running => "Running"@,
        RunResult::Accepted => "Accepted"@,
        RunResult::CompilationError => "Compilation Error"@,
        RunResult::CompilationSuccess => "Compilation Success"@,
        RunResult::WrongAnswer => "Wrong Answer"@,
        RunResult::RuntimeError => "Runtime Error"@,
        RunResult::TimeLimitExceeded => "Time Limit Exceeded"@,
        RunResult::MemoryLimitExceeded => "Memory Limit Exceeded"@,
        RunResult::SystemError => "System Error"@,
        RunResult::SpjError => "SPJ Error"@,
        RunResult::Skipped => "Skipped"@,
    }
}

/// The outcome whose label is `s`, if any.
pub open spec fn result_of_label(s: Seq<char>) -> Option<RunResult> {
    if exists|r: RunResult| label_of(r) == s {
        Some(choose|r: RunResult| label_of(r) == s)
    } else {
        None
    }
}

/// Distinct outcomes have distinct labels.
pub proof fn lemma_labels_distinct(a: RunResult, b: RunResult)
    ensures
        label_of(a) == label_of(b) ==> a == b,
{
    reveal_strlit("Waiting");
    reveal_strlit("Running");
    reveal_strlit("Accepted");
    reveal_strlit("Compilation Error");
    reveal_strlit("Compilation Success");
    reveal_strlit("Wrong Answer");
    reveal_strlit("Runtime Error");
    reveal_strlit("Time Limit Exceeded");
    reveal_strlit("Memory Limit Exceeded");
    reveal_strlit("System Error");
    reveal_strlit("SPJ Error");
    reveal_strlit("Skipped");
    if label_of(a) == label_of(b) {
        assert(label_of(a).len() == label_of(b).len());
        assert(label_of(a)[0] == label_of(b)[0]);
    }
}

impl RunResult {
    /// The label under which this outcome is shown to users.
    pub fn label(&self) -> (s: String)
        ensures
            s@ == label_of(*self),
    {
        let t: &str = match self {
            RunResult::Waiting => "Waiting",
            RunResult::Running => "Running",
            RunResult::Accepted => "Accepted",
            RunResult::CompilationError => "Compilation Error",
            RunResult::CompilationSuccess => "Compilation Success",
            RunResult::WrongAnswer => "Wrong Answer",
            RunResult::RuntimeError => "Runtime Error",
            RunResult::TimeLimitExceeded => "Time Limit Exceeded",
            RunResult::MemoryLimitExceeded => "Memory Limit Exceeded",
            RunResult::SystemError => "System Error",
            RunResult::SpjError => "SPJ Error",
            RunResult::Skipped => "Skipped",
        };
        String::from_str(t)
    }

    /// The outcome whose label is `s`; `None` when no outcome has that label.
    pub fn from_label(s: &str) -> (r: Option<RunResult>)
        ensures
            r == result_of_label(s@),
    {
        let t = String::from_str(s);
        let all = [
            RunResult::Waiting,
            RunResult::Running,
            RunResult::Accepted,
            RunResult::CompilationError,
            RunResult::CompilationSuccess,
            RunResult::WrongAnswer,
            RunResult::RuntimeError,
            RunResult::TimeLimitExceeded,
            RunResult::MemoryLimitExceeded,
            RunResult::SystemError,
            RunResult::SpjError,
            RunResult::Skipped,
        ];
        let mut i: usize = 0;
        while i < 12
            invariant
                0 <= i <= 12,
                t@ == s@,
                all@ == seq![
                    RunResult::Waiting,
                    RunResult::Running,
                    RunResult::Accepted,
                    RunResult::CompilationError,
                    RunResult::CompilationSuccess,
                    RunResult::WrongAnswer,
                    RunResult::RuntimeError,
                    RunResult::TimeLimitExceeded,
                    RunResult::MemoryLimitExceeded,
                    RunResult::SystemError,
                    RunResult::SpjError,
                    RunResult::Skipped,
                ],
                forall|j: int| 0 <= j < i ==> label_of(#[trigger] all@[j]) != s@,
            decreases 12 - i,
        {
            let l = all[i].label();
            if l == t {
                proof {
                    let x = all@[i as int];
                    assert(label_of(x) == s@);
                    let c = choose|r: RunResult| label_of(r) == s@;
                    lemma_labels_distinct(c, x);
                }
                return Some(all[i]);
            }
            i = i + 1;
        }
        assert forall|x: RunResult| label_of(x) != s@ by {
            match x {
                RunResult::Waiting => assert(label_of(all@[0]) != s@),
                RunResult::Running => assert(label_of(all@[1]) != s@),
                RunResult::Accepted => assert(label_of(all@[2]) != s@),
                RunResult::CompilationError => assert(label_of(all@[3]) != s@),
                RunResult::CompilationSuccess => assert(label_of(all@[4]) != s@),
                RunResult::WrongAnswer => assert(label_of(all@[5]) != s@),
                RunResult::RuntimeError => assert(label_of(all@[6]) != s@),
                RunResult::TimeLimitExceeded => assert(label_of(all@[7]) != s@),
                RunResult::MemoryLimitExceeded => assert(label_of(all@[8]) != s@),
                RunResult::SystemError => assert(label_of(all@[9]) != s@),
                RunResult::SpjError => assert(label_of(all@[10]) != s@),
                RunResult::Skipped => assert(label_of(all@[11]) != s@),
            }
        }
        None
    }
}

/// Errors surfaced to callers of the job store.
#[allow(non_camel_case_types)]
#[derive(Debug, PartialEq, Eq, Structural, Clone, Copy)]
pub enum AppError {
    ERR_INVALID_ARGUMENT,
    ERR_INVALID_STATE,
    ERR_NOT_FOUND,
    ERR_RATE_LIMIT,
    ERR_EXTERNAL,
    ERR_INTERNAL,
}

/// The numeric code of an error in an error response.
pub open spec fn error_code(e: AppError) -> u32 {
    match e {
        AppError::ERR_INVALID_ARGUMENT => 1,
        AppError::ERR_INVALID_STATE => 2,
        AppError::ERR_NOT_FOUND => 3,
        AppError::ERR_RATE_LIMIT => 4,
        AppError::ERR_EXTERNAL => 5,
        AppError::ERR_INTERNAL => 6,
    }
}

/// The name of an error, as shown in an error response.
pub open spec fn error_name(e: AppError) -> Seq<char> {
    match e {
        AppError::ERR_INVALID_ARGUMENT => "ERR_INVALID_ARGUMENT"@,
        AppError::ERR_INVALID_STATE => "ERR_INVALID_STATE"@,
        AppError::ERR_NOT_FOUND => "ERR_NOT_FOUND"@,
        AppError::ERR_RATE_LIMIT => "ERR_RATE_LIMIT"@,
        AppError::ERR_EXTERNAL => "ERR_EXTERNAL"@,
        AppError::ERR_INTERNAL => "ERR_INTERNAL"@,
    }
}

/// The HTTP status that an error is reported with.
pub open spec fn error_status(e: AppError) -> u16 {
    match e {
        AppError::ERR_INVALID_ARGUMENT => 400,
        AppError::ERR_INVALID_STATE => 400,
        AppError::ERR_NOT_FOUND => 404,
        AppError::ERR_RATE_LIMIT => 400,
        AppError::ERR_EXTERNAL => 500,
        AppError::ERR_INTERNAL => 500,
    }
}

impl AppError {
    /// The name of the error.
    pub fn name(&self) -> (s: String)
        ensures
            s@ == error_name(*self),
    {
        let t: &str = match self {
            AppError::ERR_INVALID_ARGUMENT => "ERR_INVALID_ARGUMENT",
            AppError::ERR_INVALID_STATE => "ERR_INVALID_STATE",
            AppError::ERR_NOT_FOUND => "ERR_NOT_FOUND",
            AppError::ERR_RATE_LIMIT => "ERR_RATE_LIMIT",
            AppError::ERR_EXTERNAL => "ERR_EXTERNAL",
            AppError::ERR_INTERNAL => "ERR_INTERNAL",
        };
        String::from_str(t)
    }

    /// The HTTP status code of the error.
    pub fn status_code(&self) -> (c: u16)
        ensures
            c == error_status(*self),
    {
        match self {
            AppError::ERR_INVALID_ARGUMENT => 400,
            AppError::ERR_INVALID_STATE => 400,
            AppError::ERR_NOT_FOUND => 404,
            AppError::ERR_RATE_LIMIT => 400,
            AppError::ERR_EXTERNAL => 500,
            AppError::ERR_INTERNAL => 500,
        }
    }

    /// The body of the error response: its code and its name.
    pub fn to_response(&self) -> (r: ErrorResponse)
        ensures
            r.code == error_code(*self),
            r.reason@ == error_name(*self),
    {
        let code: u32 = match self {
            AppError::ERR_INVALID_ARGUMENT => 1,
            AppError::ERR_INVALID_STATE => 2,
            AppError::ERR_NOT_FOUND => 3,
            AppError::ERR_RATE_LIMIT => 4,
            AppError::ERR_EXTERNAL => 5,
            AppError::ERR_INTERNAL => 6,
        };
        let n = self.name();
        ErrorResponse::new(code, n.as_str())
    }
}

/// The body of an error response.
#[derive(Debug)]
pub struct ErrorResponse {
    pub code: u32,
    pub reason: String,
}

impl ErrorResponse {
    pub fn new(code: u32, reason: &str) -> (r: ErrorResponse)
        ensures
            r.code == code,
            r.reason@ == reason@,
    {
        ErrorResponse { code, reason: String::from_str(reason) }
    }
}

} // verus!
