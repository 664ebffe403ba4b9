use oj::config::{Case, Language, Problem};
use oj::job::{Action, CaseVerdict, Execution, Job, JobInfo};
use oj::outcome::{RunResult, State};

fn case(score: u64) -> Case {
    Case {
        score,
        input_file: "1.in".to_string(),
        answer_file: "1.ans".to_string(),
        time_limit: 1_000_000,
        memory_limit: 0,
    }
}

fn problem(scores: &[u64]) -> Problem {
    Problem {
        id: 0,
        name: "aplusb".to_string(),
        problem_type: "standard".to_string(),
        special_judge: None,
        cases: scores.iter().map(|s| case(*s)).collect(),
    }
}

fn info() -> JobInfo {
    JobInfo {
        source_code: "fn main() {}".to_string(),
        language: "Rust".to_string(),
        user_id: 0,
        contest_id: 0,
        problem_id: 0,
    }
}

fn verdict(r: RunResult) -> CaseVerdict {
    CaseVerdict { result: r, info: String::new() }
}

fn exec(compile: RunResult, verdicts: Vec<RunResult>) -> Execution {
    Execution {
        workspace_ready: true,
        compile,
        verdicts: verdicts.into_iter().map(verdict).collect(),
    }
}

fn results(job: &Job) -> Vec<RunResult> {
    job.case_res.iter().map(|c| c.result).collect()
}

#[test]
fn accepted_solution_scores_full() {
    let p = problem(&[50_000, 50_000]);
    let mut job = Job::new("root", 0, &info(), 10);
    assert_eq!(job.score, 0);
    let e = exec(RunResult::CompilationSuccess, vec![RunResult::Accepted, RunResult::Accepted]);
    assert!(e.is_complete(2));
    let resp = job.run(&p, &e, 20);
    assert_eq!(job.result, RunResult::Accepted);
    assert_eq!(job.score, 100_000);
    assert_eq!(job.state, State::Finished);
    assert_eq!(
        results(&job),
        vec![RunResult::CompilationSuccess, RunResult::Accepted, RunResult::Accepted]
    );
    assert_eq!(resp.score, 100_000);
    assert_eq!(resp.cases.len(), 3);
    assert_eq!(resp.cases[2].id, 2);
    assert_eq!(job.created_time, 10);
    assert_eq!(job.updated_time, 20);
}

#[test]
fn compile_error_leaves_cases_waiting() {
    let p = problem(&[50_000, 50_000]);
    let mut job = Job::new("root", 0, &info(), 10);
    let e = exec(RunResult::CompilationError, vec![]);
    assert!(e.is_complete(2));
    job.run(&p, &e, 20);
    assert_eq!(job.result, RunResult::CompilationError);
    assert_eq!(job.score, 0);
    assert_eq!(
        results(&job),
        vec![RunResult::CompilationError, RunResult::Waiting, RunResult::Waiting]
    );
}

#[test]
fn time_limit_halts_the_run() {
    let p = problem(&[30_000, 30_000, 40_000]);
    let mut job = Job::new("root", 0, &info(), 10);
    let e = exec(
        RunResult::CompilationSuccess,
        vec![RunResult::Accepted, RunResult::TimeLimitExceeded],
    );
    assert!(e.is_complete(3));
    job.run(&p, &e, 20);
    assert_eq!(job.result, RunResult::TimeLimitExceeded);
    assert_eq!(job.score, 30_000);
    assert_eq!(
        results(&job),
        vec![
            RunResult::CompilationSuccess,
            RunResult::Accepted,
            RunResult::TimeLimitExceeded,
            RunResult::Waiting
        ]
    );
}

#[test]
fn runtime_error_on_first_case_halts() {
    let p = problem(&[10, 20]);
    let mut job = Job::new("root", 0, &info(), 0);
    let e = exec(RunResult::CompilationSuccess, vec![RunResult::RuntimeError]);
    job.run(&p, &e, 1);
    assert_eq!(job.result, RunResult::RuntimeError);
    assert_eq!(job.case_res[2].result, RunResult::Waiting);
    assert_eq!(job.case_res.len(), 3);
}

#[test]
fn wrong_answer_does_not_halt_and_scores_only_accepted() {
    let p = problem(&[10, 20, 30]);
    let mut job = Job::new("root", 0, &info(), 0);
    let e = exec(
        RunResult::CompilationSuccess,
        vec![RunResult::WrongAnswer, RunResult::Accepted, RunResult::WrongAnswer],
    );
    job.run(&p, &e, 1);
    assert_eq!(job.result, RunResult::WrongAnswer);
    assert_eq!(job.score, 20);
    assert_eq!(job.case_res[3].result, RunResult::WrongAnswer);
}

#[test]
fn incomplete_record_is_detected() {
    let e = exec(RunResult::CompilationSuccess, vec![RunResult::Accepted]);
    assert!(!e.is_complete(2));
    let e = exec(RunResult::CompilationSuccess, vec![RunResult::SystemError]);
    assert!(e.is_complete(2));
}

#[test]
fn workspace_failure_is_system_error() {
    let p = problem(&[10]);
    let mut job = Job::new("root", 0, &info(), 0);
    let e = Execution { workspace_ready: false, compile: RunResult::Waiting, verdicts: vec![] };
    job.run(&p, &e, 5);
    assert_eq!(job.result, RunResult::SystemError);
    assert_eq!(job.state, State::Finished);
    assert_eq!(job.case_res.len(), 0);
}

#[test]
fn rerun_gives_same_outcome_and_score() {
    let p = problem(&[10, 20]);
    let mut job = Job::new("root", 0, &info(), 0);
    let e = exec(RunResult::CompilationSuccess, vec![RunResult::Accepted, RunResult::WrongAnswer]);
    job.run(&p, &e, 5);
    let (r1, s1) = (job.result, job.score);
    job.run(&p, &e, 9);
    assert_eq!(job.result, r1);
    assert_eq!(job.score, s1);
    assert_eq!(job.created_time, 0);
    assert_eq!(job.updated_time, 9);
}

#[test]
fn step_by_step_run() {
    let p = problem(&[10, 20]);
    let mut job = Job::new("root", 0, &info(), 0);
    assert_eq!(job.begin(&p, true, 1), Action::Compile);
    assert_eq!(job.case_res.len(), 3);
    assert_eq!(job.record_compile(RunResult::CompilationSuccess, 2), Action::RunCase(1));
    assert_eq!(job.result, RunResult::CompilationSuccess);
    assert_eq!(job.record_case(&p, 1, RunResult::Accepted, "ok".to_string(), 3), Action::RunCase(2));
    assert_eq!(job.case_res[1].info, "ok");
    assert_eq!(job.record_case(&p, 2, RunResult::Accepted, String::new(), 4), Action::Finish);
    assert_eq!(job.result, RunResult::Accepted);
    assert_eq!(job.score, 30);
}

#[test]
fn test_replace() {
    let mut lang = Language {
        name: "Rust".to_string(),
        file_name: "main.rs".to_string(),
        command: vec![
            "rustc".to_string(),
            "-C".to_string(),
            "opt-level=2".to_string(),
            "-o".to_string(),
            "%OUTPUT%".to_string(),
            "%INPUT%".to_string(),
        ],
    };
    assert!(lang.replace("%OUTPUT%", "jobid"));
    assert!(lang.replace("%INPUT%", "main.rs"));
    assert_eq!(lang.command[4], "jobid");
    assert_eq!(lang.command[5], "main.rs");
    assert!(!lang.replace("%INPUT%", "again"));
}
