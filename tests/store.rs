use oj::config::{Case, Config, Language, Problem};
use oj::job::{CaseVerdict, Execution, JobInfo};
use oj::outcome::{AppError, RunResult, State};
use oj::query::UrlQuery;
use oj::store::{ContestInfo, HttpcomInfo, JobData, UserInfo};

// 2022-01-01T00:00:00Z and 2030-01-01T00:00:00Z in milliseconds.
const T2022: i64 = 1_640_995_200_000;
const T2030: i64 = 1_893_456_000_000;

fn config() -> Config {
    let case = |s: u64| Case {
        score: s,
        input_file: "1.in".to_string(),
        answer_file: "1.ans".to_string(),
        time_limit: 1_000_000,
        memory_limit: 0,
    };
    Config {
        problems: vec![
            Problem {
                id: 0,
                name: "aplusb".to_string(),
                problem_type: "standard".to_string(),
                special_judge: None,
                cases: vec![case(50_000), case(50_000)],
            },
            Problem {
                id: 1,
                name: "other".to_string(),
                problem_type: "standard".to_string(),
                special_judge: None,
                cases: vec![case(100_000)],
            },
        ],
        languages: vec![Language {
            name: "Rust".to_string(),
            file_name: "main.rs".to_string(),
            command: vec!["rustc".to_string(), "-o".to_string(), "%OUTPUT%".to_string(), "%INPUT%".to_string()],
        }],
    }
}

fn info(user_id: u32, contest_id: u32, problem_id: u32) -> JobInfo {
    JobInfo {
        source_code: "fn main() {}".to_string(),
        language: "Rust".to_string(),
        user_id,
        contest_id,
        problem_id,
    }
}

fn accepted(n: usize) -> Execution {
    Execution {
        workspace_ready: true,
        compile: RunResult::CompilationSuccess,
        verdicts: (0..n).map(|_| CaseVerdict { result: RunResult::Accepted, info: String::new() }).collect(),
    }
}

fn contest(users: Vec<u32>, problems: Vec<u32>, limit: u32, from: &str, to: &str) -> HttpcomInfo {
    HttpcomInfo {
        id: None,
        name: "c".to_string(),
        from: from.to_string(),
        to: to.to_string(),
        problem_ids: problems,
        user_ids: users,
        submission_limit: limit,
    }
}

#[test]
fn default_store_has_root() {
    let d = JobData::default();
    assert!(d.find_user(0).is_ok());
    assert_eq!(d.find_user(0).unwrap().name, "root");
    assert_eq!(d.find_user(1).unwrap_err(), AppError::ERR_NOT_FOUND);
}

#[test]
fn users_are_added_and_renamed() {
    let mut d = JobData::default();
    let u = d.post_user(UserInfo { id: None, name: "alice".to_string() }).unwrap();
    assert_eq!(u.id, 1);
    assert_eq!(
        d.post_user(UserInfo { id: None, name: "alice".to_string() }).unwrap_err(),
        AppError::ERR_INVALID_ARGUMENT
    );
    assert_eq!(
        d.post_user(UserInfo { id: Some(7), name: "bob".to_string() }).unwrap_err(),
        AppError::ERR_NOT_FOUND
    );
    let b = d.post_user(UserInfo { id: Some(1), name: "bob".to_string() }).unwrap();
    assert_eq!(b.id, 1);
    assert_eq!(d.find_user(1).unwrap().name, "bob");
    d.find_user_mut(1).unwrap().name = "carol".to_string();
    assert_eq!(d.find_user(1).unwrap().name, "carol");
}

#[test]
fn contests_are_checked() {
    let c = config();
    let mut d = JobData::default();
    assert_eq!(
        d.post_contest(contest(vec![5], vec![0], 1, "a", "b"), &c).unwrap_err(),
        AppError::ERR_NOT_FOUND
    );
    assert_eq!(
        d.post_contest(contest(vec![0], vec![9], 1, "a", "b"), &c).unwrap_err(),
        AppError::ERR_NOT_FOUND
    );
    let k = d.post_contest(contest(vec![0], vec![0], 1, "a", "b"), &c).unwrap();
    assert_eq!(k.id, 1);
    assert_eq!(d.find_contest(1).unwrap().info.name, "c");
    let mut again = contest(vec![0], vec![0, 1], 3, "a", "b");
    again.id = Some(1);
    let k2 = d.post_contest(again, &c).unwrap();
    assert_eq!(k2.problem_ids, vec![0, 1]);
    assert_eq!(d.find_contest(1).unwrap().info.submission_limit, 3);
    d.find_contest_mut(1).unwrap().info.name = "renamed".to_string();
    assert_eq!(d.find_contest(1).unwrap().info.name, "renamed");
    let mut missing = contest(vec![0], vec![0], 1, "a", "b");
    missing.id = Some(4);
    assert_eq!(d.post_contest(missing, &c).unwrap_err(), AppError::ERR_NOT_FOUND);
}

#[test]
fn contest_window_is_parsed() {
    let k = ContestInfo {
        id: 1,
        name: "c".to_string(),
        from: "2022-01-01T00:00:00.000Z".to_string(),
        to: "2030-01-01T00:00:00.000Z".to_string(),
        problem_ids: vec![0],
        user_ids: vec![0],
        submission_limit: 1,
    };
    let i = info(0, 1, 0);
    assert!(k.is_valid(&i, T2022));
    assert!(k.is_valid(&i, T2022 + 1000));
    assert!(!k.is_valid(&i, T2022 - 1));
    assert!(!k.is_valid(&i, T2030));
    assert!(!k.is_valid(&info(3, 1, 0), T2022));
    assert!(!k.is_valid(&info(0, 1, 2), T2022));
}

#[test]
fn submission_checks_come_in_order() {
    let c = config();
    let mut d = JobData::default();
    let now = T2022 + 5;
    assert_eq!(d.add_job(&info(9, 0, 0), &c, &accepted(2), now).unwrap_err(), AppError::ERR_NOT_FOUND);
    let mut bad_lang = info(0, 0, 0);
    bad_lang.language = "Cobol".to_string();
    assert_eq!(d.add_job(&bad_lang, &c, &accepted(2), now).unwrap_err(), AppError::ERR_NOT_FOUND);
    assert_eq!(d.add_job(&info(0, 0, 5), &c, &accepted(2), now).unwrap_err(), AppError::ERR_NOT_FOUND);
    assert_eq!(d.add_job(&info(0, 3, 0), &c, &accepted(2), now).unwrap_err(), AppError::ERR_NOT_FOUND);
    d.post_contest(contest(vec![0], vec![0], 2, "2022-01-01T00:00:00Z", "2030-01-01T00:00:00Z"), &c).unwrap();
    assert_eq!(d.add_job(&info(0, 1, 1), &c, &accepted(1), now).unwrap_err(), AppError::ERR_INVALID_ARGUMENT);
    assert_eq!(
        d.add_job(&info(0, 1, 0), &c, &accepted(2), T2022 - 10).unwrap_err(),
        AppError::ERR_INVALID_ARGUMENT
    );
    assert!(d.job_list.is_empty());
    assert_eq!(d.total_jobs, 0);
}

#[test]
fn rate_limit_after_n_submissions() {
    let c = config();
    let mut d = JobData::default();
    d.post_contest(contest(vec![0], vec![0, 1], 2, "2022-01-01T00:00:00Z", "2030-01-01T00:00:00Z"), &c).unwrap();
    let now = T2022 + 5;
    let r1 = d.add_job(&info(0, 1, 0), &c, &accepted(2), now).unwrap();
    assert_eq!(r1.id, 0);
    assert_eq!(r1.result, RunResult::Accepted);
    assert_eq!(r1.score, 100_000);
    let r2 = d.add_job(&info(0, 1, 0), &c, &accepted(2), now + 1).unwrap();
    assert_eq!(r2.id, 1);
    assert_eq!(d.add_job(&info(0, 1, 0), &c, &accepted(2), now + 2).unwrap_err(), AppError::ERR_RATE_LIMIT);
    assert!(d.add_job(&info(0, 1, 1), &c, &accepted(1), now + 3).is_ok());
    assert!(d.add_job(&info(0, 0, 0), &c, &accepted(2), now + 4).is_ok());
    assert_eq!(d.job_list.len(), 4);
}

#[test]
fn rerun_and_cancel() {
    let c = config();
    let mut d = JobData::default();
    d.add_job(&info(0, 0, 0), &c, &accepted(2), 100).unwrap();
    let wa = Execution {
        workspace_ready: true,
        compile: RunResult::CompilationSuccess,
        verdicts: vec![
            CaseVerdict { result: RunResult::WrongAnswer, info: String::new() },
            CaseVerdict { result: RunResult::Accepted, info: String::new() },
        ],
    };
    let r = d.rerun_job(0, &c, &wa, 200).unwrap();
    assert_eq!(r.result, RunResult::WrongAnswer);
    assert_eq!(r.score, 50_000);
    assert_eq!(r.created_time, 100);
    assert_eq!(r.updated_time, 200);
    assert_eq!(d.rerun_job(5, &c, &wa, 300).unwrap_err(), AppError::ERR_NOT_FOUND);
    assert_eq!(d.cancel_job(0).unwrap_err(), AppError::ERR_INVALID_STATE);
    assert_eq!(d.cancel_job(5).unwrap_err(), AppError::ERR_NOT_FOUND);
    d.find_job_mut(0).unwrap().state = State::Queueing;
    assert_eq!(d.rerun_job(0, &c, &wa, 300).unwrap_err(), AppError::ERR_INVALID_STATE);
    assert!(d.cancel_job(0).is_ok());
    assert!(d.find_job(0).is_err());
    assert_eq!(d.get_job_response(0).unwrap_err(), AppError::ERR_NOT_FOUND);
}

#[test]
fn listing_filters_and_orders_by_creation() {
    let c = config();
    let mut d = JobData::default();
    d.post_user(UserInfo { id: None, name: "alice".to_string() }).unwrap();
    d.add_job(&info(0, 0, 0), &c, &accepted(2), T2022 + 300).unwrap();
    d.add_job(&info(1, 0, 1), &c, &accepted(1), T2022 + 100).unwrap();
    d.add_job(&info(1, 0, 0), &c, &accepted(2), T2022 + 200).unwrap();
    let all = UrlQuery {
        user_id: None,
        user_name: None,
        contest_id: None,
        problem_id: None,
        language: None,
        from: None,
        to: None,
        state: None,
        result: None,
    };
    let ids: Vec<u32> = d.list_jobs(&all).iter().map(|r| r.id).collect();
    assert_eq!(ids, vec![1, 2, 0]);
    let alice = UrlQuery { user_name: Some("alice".to_string()), ..all };
    let ids: Vec<u32> = d.list_jobs(&alice).iter().map(|r| r.id).collect();
    assert_eq!(ids, vec![1, 2]);
    let late = UrlQuery { user_name: None, from: Some("2022-01-01T00:00:00.150Z".to_string()), ..alice };
    let ids: Vec<u32> = d.list_jobs(&late).iter().map(|r| r.id).collect();
    assert_eq!(ids, vec![2, 0]);
    let bad = UrlQuery { from: Some("yesterday".to_string()), ..late };
    assert!(d.list_jobs(&bad).is_empty());
    assert_eq!(d.get_job_response(2).unwrap().submission.problem_id, 0);
}
