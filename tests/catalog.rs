use oj::config::{Case, Config, Problem};
use oj::job::{CaseResult, JobInfo};
use oj::outcome::{AppError, RunResult, State};
use oj::ranking::ContestRes;
use oj::store::{HttpcomInfo, JobData, User, UserInfo};

fn problem(id: u32, scores: &[u64]) -> Problem {
    Problem {
        id,
        name: "p".to_string(),
        problem_type: "standard".to_string(),
        special_judge: None,
        cases: scores
            .iter()
            .map(|s| Case {
                score: *s,
                input_file: String::new(),
                answer_file: String::new(),
                time_limit: 1,
                memory_limit: 0,
            })
            .collect(),
    }
}

#[test]
fn catalog_well_formedness() {
    let ok = Config { problems: vec![problem(0, &[1, 2]), problem(1, &[u64::MAX])], languages: vec![] };
    assert!(ok.check());
    let too_much = Config { problems: vec![problem(0, &[u64::MAX, 1])], languages: vec![] };
    assert!(!too_much.check());
    assert_eq!(ok.problem_index(1), Some(1));
    assert_eq!(ok.problem_index(7), None);
}

#[test]
fn fresh_case_result() {
    let c = CaseResult::new(3);
    assert_eq!(c.id, 3);
    assert_eq!(c.result, RunResult::Waiting);
    assert_eq!(c.info, "");
}

#[test]
fn ranking_line_starts_unranked() {
    let u = User { id: 4, name: "dora".to_string() };
    let line = ContestRes::new(&u, vec![1, 2]);
    assert_eq!(line.user.id, 4);
    assert_eq!(line.rank, 0);
    assert_eq!(line.scores, vec![1, 2]);
}

#[test]
fn submission_is_prepared_with_the_clock() {
    let mut config = Config { problems: vec![problem(0, &[10])], languages: vec![] };
    config.languages.push(oj::config::Language {
        name: "Rust".to_string(),
        file_name: "main.rs".to_string(),
        command: vec![],
    });
    let d = JobData::default();
    let info = JobInfo {
        source_code: "x".to_string(),
        language: "Rust".to_string(),
        user_id: 0,
        contest_id: 0,
        problem_id: 0,
    };
    let job = d.prepare_job(&info, &config).unwrap();
    // after 2020-01-01
    assert!(job.created_time > 1_577_836_800_000);
    assert_eq!(job.state, State::Queueing);
    assert_eq!(job.user_name, "root");
    let checked = d.check_submission(&info, &config, 42).unwrap();
    assert_eq!(checked.created_time, 42);
    assert_eq!(checked.job_id, 0);
    let mut other = info.clone();
    other.user_id = 3;
    assert_eq!(d.check_submission(&other, &config, 42).unwrap_err(), AppError::ERR_NOT_FOUND);
}

#[test]
fn listings_by_id() {
    let config = Config { problems: vec![problem(0, &[10])], languages: vec![] };
    let mut d = JobData::default();
    d.post_user(UserInfo { id: None, name: "b".to_string() }).unwrap();
    d.post_user(UserInfo { id: None, name: "a".to_string() }).unwrap();
    let ids: Vec<u32> = d.users_by_id().iter().map(|u| u.id).collect();
    assert_eq!(ids, vec![0, 1, 2]);
    for _ in 0..2 {
        d.post_contest(
            HttpcomInfo {
                id: None,
                name: "c".to_string(),
                from: String::new(),
                to: String::new(),
                problem_ids: vec![0],
                user_ids: vec![1],
                submission_limit: 1,
            },
            &config,
        )
        .unwrap();
    }
    let ids: Vec<u32> = d.contests_by_id().iter().map(|c| c.id).collect();
    assert_eq!(ids, vec![1, 2]);
}
