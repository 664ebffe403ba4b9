use oj::config::{Case, Config, Language, Problem};
use oj::job::{CaseVerdict, Execution, JobInfo};
use oj::outcome::{AppError, RunResult};
use oj::ranking::{RanklistArg, ScoringRule, TieBreaker, _default_scoring_rule, _default_tie_breaker};
use oj::store::{HttpcomInfo, JobData, UserInfo};

fn config() -> Config {
    let case = |s: u64| Case {
        score: s,
        input_file: "1.in".to_string(),
        answer_file: "1.ans".to_string(),
        time_limit: 1_000_000,
        memory_limit: 0,
    };
    Config {
        problems: vec![
            Problem {
                id: 0,
                name: "a".to_string(),
                problem_type: "standard".to_string(),
                special_judge: None,
                cases: vec![case(50), case(50)],
            },
            Problem {
                id: 1,
                name: "b".to_string(),
                problem_type: "standard".to_string(),
                special_judge: None,
                cases: vec![case(100)],
            },
        ],
        languages: vec![Language { name: "Rust".to_string(), file_name: "main.rs".to_string(), command: vec![] }],
    }
}

fn info(user_id: u32, problem_id: u32) -> JobInfo {
    JobInfo { source_code: String::new(), language: "Rust".to_string(), user_id, contest_id: 0, problem_id }
}

fn run(results: &[RunResult]) -> Execution {
    Execution {
        workspace_ready: true,
        compile: RunResult::CompilationSuccess,
        verdicts: results.iter().map(|r| CaseVerdict { result: *r, info: String::new() }).collect(),
    }
}

fn store() -> JobData {
    let mut d = JobData::default();
    d.post_user(UserInfo { id: None, name: "alice".to_string() }).unwrap();
    d.post_user(UserInfo { id: None, name: "bob".to_string() }).unwrap();
    d
}

const AA: [RunResult; 2] = [RunResult::Accepted, RunResult::Accepted];
const AW: [RunResult; 2] = [RunResult::Accepted, RunResult::WrongAnswer];

#[test]
fn defaults_are_latest_and_none() {
    assert_eq!(_default_scoring_rule(), ScoringRule::Latest);
    assert_eq!(_default_tie_breaker(), TieBreaker::NoBreak);
}

#[test]
fn equal_totals_share_rank_without_tie_breaker() {
    let c = config();
    let mut d = store();
    d.add_job(&info(2, 0), &c, &run(&AA), 10).unwrap();
    d.add_job(&info(1, 0), &c, &run(&AA), 20).unwrap();
    let arg = RanklistArg { scoring_rule: ScoringRule::Latest, tie_breaker: TieBreaker::NoBreak };
    let r = d.ranklist(0, &arg, &c, 1000).unwrap();
    let lines: Vec<(u32, usize)> = r.iter().map(|l| (l.user.id, l.rank)).collect();
    assert_eq!(lines, vec![(1, 1), (2, 1), (0, 3)]);
    assert_eq!(r[0].scores, vec![100, 0]);
    assert_eq!(r[2].scores, vec![0, 0]);
}

#[test]
fn user_id_tie_breaker_orders_by_id() {
    let c = config();
    let mut d = store();
    d.add_job(&info(2, 0), &c, &run(&AA), 10).unwrap();
    d.add_job(&info(1, 0), &c, &run(&AA), 20).unwrap();
    let arg = RanklistArg { scoring_rule: ScoringRule::Latest, tie_breaker: TieBreaker::UserId };
    let r = d.ranklist(0, &arg, &c, 1000).unwrap();
    let lines: Vec<(u32, usize)> = r.iter().map(|l| (l.user.id, l.rank)).collect();
    assert_eq!(lines, vec![(1, 1), (2, 2), (0, 3)]);
}

#[test]
fn time_and_count_tie_breakers() {
    let c = config();
    let mut d = store();
    d.add_job(&info(1, 0), &c, &run(&AW), 5).unwrap();
    d.add_job(&info(1, 0), &c, &run(&AA), 30).unwrap();
    d.add_job(&info(2, 0), &c, &run(&AA), 20).unwrap();
    let by_time = RanklistArg { scoring_rule: ScoringRule::Latest, tie_breaker: TieBreaker::SubmissionTime };
    let r = d.ranklist(0, &by_time, &c, 1000).unwrap();
    let lines: Vec<(u32, usize)> = r.iter().map(|l| (l.user.id, l.rank)).collect();
    assert_eq!(lines, vec![(2, 1), (1, 2), (0, 3)]);
    let by_count = RanklistArg { scoring_rule: ScoringRule::Latest, tie_breaker: TieBreaker::SubmissionCount };
    let r = d.ranklist(0, &by_count, &c, 1000).unwrap();
    let lines: Vec<(u32, usize)> = r.iter().map(|l| (l.user.id, l.rank)).collect();
    assert_eq!(lines, vec![(2, 1), (1, 2), (0, 3)]);
}

#[test]
fn highest_rule_prefers_earliest_of_equal_scores() {
    let c = config();
    let mut d = store();
    // user 1: 100 at time 10, 50 at time 20, 100 at time 30
    d.add_job(&info(1, 0), &c, &run(&AA), 10).unwrap();
    d.add_job(&info(1, 0), &c, &run(&AW), 20).unwrap();
    d.add_job(&info(1, 0), &c, &run(&AA), 30).unwrap();
    // user 2: 100 at time 15
    d.add_job(&info(2, 0), &c, &run(&AA), 15).unwrap();
    let highest = RanklistArg { scoring_rule: ScoringRule::Highest, tie_breaker: TieBreaker::SubmissionTime };
    let r = d.ranklist(0, &highest, &c, 1000).unwrap();
    let lines: Vec<(u32, usize)> = r.iter().map(|l| (l.user.id, l.rank)).collect();
    // user 1's representative is the one at time 10, earlier than user 2's
    assert_eq!(lines, vec![(1, 1), (2, 2), (0, 3)]);
    assert_eq!(r[0].scores, vec![100, 0]);
    let latest = RanklistArg { scoring_rule: ScoringRule::Latest, tie_breaker: TieBreaker::NoBreak };
    let r = d.ranklist(0, &latest, &c, 1000).unwrap();
    assert_eq!(r[0].scores, vec![100, 0]);
}

#[test]
fn latest_rule_takes_latest_even_if_worse() {
    let c = config();
    let mut d = store();
    d.add_job(&info(1, 0), &c, &run(&AA), 10).unwrap();
    d.add_job(&info(1, 0), &c, &run(&AW), 20).unwrap();
    let latest = RanklistArg { scoring_rule: ScoringRule::Latest, tie_breaker: TieBreaker::NoBreak };
    let r = d.ranklist(0, &latest, &c, 1000).unwrap();
    assert_eq!(r[0].user.id, 1);
    assert_eq!(r[0].scores, vec![50, 0]);
}

#[test]
fn contest_ranking_uses_members() {
    let c = config();
    let mut d = store();
    let arg = RanklistArg { scoring_rule: ScoringRule::Latest, tie_breaker: TieBreaker::NoBreak };
    assert_eq!(d.ranklist(4, &arg, &c, 0).unwrap_err(), AppError::ERR_NOT_FOUND);
    d.post_contest(
        HttpcomInfo {
            id: None,
            name: "c".to_string(),
            from: "2022-01-01T00:00:00Z".to_string(),
            to: "2030-01-01T00:00:00Z".to_string(),
            problem_ids: vec![1],
            user_ids: vec![2, 1],
            submission_limit: 5,
        },
        &c,
    )
    .unwrap();
    let mut i = info(2, 1);
    i.contest_id = 1;
    d.add_job(&i, &c, &run(&[RunResult::Accepted]), 1_640_995_200_100).unwrap();
    d.add_job(&info(1, 1), &c, &run(&[RunResult::Accepted]), 1_640_995_200_200).unwrap();
    let r = d.ranklist(1, &arg, &c, 1_700_000_000_000).unwrap();
    let lines: Vec<(u32, usize, Vec<u64>)> = r.iter().map(|l| (l.user.id, l.rank, l.scores.clone())).collect();
    assert_eq!(lines, vec![(2, 1, vec![100]), (1, 2, vec![0])]);
    assert!(d.contest_ranklist(1, &arg, &c).is_ok());
}
