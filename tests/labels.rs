use oj::config::{default_address, default_port};
use oj::judge::{parse_judge_report, special_judge_command};
use oj::outcome::{AppError, ErrorResponse, RunResult};

#[test]
fn labels_round_trip() {
    assert_eq!(RunResult::TimeLimitExceeded.label(), "Time Limit Exceeded");
    assert_eq!(RunResult::SpjError.label(), "SPJ Error");
    assert_eq!(RunResult::from_label("Compilation Error"), Some(RunResult::CompilationError));
    assert_eq!(RunResult::from_label("Accepted"), Some(RunResult::Accepted));
    assert_eq!(RunResult::from_label("accepted"), None);
    assert_eq!(RunResult::from_label(""), None);
}

#[test]
fn error_responses() {
    let r = AppError::ERR_RATE_LIMIT.to_response();
    assert_eq!(r.code, 4);
    assert_eq!(r.reason, "ERR_RATE_LIMIT");
    assert_eq!(AppError::ERR_NOT_FOUND.status_code(), 404);
    assert_eq!(AppError::ERR_INTERNAL.status_code(), 500);
    assert_eq!(AppError::ERR_INVALID_STATE.to_response().code, 2);
    let e = ErrorResponse::new(1, "ERR_INVALID_ARGUMENT");
    assert_eq!(e.reason, "ERR_INVALID_ARGUMENT");
}

#[test]
fn server_defaults() {
    assert_eq!(default_address(), "127.0.0.1");
    assert_eq!(default_port(), 12345);
}

#[test]
fn judge_command_substitutes_both_paths() {
    let t = vec!["python3".to_string(), "spj.py".to_string(), "%OUTPUT%".to_string(), "%ANSWER%".to_string()];
    let cmd = special_judge_command(&t, "out.txt", "1.ans").unwrap();
    assert_eq!(cmd, vec!["python3", "spj.py", "out.txt", "1.ans"]);
    let missing = vec!["spj".to_string(), "%OUTPUT%".to_string()];
    assert!(special_judge_command(&missing, "o", "a").is_none());
}

#[test]
fn judge_report_is_read() {
    assert_eq!(
        parse_judge_report("Accepted\nall good\n"),
        Some((RunResult::Accepted, "all good".to_string()))
    );
    assert_eq!(
        parse_judge_report("Wrong Answer\nline 3"),
        Some((RunResult::WrongAnswer, "line 3".to_string()))
    );
    assert_eq!(parse_judge_report("Accepted"), None);
    assert_eq!(parse_judge_report("Fine\nmsg"), None);
}
