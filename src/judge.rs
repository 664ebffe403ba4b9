//! The special judge: its command line, and what its report says.
use vstd::prelude::*;
use vstd::string::*;

use crate::config::{copy_words, has_word, replace_first, replace_word, words};
use crate::outcome::{result_of_label, RunResult};

verus! {

/// The special judge's command: `template` with `%OUTPUT%` set to the
/// produced output's path and then `%ANSWER%` to the answer file's path;
/// `None` when either placeholder is missing.
pub open spec fn judge_command(template: Seq<Seq<char>>, output: Seq<char>, answer: Seq<char>) -> Option<
    Seq<Seq<char>>,
> {
    let mid = replace_word(template, "%OUTPUT%"@, output);
    if !has_word(template, "%OUTPUT%"@) || !has_word(mid, "%ANSWER%"@) {
        None
    } else {
        Some(replace_word(mid, "%ANSWER%"@, answer))
    }
}

/// The command that runs the special judge on one case.
pub fn special_judge_command(template: &Vec<String>, output: &str, answer: &str) -> (r: Option<
    Vec<String>,
>)
    ensures
        r is None <==> judge_command(words(template@), output@, answer@) is None,
        r matches Some(cmd) ==> judge_command(words(template@), output@, answer@) == Some(
            words(cmd@),
        ),
{
    let mut args = copy_words(template);
    if !replace_first(&mut args, "%OUTPUT%", output) {
        return None;
    }
    if !replace_first(&mut args, "%ANSWER%", answer) {
        return None;
    }
    Some(args)
}

/// The index of the first line break at or after `i`, or the length.
pub open spec fn line_end(s: Seq<char>, i: int) -> int
    decreases s.len() - i,
{
    if i >= s.len() {
        s.len() as int
    } else if s[i] == '\n' {
        i
    } else {
        line_end(s, i + 1)
    }
}

/// What a special judge's report says: its first line is the label of the
/// case's outcome and its second line a message. `None` when the report has
/// no second line or its first line is no outcome's label.
pub open spec fn judge_report(s: Seq<char>) -> Option<(RunResult, Seq<char>)> {
    let e0 = line_end(s, 0);
    if e0 >= s.len() {
        None
    } else {
        match result_of_label(s.subrange(0, e0)) {
            None => None,
            Some(r) => Some((r, s.subrange(e0 + 1, line_end(s, e0 + 1)))),
        }
    }
}

/// Finds the first line break at or after `i`.
fn find_line_end(s: &str, i: usize) -> (r: usize)
    requires
        i <= s@.len(),
    ensures
        r == line_end(s@, i as int),
        i <= r <= s@.len(),
{
    let n = s.unicode_len();
    let mut k = i;
    while k < n
        invariant
            n == s@.len(),
            i <= k <= n,
            line_end(s@, i as int) == line_end(s@, k as int),
        decreases n - k,
    {
        if s.get_char(k) == '\n' {
            return k;
        }
        k = k + 1;
    }
    k
}

/// Reads a special judge's report: the outcome it names and its message.
pub fn parse_judge_report(out: &str) -> (r: Option<(RunResult, String)>)
    ensures
        r is None <==> judge_report(out@) is None,
        r matches Some((x, m)) ==> judge_report(out@) == Some((x, m@)),
{
    let n = out.unicode_len();
    let e0 = find_line_end(out, 0);
    if e0 >= n {
        return None;
    }
    let first = out.substring_char(0, e0);
    match RunResult::from_label(first) {
        None => None,
        Some(x) => {
            let e1 = find_line_end(out, e0 + 1);
            Some((x, String::from_str(out.substring_char(e0 + 1, e1))))
        },
    }
}

} // verus!
