//! What is shown of the log files.
use vstd::prelude::*;
use vstd::string::*;

use crate::log_rotator::{last_lines, DEFAULT_LOG_LINES};
use crate::text::{lines, lines_of, texts};

verus! {

/// The log that is shown where none is asked for.
pub const DEFAULT_LOG: &'static str = "agent.log";

/// A log file and its last lines.
#[derive(Debug, PartialEq, Eq)]
pub struct LogsResponse {
    pub file: String,
    pub lines: Vec<String>,
}

/// The name of the log that is shown.
pub open spec fn log_name(file: Option<Seq<char>>) -> Seq<char> {
    match file {
        Some(f) => f,
        None => DEFAULT_LOG@,
    }
}

/// How many lines are shown.
pub open spec fn line_count(lines: Option<usize>) -> usize {
    match lines {
        Some(n) => n,
        None => DEFAULT_LOG_LINES,
    }
}

/// The name of the log that is shown.
pub fn log_file_name(file: Option<String>) -> (r: String)
    ensures
        r@ == log_name(
            match file {
                Some(f) => Some(f@),
                None => None,
            },
        ),
{
    match file {
        Some(f) => f,
        None => DEFAULT_LOG.to_owned(),
    }
}

/// How many lines are shown.
pub fn max_log_lines(lines: Option<usize>) -> (r: usize)
    ensures
        r == line_count(lines),
{
    match lines {
        Some(n) => n,
        None => DEFAULT_LOG_LINES,
    }
}

/// The last lines of a text.
pub fn tail_of(content: &str, max: usize) -> (r: Vec<String>)
    ensures
        texts(r@) == last_lines(lines(content@), max as int),
{
    let all = lines_of(content);
    let total: usize = all.len();
    let start: usize = if total > max {
        total - max
    } else {
        0
    };
    let mut out: Vec<String> = Vec::new();
    let mut i: usize = start;
    while i < total
        invariant
            start <= i <= total,
            total == all@.len(),
            out@.len() == i - start,
            forall|j: int| 0 <= j < out@.len() ==> (#[trigger] out@[j])@ == all@[start + j]@,
        decreases total - i,
    {
        out.push(all[i].clone());
        i = i + 1;
    }
    assert(texts(out@) =~= last_lines(texts(all@), max as int));
    out
}

/// A log file and its last lines, from the outcome of reading it; no lines where there is no
/// such file.
pub fn get_logs(
    file: Option<String>,
    lines: Option<usize>,
    content: Option<Result<String, String>>,
) -> (r: Result<LogsResponse, String>)
    ensures
        match content {
            Some(Err(e)) => r matches Err(x) && x@ == "Could not read log: "@ + e@,
            Some(Ok(text)) => r matches Ok(l) && l.file@ == log_name(
                match file {
                    Some(f) => Some(f@),
                    None => None,
                },
            ) && texts(l.lines@) == last_lines(
                crate::text::lines(text@),
                line_count(lines) as int,
            ),
            None => r matches Ok(l) && l.file@ == log_name(
                match file {
                    Some(f) => Some(f@),
                    None => None,
                },
            ) && l.lines@.len() == 0,
        },
{
    let max: usize = max_log_lines(lines);
    let file = log_file_name(file);
    match content {
        Some(Ok(text)) => Ok(LogsResponse { file, lines: tail_of(text.as_str(), max) }),
        Some(Err(e)) => {
            let mut c = "Could not read log: ".to_owned();
            c.append(e.as_str());
            Err(c)
        },
        None => Ok(LogsResponse { file, lines: Vec::new() }),
    }
}

/// The log that is shown is the one that is asked for, else that of the agent; and of its lines
/// as many as are asked for, else two hundred.
pub proof fn law_log_shown(file: Seq<char>, n: usize)
    ensures
        log_name(Some(file)) == file,
        log_name(None) == "agent.log"@,
        line_count(Some(n)) == n,
        line_count(None) == 200,
{
}

} // verus!
