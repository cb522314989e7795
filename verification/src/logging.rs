//! Log records and the decisions of the log manager.
//!
//! The manager owns the layout of a log line, the rotation threshold and the
//! retention count; opening, appending, rotating and deleting the files is
//! the shell's job.

use vstd::prelude::*;
use vstd::string::StringExecFns;

verus! {

/// One log record: a severity kind, a message, optional details and the
/// caller's timestamp.
#[derive(Debug, Clone)]
pub struct LogEntry {
    pub kind: String,
    pub message: String,
    pub details: Option<String>,
    pub timestamp: String,
}

/// The log manager: where the log files live, how many are kept, and how
/// large one may grow.
pub struct LogManager {
    pub log_dir: String,
    pub max_log_files: usize,
    pub max_file_size: u64,
}

/// The upper-case form of the text. Names the result of
/// str::to_uppercase, which depends on the characters alone.
pub uninterp spec fn upper_of(s: Seq<char>) -> Seq<char>;

/// Relies on str::to_uppercase: the text with each character replaced by
/// its upper-case form.
#[verifier::external_body]
fn to_upper(s: &str) -> (r: String)
    ensures
        r@ == upper_of(s@),
{
    s.to_uppercase()
}

impl LogManager {
    /// A manager that writes under the given directory, keeps at most ten
    /// files and rotates a file past five million bytes.
    pub fn new(log_dir: String) -> (r: LogManager)
        ensures
            r.log_dir == log_dir,
            r.max_log_files == 10,
            r.max_file_size == 5_000_000u64,
    {
        LogManager { log_dir, max_log_files: 10, max_file_size: 5_000_000 }
    }

    /// The directory the log files live in.
    pub fn get_log_dir(&self) -> (r: &String)
        ensures
            r == self.log_dir,
    {
        &self.log_dir
    }

    /// Whether a log file of the given size must be rotated before the next
    /// write.
    pub fn needs_rotation(&self, file_size: u64) -> (r: bool)
        ensures
            r == (file_size > self.max_file_size),
    {
        file_size > self.max_file_size
    }

    /// How many log files are beyond the retention count and must go.
    pub fn excess_files(&self, file_count: usize) -> (r: usize)
        ensures
            r == if file_count > self.max_log_files {
                file_count - self.max_log_files
            } else {
                0
            },
    {
        if file_count > self.max_log_files {
            file_count - self.max_log_files
        } else {
            0
        }
    }
}

/// The line appended to the log for one record: the timestamp and the
/// upper-cased kind in brackets, the message, the details if any, and a
/// newline.
pub fn format_log_line(entry: &LogEntry) -> (r: String)
    ensures
        r@ == "["@ + entry.timestamp@ + "] ["@ + upper_of(entry.kind@) + "] "@ + entry.message@ + (
        match entry.details {
            Some(d) => " | Details: "@ + d@,
            None => Seq::<char>::empty(),
        }) + "\n"@,
{
    let mut line = "[".to_owned();
    line.append(entry.timestamp.as_str());
    line.append("] [");
    let upper = to_upper(entry.kind.as_str());
    line.append(upper.as_str());
    line.append("] ");
    line.append(entry.message.as_str());
    match &entry.details {
        Some(d) => {
            line.append(" | Details: ");
            line.append(d.as_str());
        },
        None => {},
    }
    line.append("\n");
    line
}

/// The last `limit` of the given lines, oldest first; all of them when
/// there are no more than `limit`.
pub fn recent_lines(lines: Vec<String>, limit: usize) -> (r: Vec<String>)
    ensures
        r@ == lines@.skip(
            if lines@.len() > limit {
                lines@.len() - limit
            } else {
                0
            },
        ),
{
    let ghost lines0 = lines@;
    let mut v = lines;
    let total = v.len();
    let start = if total > limit {
        total - limit
    } else {
        0
    };
    let mut dropped: usize = 0;
    while dropped < start
        invariant
            dropped <= start,
            start <= total,
            total == lines0.len(),
            v@ == lines0.skip(dropped as int),
        decreases start - dropped,
    {
        let _ = v.remove(0);
        dropped += 1;
        proof {
            assert(v@ =~= lines0.skip(dropped as int));
        }
    }
    v
}

} // verus!
