//! What git history says about a symbol: how long its lines have been untouched and how
//! often its file changed recently.

use vstd::prelude::*;

use crate::paths::{relative_components, relative_string, relative_text};

verus! {

/// Seconds in a day.
pub const SECONDS_PER_DAY: i64 = 86400i64;

/// The recent-churn window: 90 days, in seconds.
pub const CHURN_WINDOW_SECS: i64 = 7776000i64;

/// The age and recent churn git history gives a symbol.
#[derive(Debug, Clone, Copy, PartialEq, Eq, Structural)]
pub struct GitScore {
    pub age_secs: u64,
    pub commits_90d: usize,
}

/// An inclusive range of line numbers.
#[derive(Debug, Clone, Copy, PartialEq, Eq, Structural)]
pub struct LineRange {
    pub start: u32,
    pub end: u32,
}

/// A commit that changed a file: when, and which lines (no ranges: the whole file).
#[derive(Debug, Clone, PartialEq, Eq)]
pub struct FileTouch {
    pub timestamp: i64,
    pub ranges: Vec<LineRange>,
}

/// Two inclusive line ranges share a line.
pub open spec fn overlaps(left_start: u32, left_end: u32, right_start: u32, right_end: u32) -> bool {
    left_start <= right_end && right_start <= left_end
}

/// Whether two inclusive line ranges share a line.
pub fn ranges_overlap(left_start: u32, left_end: u32, right_start: u32, right_end: u32) -> (shared: bool)
    ensures
        shared == overlaps(left_start, left_end, right_start, right_end),
{
    left_start <= right_end && right_start <= left_end
}

/// The line range a diff hunk covers: its new side if it has new lines, else its old side;
/// an empty side covers just its start line.
pub open spec fn hunk_range(new_start: u32, new_lines: u32, old_start: u32, old_lines: u32) -> LineRange {
    let (start, lines) = if new_lines > 0 { (new_start, new_lines) } else { (old_start, old_lines) };
    if lines == 0 {
        LineRange { start, end: start }
    } else {
        LineRange { start, end: if start + lines - 1 > u32::MAX { u32::MAX } else { (start + lines - 1) as u32 } }
    }
}

/// The line range a diff hunk covers.
pub fn hunk_to_range(new_start: u32, new_lines: u32, old_start: u32, old_lines: u32) -> (range: LineRange)
    ensures
        range == hunk_range(new_start, new_lines, old_start, old_lines),
{
    let (start, lines) = if new_lines > 0 { (new_start, new_lines) } else { (old_start, old_lines) };
    let end = start.saturating_add(lines.saturating_sub(1));
    LineRange { start, end: if lines == 0 { start } else { end } }
}

/// The touch changes the symbol's lines: it names no ranges, or one of them overlaps them.
pub open spec fn touches_lines(touch: FileTouch, line_start: u32, line_end: u32) -> bool {
    touch.ranges@.len() == 0 || exists|k: int|
        0 <= k < touch.ranges@.len() && overlaps(line_start, line_end, #[trigger] touch.ranges@[k].start, touch.ranges@[k].end)
}

/// The seconds from `timestamp` to `now`, never negative.
pub open spec fn elapsed_secs(now: i64, timestamp: i64) -> u64 {
    if now - timestamp <= 0 {
        0
    } else if now - timestamp > i64::MAX {
        i64::MAX as u64
    } else {
        (now - timestamp) as u64
    }
}

/// The first touch (newest first) that changes the lines, from position `from` on.
pub open spec fn first_touch_from(history: Seq<FileTouch>, line_start: u32, line_end: u32, from: int) -> Option<int>
    decreases history.len() - from,
{
    if from < 0 || from >= history.len() {
        None
    } else if touches_lines(history[from], line_start, line_end) {
        Some(from)
    } else {
        first_touch_from(history, line_start, line_end, from + 1)
    }
}

/// How long the lines have been untouched: the time since the first touch (newest first)
/// that changed them, or zero when none did.
pub open spec fn age_secs_spec(history: Seq<FileTouch>, line_start: u32, line_end: u32, now: i64) -> u64 {
    match first_touch_from(history, line_start, line_end, 0) {
        Some(k) => elapsed_secs(now, history[k].timestamp),
        None => 0,
    }
}

/// Whether a touch changes the given lines.
fn touch_changes_lines(touch: &FileTouch, line_start: u32, line_end: u32) -> (changed: bool)
    ensures
        changed == touches_lines(*touch, line_start, line_end),
{
    if touch.ranges.len() == 0 {
        return true;
    }
    let mut k: usize = 0;
    while k < touch.ranges.len()
        invariant
            k <= touch.ranges.len(),
            forall|j: int| 0 <= j < k ==> !overlaps(line_start, line_end, #[trigger] touch.ranges@[j].start, touch.ranges@[j].end),
        decreases touch.ranges.len() - k,
    {
        if ranges_overlap(line_start, line_end, touch.ranges[k].start, touch.ranges[k].end) {
            return true;
        }
        k += 1;
    }
    false
}

/// How long a symbol's lines have been untouched, given its file's history (newest first).
pub fn age_secs_from_history(line_start: u32, line_end: u32, history: &Vec<FileTouch>, now: i64) -> (age: u64)
    ensures
        age == age_secs_spec(history@, line_start, line_end, now),
{
    let mut k: usize = 0;
    while k < history.len()
        invariant
            k <= history.len(),
            first_touch_from(history@, line_start, line_end, 0) == first_touch_from(history@, line_start, line_end, k as int),
        decreases history.len() - k,
    {
        if touch_changes_lines(&history[k], line_start, line_end) {
            let timestamp = history[k].timestamp;
            if timestamp >= now {
                return 0;
            }
            return match now.checked_sub(timestamp) {
                Some(elapsed) => elapsed as u64,
                None => i64::MAX as u64,
            };
        }
        k += 1;
    }
    0
}

/// The number of touches at or after `cutoff` among the first `upto`.
pub open spec fn recent_count(history: Seq<FileTouch>, cutoff: int, upto: int) -> nat
    decreases upto,
{
    if upto <= 0 {
        0
    } else {
        recent_count(history, cutoff, upto - 1) + if history[upto - 1].timestamp >= cutoff {
            1nat
        } else {
            0nat
        }
    }
}

/// How many commits touched the file in the 90 days before `now`.
pub fn commit_count_from_history(history: &Vec<FileTouch>, now: i64) -> (count: usize)
    requires
        now >= i64::MIN + CHURN_WINDOW_SECS,
    ensures
        count == recent_count(history@, now - CHURN_WINDOW_SECS, history.len() as int),
{
    let cutoff = now - CHURN_WINDOW_SECS;
    let mut count: usize = 0;
    let mut k: usize = 0;
    while k < history.len()
        invariant
            k <= history.len(),
            cutoff == now - CHURN_WINDOW_SECS,
            count == recent_count(history@, cutoff as int, k as int),
            count <= k,
        decreases history.len() - k,
    {
        if history[k].timestamp >= cutoff {
            count += 1;
        }
        k += 1;
    }
    count
}

/// The path git knows a file by: relative to the work tree, else to the scan root, else as is.
pub open spec fn git_relative_text(file: Seq<char>, workdir: Seq<char>, root: Seq<char>) -> Seq<char> {
    if relative_components(file, workdir) is Some {
        relative_text(file, workdir)
    } else {
        relative_text(file, root)
    }
}

/// The path git knows a file by.
pub fn git_path(file: &str, workdir: &str, root: &str) -> (path: String)
    ensures
        path@ == git_relative_text(file@, workdir@, root@),
{
    match crate::paths::strip_root(file, workdir) {
        Some(_) => relative_string(file, workdir),
        None => relative_string(file, root),
    }
}

/// The key under which a file's recent commit count is cached: its git path and the head commit.
pub fn file_cache_key(file: &str, workdir: &str, root: &str, head_sha: &str) -> (key: String)
    ensures
        key@ == git_relative_text(file@, workdir@, root@) + ":"@ + head_sha@,
{
    let relative = git_path(file, workdir, root);
    let with_colon = relative.concat(":");
    with_colon.concat(head_sha)
}

} // verus!
