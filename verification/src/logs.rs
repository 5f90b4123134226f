//! The log: its last lines, the files that keep it, and the report of a start that
//! failed.
use vstd::prelude::*;

use crate::singbox::{AppState, AppView};
use crate::text::{
    decimal, join, joined, joined_by, law_decimal_reads_back, lemma_decimal_value, number_in,
    number_text, same_text, texts, trim_end, trimmed_end,
};

verus! {

/// How many lines of the log are kept at hand.
pub const MAX_LINES: usize = 500;

/// How many lines of sing-box's errors are kept at hand.
pub const MAX_ERROR_LINES: usize = 20;

/// How many lines of sing-box's errors a report shows.
pub const REPORTED_LINES: usize = 5;

/// The size in bytes above which a log file is put away.
pub const MAX_LOG_SIZE: u64 = 5_242_880;

// ---- Lines ----

/// The last of some lines.
pub open spec fn last_lines<T>(lines: Seq<T>, max: int) -> Seq<T> {
    if lines.len() > max {
        lines.skip(lines.len() - max)
    } else {
        lines
    }
}

/// The state with a line added to the log.
pub open spec fn logged(s: AppView, line: Seq<char>) -> AppView {
    AppView {
        logs: last_lines(s.logs.push(line), MAX_LINES as int),
        log_seq: ((s.log_seq + 1) % 0x1_0000_0000_0000_0000) as u64,
        ..s
    }
}

/// The state with lines added to the log, one after another.
pub open spec fn all_logged(s: AppView, lines: Seq<Seq<char>>) -> AppView
    decreases lines.len(),
{
    if lines.len() == 0 {
        s
    } else {
        logged(all_logged(s, lines.drop_last()), lines.last())
    }
}

/// The last lines of sing-box's errors, with one added.
pub open spec fn error_noted(errors: Seq<Seq<char>>, line: Seq<char>) -> Seq<Seq<char>> {
    let all = errors.push(line);
    if all.len() > MAX_ERROR_LINES {
        all.skip(1)
    } else {
        all
    }
}

/// Keeps the last of some lines.
fn keep_last(lines: &mut Vec<String>, max: usize)
    ensures
        texts(final(lines)@) == last_lines(texts(old(lines)@), max as int),
{
    let ghost before = lines@;
    let ghost mut dropped: int = 0;
    assert(before.skip(0) =~= before);
    while lines.len() > max
        invariant
            0 <= dropped <= before.len(),
            lines@ == before.skip(dropped),
            dropped > 0 ==> lines.len() >= max,
        decreases lines.len(),
    {
        let _ = lines.remove(0);
        proof {
            dropped = dropped + 1;
            assert(lines@ =~= before.skip(dropped));
        }
    }
    assert(texts(lines@) =~= last_lines(texts(before), max as int));
}

/// Adds a line to the last lines of sing-box's errors.
pub fn note_error(errors: &mut Vec<String>, line: &str)
    requires
        old(errors).len() < usize::MAX,
    ensures
        texts(final(errors)@) == error_noted(texts(old(errors)@), line@),
{
    let ghost before = errors@;
    errors.push(line.to_owned());
    if errors.len() > MAX_ERROR_LINES {
        let _ = errors.remove(0);
    }
    assert(texts(errors@) =~= error_noted(texts(before), line@));
}

impl AppState {
    /// Adds a line to the log.
    pub fn push_log(&mut self, msg: &str)
        ensures
            final(self)@ == logged(old(self)@, msg@),
    {
        let ghost before = self.logs@;
        self.logs.push(msg.to_owned());
        assert(texts(self.logs@) =~= texts(before).push(msg@));
        keep_last(&mut self.logs, MAX_LINES);
        self.log_seq = self.log_seq.wrapping_add(1);
    }

    /// Adds lines to the log.
    pub fn push_logs(&mut self, lines: &Vec<String>)
        ensures
            final(self)@ == all_logged(old(self)@, texts(lines@)),
    {
        let ghost all = texts(lines@);
        let mut i: usize = 0;
        while i < lines.len()
            invariant
                i <= lines.len(),
                all == texts(lines@),
                self@ == all_logged(old(self)@, all.take(i as int)),
            decreases lines.len() - i,
        {
            assert(all.take(i + 1).drop_last() =~= all.take(i as int));
            self.push_log(lines[i].as_str());
            i = i + 1;
        }
        assert(all.take(i as int) =~= all);
    }

    /// Takes in a line that sing-box wrote: one that is not blank is added to the
    /// log and handed back for the log file.
    pub fn take_line(&mut self, line: &str) -> (r: Option<String>)
        ensures
            match r {
                Some(t) => t@ == trimmed_end(line@) && t@.len() > 0 && final(self)@ == logged(
                    old(self)@,
                    t@,
                ),
                None => trimmed_end(line@).len() == 0 && final(self)@ == old(self)@,
            },
    {
        let text = trim_end(line);
        proof {
            reveal_strlit("");
        }
        if same_text(text.as_str(), "") {
            return None;
        }
        assert(text@.len() > 0) by {
            if text@.len() == 0 {
                assert(text@ =~= ""@);
            }
        }
        self.push_log(text.as_str());
        Some(text)
    }
}

// ---- A start that failed ----

/// The report of a start that failed: what to log, and what to show.
#[derive(Debug, PartialEq, Eq)]
pub struct StartFailure {
    pub lines: Vec<String>,
    pub message: String,
}

/// The last errors of sing-box as a report shows them.
pub open spec fn shown_errors(errors: Seq<Seq<char>>) -> Seq<Seq<char>> {
    last_lines(errors, REPORTED_LINES as int).map_values(|l: Seq<char>| "  ERR> "@ + l)
}

/// The message of a start that failed.
pub open spec fn failure_message(errors: Seq<Seq<char>>) -> Seq<char> {
    "sing-box 启动后立即退出，可能配置有误或 sing-box.exe 不兼容。\n\n"@ + (if errors.len() == 0 {
        "未捕获到 stderr，请检查 data/sing-box.log 文件。"@
    } else {
        joined_by(shown_errors(errors), "\n"@)
    })
}

/// Reports a start that failed, given the last errors of sing-box.
pub fn report_failure(errors: &Vec<String>) -> (r: StartFailure)
    ensures
        texts(r.lines@) == seq!["⚠ sing-box 启动后立即退出，可能配置有误"@] + shown_errors(
            texts(errors@),
        ),
        r.message@ == failure_message(texts(errors@)),
{
    let ghost all = texts(errors@);
    let first: usize = if errors.len() > REPORTED_LINES {
        errors.len() - REPORTED_LINES
    } else {
        0
    };
    let mut tail: Vec<String> = Vec::new();
    let mut lines: Vec<String> = Vec::new();
    lines.push("⚠ sing-box 启动后立即退出，可能配置有误".to_owned());
    let ghost shown = shown_errors(all);
    let mut i: usize = first;
    while i < errors.len()
        invariant
            first <= i <= errors.len(),
            first == (if all.len() > REPORTED_LINES {
                all.len() - REPORTED_LINES
            } else {
                0
            }),
            all == texts(errors@),
            shown == shown_errors(all),
            tail.len() == i - first,
            lines.len() == i - first + 1,
            lines[0]@ == "⚠ sing-box 启动后立即退出，可能配置有误"@,
            forall|j: int| 0 <= j < tail.len() ==> (#[trigger] tail[j])@ == shown[j],
            forall|j: int| 0 < j < lines.len() ==> (#[trigger] lines[j])@ == shown[j - 1],
        decreases errors.len() - i,
    {
        let line = joined("  ERR> ", errors[i].as_str());
        assert(shown[i - first] == line@);
        tail.push(line.clone());
        lines.push(line);
        i = i + 1;
    }
    assert(texts(tail@) =~= shown);
    assert(texts(lines@) =~= seq!["⚠ sing-box 启动后立即退出，可能配置有误"@] + shown);
    let detail = if tail.len() == 0 {
        "未捕获到 stderr，请检查 data/sing-box.log 文件。".to_owned()
    } else {
        join(&tail, "\n")
    };
    StartFailure {
        lines,
        message: joined(
            "sing-box 启动后立即退出，可能配置有误或 sing-box.exe 不兼容。\n\n",
            detail.as_str(),
        ),
    }
}

// ---- Log files ----

/// A step of putting a log file away. Files are numbered: 0 is the log itself, the
/// others are backups, the oldest last.
#[derive(Debug, Clone, Copy, PartialEq, Eq)]
pub enum RotationStep {
    Remove(u64),
    Rename(u64, u64),
}

/// The steps of putting a log file of some size away: none unless it is too large.
pub open spec fn rotation(size: Option<u64>) -> Seq<RotationStep> {
    if size is Some && size->0 > MAX_LOG_SIZE {
        seq![
            RotationStep::Remove(3),
            RotationStep::Rename(2, 3),
            RotationStep::Rename(1, 2),
            RotationStep::Rename(0, 1),
        ]
    } else {
        Seq::empty()
    }
}

/// What the extension of a log file's name is replaced by.
pub open spec fn extension_of(n: u64) -> Seq<char> {
    if n == 0 {
        "log"@
    } else {
        "log."@ + decimal(n as nat)
    }
}

/// Plans how a log file of some size, if there is one, is put away.
pub fn plan_rotation(size: Option<u64>) -> (r: Vec<RotationStep>)
    ensures
        r@ == rotation(size),
{
    let mut steps: Vec<RotationStep> = Vec::new();
    match size {
        Some(n) => if n > MAX_LOG_SIZE {
            steps.push(RotationStep::Remove(3));
            let mut i: u64 = 3;
            while i > 0
                invariant
                    i <= 3,
                    size is Some && size->0 > MAX_LOG_SIZE,
                    steps@ == rotation(size).take(4 - i),
                decreases i,
            {
                steps.push(RotationStep::Rename(i - 1, i));
                assert(steps@ =~= rotation(size).take(5 - i));
                i = i - 1;
            }
            assert(rotation(size).take(4) =~= rotation(size));
        },
        None => {},
    }
    steps
}

/// What the extension of a log file's name is replaced by.
pub fn log_extension(n: u64) -> (r: String)
    ensures
        r@ == extension_of(n),
{
    if n == 0 {
        "log".to_owned()
    } else {
        joined("log.", number_text(n).as_str())
    }
}

// ---- Laws ----

/// The log never holds more lines than are kept, and the newest is its last.
pub proof fn law_log_bounded(s: AppView, line: Seq<char>)
    ensures
        logged(s, line).logs.len() <= MAX_LINES,
        logged(s, line).logs.last() == line,
        logged(s, line).log_seq != s.log_seq,
{
}

/// Files after a step. A file that is not there is neither removed nor renamed.
pub open spec fn stepped<T>(files: Map<u64, T>, step: RotationStep) -> Map<u64, T> {
    match step {
        RotationStep::Remove(n) => files.remove(n),
        RotationStep::Rename(from, to) => if files.dom().contains(from) {
            files.remove(from).insert(to, files[from])
        } else {
            files
        },
    }
}

/// Files after some steps.
pub open spec fn rotated<T>(files: Map<u64, T>, steps: Seq<RotationStep>) -> Map<u64, T>
    decreases steps.len(),
{
    if steps.len() == 0 {
        files
    } else {
        rotated(stepped(files, steps[0]), steps.skip(1))
    }
}

/// Putting a large log away makes each file the next backup: the log itself is
/// gone, and of the backups only the oldest is lost.
pub proof fn law_rotation_shifts<T>(files: Map<u64, T>, size: u64, n: u64)
    requires
        size > MAX_LOG_SIZE,
    ensures
        ({
            let after = rotated(files, rotation(Some(size)));
            &&& !after.dom().contains(0)
            &&& 1 <= n <= 3 ==> (after.dom().contains(n) == files.dom().contains((n - 1) as u64))
            &&& 1 <= n <= 3 && after.dom().contains(n) ==> after[n] == files[(n - 1) as u64]
            &&& n > 3 ==> (after.dom().contains(n) == files.dom().contains(n))
        }),
{
    let steps = rotation(Some(size));
    reveal_with_fuel(rotated, 5);
    assert(steps.skip(1)[0] == steps[1]);
    assert(steps.skip(1).skip(1)[0] == steps[2]);
    assert(steps.skip(1).skip(1).skip(1)[0] == steps[3]);
    assert(steps.skip(1).skip(1).skip(1).skip(1).len() == 0);
}

/// The log holds the last five hundred lines that were logged, in their order, and
/// counts them all; logging changes nothing else.
pub proof fn law_log_keeps_the_last_lines(s: AppView, lines: Seq<Seq<char>>)
    requires
        s.logs.len() <= 500,
    ensures
        ({
            let a = all_logged(s, lines);
            let all = s.logs + lines;
            &&& a.logs.len() == (if all.len() > 500 {
                500
            } else {
                all.len()
            })
            &&& forall|i: int|
                0 <= i < a.logs.len() ==> #[trigger] a.logs[i] == all[all.len() - a.logs.len() + i]
            &&& a.log_seq == (s.log_seq + lines.len()) % 0x1_0000_0000_0000_0000
            &&& AppView { logs: s.logs, log_seq: s.log_seq, ..a } == s
        }),
    decreases lines.len(),
{
    if lines.len() > 0 {
        let shorter = lines.drop_last();
        law_log_keeps_the_last_lines(s, shorter);
        let b = all_logged(s, shorter);
        let before = s.logs + shorter;
        let all = s.logs + lines;
        let a = all_logged(s, lines);
        assert(all =~= before.push(lines.last()));
        assert forall|i: int| 0 <= i < a.logs.len() implies #[trigger] a.logs[i] == all[all.len()
            - a.logs.len() + i] by {
            let drop = b.logs.len() + 1 - a.logs.len();
            if i < a.logs.len() - 1 {
                assert(a.logs[i] == b.logs[i + drop]);
            }
        }
    } else {
        assert(s.logs + lines =~= s.logs);
    }
}

/// Of sing-box's errors the last twenty are kept, in their order.
pub proof fn law_last_errors(errors: Seq<Seq<char>>, line: Seq<char>)
    requires
        errors.len() <= 20,
    ensures
        ({
            let all = errors.push(line);
            let kept = error_noted(errors, line);
            &&& kept.len() == (if all.len() > 20 {
                20
            } else {
                all.len()
            })
            &&& forall|i: int|
                0 <= i < kept.len() ==> #[trigger] kept[i] == all[all.len() - kept.len() + i]
        }),
{
}

/// A report shows the last five errors, in their order, each after a mark.
pub proof fn law_reported_errors(errors: Seq<Seq<char>>)
    ensures
        ({
            let shown = shown_errors(errors);
            &&& shown.len() == (if errors.len() > 5 {
                5
            } else {
                errors.len()
            })
            &&& forall|i: int|
                0 <= i < shown.len() ==> #[trigger] shown[i] == "  ERR> "@ + errors[errors.len()
                    - shown.len() + i]
        }),
{
}

/// A log file of at most five megabytes, or none, is left alone.
pub proof fn law_small_logs_stay<T>(files: Map<u64, T>, size: u64)
    ensures
        size <= 5_242_880 ==> rotated(files, rotation(Some(size))) == files,
        size > 5_242_880 ==> !rotated(files, rotation(Some(size))).dom().contains(0),
        rotated(files, rotation(None)) == files,
{
    if size > 5_242_880 {
        law_rotation_shifts(files, size, 0);
    }
}

/// The log itself has the extension `log`, and each backup that with its number: so no
/// two files have the same name.
pub proof fn law_extensions(a: u64, b: u64)
    ensures
        extension_of(0) == "log"@,
        a > 0 ==> extension_of(a).take(4) == "log."@ && number_in(extension_of(a).skip(4)) == Some(
            a as nat,
        ),
        extension_of(a) == extension_of(b) <==> a == b,
{
    reveal_strlit("log");
    reveal_strlit("log.");
    assert("log"@.len() == 3 && "log."@.len() == 4);
    lemma_decimal_value(a as nat);
    lemma_decimal_value(b as nat);
    law_decimal_reads_back(a as nat);
    law_decimal_reads_back(b as nat);
    if a > 0 {
        assert(extension_of(a).take(4) =~= "log."@);
        assert(extension_of(a).skip(4) =~= decimal(a as nat));
    }
    if b > 0 {
        assert(extension_of(b).skip(4) =~= decimal(b as nat));
    }
}

/// The message of a start that failed shows the last five errors, each on a line of its
/// own and in their order, and where there is none it says where to look.
pub proof fn law_failures_told(errors: Seq<Seq<char>>, error: Seq<char>)
    ensures
        failure_message(Seq::empty()) == failure_intro() + "未捕获到 stderr，请检查 data/sing-box.log 文件。"@,
        failure_message(seq![error]) == failure_intro() + "  ERR> "@ + error,
        0 < errors.len() < 5 ==> failure_message(errors.push(error)) == failure_message(errors)
            + "\n"@ + "  ERR> "@ + error,
        errors.len() >= 5 ==> failure_message(errors) == failure_message(
            errors.skip(errors.len() - 5),
        ),
{
    let one = seq![error];
    assert(shown_errors(one) =~= seq!["  ERR> "@ + error]);
    assert(failure_message(one) =~= failure_intro() + "  ERR> "@ + error);
    if 0 < errors.len() < 5 {
        let more = errors.push(error);
        assert(shown_errors(more).drop_last() =~= shown_errors(errors));
        assert(shown_errors(more).last() == "  ERR> "@ + error);
        assert(failure_message(more) =~= failure_message(errors) + "\n"@ + "  ERR> "@ + error);
    }
    if errors.len() >= 5 {
        assert(shown_errors(errors) =~= shown_errors(errors.skip(errors.len() - 5)));
    }
}

/// What the message of a start that failed begins with.
pub open spec fn failure_intro() -> Seq<char> {
    "sing-box 启动后立即退出，可能配置有误或 sing-box.exe 不兼容。\n\n"@
}

} // verus!
