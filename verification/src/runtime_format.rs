//! The report on what a program wrote to standard error when it ran.

use vstd::prelude::*;
use crate::text::{
    chars_of, contains, has_match, lines_of, split_lines, starts_with, string_of, trim, trimmed,
    views,
};

verus! {

/// One item of the report on a failed run, in the order in which it is shown.
#[derive(Debug, PartialEq, Eq)]
pub enum RuntimeItem {
    /// The title of the report on a stack overflow, with its advice.
    OverflowTitle,
    /// The heading of the stack frames.
    FramesHeading,
    /// A stack frame, numbered from one; `own` where it names a source file.
    Frame { number: usize, text: String, own: bool },
    /// The number of stack frames not shown.
    MoreFrames { count: usize },
    /// The closing advice of the report on a stack overflow.
    OverflowHint,
    /// The title of the report on an exception.
    ExceptionTitle,
    /// The first line, which names the exception.
    Exception { text: String },
    /// A line of the stack trace; `own` where it names a source file.
    Trace { text: String, own: bool },
    /// A `Caused by:` line.
    Cause { text: String },
    /// Another line that is not blank.
    Other { text: String },
    /// The closing advice of the report on an exception.
    ExceptionHint,
    /// Output in which no exception was recognised, as it is.
    Unrecognised { text: String },
}

/// A report item as plain values.
pub enum RuntimeView {
    OverflowTitle,
    FramesHeading,
    Frame { number: int, text: Seq<char>, own: bool },
    MoreFrames { count: int },
    OverflowHint,
    ExceptionTitle,
    Exception { text: Seq<char> },
    Trace { text: Seq<char>, own: bool },
    Cause { text: Seq<char> },
    Other { text: Seq<char> },
    ExceptionHint,
    Unrecognised { text: Seq<char> },
}

impl View for RuntimeItem {
    type V = RuntimeView;

    open spec fn view(&self) -> RuntimeView {
        match *self {
            RuntimeItem::OverflowTitle => RuntimeView::OverflowTitle,
            RuntimeItem::FramesHeading => RuntimeView::FramesHeading,
            RuntimeItem::Frame { number, text, own } => RuntimeView::Frame {
                number: number as int,
                text: text@,
                own,
            },
            RuntimeItem::MoreFrames { count } => RuntimeView::MoreFrames { count: count as int },
            RuntimeItem::OverflowHint => RuntimeView::OverflowHint,
            RuntimeItem::ExceptionTitle => RuntimeView::ExceptionTitle,
            RuntimeItem::Exception { text } => RuntimeView::Exception { text: text@ },
            RuntimeItem::Trace { text, own } => RuntimeView::Trace { text: text@, own },
            RuntimeItem::Cause { text } => RuntimeView::Cause { text: text@ },
            RuntimeItem::Other { text } => RuntimeView::Other { text: text@ },
            RuntimeItem::ExceptionHint => RuntimeView::ExceptionHint,
            RuntimeItem::Unrecognised { text } => RuntimeView::Unrecognised { text: text@ },
        }
    }
}

/// A list of report items as plain values.
pub open spec fn runtime_views(items: Seq<RuntimeItem>) -> Seq<RuntimeView> {
    Seq::new(items.len(), |i: int| items[i]@)
}

/// Some line holds `p`.
pub open spec fn some_line_has(lines: Seq<Seq<char>>, p: Seq<char>) -> bool {
    exists|i: int| 0 <= i < lines.len() && has_match(#[trigger] lines[i], p)
}

/// A line of a stack trace: trimmed, it begins with `at `.
pub open spec fn is_frame_line(line: Seq<char>) -> bool {
    "at "@.is_prefix_of(trimmed(line))
}

/// The number of stack-trace lines among the first `k`.
pub open spec fn frames_upto(lines: Seq<Seq<char>>, k: int) -> int
    decreases k,
{
    if k <= 0 {
        0
    } else if is_frame_line(lines[k - 1]) {
        frames_upto(lines, k - 1) + 1
    } else {
        frames_upto(lines, k - 1)
    }
}

/// The first ten stack frames among the first `k` lines, numbered.
pub open spec fn frame_items_upto(lines: Seq<Seq<char>>, k: int) -> Seq<RuntimeView>
    decreases k,
{
    if k <= 0 {
        Seq::empty()
    } else {
        let before = frame_items_upto(lines, k - 1);
        let t = trimmed(lines[k - 1]);
        if is_frame_line(lines[k - 1]) && frames_upto(lines, k - 1) < 10 {
            before.push(
                RuntimeView::Frame {
                    number: frames_upto(lines, k - 1) + 1,
                    text: t,
                    own: has_match(t, ".java:"@),
                },
            )
        } else {
            before
        }
    }
}

/// The report on a stack overflow: the first ten frames of the stack
/// trace and the number of those that follow.
pub open spec fn overflow_report(lines: Seq<Seq<char>>) -> Seq<RuntimeView> {
    let n = lines.len() as int;
    let total = frames_upto(lines, n);
    seq![RuntimeView::OverflowTitle] + (if total > 0 {
        seq![RuntimeView::FramesHeading] + frame_items_upto(lines, n) + (if total > 10 {
            seq![RuntimeView::MoreFrames { count: total - 10 }]
        } else {
            Seq::empty()
        })
    } else {
        Seq::empty()
    }) + seq![RuntimeView::OverflowHint]
}

/// What line `i` gives in the report on an exception.
pub open spec fn exception_item(lines: Seq<Seq<char>>, i: int) -> Seq<RuntimeView> {
    let t = trimmed(lines[i]);
    if has_match(t, "Exception"@) && i == 0 {
        seq![RuntimeView::Exception { text: t }]
    } else if "at "@.is_prefix_of(t) {
        seq![RuntimeView::Trace { text: t, own: has_match(t, ".java:"@) }]
    } else if "Caused by:"@.is_prefix_of(t) {
        seq![RuntimeView::Cause { text: t }]
    } else if t.len() > 0 {
        seq![RuntimeView::Other { text: t }]
    } else {
        Seq::empty()
    }
}

/// What the first `k` lines give in the report on an exception.
pub open spec fn exception_items_upto(lines: Seq<Seq<char>>, k: int) -> Seq<RuntimeView>
    decreases k,
{
    if k <= 0 {
        Seq::empty()
    } else {
        exception_items_upto(lines, k - 1) + exception_item(lines, k - 1)
    }
}

/// The report on an exception.
pub open spec fn exception_report(lines: Seq<Seq<char>>) -> Seq<RuntimeView> {
    seq![RuntimeView::ExceptionTitle] + exception_items_upto(lines, lines.len() as int)
        + seq![RuntimeView::ExceptionHint]
}

/// The report on what a run wrote to standard error: on a stack overflow
/// where a line names one, else on an exception where a line names one,
/// else the text as it is.
pub open spec fn runtime_report(text: Seq<char>) -> Seq<RuntimeView> {
    let lines = lines_of(text);
    if some_line_has(lines, "StackOverflowError"@) {
        overflow_report(lines)
    } else if some_line_has(lines, "Exception"@) {
        exception_report(lines)
    } else {
        seq![RuntimeView::Unrecognised { text }]
    }
}

/// Whether some line holds `p`.
fn any_line_has(lines: &Vec<Vec<char>>, p: &Vec<char>) -> (r: bool)
    ensures
        r == some_line_has(views(lines@), p@),
{
    let mut i: usize = 0;
    while i < lines.len()
        invariant
            i <= lines.len(),
            forall|j: int| 0 <= j < i ==> !has_match(#[trigger] views(lines@)[j], p@),
        decreases lines.len() - i,
    {
        if contains(&lines[i], p) {
            assert(has_match(views(lines@)[i as int], p@));
            return true;
        }
        i += 1;
    }
    false
}

/// The report on a stack overflow.
fn overflow_items(lines: &Vec<Vec<char>>) -> (r: Vec<RuntimeItem>)
    ensures
        runtime_views(r@) == overflow_report(views(lines@)),
{
    let at = chars_of("at ");
    let source = chars_of(".java:");
    let ghost all = views(lines@);
    let mut frames: Vec<RuntimeItem> = Vec::new();
    let mut total: usize = 0;
    let mut i: usize = 0;
    assert(runtime_views(frames@) =~= frame_items_upto(all, 0));
    while i < lines.len()
        invariant
            i <= lines.len(),
            total <= i,
            all == views(lines@),
            at@ == "at "@,
            source@ == ".java:"@,
            total == frames_upto(all, i as int),
            runtime_views(frames@) == frame_items_upto(all, i as int),
        decreases lines.len() - i,
    {
        let t = trim(&lines[i]);
        assert(t@ == trimmed(all[i as int]));
        if starts_with(&t, &at) {
            if total < 10 {
                let ghost before = runtime_views(frames@);
                let item = RuntimeItem::Frame {
                    number: total + 1,
                    own: contains(&t, &source),
                    text: string_of(&t),
                };
                frames.push(item);
                assert(runtime_views(frames@) =~= before.push(item@));
            }
            total = total + 1;
        }
        i += 1;
    }
    let mut r: Vec<RuntimeItem> = Vec::new();
    r.push(RuntimeItem::OverflowTitle);
    let ghost title = seq![RuntimeView::OverflowTitle];
    assert(runtime_views(r@) =~= title);
    if total > 0 {
        r.push(RuntimeItem::FramesHeading);
        let ghost shown = runtime_views(frames@);
        r.append(&mut frames);
        assert(runtime_views(r@) =~= title + (seq![RuntimeView::FramesHeading] + shown));
        if total > 10 {
            r.push(RuntimeItem::MoreFrames { count: total - 10 });
            assert(runtime_views(r@) =~= title + (seq![RuntimeView::FramesHeading] + shown
                + seq![RuntimeView::MoreFrames { count: total - 10 }]));
        } else {
            assert(runtime_views(r@) =~= title + (seq![RuntimeView::FramesHeading] + shown
                + Seq::<RuntimeView>::empty()));
        }
    } else {
        assert(runtime_views(r@) =~= title + Seq::<RuntimeView>::empty());
    }
    let ghost before = runtime_views(r@);
    r.push(RuntimeItem::OverflowHint);
    assert(runtime_views(r@) =~= before + seq![RuntimeView::OverflowHint]);
    r
}

/// The report on an exception.
fn exception_items(lines: &Vec<Vec<char>>) -> (r: Vec<RuntimeItem>)
    ensures
        runtime_views(r@) == exception_report(views(lines@)),
{
    let at = chars_of("at ");
    let source = chars_of(".java:");
    let exception = chars_of("Exception");
    let cause = chars_of("Caused by:");
    let ghost all = views(lines@);
    let mut r: Vec<RuntimeItem> = Vec::new();
    r.push(RuntimeItem::ExceptionTitle);
    let ghost title = seq![RuntimeView::ExceptionTitle];
    assert(runtime_views(r@) =~= title + exception_items_upto(all, 0));
    let mut i: usize = 0;
    while i < lines.len()
        invariant
            i <= lines.len(),
            all == views(lines@),
            at@ == "at "@,
            source@ == ".java:"@,
            exception@ == "Exception"@,
            cause@ == "Caused by:"@,
            runtime_views(r@) == title + exception_items_upto(all, i as int),
        decreases lines.len() - i,
    {
        let t = trim(&lines[i]);
        assert(t@ == trimmed(all[i as int]));
        let ghost before = runtime_views(r@);
        let ghost sofar = exception_items_upto(all, i as int);
        if contains(&t, &exception) && i == 0 {
            let item = RuntimeItem::Exception { text: string_of(&t) };
            r.push(item);
            assert(runtime_views(r@) =~= before.push(item@));
            assert(title + (sofar + seq![item@]) =~= (title + sofar).push(item@));
        } else if starts_with(&t, &at) {
            let item = RuntimeItem::Trace { own: contains(&t, &source), text: string_of(&t) };
            r.push(item);
            assert(runtime_views(r@) =~= before.push(item@));
            assert(title + (sofar + seq![item@]) =~= (title + sofar).push(item@));
        } else if starts_with(&t, &cause) {
            let item = RuntimeItem::Cause { text: string_of(&t) };
            r.push(item);
            assert(runtime_views(r@) =~= before.push(item@));
            assert(title + (sofar + seq![item@]) =~= (title + sofar).push(item@));
        } else if t.len() > 0 {
            let item = RuntimeItem::Other { text: string_of(&t) };
            r.push(item);
            assert(runtime_views(r@) =~= before.push(item@));
            assert(title + (sofar + seq![item@]) =~= (title + sofar).push(item@));
        } else {
            assert(title + (sofar + Seq::<RuntimeView>::empty()) =~= title + sofar);
        }
        i += 1;
    }
    let ghost before = runtime_views(r@);
    r.push(RuntimeItem::ExceptionHint);
    assert(runtime_views(r@) =~= before + seq![RuntimeView::ExceptionHint]);
    r
}

/// Reads what a run wrote to standard error into a report.
pub fn format_runtime_errors(error_text: &str) -> (r: Vec<RuntimeItem>)
    ensures
        runtime_views(r@) == runtime_report(error_text@),
{
    let text = chars_of(error_text);
    let lines = split_lines(&text);
    let overflow = chars_of("StackOverflowError");
    let exception = chars_of("Exception");
    if any_line_has(&lines, &overflow) {
        overflow_items(&lines)
    } else if any_line_has(&lines, &exception) {
        exception_items(&lines)
    } else {
        let mut r: Vec<RuntimeItem> = Vec::new();
        r.push(RuntimeItem::Unrecognised { text: error_text.to_owned() });
        assert(runtime_views(r@) =~= seq![RuntimeView::Unrecognised { text: error_text@ }]);
        r
    }
}

} // verus!
