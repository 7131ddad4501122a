//! The diagnostic enricher: reads what the compiler printed into a report
//! of structured items, with suggestions for unknown methods.

use vstd::prelude::*;
use crate::docs::DocsIndex;
use crate::suggest::{get_method_suggestions_with_signatures, pair_views, suggested_signatures};
use crate::text::{
    append_chars, chars_of, contains, ends_with, find, first_match, first_word, first_word_of,
    has_match, is_space, is_whitespace, last_position, leading_spaces, lemma_leading_spaces,
    lines_of, rfind, slice_of, split_lines, starts_with, string_of, trim, trim_start, trimmed,
    trimmed_start, views,
};

verus! {

/// One item of the report on a failed compilation, in the order in which
/// it is shown.
#[derive(Debug, PartialEq, Eq)]
pub enum ReportItem {
    /// The report's title.
    Title,
    /// The heading of the error with this number, counted from one.
    ErrorHeading { number: usize },
    /// The path of the file the error is in.
    File { path: String },
    /// The line number of the error, as the compiler wrote it.
    Line { number: String },
    /// The compiler's message.
    Message { text: String },
    /// The offending source line, trimmed.
    Code { text: String },
    /// The caret line, shifted to fit the trimmed source line.
    Caret { text: String },
    /// A `symbol:` or `location:` line.
    Detail { text: String },
    /// Another line of context.
    Note { text: String },
    /// The compiler's count of errors.
    Summary { text: String },
    /// No error was recognised: the output follows as it is.
    Unrecognised,
    /// A line of output in which no error was recognised.
    Raw { text: String },
    /// The heading of the suggestions.
    SuggestionsHeading,
    /// The method that was not found, and the class it was looked for in.
    SuggestionIntro { class: String, method: String },
    /// The signature of a method that may have been meant.
    Suggestion { signature: String },
    /// The number of signatures not shown.
    MoreOverloads { count: usize },
    /// The end of the suggestions for one method.
    SuggestionEnd,
    /// The closing advice.
    Hint,
}

/// A report item as plain values.
pub enum ItemView {
    Title,
    ErrorHeading { number: int },
    File { path: Seq<char> },
    Line { number: Seq<char> },
    Message { text: Seq<char> },
    Code { text: Seq<char> },
    Caret { text: Seq<char> },
    Detail { text: Seq<char> },
    Note { text: Seq<char> },
    Summary { text: Seq<char> },
    Unrecognised,
    Raw { text: Seq<char> },
    SuggestionsHeading,
    SuggestionIntro { class: Seq<char>, method: Seq<char> },
    Suggestion { signature: Seq<char> },
    MoreOverloads { count: int },
    SuggestionEnd,
    Hint,
}

impl View for ReportItem {
    type V = ItemView;

    open spec fn view(&self) -> ItemView {
        match *self {
            ReportItem::Title => ItemView::Title,
            ReportItem::ErrorHeading { number } => ItemView::ErrorHeading { number: number as int },
            ReportItem::File { path } => ItemView::File { path: path@ },
            ReportItem::Line { number } => ItemView::Line { number: number@ },
            ReportItem::Message { text } => ItemView::Message { text: text@ },
            ReportItem::Code { text } => ItemView::Code { text: text@ },
            ReportItem::Caret { text } => ItemView::Caret { text: text@ },
            ReportItem::Detail { text } => ItemView::Detail { text: text@ },
            ReportItem::Note { text } => ItemView::Note { text: text@ },
            ReportItem::Summary { text } => ItemView::Summary { text: text@ },
            ReportItem::Unrecognised => ItemView::Unrecognised,
            ReportItem::Raw { text } => ItemView::Raw { text: text@ },
            ReportItem::SuggestionsHeading => ItemView::SuggestionsHeading,
            ReportItem::SuggestionIntro { class, method } => ItemView::SuggestionIntro {
                class: class@,
                method: method@,
            },
            ReportItem::Suggestion { signature } => ItemView::Suggestion { signature: signature@ },
            ReportItem::MoreOverloads { count } => ItemView::MoreOverloads { count: count as int },
            ReportItem::SuggestionEnd => ItemView::SuggestionEnd,
            ReportItem::Hint => ItemView::Hint,
        }
    }
}

/// A list of report items as plain values.
pub open spec fn item_views(items: Seq<ReportItem>) -> Seq<ItemView> {
    Seq::new(items.len(), |i: int| items[i]@)
}

/// Moves the items of `src` to the end of `dst`.
fn extend_items(dst: &mut Vec<ReportItem>, src: Vec<ReportItem>)
    ensures
        item_views(final(dst)@) == item_views(old(dst)@) + item_views(src@),
{
    let mut src = src;
    let ghost moved = src@;
    dst.append(&mut src);
    assert(item_views(dst@) =~= item_views(old(dst)@) + item_views(moved));
}

/// What the compiler printed: its standard output followed by its
/// standard error.
pub fn combined_output(stdout: &str, stderr: &str) -> (r: String)
    ensures
        r@ == stdout@ + stderr@,
{
    let mut v = chars_of(stdout);
    crate::text::append_str(&mut v, stderr);
    string_of(&v)
}

/// A trimmed line that reports an error: it names a source file and
/// holds the error marker.
pub open spec fn is_error_line(t: Seq<char>) -> bool {
    has_match(t, ".java:"@) && has_match(t, ": error:"@)
}

/// A trimmed line that counts the errors: `1 error`, `3 errors`.
pub open spec fn is_summary_line(t: Seq<char>) -> bool {
    has_match(t, " error"@) && (" error"@.is_suffix_of(t) || " errors"@.is_suffix_of(t))
}

/// The file, line number and message of the error line `t`. The file and
/// the line number are parted at the last colon before the error marker;
/// without such a colon the line gives nothing.
pub open spec fn location_items(t: Seq<char>) -> Seq<ItemView> {
    match first_match(t, ": error:"@) {
        Some(pos) => {
            let file_and_line = t.take(pos);
            let message = trimmed(t.skip(pos + ": error:"@.len()));
            match last_position(file_and_line, ':') {
                Some(c) => seq![
                    ItemView::File { path: file_and_line.take(c) },
                    ItemView::Line { number: file_and_line.skip(c + 1) },
                    ItemView::Message { text: message },
                ],
                None => Seq::empty(),
            }
        },
        None => Seq::empty(),
    }
}

/// The number of bytes that `c` takes in UTF-8.
pub open spec fn utf8_width(c: char) -> int {
    let n = c as u32;
    if n < 0x80 {
        1
    } else if n < 0x800 {
        2
    } else if n < 0x10000 {
        3
    } else {
        4
    }
}

/// The number of bytes that `s` takes in UTF-8.
pub open spec fn utf8_len(s: Seq<char>) -> int
    decreases s.len(),
{
    if s.len() == 0 {
        0
    } else {
        utf8_len(s.drop_last()) + utf8_width(s.last())
    }
}

/// The number of bytes of white space at the front of `s`.
pub open spec fn indent_of(s: Seq<char>) -> int {
    utf8_len(s.take(leading_spaces(s) as int))
}

/// `n` spaces.
pub open spec fn spaces(n: int) -> Seq<char> {
    Seq::new(
        if n > 0 {
            n as nat
        } else {
            0
        },
        |i: int| ' ',
    )
}

/// The caret line under the source line `code`, if `lines[i + 2]` is
/// one: moved left by the indentation that the source line lost.
pub open spec fn caret_items(lines: Seq<Seq<char>>, i: int, code: Seq<char>) -> Seq<ItemView> {
    if i + 2 < lines.len() {
        let caret_line = lines[i + 2];
        let caret = trimmed_start(caret_line);
        if "^"@.is_prefix_of(caret) {
            seq![
                ItemView::Caret { text: spaces(indent_of(caret_line) - indent_of(code)) + caret },
            ]
        } else {
            Seq::empty()
        }
    } else {
        Seq::empty()
    }
}

/// The source line that follows the error line `lines[i]`, and its caret.
pub open spec fn code_items(lines: Seq<Seq<char>>, i: int) -> Seq<ItemView> {
    if i + 1 < lines.len() {
        let code = lines[i + 1];
        let t = trimmed(code);
        if t.len() > 0 && !"^"@.is_prefix_of(t) {
            seq![ItemView::Code { text: t }] + caret_items(lines, i, code)
        } else {
            Seq::empty()
        }
    } else {
        Seq::empty()
    }
}

/// A trimmed line that names a symbol or a location.
pub open spec fn is_detail_line(c: Seq<char>) -> bool {
    "symbol:"@.is_prefix_of(c) || "location:"@.is_prefix_of(c)
}

/// The context of the error line `lines[i]` from line `j` on: at most up
/// to the tenth line after the error, up to a blank line or the next line
/// that names a source file.
pub open spec fn context_items(lines: Seq<Seq<char>>, i: int, j: int) -> Seq<ItemView>
    decreases lines.len() - j,
{
    if j < 0 || j >= lines.len() || j >= i + 10 {
        Seq::empty()
    } else {
        let c = trimmed(lines[j]);
        if c.len() == 0 {
            Seq::empty()
        } else if is_detail_line(c) {
            seq![ItemView::Detail { text: c }] + context_items(lines, i, j + 1)
        } else if !has_match(c, ".java:"@) {
            seq![ItemView::Note { text: c }] + context_items(lines, i, j + 1)
        } else {
            Seq::empty()
        }
    }
}

/// The text before the first opening parenthesis of `s`.
pub open spec fn before_paren(s: Seq<char>) -> Seq<char> {
    match first_match(s, "("@) {
        Some(p) => s.take(p),
        None => s,
    }
}

/// The name of the method that the symbol line `c` says was not found;
/// empty where it names none.
pub open spec fn unknown_method(c: Seq<char>) -> Seq<char> {
    if "symbol:"@.is_prefix_of(c) {
        match first_match(c, "method "@) {
            Some(p) => trimmed(before_paren(trimmed(c.skip(p + "method "@.len())))),
            None => Seq::empty(),
        }
    } else {
        Seq::empty()
    }
}

/// The class that the location line `l` names: the word after `type `
/// or, without that, after `class `; empty where it names none.
pub open spec fn located_class(l: Seq<char>) -> Seq<char> {
    match first_match(l, "type "@) {
        Some(p) => first_word_of(l.skip(p + "type "@.len())),
        None => match first_match(l, "class "@) {
            Some(p) => first_word_of(l.skip(p + "class "@.len())),
            None => Seq::empty(),
        },
    }
}

/// The class named by the first location line among lines `k` up to
/// `j + 4`; empty where there is none.
pub open spec fn class_after(lines: Seq<Seq<char>>, j: int, k: int) -> Seq<char>
    decreases lines.len() - k,
{
    if k < 0 || k >= lines.len() || k >= j + 5 {
        Seq::empty()
    } else {
        let l = trimmed(lines[k]);
        if "location:"@.is_prefix_of(l) {
            located_class(l)
        } else {
            class_after(lines, j, k + 1)
        }
    }
}

/// The unknown methods in the context of the error line `lines[i]`, from
/// line `j` on, each with the class it was looked for in.
pub open spec fn context_requests(lines: Seq<Seq<char>>, i: int, j: int) -> Seq<
    (Seq<char>, Seq<char>),
>
    decreases lines.len() - j,
{
    if j < 0 || j >= lines.len() || j >= i + 10 {
        Seq::empty()
    } else {
        let c = trimmed(lines[j]);
        if c.len() == 0 {
            Seq::empty()
        } else if is_detail_line(c) {
            let method = unknown_method(c);
            let class = class_after(lines, j, j + 1);
            let here = if method.len() > 0 && class.len() > 0 {
                seq![(class, method)]
            } else {
                Seq::empty()
            };
            here + context_requests(lines, i, j + 1)
        } else if !has_match(c, ".java:"@) {
            context_requests(lines, i, j + 1)
        } else {
            Seq::empty()
        }
    }
}

/// The items for the lines from `i` on, `count` errors having come before.
pub open spec fn body_items(lines: Seq<Seq<char>>, i: int, count: int) -> Seq<ItemView>
    decreases lines.len() - i,
{
    if i < 0 || i >= lines.len() {
        Seq::empty()
    } else {
        let t = trimmed(lines[i]);
        if is_error_line(t) {
            seq![ItemView::ErrorHeading { number: count + 1 }] + location_items(t) + code_items(
                lines,
                i,
            ) + context_items(lines, i, i + 3) + body_items(lines, i + 1, count + 1)
        } else if is_summary_line(t) {
            seq![ItemView::Summary { text: t }] + body_items(lines, i + 1, count)
        } else {
            body_items(lines, i + 1, count)
        }
    }
}

/// The unknown methods of the lines from `i` on, with their classes.
pub open spec fn body_requests(lines: Seq<Seq<char>>, i: int) -> Seq<(Seq<char>, Seq<char>)>
    decreases lines.len() - i,
{
    if i < 0 || i >= lines.len() {
        Seq::empty()
    } else if is_error_line(trimmed(lines[i])) {
        context_requests(lines, i, i + 3) + body_requests(lines, i + 1)
    } else {
        body_requests(lines, i + 1)
    }
}

/// The number of error lines among the lines from `i` on.
pub open spec fn error_count(lines: Seq<Seq<char>>, i: int) -> int
    decreases lines.len() - i,
{
    if i < 0 || i >= lines.len() {
        0
    } else if is_error_line(trimmed(lines[i])) {
        1 + error_count(lines, i + 1)
    } else {
        error_count(lines, i + 1)
    }
}

/// Every line as it is.
pub open spec fn raw_items(lines: Seq<Seq<char>>) -> Seq<ItemView> {
    Seq::new(lines.len(), |i: int| ItemView::Raw { text: lines[i] })
}

/// The suggestions for one unknown method: who was looked for, the first
/// three of the signatures found, and the number of those left out.
pub open spec fn group_items(
    class: Seq<char>,
    method: Seq<char>,
    found: Seq<(Seq<char>, Seq<char>)>,
) -> Seq<ItemView> {
    let shown = if found.len() <= 3 {
        found
    } else {
        found.take(3)
    };
    seq![ItemView::SuggestionIntro { class, method }] + Seq::new(
        shown.len(),
        |k: int| ItemView::Suggestion { signature: found[k].1 },
    ) + (if found.len() > 3 {
        seq![ItemView::MoreOverloads { count: found.len() - 3 }]
    } else {
        Seq::empty()
    }) + seq![ItemView::SuggestionEnd]
}

/// No more than three signatures are suggested for one unknown method:
/// the first three of those found, in the order in which they were found.
pub proof fn lemma_at_most_three_suggestions(
    class: Seq<char>,
    method: Seq<char>,
    found: Seq<(Seq<char>, Seq<char>)>,
)
    ensures
        forall|k: int|
            0 <= k < group_items(class, method, found).len() && (#[trigger] group_items(
                class,
                method,
                found,
            )[k]) is Suggestion ==> 1 <= k <= 3 && k <= found.len() && group_items(
                class,
                method,
                found,
            )[k] == (ItemView::Suggestion { signature: found[k - 1].1 }),
{
    let items = group_items(class, method, found);
    let shown = if found.len() <= 3 {
        found
    } else {
        found.take(3)
    };
    let intro = seq![ItemView::SuggestionIntro { class, method }];
    let middle = Seq::new(shown.len(), |k: int| ItemView::Suggestion { signature: found[k].1 });
    let more = if found.len() > 3 {
        seq![ItemView::MoreOverloads { count: found.len() - 3 }]
    } else {
        Seq::empty()
    };
    let end = seq![ItemView::SuggestionEnd];
    assert(items == intro + middle + more + end);
    assert forall|k: int| 0 <= k < items.len() && (#[trigger] items[k]) is Suggestion implies 1
        <= k <= 3 && k <= found.len() && items[k] == (ItemView::Suggestion {
        signature: found[k - 1].1,
    }) by {
        if k == 0 {
            assert(items[k] == intro[0]);
        } else if k <= middle.len() {
            assert(items[k] == middle[k - 1]);
        } else if k <= middle.len() + more.len() {
            assert(items[k] == more[k - 1 - middle.len()]);
        } else {
            assert(items[k] == end[k - 1 - middle.len() - more.len()]);
        }
    }
}

/// What the index suggests for the method `method` of the class `class`.
pub open spec fn suggestions_for(docs: DocsIndex, class: Seq<char>, method: Seq<char>) -> Seq<
    (Seq<char>, Seq<char>),
> {
    if docs.classes@.contains_key(class) {
        suggested_signatures(docs.class_named(class).methods@, method)
    } else {
        Seq::empty()
    }
}

/// The suggestions for the first `k` requests; a request that the index
/// has nothing for gives nothing.
pub open spec fn groups_upto(docs: DocsIndex, requests: Seq<(Seq<char>, Seq<char>)>, k: int) -> Seq<
    ItemView,
>
    decreases k,
{
    if k <= 0 {
        Seq::empty()
    } else {
        let request = requests[k - 1];
        let found = suggestions_for(docs, request.0, request.1);
        groups_upto(docs, requests, k - 1) + (if found.len() > 0 {
            group_items(request.0, request.1, found)
        } else {
            Seq::empty()
        })
    }
}

/// The end of the report: where no error was recognised, a mark of that
/// and the output as it is; else the suggestions, under a heading where there are any, and
/// the closing advice.
pub open spec fn closing_items(docs: DocsIndex, lines: Seq<Seq<char>>) -> Seq<ItemView> {
    if error_count(lines, 0) == 0 {
        seq![ItemView::Unrecognised] + raw_items(lines)
    } else {
        let requests = body_requests(lines, 0);
        let groups = groups_upto(docs, requests, requests.len() as int);
        (if groups.len() > 0 {
            seq![ItemView::SuggestionsHeading] + groups
        } else {
            Seq::empty()
        }) + seq![ItemView::Hint]
    }
}

/// The report on what the compiler printed.
pub open spec fn compile_report(docs: DocsIndex, text: Seq<char>) -> Seq<ItemView> {
    let lines = lines_of(text);
    seq![ItemView::Title] + body_items(lines, 0, 0) + closing_items(docs, lines)
}

/// The file, line number and message of the error line `t`.
fn location_of(t: &Vec<char>) -> (r: Vec<ReportItem>)
    ensures
        item_views(r@) == location_items(t@),
{
    let marker = chars_of(": error:");
    let mut r: Vec<ReportItem> = Vec::new();
    match find(t, &marker) {
        Some(pos) => {
            let file_and_line = slice_of(t, 0, pos);
            assert(crate::text::occurs_at(t@, marker@, pos as int));
            let n = t.len();
            let rest = slice_of(t, pos + marker.len(), n);
            let message = trim(&rest);
            assert(file_and_line@ == t@.take(pos as int));
            assert(rest@ == t@.skip(pos + ": error:"@.len()));
            match rfind(&file_and_line, ':') {
                Some(c) => {
                    proof {
                        crate::text::lemma_last_position(file_and_line@, ':');
                    }
                    let path = slice_of(&file_and_line, 0, c);
                    let number = slice_of(&file_and_line, c + 1, file_and_line.len());
                    assert(path@ == file_and_line@.take(c as int));
                    assert(number@ == file_and_line@.skip(c + 1));
                    r.push(ReportItem::File { path: string_of(&path) });
                    r.push(ReportItem::Line { number: string_of(&number) });
                    r.push(ReportItem::Message { text: string_of(&message) });
                    assert(item_views(r@) =~= location_items(t@));
                },
                None => {
                    assert(item_views(r@) =~= location_items(t@));
                },
            }
        },
        None => {
            assert(item_views(r@) =~= location_items(t@));
        },
    }
    r
}

/// The number of bytes that `c` takes in UTF-8.
fn width(c: char) -> (r: u128)
    ensures
        r == utf8_width(c),
{
    let n: u32 = c as u32;
    if n < 0x80 {
        1
    } else if n < 0x800 {
        2
    } else if n < 0x10000 {
        3
    } else {
        4
    }
}

/// The number of bytes of white space at the front of `s`.
fn indent(s: &Vec<char>) -> (r: u128)
    ensures
        r == indent_of(s@),
{
    let mut total: u128 = 0;
    let mut a: usize = 0;
    assert(s@.take(0).len() == 0);
    while a < s.len() && is_whitespace(s[a])
        invariant
            a <= s.len(),
            forall|j: int| 0 <= j < a ==> is_space(#[trigger] s@[j]),
            total == utf8_len(s@.take(a as int)),
            total <= 4 * a,
        decreases s.len() - a,
    {
        assert(s@.take(a + 1).drop_last() == s@.take(a as int));
        assert(s@.take(a + 1).last() == s@[a as int]);
        total = total + width(s[a]);
        a += 1;
    }
    proof {
        lemma_leading_spaces(s@, a as int);
    }
    total
}

/// The caret line under the source line `code`, if there is one.
fn caret_of(lines: &Vec<Vec<char>>, i: usize, code: &Vec<char>) -> (r: Vec<ReportItem>)
    requires
        i < lines.len(),
    ensures
        item_views(r@) == caret_items(views(lines@), i as int, code@),
{
    let mut r: Vec<ReportItem> = Vec::new();
    if lines.len() - i > 2 {
        let caret_line = &lines[i + 2];
        assert(views(lines@)[i + 2] == caret_line@);
        let caret = trim_start(caret_line);
        let mark = chars_of("^");
        if starts_with(&caret, &mark) {
            let have = indent(caret_line);
            let lost = indent(code);
            let mut text: Vec<char> = Vec::new();
            let mut k: u128 = 0;
            if have > lost {
                let offset: u128 = have - lost;
                while k < offset
                    invariant
                        k <= offset,
                        text@ == spaces(k as int),
                    decreases offset - k,
                {
                    text.push(' ');
                    k += 1;
                    assert(text@ =~= spaces(k as int));
                }
            } else {
                assert(text@ =~= spaces(have - lost));
            }
            append_chars(&mut text, &caret);
            r.push(ReportItem::Caret { text: string_of(&text) });
            assert(item_views(r@) =~= caret_items(views(lines@), i as int, code@));
        } else {
            assert(item_views(r@) =~= caret_items(views(lines@), i as int, code@));
        }
    } else {
        assert(item_views(r@) =~= caret_items(views(lines@), i as int, code@));
    }
    r
}

/// The source line that follows the error line `lines[i]`, and its caret.
fn code_of(lines: &Vec<Vec<char>>, i: usize) -> (r: Vec<ReportItem>)
    requires
        i < lines.len(),
    ensures
        item_views(r@) == code_items(views(lines@), i as int),
{
    let mut r: Vec<ReportItem> = Vec::new();
    if lines.len() - i > 1 {
        let code = &lines[i + 1];
        assert(views(lines@)[i + 1] == code@);
        let t = trim(code);
        let mark = chars_of("^");
        if t.len() > 0 && !starts_with(&t, &mark) {
            r.push(ReportItem::Code { text: string_of(&t) });
            assert(item_views(r@) =~= seq![ItemView::Code { text: t@ }]);
            let caret = caret_of(lines, i, code);
            extend_items(&mut r, caret);
        } else {
            assert(item_views(r@) =~= code_items(views(lines@), i as int));
        }
    } else {
        assert(item_views(r@) =~= code_items(views(lines@), i as int));
    }
    r
}

/// Whether the trimmed line `c` names a symbol or a location.
fn is_detail(c: &Vec<char>) -> (r: bool)
    ensures
        r == is_detail_line(c@),
{
    let symbol = chars_of("symbol:");
    let location = chars_of("location:");
    starts_with(c, &symbol) || starts_with(c, &location)
}

/// The context of the error line `lines[i]`.
fn context_of(lines: &Vec<Vec<char>>, i: usize) -> (r: Vec<ReportItem>)
    requires
        i < lines.len(),
    ensures
        item_views(r@) == context_items(views(lines@), i as int, i + 3),
{
    let source = chars_of(".java:");
    let mut r: Vec<ReportItem> = Vec::new();
    let ghost all = views(lines@);
    if lines.len() - i <= 3 {
        assert(item_views(r@) =~= context_items(all, i as int, i + 3));
        return r;
    }
    let mut j: usize = i + 3;
    assert(item_views(r@) + context_items(all, i as int, j as int) =~= context_items(
        all,
        i as int,
        i + 3,
    ));
    while j < lines.len() && j - i < 10
        invariant
            i + 3 <= j <= lines.len(),
            all == views(lines@),
            source@ == ".java:"@,
            context_items(all, i as int, i + 3) == item_views(r@) + context_items(
                all,
                i as int,
                j as int,
            ),
        decreases lines.len() - j,
    {
        let c = trim(&lines[j]);
        assert(c@ == trimmed(all[j as int]));
        let ghost before = item_views(r@);
        let ghost rest = context_items(all, i as int, j + 1);
        if c.len() == 0 {
            assert(before + Seq::<ItemView>::empty() =~= before);
            return r;
        } else if is_detail(&c) {
            r.push(ReportItem::Detail { text: string_of(&c) });
            assert(item_views(r@) =~= before.push(ItemView::Detail { text: c@ }));
            assert(before + (seq![ItemView::Detail { text: c@ }] + rest) =~= before.push(
                ItemView::Detail { text: c@ },
            ) + rest);
        } else if !contains(&c, &source) {
            r.push(ReportItem::Note { text: string_of(&c) });
            assert(item_views(r@) =~= before.push(ItemView::Note { text: c@ }));
            assert(before + (seq![ItemView::Note { text: c@ }] + rest) =~= before.push(
                ItemView::Note { text: c@ },
            ) + rest);
        } else {
            assert(before + Seq::<ItemView>::empty() =~= before);
            return r;
        }
        j += 1;
    }
    assert(item_views(r@) + Seq::<ItemView>::empty() =~= item_views(r@));
    r
}

/// The name of the method that the symbol line `c` says was not found.
fn method_in(c: &Vec<char>) -> (r: Vec<char>)
    ensures
        r@ == unknown_method(c@),
{
    let symbol = chars_of("symbol:");
    let word = chars_of("method ");
    let paren = chars_of("(");
    if !starts_with(c, &symbol) {
        return Vec::new();
    }
    match find(c, &word) {
        Some(p) => {
            assert(crate::text::occurs_at(c@, word@, p as int));
            let n = c.len();
            let rest = slice_of(c, p + word.len(), n);
            assert(rest@ == c@.skip(p + "method "@.len()));
            let part = trim(&rest);
            let head = match find(&part, &paren) {
                Some(q) => {
                    let h = slice_of(&part, 0, q);
                    assert(h@ == part@.take(q as int));
                    h
                },
                None => part,
            };
            trim(&head)
        },
        None => Vec::new(),
    }
}

/// The class that the location line `l` names.
fn class_in(l: &Vec<char>) -> (r: Vec<char>)
    ensures
        r@ == located_class(l@),
{
    let kind = chars_of("type ");
    let class = chars_of("class ");
    match find(l, &kind) {
        Some(p) => {
            assert(crate::text::occurs_at(l@, kind@, p as int));
            let n = l.len();
            let rest = slice_of(l, p + kind.len(), n);
            assert(rest@ == l@.skip(p + "type "@.len()));
            first_word(&rest)
        },
        None => match find(l, &class) {
            Some(p) => {
                assert(crate::text::occurs_at(l@, class@, p as int));
                let n = l.len();
                let rest = slice_of(l, p + class.len(), n);
                assert(rest@ == l@.skip(p + "class "@.len()));
                first_word(&rest)
            },
            None => Vec::new(),
        },
    }
}

/// The class named by the first location line after line `j`.
fn class_following(lines: &Vec<Vec<char>>, j: usize) -> (r: Vec<char>)
    requires
        j < lines.len(),
    ensures
        r@ == class_after(views(lines@), j as int, j + 1),
{
    let location = chars_of("location:");
    let ghost all = views(lines@);
    let mut k: usize = j + 1;
    while k < lines.len() && k - j < 5
        invariant
            j < k <= lines.len(),
            all == views(lines@),
            location@ == "location:"@,
            class_after(all, j as int, j + 1) == class_after(all, j as int, k as int),
        decreases lines.len() - k,
    {
        let l = trim(&lines[k]);
        assert(l@ == trimmed(all[k as int]));
        if starts_with(&l, &location) {
            return class_in(&l);
        }
        k += 1;
    }
    Vec::new()
}

/// The unknown methods in the context of the error line `lines[i]`, each
/// with the class it was looked for in.
fn requests_of(lines: &Vec<Vec<char>>, i: usize) -> (r: Vec<(String, String)>)
    requires
        i < lines.len(),
    ensures
        pair_views(r@) == context_requests(views(lines@), i as int, i + 3),
{
    let source = chars_of(".java:");
    let mut r: Vec<(String, String)> = Vec::new();
    let ghost all = views(lines@);
    if lines.len() - i <= 3 {
        assert(pair_views(r@) =~= context_requests(all, i as int, i + 3));
        return r;
    }
    let mut j: usize = i + 3;
    assert(pair_views(r@) + context_requests(all, i as int, j as int) =~= context_requests(
        all,
        i as int,
        i + 3,
    ));
    while j < lines.len() && j - i < 10
        invariant
            i + 3 <= j <= lines.len(),
            all == views(lines@),
            source@ == ".java:"@,
            context_requests(all, i as int, i + 3) == pair_views(r@) + context_requests(
                all,
                i as int,
                j as int,
            ),
        decreases lines.len() - j,
    {
        let c = trim(&lines[j]);
        assert(c@ == trimmed(all[j as int]));
        let ghost before = pair_views(r@);
        let ghost rest = context_requests(all, i as int, j + 1);
        if c.len() == 0 {
            assert(before + Seq::<(Seq<char>, Seq<char>)>::empty() =~= before);
            return r;
        } else if is_detail(&c) {
            let method = method_in(&c);
            let class = class_following(lines, j);
            if method.len() > 0 && class.len() > 0 {
                let pair = (string_of(&class), string_of(&method));
                r.push(pair);
                assert(pair_views(r@) =~= before.push((class@, method@)));
                assert(before + (seq![(class@, method@)] + rest) =~= before.push(
                    (class@, method@),
                ) + rest);
            } else {
                assert(before + (Seq::<(Seq<char>, Seq<char>)>::empty() + rest) =~= before + rest);
            }
        } else if !contains(&c, &source) {
        } else {
            assert(before + Seq::<(Seq<char>, Seq<char>)>::empty() =~= before);
            return r;
        }
        j += 1;
    }
    assert(pair_views(r@) + Seq::<(Seq<char>, Seq<char>)>::empty() =~= pair_views(r@));
    r
}

/// Whether the trimmed line `t` reports an error.
fn is_error(t: &Vec<char>) -> (r: bool)
    ensures
        r == is_error_line(t@),
{
    let source = chars_of(".java:");
    let marker = chars_of(": error:");
    contains(t, &source) && contains(t, &marker)
}

/// Whether the trimmed line `t` counts the errors.
fn is_summary(t: &Vec<char>) -> (r: bool)
    ensures
        r == is_summary_line(t@),
{
    let one = chars_of(" error");
    let many = chars_of(" errors");
    contains(t, &one) && (ends_with(t, &one) || ends_with(t, &many))
}

/// The suggestions for one unknown method, as items: no more than three
/// signatures, in the order in which they were found.
pub fn suggestion_group(class: &str, method: &str, found: &Vec<(String, String)>) -> (r: Vec<
    ReportItem,
>)
    ensures
        item_views(r@) == group_items(class@, method@, pair_views(found@)),
{
    let ghost all = pair_views(found@);
    let mut r: Vec<ReportItem> = Vec::new();
    r.push(ReportItem::SuggestionIntro { class: class.to_owned(), method: method.to_owned() });
    let shown: usize = if found.len() <= 3 {
        found.len()
    } else {
        3
    };
    let ghost intro = seq![ItemView::SuggestionIntro { class: class@, method: method@ }];
    let ghost wanted = Seq::new(shown as nat, |k: int| ItemView::Suggestion { signature: all[k].1 });
    assert(item_views(r@) =~= intro + wanted.take(0));
    let mut k: usize = 0;
    while k < shown
        invariant
            k <= shown <= found@.len(),
            all == pair_views(found@),
            wanted == Seq::new(shown as nat, |k: int| ItemView::Suggestion { signature: all[k].1 }),
            item_views(r@) == intro + wanted.take(k as int),
        decreases shown - k,
    {
        let item = ReportItem::Suggestion { signature: found[k].1.clone() };
        assert(item@ == wanted[k as int]);
        let ghost before = item_views(r@);
        r.push(item);
        assert(item_views(r@) =~= before.push(wanted[k as int]));
        assert(intro + wanted.take(k + 1) =~= (intro + wanted.take(k as int)).push(
            wanted[k as int],
        ));
        k += 1;
    }
    assert(wanted.take(shown as int) == wanted);
    let ghost before = item_views(r@);
    if found.len() > 3 {
        r.push(ReportItem::MoreOverloads { count: found.len() - 3 });
        assert(item_views(r@) =~= before + seq![ItemView::MoreOverloads { count: all.len() - 3 }]);
    } else {
        assert(item_views(r@) =~= before + Seq::<ItemView>::empty());
    }
    let ghost middle = item_views(r@);
    r.push(ReportItem::SuggestionEnd);
    assert(item_views(r@) =~= middle + seq![ItemView::SuggestionEnd]);
    r
}

/// Reads what the compiler printed into a report: for every error its
/// file, line, message, source line, caret and context; the compiler's
/// count of errors; for every unknown method up to three of the signatures
/// that the index suggests, nearest first. Output in which no error is
/// recognised is reported as it is.
pub fn format_java_errors(docs: &DocsIndex, error_text: &str) -> (r: Vec<ReportItem>)
    requires
        docs.wf(),
    ensures
        item_views(r@) == compile_report(*docs, error_text@),
{
    let text = chars_of(error_text);
    let lines = split_lines(&text);
    let ghost all = views(lines@);
    let mut r: Vec<ReportItem> = Vec::new();
    r.push(ReportItem::Title);
    let ghost title = seq![ItemView::Title];
    let mut requests: Vec<(String, String)> = Vec::new();
    let mut count: usize = 0;
    let mut i: usize = 0;
    assert(item_views(r@) =~= title);
    assert(pair_views(requests@) + body_requests(all, 0) =~= body_requests(all, 0));
    while i < lines.len()
        invariant
            i <= lines.len(),
            count <= i,
            all == views(lines@),
            all == lines_of(error_text@),
            title + body_items(all, 0, 0) == item_views(r@) + body_items(all, i as int, count as int),
            body_requests(all, 0) == pair_views(requests@) + body_requests(all, i as int),
            error_count(all, 0) == count + error_count(all, i as int),
        decreases lines.len() - i,
    {
        let t = trim(&lines[i]);
        assert(t@ == trimmed(all[i as int]));
        let ghost before = item_views(r@);
        let ghost asked = pair_views(requests@);
        if is_error(&t) {
            let ghost rest = body_items(all, i + 1, count + 1);
            let ghost heading = seq![ItemView::ErrorHeading { number: count + 1 }];
            count = count + 1;
            r.push(ReportItem::ErrorHeading { number: count });
            assert(item_views(r@) =~= before + heading);
            extend_items(&mut r, location_of(&t));
            extend_items(&mut r, code_of(&lines, i));
            extend_items(&mut r, context_of(&lines, i));
            assert(item_views(r@) + rest =~= before + (heading + location_items(t@) + code_items(
                all,
                i as int,
            ) + context_items(all, i as int, i + 3) + rest));
            let mut found = requests_of(&lines, i);
            let ghost new_requests = pair_views(found@);
            requests.append(&mut found);
            assert(pair_views(requests@) =~= asked + new_requests);
            assert(asked + (new_requests + body_requests(all, i + 1)) =~= (asked + new_requests)
                + body_requests(all, i + 1));
        } else if is_summary(&t) {
            r.push(ReportItem::Summary { text: string_of(&t) });
            assert(item_views(r@) =~= before.push(ItemView::Summary { text: t@ }));
            assert(before + (seq![ItemView::Summary { text: t@ }] + body_items(
                all,
                i + 1,
                count as int,
            )) =~= before.push(ItemView::Summary { text: t@ }) + body_items(
                all,
                i + 1,
                count as int,
            ));
        }
        i += 1;
    }
    assert(item_views(r@) + Seq::<ItemView>::empty() =~= item_views(r@));
    assert(pair_views(requests@) + Seq::<(Seq<char>, Seq<char>)>::empty() =~= pair_views(
        requests@,
    ));
    let ghost report = item_views(r@);
    if count == 0 {
        r.push(ReportItem::Unrecognised);
        let ghost body = report + seq![ItemView::Unrecognised];
        assert(item_views(r@) =~= body);
        let mut k: usize = 0;
        assert(body + raw_items(all).take(0) =~= body);
        while k < lines.len()
            invariant
                k <= lines.len(),
                all == views(lines@),
                item_views(r@) == body + raw_items(all).take(k as int),
            decreases lines.len() - k,
        {
            let ghost before = item_views(r@);
            r.push(ReportItem::Raw { text: string_of(&lines[k]) });
            assert(item_views(r@) =~= before.push(ItemView::Raw { text: all[k as int] }));
            assert(raw_items(all).take(k + 1) =~= raw_items(all).take(k as int).push(
                ItemView::Raw { text: all[k as int] },
            ));
            assert(body + raw_items(all).take(k as int).push(ItemView::Raw { text: all[k as int] })
                =~= (body + raw_items(all).take(k as int)).push(
                ItemView::Raw { text: all[k as int] },
            ));
            k += 1;
        }
        assert(raw_items(all).take(lines.len() as int) == raw_items(all));
        assert(item_views(r@) =~= report + closing_items(*docs, all));
    } else {
        let ghost body = report;
        let ghost asked = pair_views(requests@);
        let mut groups: Vec<ReportItem> = Vec::new();
        let mut k: usize = 0;
        assert(item_views(groups@) =~= groups_upto(*docs, asked, 0));
        while k < requests.len()
            invariant
                k <= requests.len(),
                docs.wf(),
                asked == pair_views(requests@),
                item_views(groups@) == groups_upto(*docs, asked, k as int),
            decreases requests.len() - k,
        {
            let class = requests[k].0.as_str();
            let method = requests[k].1.as_str();
            assert(asked[k as int] == (class@, method@));
            let found = get_method_suggestions_with_signatures(docs, class, method);
            assert(pair_views(found@) == suggestions_for(*docs, class@, method@));
            let ghost before = item_views(groups@);
            if found.len() > 0 {
                extend_items(&mut groups, suggestion_group(class, method, &found));
            } else {
                assert(before + Seq::<ItemView>::empty() =~= before);
            }
            k += 1;
        }
        if groups.len() > 0 {
            let ghost before = item_views(r@);
            r.push(ReportItem::SuggestionsHeading);
            assert(item_views(r@) =~= before + seq![ItemView::SuggestionsHeading]);
            extend_items(&mut r, groups);
        }
        let ghost before = item_views(r@);
        r.push(ReportItem::Hint);
        assert(item_views(r@) =~= before + seq![ItemView::Hint]);
        assert(item_views(r@) =~= body + closing_items(*docs, all));
    }
    assert(item_views(r@) =~= title + body_items(all, 0, 0) + closing_items(*docs, all));
    r
}

} // verus!
