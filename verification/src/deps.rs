//! The dependency parser: the dependencies that the header comment of a
//! source file declares, and the sibling classes that the code uses without
//! declaring them.

use regex::Regex;
use vstd::prelude::*;
use crate::cache::{class_name, class_name_of};
use crate::text::{
    chars_of, ends_with, find, first_match, has_match, lines_of, matches_at, occurs_at, slice_of,
    split_lines,
    starts_with, str_eq, str_views, string_of, trim, trimmed, views,
};

verus! {

/// The text that opens a directive: `using "`.
pub open spec fn directive_opener() -> Seq<char> {
    seq!['u', 's', 'i', 'n', 'g', ' ', '"']
}

/// The token that opens a block comment.
pub open spec fn block_open() -> Seq<char> {
    seq!['/', '*']
}

/// The token that closes a block comment.
pub open spec fn block_close() -> Seq<char> {
    seq!['*', '/']
}

/// The token that opens a line comment.
pub open spec fn line_comment() -> Seq<char> {
    seq!['/', '/']
}

/// The text up to the next double quote of `rest`, if there is one.
pub open spec fn quoted_head(rest: Seq<char>) -> Seq<Seq<char>> {
    match first_match(rest, seq!['"']) {
        Some(j) => seq![rest.take(j)],
        None => Seq::empty(),
    }
}

/// The directives of one line, read from index `i` on: for every
/// occurrence of `using "`, the text between it and the next double quote
/// on the line; an occurrence that no quote follows gives nothing.
pub open spec fn directives_from(line: Seq<char>, i: int) -> Seq<Seq<char>>
    decreases line.len() - i,
{
    if i < 0 || i >= line.len() {
        Seq::empty()
    } else if occurs_at(line, directive_opener(), i) {
        quoted_head(line.skip(i + 7)) + directives_from(line, i + 7)
    } else {
        directives_from(line, i + 1)
    }
}

/// Whether the header ends with the trimmed line `line`: it closes a
/// block comment, or it is code outside any comment.
pub open spec fn ends_header(line: Seq<char>, inside: bool) -> bool {
    block_close().is_suffix_of(line) || (!inside && !line_comment().is_prefix_of(line)
        && line.len() > 0)
}

/// The declared dependencies of the lines from index `k` on, where
/// `in_comment` says whether a block comment was opened before.
pub open spec fn declared_from(lines: Seq<Seq<char>>, k: int, in_comment: bool) -> Seq<Seq<char>>
    decreases lines.len() - k,
{
    if k < 0 || k >= lines.len() {
        Seq::empty()
    } else {
        let line = trimmed(lines[k]);
        let inside = in_comment || block_open().is_prefix_of(line);
        let here = if inside {
            directives_from(line, 0)
        } else {
            Seq::empty()
        };
        if ends_header(line, inside) {
            here
        } else {
            here + declared_from(lines, k + 1, inside)
        }
    }
}

/// The dependencies that the first comment block at the top of a source
/// text declares, in order, duplicates kept.
pub open spec fn declared_of(content: Seq<char>) -> Seq<Seq<char>> {
    declared_from(lines_of(content), 0, false)
}

/// The directives of one line.
pub fn directives_in(line: &Vec<char>) -> (r: Vec<Vec<char>>)
    ensures
        views(r@) == directives_from(line@, 0),
{
    let opener: Vec<char> = vec!['u', 's', 'i', 'n', 'g', ' ', '"'];
    let quote: Vec<char> = vec!['"'];
    assert(opener@ == directive_opener());
    assert(quote@ == seq!['"']);
    let mut r: Vec<Vec<char>> = Vec::new();
    let mut i: usize = 0;
    assert(views(r@) + directives_from(line@, 0) == directives_from(line@, 0));
    while i < line.len()
        invariant
            opener@ == directive_opener(),
            quote@ == seq!['"'],
            directives_from(line@, 0) == views(r@) + directives_from(line@, i as int),
        decreases line.len() - i,
    {
        if matches_at(line, &opener, i) {
            let rest = slice_of(line, i + 7, line.len());
            assert(rest@ == line@.skip(i + 7));
            let ghost before = views(r@);
            match find(&rest, &quote) {
                Some(j) => {
                    let dep = slice_of(&rest, 0, j);
                    assert(dep@ == rest@.take(j as int));
                    assert(views(r@.push(dep)) == views(r@).push(dep@));
                    r.push(dep);
                },
                None => {},
            }
            assert(views(r@) == before + quoted_head(line@.skip(i + 7)));
            assert(before + (quoted_head(line@.skip(i + 7)) + directives_from(line@, i + 7)) == (
            before + quoted_head(line@.skip(i + 7))) + directives_from(line@, i + 7));
            i += 7;
        } else {
            i += 1;
        }
    }
    assert(views(r@) + Seq::<Seq<char>>::empty() == views(r@));
    r
}

/// The dependencies that the header of a source text declares: only the
/// first comment block at the top is read.
pub fn declared_dependencies(content: &str) -> (r: Vec<String>)
    ensures
        str_views(r@) == declared_of(content@),
{
    let text = chars_of(content);
    let lines = split_lines(&text);
    let open: Vec<char> = vec!['/', '*'];
    let close: Vec<char> = vec!['*', '/'];
    let slashes: Vec<char> = vec!['/', '/'];
    assert(open@ == block_open());
    assert(close@ == block_close());
    assert(slashes@ == line_comment());
    let mut r: Vec<String> = Vec::new();
    let mut in_comment = false;
    let mut k: usize = 0;
    assert(str_views(r@) + declared_from(views(lines@), 0, false) == declared_from(
        views(lines@),
        0,
        false,
    ));
    while k < lines.len()
        invariant
            open@ == block_open(),
            close@ == block_close(),
            slashes@ == line_comment(),
            views(lines@) == lines_of(content@),
            declared_of(content@) == str_views(r@) + declared_from(
                views(lines@),
                k as int,
                in_comment,
            ),
        decreases lines.len() - k,
    {
        let line = trim(&lines[k]);
        assert(line@ == trimmed(views(lines@)[k as int]));
        let inside = in_comment || starts_with(&line, &open);
        let ghost before = str_views(r@);
        let ghost here = if inside {
            directives_from(line@, 0)
        } else {
            Seq::<Seq<char>>::empty()
        };
        if inside {
            let found = directives_in(&line);
            let mut j: usize = 0;
            while j < found.len()
                invariant
                    j <= found.len(),
                    str_views(r@) == before + views(found@).take(j as int),
                decreases found.len() - j,
            {
                let dep = string_of(&found[j]);
                assert(str_views(r@.push(dep)) == str_views(r@).push(dep@));
                assert(views(found@).take(j + 1) == views(found@).take(j as int).push(
                    found@[j as int]@,
                ));
                r.push(dep);
                j += 1;
            }
            assert(views(found@).take(found.len() as int) == views(found@));
        }
        assert(str_views(r@) == before + here);
        let stop = ends_with(&line, &close) || (!inside && !starts_with(&line, &slashes)
            && line.len() > 0);
        assert(stop == ends_header(line@, inside));
        if stop {
            return r;
        }
        assert(before + (here + declared_from(views(lines@), k + 1, inside)) == (before + here)
            + declared_from(views(lines@), k + 1, inside));
        in_comment = inside;
        k += 1;
    }
    assert(str_views(r@) + Seq::<Seq<char>>::empty() == str_views(r@));
    r
}

/// A header none of whose lines holds `using "` declares nothing.
pub proof fn lemma_no_directive_no_dependency(content: Seq<char>)
    requires
        forall|k: int|
            0 <= k < lines_of(content).len() ==> !has_match(
                trimmed(#[trigger] lines_of(content)[k]),
                directive_opener(),
            ),
    ensures
        declared_of(content) == Seq::<Seq<char>>::empty(),
{
    lemma_declared_empty(lines_of(content), 0, false);
}

/// A line in which `using "` does not occur holds no directive.
proof fn lemma_line_without_directive(line: Seq<char>, i: int)
    requires
        forall|j: int| !occurs_at(line, directive_opener(), j),
    ensures
        directives_from(line, i) == Seq::<Seq<char>>::empty(),
    decreases line.len() - i,
{
    if 0 <= i < line.len() {
        lemma_line_without_directive(line, i + 1);
    }
}

/// Lines none of which holds `using "` declare nothing.
proof fn lemma_declared_empty(lines: Seq<Seq<char>>, k: int, in_comment: bool)
    requires
        forall|k: int|
            0 <= k < lines.len() ==> !has_match(trimmed(#[trigger] lines[k]), directive_opener()),
    ensures
        declared_from(lines, k, in_comment) == Seq::<Seq<char>>::empty(),
    decreases lines.len() - k,
{
    if 0 <= k < lines.len() {
        let line = trimmed(lines[k]);
        let inside = in_comment || block_open().is_prefix_of(line);
        crate::text::lemma_first_match_from(line, directive_opener(), 0);
        lemma_line_without_directive(line, 0);
        lemma_declared_empty(lines, k + 1, inside);
        assert(Seq::<Seq<char>>::empty() + Seq::<Seq<char>>::empty() == Seq::<
            Seq<char>,
        >::empty());
    }
}

/// For each successive non-overlapping match of `pattern` in `haystack`,
/// the text of its first capture group where the group took part; `None`
/// where `pattern` is not a regular expression that can be compiled.
pub uninterp spec fn regex_captures(pattern: Seq<char>, haystack: Seq<char>) -> Option<
    Seq<Option<Seq<char>>>,
>;

/// What `group_captures` returns, as plain sequences.
pub open spec fn capture_views(r: Option<Vec<Option<String>>>) -> Option<Seq<Option<Seq<char>>>> {
    match r {
        None => None,
        Some(v) => Some(
            Seq::new(
                v@.len(),
                |i: int|
                    match v@[i] {
                        Some(s) => Some(s@),
                        None => None,
                    },
            ),
        ),
    }
}

/// Compiles `pattern` with `regex::Regex::new` and walks
/// `Regex::captures_iter` over `haystack`, taking from each match the text
/// of capture group 1 (`Captures::get`, `Match::as_str`). The result is a
/// function of the two texts alone; it is named here, not spelled out.
#[verifier::external_body]
fn group_captures(pattern: &str, haystack: &str) -> (r: Option<Vec<Option<String>>>)
    ensures
        capture_views(r) == regex_captures(pattern@, haystack@),
{
    match Regex::new(pattern) {
        Ok(re) => Some(
            re.captures_iter(haystack).map(|c| c.get(1).map(|m| m.as_str().to_string())).collect(),
        ),
        Err(_) => None,
    }
}

/// The pattern of a public class declaration at the start of a line.
pub open spec fn public_class_pattern() -> Seq<char> {
    "(?m)^\\s*public\\s+class\\s+(\\w+)"@
}

/// The pattern of a class declaration, public or not, at the start of a line.
pub open spec fn class_declaration_pattern() -> Seq<char> {
    "(?m)^\\s*(?:public\\s+)?class\\s+(\\w+)"@
}

/// The pattern of a capitalised identifier.
pub open spec fn identifier_pattern() -> Seq<char> {
    "\\b([A-Z][a-zA-Z0-9_]*)\\b"@
}

/// The captured texts among `matches`, in order.
pub open spec fn present(matches: Seq<Option<Seq<char>>>) -> Seq<Seq<char>>
    decreases matches.len(),
{
    if matches.len() == 0 {
        Seq::empty()
    } else {
        let before = present(matches.drop_last());
        match matches.last() {
            Some(t) => before.push(t),
            None => before,
        }
    }
}

/// The captured texts of all matches; none where the pattern is invalid.
pub open spec fn captured_texts(c: Option<Seq<Option<Seq<char>>>>) -> Seq<Seq<char>> {
    match c {
        Some(matches) => present(matches),
        None => Seq::empty(),
    }
}

/// The captured text of the first match, if it has one.
pub open spec fn first_capture(c: Option<Seq<Option<Seq<char>>>>) -> Option<Seq<char>> {
    match c {
        Some(matches) => if matches.len() > 0 {
            matches[0]
        } else {
            None
        },
        None => None,
    }
}

/// The captured texts of all matches.
pub fn texts_of(c: &Option<Vec<Option<String>>>) -> (r: Vec<String>)
    ensures
        str_views(r@) == captured_texts(capture_views(*c)),
{
    let mut r: Vec<String> = Vec::new();
    match c {
        None => {},
        Some(v) => {
            let ghost all = capture_views(*c)->0;
            let mut i: usize = 0;
            assert(all.take(0) == Seq::<Option<Seq<char>>>::empty());
            while i < v.len()
                invariant
                    i <= v.len(),
                    *c == Some(*v),
                    all == capture_views(*c)->0,
                    str_views(r@) == present(all.take(i as int)),
                decreases v.len() - i,
            {
                assert(all.take(i + 1).drop_last() == all.take(i as int));
                assert(all.take(i + 1).last() == all[i as int]);
                match &v[i] {
                    Some(s) => {
                        let t = s.clone();
                        assert(str_views(r@.push(t)) == str_views(r@).push(t@));
                        r.push(t);
                    },
                    None => {},
                }
                i += 1;
            }
            assert(all.take(v.len() as int) == all);
        },
    }
    r
}

/// The captured text of the first match, if it has one.
pub fn first_of(c: &Option<Vec<Option<String>>>) -> (r: Option<String>)
    ensures
        match r {
            Some(s) => first_capture(capture_views(*c)) == Some(s@),
            None => first_capture(capture_views(*c)) is None,
        },
{
    match c {
        None => None,
        Some(v) => {
            if v.len() > 0 {
                match &v[0] {
                    Some(s) => Some(s.clone()),
                    None => None,
                }
            } else {
                None
            }
        },
    }
}

/// The names of the public classes that the sources declare, source by source.
pub open spec fn public_classes_of(sources: Seq<Seq<char>>) -> Seq<Seq<char>>
    decreases sources.len(),
{
    if sources.len() == 0 {
        Seq::empty()
    } else {
        public_classes_of(sources.drop_last()) + captured_texts(
            regex_captures(public_class_pattern(), sources.last()),
        )
    }
}

/// The lines from index `k` on in which references are looked for: not the
/// lines of block comments, not line comments, and not the blank lines
/// before the first code or comment.
pub open spec fn code_lines_from(
    lines: Seq<Seq<char>>,
    k: int,
    in_header: bool,
    in_block: bool,
) -> Seq<Seq<char>>
    decreases lines.len() - k,
{
    if k < 0 || k >= lines.len() {
        Seq::empty()
    } else {
        let line = trimmed(lines[k]);
        if in_block || block_open().is_prefix_of(line) {
            if block_close().is_suffix_of(line) {
                code_lines_from(lines, k + 1, false, false)
            } else {
                code_lines_from(lines, k + 1, in_header, true)
            }
        } else if line_comment().is_prefix_of(line) {
            code_lines_from(lines, k + 1, in_header, false)
        } else if in_header && line.len() == 0 {
            code_lines_from(lines, k + 1, true, false)
        } else {
            seq![lines[k]] + code_lines_from(lines, k + 1, false, false)
        }
    }
}

/// The lines of a source text in which references are looked for.
pub open spec fn code_lines_of(content: Seq<char>) -> Seq<Seq<char>> {
    code_lines_from(lines_of(content), 0, true, false)
}

/// The capitalised identifiers of the given lines, line by line.
pub open spec fn identifiers_of(lines: Seq<Seq<char>>) -> Seq<Seq<char>>
    decreases lines.len(),
{
    if lines.len() == 0 {
        Seq::empty()
    } else {
        identifiers_of(lines.drop_last()) + captured_texts(
            regex_captures(identifier_pattern(), lines.last()),
        )
    }
}

/// The class names that the declared dependencies stand for: each file
/// name without its `.java` extension.
pub open spec fn declared_classes(declared: Seq<Seq<char>>) -> Seq<Seq<char>> {
    Seq::new(declared.len(), |i: int| class_name_of(declared[i]))
}

/// A token counts as a reference unless it is the file's own class or the
/// class of a declared dependency.
pub open spec fn is_reference(token: Seq<char>, own: Option<Seq<char>>, declared: Seq<Seq<char>>) -> bool {
    own != Some(token) && !declared_classes(declared).contains(token)
}

/// The references among the first `k` tokens, each once, in the order of
/// first appearance.
pub open spec fn references_upto(
    tokens: Seq<Seq<char>>,
    own: Option<Seq<char>>,
    declared: Seq<Seq<char>>,
    k: int,
) -> Seq<Seq<char>>
    decreases k,
{
    if k <= 0 {
        Seq::empty()
    } else {
        let before = references_upto(tokens, own, declared, k - 1);
        let t = tokens[k - 1];
        if is_reference(t, own, declared) && !before.contains(t) {
            before.push(t)
        } else {
            before
        }
    }
}

/// The references among `tokens`, each once.
pub open spec fn references_of(
    tokens: Seq<Seq<char>>,
    own: Option<Seq<char>>,
    declared: Seq<Seq<char>>,
) -> Seq<Seq<char>> {
    references_upto(tokens, own, declared, tokens.len() as int)
}

/// The classes that a source text refers to without declaring them.
pub open spec fn class_references_of(content: Seq<char>, declared: Seq<Seq<char>>) -> Seq<Seq<char>> {
    references_of(
        identifiers_of(code_lines_of(content)),
        first_capture(regex_captures(class_declaration_pattern(), content)),
        declared,
    )
}

/// The references that name a public class of a sibling source.
pub open spec fn implicit_among(references: Seq<Seq<char>>, public_classes: Seq<Seq<char>>) -> Seq<
    Seq<char>,
> {
    references.filter(|r: Seq<char>| public_classes.contains(r))
}

/// The implicit dependencies of a source text, given the dependencies it
/// declares and the texts of the other sources in its directory.
pub open spec fn implicit_of(
    content: Seq<char>,
    declared: Seq<Seq<char>>,
    siblings: Seq<Seq<char>>,
) -> Seq<Seq<char>> {
    implicit_among(class_references_of(content, declared), public_classes_of(siblings))
}

/// An optional string as an optional sequence of characters.
pub open spec fn option_view(o: Option<String>) -> Option<Seq<char>> {
    match o {
        Some(s) => Some(s@),
        None => None,
    }
}

/// Whether `list` holds the text `t`.
pub fn holds_text(list: &Vec<String>, t: &str) -> (r: bool)
    ensures
        r == str_views(list@).contains(t@),
{
    let mut i: usize = 0;
    while i < list.len()
        invariant
            i <= list.len(),
            forall|j: int| 0 <= j < i ==> str_views(list@)[j] != t@,
        decreases list.len() - i,
    {
        if str_eq(list[i].as_str(), t) {
            assert(str_views(list@)[i as int] == t@);
            return true;
        }
        i += 1;
    }
    false
}

/// The references among `tokens`: those that are neither the file's own
/// class nor the class of a declared dependency, each once, in the order of
/// first appearance.
pub fn select_references(
    tokens: &Vec<String>,
    own_class: &Option<String>,
    declared_deps: &Vec<String>,
) -> (r: Vec<String>)
    ensures
        str_views(r@) == references_of(
            str_views(tokens@),
            option_view(*own_class),
            str_views(declared_deps@),
        ),
{
    let ghost own: Option<Seq<char>> = option_view(*own_class);
    let ghost declared = str_views(declared_deps@);
    let mut classes: Vec<String> = Vec::new();
    let mut d: usize = 0;
    while d < declared_deps.len()
        invariant
            d <= declared_deps.len(),
            declared == str_views(declared_deps@),
            str_views(classes@) == declared_classes(declared).take(d as int),
        decreases declared_deps.len() - d,
    {
        let c = class_name(declared_deps[d].as_str());
        assert(str_views(classes@.push(c)) == str_views(classes@).push(c@));
        assert(declared_classes(declared).take(d + 1) == declared_classes(declared).take(
            d as int,
        ).push(c@));
        classes.push(c);
        d += 1;
    }
    assert(declared_classes(declared).take(declared_deps.len() as int) == declared_classes(
        declared,
    ));
    let mut r: Vec<String> = Vec::new();
    let mut k: usize = 0;
    while k < tokens.len()
        invariant
            k <= tokens.len(),
            declared == str_views(declared_deps@),
            own == option_view(*own_class),
            str_views(classes@) == declared_classes(declared),
            str_views(r@) == references_upto(str_views(tokens@), own, declared, k as int),
        decreases tokens.len() - k,
    {
        let t = tokens[k].as_str();
        assert(str_views(tokens@)[k as int] == t@);
        let is_own = match own_class {
            Some(s) => str_eq(s.as_str(), t),
            None => false,
        };
        if !is_own && !holds_text(&classes, t) && !holds_text(&r, t) {
            let kept = tokens[k].clone();
            assert(str_views(r@.push(kept)) == str_views(r@).push(kept@));
            r.push(kept);
        }
        k += 1;
    }
    r
}

/// The references that name a public class of a sibling source, in the
/// order of `references`.
pub fn select_implicit(references: &Vec<String>, public_classes: &Vec<String>) -> (r: Vec<String>)
    ensures
        str_views(r@) == implicit_among(str_views(references@), str_views(public_classes@)),
{
    let ghost pred = |t: Seq<char>| str_views(public_classes@).contains(t);
    let ghost all = str_views(references@);
    let mut r: Vec<String> = Vec::new();
    let mut i: usize = 0;
    assert(all.take(0) == Seq::<Seq<char>>::empty());
    while i < references.len()
        invariant
            i <= references.len(),
            all == str_views(references@),
            pred == |t: Seq<char>| str_views(public_classes@).contains(t),
            str_views(r@) == all.take(i as int).filter(pred),
        decreases references.len() - i,
    {
        proof {
            assert(all.take(i + 1) == all.take(i as int).push(all[i as int]));
            all.take(i as int).lemma_filter_push(all[i as int], pred);
        }
        if holds_text(public_classes, references[i].as_str()) {
            let kept = references[i].clone();
            assert(str_views(r@.push(kept)) == str_views(r@).push(kept@));
            r.push(kept);
        }
        i += 1;
    }
    assert(all.take(references.len() as int) == all);
    r
}

/// Appends copies of the strings of `src` to `dst`.
pub fn extend_strings(dst: &mut Vec<String>, src: &Vec<String>)
    ensures
        str_views(final(dst)@) == str_views(old(dst)@) + str_views(src@),
{
    let mut i: usize = 0;
    assert(str_views(dst@) + str_views(src@).take(0) == str_views(dst@));
    while i < src.len()
        invariant
            i <= src.len(),
            str_views(dst@) == str_views(old(dst)@) + str_views(src@).take(i as int),
        decreases src.len() - i,
    {
        let s = src[i].clone();
        assert(str_views(dst@.push(s)) == str_views(dst@).push(s@));
        assert(str_views(src@).take(i + 1) == str_views(src@).take(i as int).push(s@));
        assert(str_views(old(dst)@) + str_views(src@).take(i as int).push(s@) == (str_views(
            old(dst)@,
        ) + str_views(src@).take(i as int)).push(s@));
        dst.push(s);
        i += 1;
    }
    assert(str_views(src@).take(src.len() as int) == str_views(src@));
}

/// The pattern of a public class declaration, as text.
fn public_class_regex() -> (r: &'static str)
    ensures
        r@ == public_class_pattern(),
{
    "(?m)^\\s*public\\s+class\\s+(\\w+)"
}

/// The pattern of a class declaration, as text.
fn class_declaration_regex() -> (r: &'static str)
    ensures
        r@ == class_declaration_pattern(),
{
    "(?m)^\\s*(?:public\\s+)?class\\s+(\\w+)"
}

/// The pattern of a capitalised identifier, as text.
fn identifier_regex() -> (r: &'static str)
    ensures
        r@ == identifier_pattern(),
{
    "\\b([A-Z][a-zA-Z0-9_]*)\\b"
}

/// The names of the public classes that the given source texts declare.
pub fn find_public_classes(sources: &Vec<String>) -> (r: Vec<String>)
    ensures
        str_views(r@) == public_classes_of(str_views(sources@)),
{
    let ghost all = str_views(sources@);
    let mut r: Vec<String> = Vec::new();
    let mut i: usize = 0;
    assert(all.take(0) == Seq::<Seq<char>>::empty());
    while i < sources.len()
        invariant
            i <= sources.len(),
            all == str_views(sources@),
            str_views(r@) == public_classes_of(all.take(i as int)),
        decreases sources.len() - i,
    {
        assert(all.take(i + 1).drop_last() == all.take(i as int));
        assert(all.take(i + 1).last() == sources@[i as int]@);
        let found = texts_of(&group_captures(public_class_regex(), sources[i].as_str()));
        extend_strings(&mut r, &found);
        i += 1;
    }
    assert(all.take(sources.len() as int) == all);
    r
}

/// The lines of a source text in which references are looked for.
pub fn code_lines(content: &str) -> (r: Vec<String>)
    ensures
        str_views(r@) == code_lines_of(content@),
{
    let text = chars_of(content);
    let lines = split_lines(&text);
    let open: Vec<char> = vec!['/', '*'];
    let close: Vec<char> = vec!['*', '/'];
    let slashes: Vec<char> = vec!['/', '/'];
    assert(open@ == block_open());
    assert(close@ == block_close());
    assert(slashes@ == line_comment());
    let mut r: Vec<String> = Vec::new();
    let mut in_header = true;
    let mut in_block = false;
    let mut k: usize = 0;
    assert(str_views(r@) + code_lines_from(views(lines@), 0, true, false) == code_lines_from(
        views(lines@),
        0,
        true,
        false,
    ));
    while k < lines.len()
        invariant
            open@ == block_open(),
            close@ == block_close(),
            slashes@ == line_comment(),
            views(lines@) == lines_of(content@),
            code_lines_of(content@) == str_views(r@) + code_lines_from(
                views(lines@),
                k as int,
                in_header,
                in_block,
            ),
        decreases lines.len() - k,
    {
        let line = trim(&lines[k]);
        assert(line@ == trimmed(views(lines@)[k as int]));
        if in_block || starts_with(&line, &open) {
            if ends_with(&line, &close) {
                in_block = false;
                in_header = false;
            } else {
                in_block = true;
            }
        } else if starts_with(&line, &slashes) {
        } else if in_header && line.len() == 0 {
        } else {
            in_header = false;
            let whole = string_of(&lines[k]);
            assert(whole@ == views(lines@)[k as int]);
            assert(str_views(r@.push(whole)) == str_views(r@).push(whole@));
            assert(str_views(r@) + (seq![whole@] + code_lines_from(
                views(lines@),
                k + 1,
                false,
                false,
            )) == str_views(r@).push(whole@) + code_lines_from(views(lines@), k + 1, false, false));
            r.push(whole);
        }
        k += 1;
    }
    assert(str_views(r@) + Seq::<Seq<char>>::empty() == str_views(r@));
    r
}

/// The capitalised identifiers of the given lines.
pub fn find_identifiers(lines: &Vec<String>) -> (r: Vec<String>)
    ensures
        str_views(r@) == identifiers_of(str_views(lines@)),
{
    let ghost all = str_views(lines@);
    let mut r: Vec<String> = Vec::new();
    let mut i: usize = 0;
    assert(all.take(0) == Seq::<Seq<char>>::empty());
    while i < lines.len()
        invariant
            i <= lines.len(),
            all == str_views(lines@),
            str_views(r@) == identifiers_of(all.take(i as int)),
        decreases lines.len() - i,
    {
        assert(all.take(i + 1).drop_last() == all.take(i as int));
        assert(all.take(i + 1).last() == lines@[i as int]@);
        let found = texts_of(&group_captures(identifier_regex(), lines[i].as_str()));
        extend_strings(&mut r, &found);
        i += 1;
    }
    assert(all.take(lines.len() as int) == all);
    r
}

/// Detects the classes that the code of a source text refers to: the
/// capitalised identifiers outside its comments, but for its own class and
/// the classes of the dependencies it declares.
pub fn find_class_references(content: &str, declared_deps: &Vec<String>) -> (r: Vec<String>)
    ensures
        str_views(r@) == class_references_of(content@, str_views(declared_deps@)),
{
    let own = first_of(&group_captures(class_declaration_regex(), content));
    let lines = code_lines(content);
    let tokens = find_identifiers(&lines);
    select_references(&tokens, &own, declared_deps)
}

/// The implicit dependencies of a source text: the classes it refers to
/// without declaring them that a sibling source declares as public.
pub fn check_implicit_dependencies(
    content: &str,
    declared_deps: &Vec<String>,
    siblings: &Vec<String>,
) -> (r: Vec<String>)
    ensures
        str_views(r@) == implicit_of(content@, str_views(declared_deps@), str_views(siblings@)),
{
    let public_classes = find_public_classes(siblings);
    let referenced = find_class_references(content, declared_deps);
    select_implicit(&referenced, &public_classes)
}

/// The dependencies that a source text declares in its header, and those
/// that it has without declaring them.
pub fn parse_dependencies(content: &str, siblings: &Vec<String>) -> (r: (Vec<String>, Vec<String>))
    ensures
        str_views(r.0@) == declared_of(content@),
        str_views(r.1@) == implicit_of(content@, declared_of(content@), str_views(siblings@)),
{
    let deps = declared_dependencies(content);
    let implicit_deps = check_implicit_dependencies(content, &deps, siblings);
    (deps, implicit_deps)
}

} // verus!
