//! The rules for a single line: headings, images, and the inline scanner
//! that handles emphasis, code spans, raw HTML, links and math.
//!
//! Each rule is stated as a spec function from the characters of the line to
//! the characters of the markup; the executable functions are proved to
//! return exactly that. Math is the one thing that the line does not decide
//! alone: the renderer may fail, so the markup of a line is a function of
//! the line and of the positions at which it failed.

use crate::images::{embed_image, embedded_image, image_table, ImageContent, ImageFile};
use crate::math::{katex_mathml, math_fragment, math_span, render_math};
use crate::text::{
    chars_string, count_run, find_from, has_at, index_from, lemma_index_from, lemma_run_from,
    matches_at, push_chars, run_from, str_chars,
};
use vstd::prelude::*;
use vstd::slice::slice_subrange;
use vstd::string::StringExecFns;

verus! {

/// The number of `#` that `line` starts with.
pub open spec fn leading_hashes(line: Seq<char>) -> nat {
    run_from(line, 0, '#', line.len())
}

/// The heading level for a run of `hashes`: the count itself, kept between
/// 1 and 6.
pub open spec fn heading_level(hashes: nat) -> nat {
    if hashes < 1 {
        1
    } else if hashes > 6 {
        6
    } else {
        hashes
    }
}

/// The digit that names a heading level in its tag.
pub open spec fn level_digit(level: nat) -> char {
    if level <= 1 {
        '1'
    } else if level == 2 {
        '2'
    } else if level == 3 {
        '3'
    } else if level == 4 {
        '4'
    } else if level == 5 {
        '5'
    } else {
        '6'
    }
}

/// The heading element for `line`: its level comes from the leading `#`,
/// its content is all that follows them, white space included.
pub open spec fn heading_markup(line: Seq<char>) -> Seq<char> {
    let hashes = leading_hashes(line);
    let digit = level_digit(heading_level(hashes));
    "<h"@.push(digit) + ">"@ + line.subrange(hashes as int, line.len() as int) + "</h"@.push(digit)
        + ">"@
}

/// The path that an image line names: the line starts with `![`, and the
/// path runs from there to the first `]`, or to the end of the line where
/// there is none. `None` for a line that is no image.
pub open spec fn image_path(line: Seq<char>) -> Option<Seq<char>> {
    if line.len() >= 2 && line[0] == '!' && line[1] == '[' {
        Some(line.subrange(2, index_from(line, 2, ']')))
    } else {
        None
    }
}

/// The image element that points at `path` beside the document.
pub open spec fn image_reference(path: Seq<char>) -> Seq<char> {
    "<img src=\"./"@ + path + "\"/>"@
}

/// The markup for an image line, or `None` for a line that is no image.
/// With `embed` the bytes come from `files`; without, the element refers to
/// the file.
pub open spec fn image_markup(
    line: Seq<char>,
    embed: bool,
    files: Map<Seq<char>, ImageContent>,
) -> Option<Seq<char>> {
    match image_path(line) {
        Some(path) => Some(
            if embed {
                embedded_image(files.get(path))
            } else {
                image_reference(path)
            },
        ),
        None => None,
    }
}

/// What the inline scanner is inside of.
#[derive(Clone, Copy, PartialEq, Eq, Debug, Structural)]
pub enum InlineMode {
    /// Ordinary text, where markers are read.
    Text,
    /// A code span, up to the next backtick.
    Code,
    /// Raw HTML, up to `</html>`.
    RawHtml,
}

/// The tags that open emphasis for a run of 1, 2 or 3 `*`.
pub open spec fn emphasis_open(run: nat) -> Seq<char> {
    if run == 1 {
        "<em>"@
    } else if run == 2 {
        "<strong>"@
    } else if run == 3 {
        "<strong><em>"@
    } else {
        Seq::empty()
    }
}

/// The tags that close emphasis for a run of 1, 2 or 3 `*`.
pub open spec fn emphasis_close(run: nat) -> Seq<char> {
    if run == 1 {
        "</em>"@
    } else if run == 2 {
        "</strong>"@
    } else if run == 3 {
        "</em></strong>"@
    } else {
        Seq::empty()
    }
}

/// The closing tags for all emphasis still open, the last opened first.
pub open spec fn close_all(open: Seq<nat>) -> Seq<char>
    decreases open.len(),
{
    if open.len() == 0 {
        Seq::empty()
    } else {
        emphasis_close(open.last()) + close_all(open.drop_last())
    }
}

/// The anchor whose target and text are both `target`.
pub open spec fn anchor(target: Seq<char>) -> Seq<char> {
    "<a href=\""@ + target + "\">"@ + target + "</a>"@
}

/// The expression that is handed to the renderer for the math that opens
/// with the `$` at `at`: what stands between that `$` and the next.
pub open spec fn math_expression(line: Seq<char>, at: int) -> Seq<char> {
    line.subrange(at + 1, index_from(line, at + 1, '$'))
}

/// The markup for `line` from position `at` on, for a scanner that is in
/// `mode` with the emphasis runs `open` not yet closed, where the renderer
/// failed for the math that opens at the positions in `failed`.
///
/// In a code span every character is copied up to the closing backtick. In
/// raw HTML every character is copied up to `</html>`, which is dropped. In
/// text, a backtick opens a code span; `<html>` opens raw HTML; any other
/// `<` with a `>` after it makes a link of what stands between; a run of up
/// to three `*` closes the emphasis opened last if that had the same length
/// and opens a new one otherwise; `$` with a second `$` after it makes math
/// of what stands between, which is the rendering of KaTeX in its span, or
/// the error fragment where the renderer failed; all else is copied. At the
/// end of the line the emphasis still open is closed; a code span or raw
/// HTML is not.
pub open spec fn inline_from(
    line: Seq<char>,
    at: int,
    mode: InlineMode,
    open: Seq<nat>,
    failed: Set<int>,
) -> Seq<char>
    decreases line.len() - at,
{
    if at < 0 || at >= line.len() {
        close_all(open)
    } else {
        match mode {
            InlineMode::Code => if line[at] == '`' {
                "</code></pre>"@ + inline_from(line, at + 1, InlineMode::Text, open, failed)
            } else {
                seq![line[at]] + inline_from(line, at + 1, InlineMode::Code, open, failed)
            },
            InlineMode::RawHtml => if has_at(line, at, "</html>"@) {
                proof {
                    reveal_strlit("</html>");
                }
                inline_from(line, at + 7, InlineMode::Text, open, failed)
            } else {
                seq![line[at]] + inline_from(line, at + 1, InlineMode::RawHtml, open, failed)
            },
            InlineMode::Text => if line[at] == '`' {
                "<pre><code>"@ + inline_from(line, at + 1, InlineMode::Code, open, failed)
            } else if has_at(line, at, "<html>"@) {
                proof {
                    reveal_strlit("<html>");
                }
                inline_from(line, at + 6, InlineMode::RawHtml, open, failed)
            } else if line[at] == '<' {
                let end = index_from(line, at + 1, '>');
                if end < line.len() {
                    proof {
                        lemma_index_from(line, at + 1, '>');
                    }
                    anchor(line.subrange(at + 1, end)) + inline_from(
                        line,
                        end + 1,
                        InlineMode::Text,
                        open,
                        failed,
                    )
                } else {
                    seq!['<'] + inline_from(line, at + 1, InlineMode::Text, open, failed)
                }
            } else if line[at] == '*' {
                let run = run_from(line, at, '*', 3);
                proof {
                    lemma_run_from(line, at, '*', 3);
                }
                if open.len() > 0 && open.last() == run {
                    emphasis_close(run) + inline_from(
                        line,
                        at + run,
                        InlineMode::Text,
                        open.drop_last(),
                        failed,
                    )
                } else {
                    emphasis_open(run) + inline_from(
                        line,
                        at + run,
                        InlineMode::Text,
                        open.push(run),
                        failed,
                    )
                }
            } else if line[at] == '$' {
                let end = index_from(line, at + 1, '$');
                if end < line.len() {
                    proof {
                        lemma_index_from(line, at + 1, '$');
                    }
                    math_span(
                        if failed.contains(at) {
                            None
                        } else {
                            Some(katex_mathml(math_expression(line, at)))
                        },
                    ) + inline_from(
                        line,
                        end + 1,
                        InlineMode::Text,
                        open,
                        failed,
                    )
                } else {
                    seq!['$'] + inline_from(line, at + 1, InlineMode::Text, open, failed)
                }
            } else {
                seq![line[at]] + inline_from(line, at + 1, InlineMode::Text, open, failed)
            },
        }
    }
}

/// The markup for the inline content of one line, where the renderer
/// failed for the math that opens at the positions in `failed`.
pub open spec fn inline_markup(line: Seq<char>, failed: Set<int>) -> Seq<char> {
    inline_from(line, 0, InlineMode::Text, Seq::empty(), failed)
}

/// A line that holds no two `$`, so that no math can stand in it.
pub open spec fn math_free(line: Seq<char>) -> bool {
    forall|i: int, j: int|
        0 <= i < j < line.len() ==> !(#[trigger] line[i] == '$' && #[trigger] line[j] == '$')
}

/// Whether two sets of positions hold the same positions below `bound`.
pub open spec fn same_below(first: Set<int>, second: Set<int>, bound: int) -> bool {
    forall|at: int| at < bound ==> first.contains(at) == second.contains(at)
}

/// The markup of a line without math does not depend on what the renderer
/// would answer.
pub proof fn lemma_inline_without_math(
    line: Seq<char>,
    at: int,
    mode: InlineMode,
    open: Seq<nat>,
    failed: Set<int>,
)
    requires
        math_free(line),
    ensures
        inline_from(line, at, mode, open, failed) == inline_from(
            line,
            at,
            mode,
            open,
            Set::empty(),
        ),
    decreases line.len() - at,
{
    let none = Set::<int>::empty();
    if 0 <= at < line.len() {
        reveal_strlit("<html>");
        reveal_strlit("</html>");
        match mode {
            InlineMode::Code => {
                lemma_inline_without_math(line, at + 1, InlineMode::Text, open, failed);
                lemma_inline_without_math(line, at + 1, InlineMode::Code, open, failed);
            },
            InlineMode::RawHtml => {
                if has_at(line, at, "</html>"@) {
                    lemma_inline_without_math(line, at + 7, InlineMode::Text, open, failed);
                } else {
                    lemma_inline_without_math(line, at + 1, InlineMode::RawHtml, open, failed);
                }
            },
            InlineMode::Text => {
                if line[at] == '`' {
                    lemma_inline_without_math(line, at + 1, InlineMode::Code, open, failed);
                } else if has_at(line, at, "<html>"@) {
                    lemma_inline_without_math(line, at + 6, InlineMode::RawHtml, open, failed);
                } else if line[at] == '<' {
                    let end = index_from(line, at + 1, '>');
                    lemma_index_from(line, at + 1, '>');
                    if end < line.len() {
                        lemma_inline_without_math(line, end + 1, InlineMode::Text, open, failed);
                    } else {
                        lemma_inline_without_math(line, at + 1, InlineMode::Text, open, failed);
                    }
                } else if line[at] == '*' {
                    let run = run_from(line, at, '*', 3);
                    lemma_run_from(line, at, '*', 3);
                    lemma_inline_without_math(
                        line,
                        at + run,
                        InlineMode::Text,
                        open.drop_last(),
                        failed,
                    );
                    lemma_inline_without_math(
                        line,
                        at + run,
                        InlineMode::Text,
                        open.push(run),
                        failed,
                    );
                } else if line[at] == '$' {
                    let end = index_from(line, at + 1, '$');
                    lemma_index_from(line, at + 1, '$');
                    assert(end >= line.len()) by {
                        if end < line.len() {
                            assert(line[at] == '$' && line[end] == '$');
                        }
                    }
                    lemma_inline_without_math(line, at + 1, InlineMode::Text, open, failed);
                } else {
                    lemma_inline_without_math(line, at + 1, InlineMode::Text, open, failed);
                }
            },
        }
    }
}

/// A part of a line without math is without math.
pub proof fn lemma_math_free_part(line: Seq<char>, from: int, to: int)
    requires
        math_free(line),
        0 <= from <= to <= line.len(),
    ensures
        math_free(line.subrange(from, to)),
{
    let part = line.subrange(from, to);
    assert forall|i: int, j: int| 0 <= i < j < part.len() implies !(#[trigger] part[i] == '$'
        && #[trigger] part[j] == '$') by {
        assert(part[i] == line[from + i]);
        assert(part[j] == line[from + j]);
    }
}

/// The tag digit for a heading level.
fn heading_digit(level: usize) -> (digit: char)
    ensures
        digit == level_digit(level as nat),
{
    if level <= 1 {
        '1'
    } else if level == 2 {
        '2'
    } else if level == 3 {
        '3'
    } else if level == 4 {
        '4'
    } else if level == 5 {
        '5'
    } else {
        '6'
    }
}

/// Formats the characters of a heading line.
pub fn render_heading(line: &[char]) -> (html: String)
    ensures
        html@ == heading_markup(line@),
{
    let hashes = count_run(line, 0, '#', line.len());
    let level: usize = if hashes < 1 {
        1
    } else if hashes > 6 {
        6
    } else {
        hashes
    };
    let digit = heading_digit(level);
    let mut html = String::from_str("<h");
    html.push(digit);
    html.append(">");
    push_chars(&mut html, slice_subrange(line, hashes, line.len()));
    html.append("</h");
    html.push(digit);
    html.append(">");
    html
}

/// Formats a heading line: `### Title` becomes a level-3 heading whose
/// content is ` Title`.
pub fn parse_heading(line: &str) -> (html: String)
    ensures
        html@ == heading_markup(line@),
{
    let chars = str_chars(line);
    render_heading(chars.as_slice())
}

/// Formats the characters of an image line; `None` where the line is no
/// image.
pub fn render_image(line: &[char], base64_image_compiling: bool, images: &Vec<ImageFile>) -> (html:
    Option<String>)
    ensures
        match html {
            Some(markup) => image_markup(line@, base64_image_compiling, image_table(images@))
                == Some(markup@),
            None => image_markup(line@, base64_image_compiling, image_table(images@)) is None,
        },
{
    if line.len() < 2 || line[0] != '!' || line[1] != '[' {
        return None;
    }
    let end = find_from(line, 2, ']');
    let path = slice_subrange(line, 2, end);
    if base64_image_compiling {
        Some(embed_image(images, path))
    } else {
        let mut html = String::from_str("<img src=\"./");
        push_chars(&mut html, path);
        html.append("\"/>");
        Some(html)
    }
}

/// Formats an image line, `![path]`. Without `base64_image_compiling` the
/// element refers to `./path`; with it, the element carries the bytes that
/// `images` holds for the path, or an error paragraph where it holds none.
/// `None` where the line does not start with `![`.
pub fn image_parser(line: &str, base64_image_compiling: bool, images: &Vec<ImageFile>) -> (html:
    Option<String>)
    ensures
        match html {
            Some(markup) => image_markup(line@, base64_image_compiling, image_table(images@))
                == Some(markup@),
            None => image_markup(line@, base64_image_compiling, image_table(images@)) is None,
        },
{
    let chars = str_chars(line);
    render_image(chars.as_slice(), base64_image_compiling, images)
}

/// Appends the opening tags for an emphasis run.
fn push_emphasis_open(out: &mut String, run: usize)
    ensures
        final(out)@ == old(out)@ + emphasis_open(run as nat),
{
    if run == 1 {
        out.append("<em>");
    } else if run == 2 {
        out.append("<strong>");
    } else if run == 3 {
        out.append("<strong><em>");
    } else {
        assert(out@ + Seq::<char>::empty() =~= out@);
    }
}

/// Appends the closing tags for an emphasis run.
fn push_emphasis_close(out: &mut String, run: usize)
    ensures
        final(out)@ == old(out)@ + emphasis_close(run as nat),
{
    if run == 1 {
        out.append("</em>");
    } else if run == 2 {
        out.append("</strong>");
    } else if run == 3 {
        out.append("</em></strong>");
    } else {
        assert(out@ + Seq::<char>::empty() =~= out@);
    }
}

/// The emphasis runs of the scanner's stack, as plain numbers.
pub open spec fn runs_view(stack: Seq<usize>) -> Seq<nat> {
    stack.map_values(|run: usize| run as nat)
}

/// One step of the scanner, for every way in which the renderer may go on
/// to answer: what was collected up to `at`, with `piece` added, is followed
/// by the markup from `next` on.
proof fn lemma_scanned(
    line: Seq<char>,
    before: Seq<char>,
    piece: Seq<char>,
    at: int,
    mode: InlineMode,
    open: Seq<nat>,
    failed: Set<int>,
    next: int,
    next_mode: InlineMode,
    next_open: Seq<nat>,
    next_failed: Set<int>,
)
    requires
        at <= next,
        same_below(next_failed, failed, at),
        forall|answers: Set<int>| #[trigger]
            same_below(answers, failed, at) ==> inline_markup(line, answers) == before
                + inline_from(line, at, mode, open, answers),
        forall|answers: Set<int>| #[trigger]
            same_below(answers, next_failed, next) ==> inline_from(line, at, mode, open, answers)
                == piece + inline_from(line, next, next_mode, next_open, answers),
    ensures
        forall|answers: Set<int>| #[trigger]
            same_below(answers, next_failed, next) ==> inline_markup(line, answers) == (before
                + piece) + inline_from(line, next, next_mode, next_open, answers),
{
    assert forall|answers: Set<int>| #[trigger]
        same_below(answers, next_failed, next) implies inline_markup(line, answers) == (before
        + piece) + inline_from(line, next, next_mode, next_open, answers) by {
        assert(same_below(answers, failed, at));
        lemma_append_twice(
            before,
            piece,
            inline_from(line, next, next_mode, next_open, answers),
        );
    }
}

/// Scans the characters of one line and returns its inline markup. Each
/// `$…$` is handed to the renderer; the markup holds its rendering, or the
/// error fragment where the renderer failed, so the result is the markup of
/// the line for some set of positions at which it failed. For a line without
/// math nothing is asked of the renderer and the result is the one markup of
/// the line.
pub fn render_inline(line: &[char]) -> (html: String)
    ensures
        exists|failed: Set<int>| html@ == inline_markup(line@, failed),
        math_free(line@) ==> html@ == inline_markup(line@, Set::empty()),
{
    let len = line.len();
    let mut out = String::new();
    let mut stack: Vec<usize> = Vec::new();
    let mut mode = InlineMode::Text;
    let mut i: usize = 0;
    let ghost mut failed: Set<int> = Set::empty();
    proof {
        reveal_strlit("<html>");
        reveal_strlit("</html>");
        assert(runs_view(stack@) =~= Seq::<nat>::empty());
        assert forall|answers: Set<int>| #[trigger]
            same_below(answers, failed, 0) implies inline_markup(line@, answers) == out@
            + inline_from(line@, 0, mode, runs_view(stack@), answers) by {
            assert(out@ + inline_markup(line@, answers) =~= inline_markup(line@, answers));
        }
    }
    while i < len
        invariant
            len == line@.len(),
            i <= len,
            "<html>"@.len() == 6,
            "</html>"@.len() == 7,
            forall|at: int| failed.contains(at) ==> at < i,
            forall|answers: Set<int>| #[trigger]
                same_below(answers, failed, i as int) ==> inline_markup(line@, answers) == out@
                    + inline_from(line@, i as int, mode, runs_view(stack@), answers),
        decreases len - i,
    {
        let ghost before = out@;
        let ghost open = runs_view(stack@);
        let ghost at = i as int;
        let ghost mode_before = mode;
        let ghost failed_before = failed;
        let c = line[i];
        match mode {
            InlineMode::Code => {
                if c == '`' {
                    out.append("</code></pre>");
                    mode = InlineMode::Text;
                    proof {
                        lemma_scanned(
                            line@,
                            before,
                            "</code></pre>"@,
                            at,
                            mode_before,
                            open,
                            failed_before,
                            at + 1,
                            InlineMode::Text,
                            open,
                            failed,
                        );
                    }
                } else {
                    out.push(c);
                    assert(out@ =~= before + seq![c]);
                    proof {
                        lemma_scanned(
                            line@,
                            before,
                            seq![c],
                            at,
                            mode_before,
                            open,
                            failed_before,
                            at + 1,
                            InlineMode::Code,
                            open,
                            failed,
                        );
                    }
                }
                i += 1;
            },
            InlineMode::RawHtml => {
                if matches_at(line, i, "</html>") {
                    mode = InlineMode::Text;
                    i += 7;
                    assert(out@ =~= before + Seq::<char>::empty());
                    proof {
                        assert forall|answers: Set<int>| #[trigger]
                            same_below(answers, failed, at + 7) implies inline_from(
                            line@,
                            at,
                            mode_before,
                            open,
                            answers,
                        ) == Seq::<char>::empty() + inline_from(
                            line@,
                            at + 7,
                            InlineMode::Text,
                            open,
                            answers,
                        ) by {
                            let rest = inline_from(line@, at + 7, InlineMode::Text, open, answers);
                            assert(Seq::<char>::empty() + rest =~= rest);
                        }
                    }
                    proof {
                        lemma_scanned(
                            line@,
                            before,
                            Seq::<char>::empty(),
                            at,
                            mode_before,
                            open,
                            failed_before,
                            at + 7,
                            InlineMode::Text,
                            open,
                            failed,
                        );
                    }
                } else {
                    out.push(c);
                    assert(out@ =~= before + seq![c]);
                    proof {
                        lemma_scanned(
                            line@,
                            before,
                            seq![c],
                            at,
                            mode_before,
                            open,
                            failed_before,
                            at + 1,
                            InlineMode::RawHtml,
                            open,
                            failed,
                        );
                    }
                    i += 1;
                }
            },
            InlineMode::Text => {
                if c == '`' {
                    out.append("<pre><code>");
                    mode = InlineMode::Code;
                    proof {
                        lemma_scanned(
                            line@,
                            before,
                            "<pre><code>"@,
                            at,
                            mode_before,
                            open,
                            failed_before,
                            at + 1,
                            InlineMode::Code,
                            open,
                            failed,
                        );
                    }
                    i += 1;
                } else if matches_at(line, i, "<html>") {
                    mode = InlineMode::RawHtml;
                    i += 6;
                    assert(out@ =~= before + Seq::<char>::empty());
                    proof {
                        assert forall|answers: Set<int>| #[trigger]
                            same_below(answers, failed, at + 6) implies inline_from(
                            line@,
                            at,
                            mode_before,
                            open,
                            answers,
                        ) == Seq::<char>::empty() + inline_from(
                            line@,
                            at + 6,
                            InlineMode::RawHtml,
                            open,
                            answers,
                        ) by {
                            let rest = inline_from(
                                line@,
                                at + 6,
                                InlineMode::RawHtml,
                                open,
                                answers,
                            );
                            assert(Seq::<char>::empty() + rest =~= rest);
                        }
                    }
                    proof {
                        lemma_scanned(
                            line@,
                            before,
                            Seq::<char>::empty(),
                            at,
                            mode_before,
                            open,
                            failed_before,
                            at + 6,
                            InlineMode::RawHtml,
                            open,
                            failed,
                        );
                    }
                } else if c == '<' {
                    let end = find_from(line, i + 1, '>');
                    if end < len {
                        let target = slice_subrange(line, i + 1, end);
                        out.append("<a href=\"");
                        push_chars(&mut out, target);
                        out.append("\">");
                        push_chars(&mut out, target);
                        out.append("</a>");
                        assert(out@ =~= before + anchor(target@));
                        proof {
                            lemma_scanned(
                                line@,
                                before,
                                anchor(target@),
                                at,
                                mode_before,
                                open,
                                failed_before,
                                end + 1,
                                InlineMode::Text,
                                open,
                                failed,
                            );
                        }
                        i = end + 1;
                    } else {
                        out.push('<');
                        assert(out@ =~= before + seq!['<']);
                        proof {
                            lemma_scanned(
                                line@,
                                before,
                                seq!['<'],
                                at,
                                mode_before,
                                open,
                                failed_before,
                                at + 1,
                                InlineMode::Text,
                                open,
                                failed,
                            );
                        }
                        i += 1;
                    }
                } else if c == '*' {
                    let run = count_run(line, i, '*', 3);
                    let opened = stack.len();
                    proof {
                        lemma_run_from(line@, at, '*', 3);
                    }
                    if opened > 0 && stack[opened - 1] == run {
                        stack.pop();
                        push_emphasis_close(&mut out, run);
                        assert(runs_view(stack@) =~= open.drop_last());
                        proof {
                            lemma_scanned(
                                line@,
                                before,
                                emphasis_close(run as nat),
                                at,
                                mode_before,
                                open,
                                failed_before,
                                at + run,
                                InlineMode::Text,
                                open.drop_last(),
                                failed,
                            );
                        }
                    } else {
                        stack.push(run);
                        push_emphasis_open(&mut out, run);
                        assert(runs_view(stack@) =~= open.push(run as nat));
                        proof {
                            lemma_scanned(
                                line@,
                                before,
                                emphasis_open(run as nat),
                                at,
                                mode_before,
                                open,
                                failed_before,
                                at + run,
                                InlineMode::Text,
                                open.push(run as nat),
                                failed,
                            );
                        }
                    }
                    i += run;
                } else if c == '$' {
                    let end = find_from(line, i + 1, '$');
                    if end < len {
                        let expression = chars_string(slice_subrange(line, i + 1, end));
                        assert(expression@ == math_expression(line@, at));
                        let rendered = render_math(expression.as_str());
                        proof {
                            if rendered is None {
                                failed = failed.insert(at);
                            }
                        }
                        let span = math_fragment(rendered);
                        out.append(span.as_str());
                        proof {
                            assert forall|answers: Set<int>| #[trigger]
                                same_below(answers, failed, end + 1) implies inline_from(
                                line@,
                                at,
                                mode_before,
                                open,
                                answers,
                            ) == span@ + inline_from(
                                line@,
                                end + 1,
                                InlineMode::Text,
                                open,
                                answers,
                            ) by {
                                assert(answers.contains(at) == failed.contains(at));
                            }
                        }
                        proof {
                            lemma_scanned(
                                line@,
                                before,
                                span@,
                                at,
                                mode_before,
                                open,
                                failed_before,
                                end + 1,
                                InlineMode::Text,
                                open,
                                failed,
                            );
                        }
                        i = end + 1;
                    } else {
                        out.push('$');
                        assert(out@ =~= before + seq!['$']);
                        proof {
                            lemma_scanned(
                                line@,
                                before,
                                seq!['$'],
                                at,
                                mode_before,
                                open,
                                failed_before,
                                at + 1,
                                InlineMode::Text,
                                open,
                                failed,
                            );
                        }
                        i += 1;
                    }
                } else {
                    out.push(c);
                    assert(out@ =~= before + seq![c]);
                    proof {
                        lemma_scanned(
                            line@,
                            before,
                            seq![c],
                            at,
                            mode_before,
                            open,
                            failed_before,
                            at + 1,
                            InlineMode::Text,
                            open,
                            failed,
                        );
                    }
                    i += 1;
                }
            },
        }
    }
    while stack.len() > 0
        invariant
            len == line@.len(),
            forall|answers: Set<int>| #[trigger]
                same_below(answers, failed, len as int) ==> inline_markup(line@, answers) == out@
                    + close_all(runs_view(stack@)),
        decreases stack@.len(),
    {
        let ghost before = out@;
        let ghost open = runs_view(stack@);
        let run = stack[stack.len() - 1];
        stack.pop();
        push_emphasis_close(&mut out, run);
        proof {
            assert(runs_view(stack@) =~= open.drop_last());
            assert forall|answers: Set<int>| #[trigger]
                same_below(answers, failed, len as int) implies inline_markup(line@, answers)
                == out@ + close_all(runs_view(stack@)) by {
                lemma_append_twice(before, emphasis_close(run as nat), close_all(open.drop_last()));
            }
        }
    }
    proof {
        assert(same_below(failed, failed, len as int));
        assert(out@ + Seq::<char>::empty() =~= out@);
        if math_free(line@) {
            lemma_inline_without_math(line@, 0, InlineMode::Text, Seq::empty(), failed);
        }
    }
    out
}

/// Scans one line and returns its inline markup: `*a*` becomes `<em>a</em>`,
/// and emphasis left open is closed at the end of the line. Math is handed
/// to the renderer; where that fails, the error fragment stands for it.
pub fn parse_markdown_line(line: &str) -> (html: String)
    ensures
        exists|failed: Set<int>| html@ == inline_markup(line@, failed),
        math_free(line@) ==> html@ == inline_markup(line@, Set::empty()),
{
    let chars = str_chars(line);
    render_inline(chars.as_slice())
}

/// Appending `piece` and then `rest` is appending both at once.
proof fn lemma_append_twice(before: Seq<char>, piece: Seq<char>, rest: Seq<char>)
    ensures
        (before + piece) + rest == before + (piece + rest),
{
    assert((before + piece) + rest =~= before + (piece + rest));
}

} // verus!
