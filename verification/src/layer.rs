//! The block layer: the lines of one nesting depth, turned into lists,
//! verbatim blocks, headings, images, rules and paragraphs of inline text.
//!
//! A layer of depth `d` owns the lines that start with `d` tabs, and the
//! blank lines among them. Each list item hands the lines that follow it to
//! a layer of depth `d + 1`, and goes on with the first line which that
//! layer does not own. The line a layer stops at is a spec function of the
//! lines, and its markup one of the lines, the files of the images and the
//! places at which the renderer of math failed; `process_layer` is proved
//! to stop at that line and to return that markup for some such places, and
//! for the one set there is where the document holds no math.

use crate::images::{image_table, ImageContent, ImageFile};
use crate::parsing::{
    InlineMode, heading_markup, image_markup, image_path, inline_markup, lemma_inline_without_math,
    lemma_math_free_part, math_free, render_heading, render_image, render_inline,
};
use crate::text::{
    char_is_ascii_digit, chars_string, count_run, find_from, has_at, is_ascii_digit, is_blank,
    is_white_space, lemma_run_from, lemma_run_from_limit, line_is_blank, matches_at, push_chars,
    run_from, str_chars,
};
use crate::types::{lines_view, split_lines, BlockType, LineTracker, ListType};
use crate::utils::{error_fragment, html_error};
use vstd::prelude::*;
use vstd::slice::slice_subrange;
use vstd::string::StringExecFns;

verus! {

/// The marker that a blank line leaves in the output, and that ends a line
/// of text.
pub open spec fn spacer() -> Seq<char> {
    "<span class='small-space'></span>"@
}

/// The number of tabs that are taken off `line` at `depth`: `depth` where
/// the line starts with that many tabs, the length of the line where it is
/// shorter and holds tabs only. `None` where one of the first `depth`
/// characters is no tab.
pub open spec fn leading_tabs(line: Seq<char>, depth: nat) -> Option<nat> {
    let tabs = run_from(line, 0, '\t', depth);
    if tabs == depth || tabs == line.len() {
        Some(tabs)
    } else {
        None
    }
}

/// Whether a layer of `depth` owns `line`: the line is blank, or it is
/// indented by at least `depth` tabs.
pub open spec fn in_layer(line: Seq<char>, depth: nat) -> bool {
    is_blank(line) || leading_tabs(line, depth) is Some
}

/// The position at which a layer of `depth` that starts at `from` stops: the
/// first line from there on that it does not own, or the end of the
/// document.
pub open spec fn layer_end(lines: Seq<Seq<char>>, from: int, depth: nat) -> int
    decreases lines.len() - from,
{
    if from < 0 || from >= lines.len() {
        lines.len() as int
    } else if !in_layer(lines[from], depth) {
        from
    } else {
        layer_end(lines, from + 1, depth)
    }
}

/// The kind of list that `text` is an item of: `- ` and `* ` mark an item of
/// an unordered list, a digit and `.` one of an ordered list.
pub open spec fn list_marker(text: Seq<char>) -> Option<ListType> {
    if text.len() >= 2 && (text[0] == '-' || text[0] == '*') && text[1] == ' ' {
        Some(ListType::UL)
    } else if text.len() >= 2 && is_ascii_digit(text[0]) && text[1] == '.' {
        Some(ListType::OL)
    } else {
        None
    }
}

/// The tag that opens a list.
pub open spec fn list_open(kind: ListType) -> Seq<char> {
    match kind {
        ListType::UL => "<ul>"@,
        ListType::OL => "<ol>"@,
    }
}

/// The tag that closes the list that is open, if one is.
pub open spec fn list_close(list: Option<ListType>) -> Seq<char> {
    match list {
        Some(ListType::UL) => "</ul>"@,
        Some(ListType::OL) => "</ol>"@,
        None => Seq::empty(),
    }
}

/// A list item: its title, then its nested content as a paragraph unless
/// there is none.
pub open spec fn list_item(title: Seq<char>, body: Seq<char>) -> Seq<char> {
    "<li>"@ + title + (if body.len() > 0 {
        "<p>"@ + body + "</p>\n"@
    } else {
        Seq::empty()
    }) + "</li>\n"@
}

/// The verbatim block that the line `text` opens: a code fence for a line
/// that starts with three backticks, raw HTML for the line `<html>`.
pub open spec fn opened_block(text: Seq<char>) -> Option<BlockType> {
    if has_at(text, 0, "```"@) {
        Some(BlockType::CODE)
    } else if text == "<html>"@ {
        Some(BlockType::HTML)
    } else {
        None
    }
}

/// Whether the line `text` ends the verbatim block `kind`: a line that
/// starts with three backticks ends a code fence, the line `</html>` ends raw
/// HTML.
pub open spec fn closes_block(text: Seq<char>, kind: BlockType) -> bool {
    match kind {
        BlockType::CODE => has_at(text, 0, "```"@),
        BlockType::HTML => text == "</html>"@,
    }
}

/// The markup for the line `text` inside the verbatim block `kind`: the
/// line itself and a line feed, or the end of the block. The end of a code
/// fence closes its element; the end of raw HTML gives nothing.
pub open spec fn verbatim_line_markup(text: Seq<char>, kind: BlockType) -> Seq<char> {
    if !closes_block(text, kind) {
        text.push('\n')
    } else {
        match kind {
            BlockType::CODE => "</code></pre>"@,
            BlockType::HTML => Seq::empty(),
        }
    }
}

/// The markup for a line that is no list item and stands in no verbatim
/// block: a heading for `#`; an image for `![`; the opening of a code fence;
/// nothing for `<html>`; a rule for `---`; and for all else the inline
/// markup of the line, followed by a spacer unless the line ends with a
/// backslash, which is dropped. `failed` holds the positions, in the text
/// that is scanned, of the math for which the renderer failed.
pub open spec fn plain_line_markup(
    text: Seq<char>,
    embed: bool,
    files: Map<Seq<char>, ImageContent>,
    failed: Set<int>,
) -> Seq<char> {
    if text.len() > 0 && text[0] == '#' {
        heading_markup(text)
    } else if image_markup(text, embed, files) is Some {
        image_markup(text, embed, files)->0
    } else if has_at(text, 0, "```"@) {
        "<pre><code>"@
    } else if text == "<html>"@ {
        Seq::empty()
    } else if has_at(text, 0, "---"@) {
        "<hr>"@
    } else if text.len() > 0 && text.last() == '\\' {
        inline_markup(text.drop_last(), failed)
    } else {
        inline_markup(text, failed) + spacer()
    }
}

/// The markup of a layer, and whether it ended inside a verbatim block.
pub struct LayerText {
    /// The markup collected up to the end of the layer.
    pub html: Seq<char>,
    /// Whether a code fence or raw HTML was still open there.
    pub unclosed: bool,
}

impl LayerText {
    /// This text with `piece` in front of it.
    pub open spec fn after(self, piece: Seq<char>) -> LayerText {
        LayerText { html: piece + self.html, unclosed: self.unclosed }
    }
}

/// What a layer hands back: its markup, or an error fragment in its place
/// where a verbatim block was left open.
pub open spec fn finished(layer: LayerText) -> Seq<char> {
    if layer.unclosed {
        error_fragment("Block was not closed"@)
    } else {
        layer.html
    }
}

/// Of the failures of the renderer in a document, those in line `pos`: the
/// positions, in the text of that line which is scanned, of the math for
/// which it failed.
pub open spec fn line_failures(failures: Set<(int, int)>, pos: int) -> Set<int> {
    Set::new(|at: int| failures.contains((pos, at)))
}

/// The text of a layer of `depth` from line `pos` on, with `list` open and
/// inside `block`, where the renderer failed for the math at `failures`,
/// each given by its line and its position in the text scanned there.
///
/// The layer ends at the end of the document or in front of a line that it
/// does not own; there it closes its list. Before that, a blank line gives a
/// spacer. Any other line is read without its `depth` tabs. Inside a code
/// fence it is copied, up to a line that starts with three backticks; inside
/// raw HTML it is copied, up to the line `</html>`. A list item opens the
/// list unless one is open, takes the layer of `depth + 1` that follows it as
/// its body, and the layer goes on where that one stopped. Any other line
/// closes the list and gives its own markup.
pub open spec fn layer_from(
    lines: Seq<Seq<char>>,
    pos: int,
    depth: nat,
    list: Option<ListType>,
    block: Option<BlockType>,
    embed: bool,
    files: Map<Seq<char>, ImageContent>,
    failures: Set<(int, int)>,
) -> LayerText
    decreases lines.len() - pos,
{
    if pos < 0 || pos >= lines.len() || !in_layer(lines[pos], depth) {
        LayerText { html: list_close(list), unclosed: block is Some }
    } else if is_blank(lines[pos]) {
        layer_from(lines, pos + 1, depth, list, block, embed, files, failures).after(spacer())
    } else {
        let text = lines[pos].skip(depth as int);
        match block {
            Some(kind) => layer_from(
                lines,
                pos + 1,
                depth,
                list,
                if closes_block(text, kind) {
                    None
                } else {
                    block
                },
                embed,
                files,
                failures,
            ).after(verbatim_line_markup(text, kind)),
            None => match list_marker(text) {
                Some(kind) => {
                    let body = finished(
                        layer_from(lines, pos + 1, depth + 1, None, None, embed, files, failures),
                    );
                    let next = layer_end(lines, pos + 1, depth + 1);
                    let item = list_item(
                        inline_markup(text.skip(2), line_failures(failures, pos)),
                        body,
                    );
                    proof {
                        lemma_layer_end(lines, pos + 1, depth + 1);
                    }
                    if list is None {
                        layer_from(
                            lines,
                            next,
                            depth,
                            Some(kind),
                            None,
                            embed,
                            files,
                            failures,
                        ).after(list_open(kind) + item)
                    } else {
                        layer_from(lines, next, depth, list, None, embed, files, failures).after(
                            item,
                        )
                    }
                },
                None => layer_from(
                    lines,
                    pos + 1,
                    depth,
                    None,
                    opened_block(text),
                    embed,
                    files,
                    failures,
                ).after(
                    list_close(list) + plain_line_markup(
                        text,
                        embed,
                        files,
                        line_failures(failures, pos),
                    ),
                ),
            },
        }
    }
}

/// The markup of the layer of `depth` that starts at line `pos`, where the
/// renderer failed for the math at `failures`.
pub open spec fn layer_markup(
    lines: Seq<Seq<char>>,
    pos: int,
    depth: nat,
    embed: bool,
    files: Map<Seq<char>, ImageContent>,
    failures: Set<(int, int)>,
) -> Seq<char> {
    finished(layer_from(lines, pos, depth, None, None, embed, files, failures))
}

/// Whether no line holds math.
pub open spec fn without_math(lines: Seq<Seq<char>>) -> bool {
    forall|k: int| 0 <= k < lines.len() ==> math_free(#[trigger] lines[k])
}

/// Whether two sets of failures hold the same for the lines from `from` up
/// to `to`.
pub open spec fn same_in_lines(
    first: Set<(int, int)>,
    second: Set<(int, int)>,
    from: int,
    to: int,
) -> bool {
    forall|k: int, at: int|
        from <= k < to ==> first.contains((k, at)) == second.contains((k, at))
}

/// The path of the image that `line` names at whatever depth it stands:
/// the line without its leading tabs starts with `![`.
pub open spec fn listed_image(line: Seq<char>) -> Option<Seq<char>> {
    image_path(line.skip(run_from(line, 0, '\t', line.len()) as int))
}

/// The paths of the images that the lines from `from` on name, in the order
/// of the lines.
pub open spec fn listed_images(lines: Seq<Seq<char>>, from: int) -> Seq<Seq<char>>
    decreases lines.len() - from,
{
    if from < 0 || from >= lines.len() {
        Seq::empty()
    } else {
        match listed_image(lines[from]) {
            Some(path) => seq![path] + listed_images(lines, from + 1),
            None => listed_images(lines, from + 1),
        }
    }
}

/// The markup of a whole document: the layer of depth 0 over all its lines,
/// where the renderer failed for the math at `failures`.
pub open spec fn document_markup(
    content: Seq<char>,
    embed: bool,
    files: Map<Seq<char>, ImageContent>,
    failures: Set<(int, int)>,
) -> Seq<char> {
    layer_markup(split_lines(content), 0, 0, embed, files, failures)
}

/// A layer stops in front of the first line that it does not own. Every
/// line from its start up to there is its own, so each is blank or indented
/// by at least `depth` tabs; and the line it stops at, if there is one, is
/// neither, and is the next line read once the layer has returned.
pub proof fn lemma_layer_end(lines: Seq<Seq<char>>, from: int, depth: nat)
    requires
        0 <= from <= lines.len(),
    ensures
        from <= layer_end(lines, from, depth) <= lines.len(),
        forall|k: int| from <= k < layer_end(lines, from, depth) ==> in_layer(#[trigger] lines[k], depth),
        layer_end(lines, from, depth) < lines.len() ==> !in_layer(
            lines[layer_end(lines, from, depth)],
            depth,
        ),
    decreases lines.len() - from,
{
    if from < lines.len() && in_layer(lines[from], depth) {
        lemma_layer_end(lines, from + 1, depth);
    }
}

/// A line that a layer owns and that is not blank starts with exactly
/// `depth` tabs and holds more than those.
pub proof fn lemma_indented_line(line: Seq<char>, depth: nat)
    requires
        !is_blank(line),
        leading_tabs(line, depth) is Some,
    ensures
        leading_tabs(line, depth) == Some(depth),
        depth < line.len(),
{
    lemma_run_from(line, 0, '\t', depth);
    let tabs = run_from(line, 0, '\t', depth);
    if tabs == line.len() {
        assert forall|i: int| 0 <= i < line.len() implies is_white_space(#[trigger] line[i]) by {
            assert(line[i] == '\t');
        }
    }
}

/// A line that the layer of `depth + 1` owns is owned by the layer of
/// `depth` too.
pub proof fn lemma_deeper_line(line: Seq<char>, depth: nat)
    requires
        in_layer(line, depth + 1),
    ensures
        in_layer(line, depth),
{
    if !is_blank(line) {
        lemma_run_from_limit(line, 0, '\t', depth, depth + 1);
        lemma_run_from(line, 0, '\t', depth + 1);
    }
}

/// The number of tabs to take off `line` at `depth`, or `None` where the
/// line is not indented that far.
fn indent_of(line: &[char], depth: usize) -> (tabs: Option<usize>)
    ensures
        match tabs {
            Some(count) => leading_tabs(line@, depth as nat) == Some(count as nat),
            None => leading_tabs(line@, depth as nat) is None,
        },
{
    let count = count_run(line, 0, '\t', depth);
    if count == depth || count == line.len() {
        Some(count)
    } else {
        None
    }
}

/// The number of leading tabs of `line`, counted up to `depth`; `None`
/// where one of its first `depth` characters is no tab.
pub fn clamped_nb_leading_tabs(line: &str, depth: usize) -> (tabs: Option<usize>)
    ensures
        match tabs {
            Some(count) => leading_tabs(line@, depth as nat) == Some(count as nat),
            None => leading_tabs(line@, depth as nat) is None,
        },
{
    let chars = str_chars(line);
    indent_of(chars.as_slice(), depth)
}

/// The kind of list that the characters of a line mark an item of.
fn marker_of(text: &[char]) -> (kind: Option<ListType>)
    ensures
        kind == list_marker(text@),
{
    if text.len() < 2 {
        None
    } else if (text[0] == '-' || text[0] == '*') && text[1] == ' ' {
        Some(ListType::UL)
    } else if char_is_ascii_digit(text[0]) && text[1] == '.' {
        Some(ListType::OL)
    } else {
        None
    }
}

/// Tells whether `line` is a list item, and of which kind of list.
pub fn check_list_type(line: &str) -> (kind: Option<ListType>)
    ensures
        kind == list_marker(line@),
{
    let chars = str_chars(line);
    marker_of(chars.as_slice())
}

/// Appends the tag that opens a list of `kind`.
fn push_list_open(out: &mut String, kind: ListType)
    ensures
        final(out)@ == old(out)@ + list_open(kind),
{
    match kind {
        ListType::UL => out.append("<ul>"),
        ListType::OL => out.append("<ol>"),
    }
}

/// Appends the tag that closes `list`, if one is open.
fn push_list_close(out: &mut String, list: Option<ListType>)
    ensures
        final(out)@ == old(out)@ + list_close(list),
{
    match list {
        Some(ListType::UL) => out.append("</ul>"),
        Some(ListType::OL) => out.append("</ol>"),
        None => {
            assert(out@ + Seq::<char>::empty() =~= out@);
        },
    }
}

/// Appends a list item made of `title` and `body`.
fn push_list_item(out: &mut String, title: &str, body: &str)
    ensures
        final(out)@ == old(out)@ + list_item(title@, body@),
{
    let ghost before = out@;
    out.append("<li>");
    out.append(title);
    if !body.is_empty() {
        out.append("<p>");
        out.append(body);
        out.append("</p>\n");
        assert(out@ =~= before + "<li>"@ + title@ + ("<p>"@ + body@ + "</p>\n"@));
    } else {
        assert(out@ =~= before + "<li>"@ + title@ + Seq::<char>::empty());
    }
    out.append("</li>\n");
    assert(out@ =~= before + list_item(title@, body@));
}

/// Appends the markup of a line inside the verbatim block `kind`, and tells
/// whether the line ends the block.
fn push_verbatim_line(out: &mut String, text: &[char], kind: BlockType) -> (closed: bool)
    ensures
        final(out)@ == old(out)@ + verbatim_line_markup(text@, kind),
        closed == closes_block(text@, kind),
{
    proof {
        reveal_strlit("</html>");
    }
    let closed = match kind {
        BlockType::CODE => matches_at(text, 0, "```"),
        BlockType::HTML => text.len() == 7 && matches_at(text, 0, "</html>"),
    };
    proof {
        if text@.len() == 7 {
            assert(text@.subrange(0, 7) =~= text@);
        }
    }
    if !closed {
        let ghost before = out@;
        push_chars(out, text);
        out.push('\n');
        assert(out@ =~= before + text@.push('\n'));
    } else {
        match kind {
            BlockType::CODE => out.append("</code></pre>"),
            BlockType::HTML => {
                assert(out@ + Seq::<char>::empty() =~= out@);
            },
        }
    }
    closed
}

/// Appends the markup of a line that is no list item and stands in no
/// verbatim block, and returns the block that the line opens. The markup is
/// that of the line for some set of positions at which the renderer failed.
fn push_plain_line(
    out: &mut String,
    text: &[char],
    base64_image_compiling: bool,
    images: &Vec<ImageFile>,
) -> (opened: Option<BlockType>)
    requires
        text@.len() > 0,
    ensures
        exists|failed: Set<int>|
            final(out)@ == old(out)@ + plain_line_markup(
                text@,
                base64_image_compiling,
                image_table(images@),
                failed,
            ),
        opened == opened_block(text@),
{
    proof {
        reveal_strlit("```");
        reveal_strlit("<html>");
        reveal_strlit("---");
        if text@.len() >= 3 {
            assert(text@.subrange(0, 3)[0] == text@[0]);
        }
        if text@.len() == 6 {
            assert(text@.subrange(0, 6) =~= text@);
        }
    }
    let ghost before = out@;
    let ghost embed = base64_image_compiling;
    let ghost files = image_table(images@);
    let ghost none = Set::<int>::empty();
    let first = text[0];
    if first == '#' {
        let heading = render_heading(text);
        out.append(heading.as_str());
        assert(out@ == before + plain_line_markup(text@, embed, files, none));
        return None;
    }
    if first == '!' {
        if let Some(image) = render_image(text, base64_image_compiling, images) {
            out.append(image.as_str());
            assert(out@ == before + plain_line_markup(text@, embed, files, none));
            return None;
        }
    }
    if matches_at(text, 0, "```") {
        out.append("<pre><code>");
        assert(out@ == before + plain_line_markup(text@, embed, files, none));
        return Some(BlockType::CODE);
    }
    if text.len() == 6 && matches_at(text, 0, "<html>") {
        assert(out@ + Seq::<char>::empty() =~= out@);
        assert(out@ == before + plain_line_markup(text@, embed, files, none));
        return Some(BlockType::HTML);
    }
    if matches_at(text, 0, "---") {
        out.append("<hr>");
        assert(out@ == before + plain_line_markup(text@, embed, files, none));
        return None;
    }
    let last = text.len() - 1;
    if text[last] == '\\' {
        let inline = render_inline(slice_subrange(text, 0, last));
        assert(text@.subrange(0, last as int) =~= text@.drop_last());
        out.append(inline.as_str());
        proof {
            let failed = choose|failed: Set<int>|
                inline@ == inline_markup(text@.drop_last(), failed);
            assert(out@ == before + plain_line_markup(text@, embed, files, failed));
        }
    } else {
        let inline = render_inline(text);
        out.append(inline.as_str());
        out.append("<span class='small-space'></span>");
        proof {
            let failed = choose|failed: Set<int>| inline@ == inline_markup(text@, failed);
            assert(out@ =~= before + (inline@ + spacer()));
            assert(out@ == before + plain_line_markup(text@, embed, files, failed));
        }
    }
    None
}

/// The failures `failed` of one line, as failures in the document at line
/// `pos`.
pub open spec fn failures_in_line(failed: Set<int>, pos: int) -> Set<(int, int)> {
    Set::new(|place: (int, int)| place.0 == pos && failed.contains(place.1))
}

/// Of `failures`, those in the lines from `from` up to `to`.
pub open spec fn failures_between(failures: Set<(int, int)>, from: int, to: int) -> Set<
    (int, int),
> {
    Set::new(|place: (int, int)| from <= place.0 < to && failures.contains(place))
}

/// A list item at line `pos` of a layer of `depth` reaches up to the line at
/// which the layer one level deeper stops; that is past the item, and no
/// further than the layer of the item goes.
pub proof fn lemma_item_extent(lines: Seq<Seq<char>>, pos: int, depth: nat)
    requires
        0 <= pos < lines.len(),
        in_layer(lines[pos], depth),
    ensures
        pos < layer_end(lines, pos + 1, depth + 1) <= layer_end(lines, pos, depth) <= lines.len(),
        layer_end(lines, pos, depth) == layer_end(
            lines,
            layer_end(lines, pos + 1, depth + 1),
            depth,
        ),
{
    let next = layer_end(lines, pos + 1, depth + 1);
    lemma_layer_end(lines, pos + 1, depth + 1);
    assert forall|k: int| pos <= k < next implies in_layer(#[trigger] lines[k], depth) by {
        if k > pos {
            lemma_deeper_line(lines[k], depth);
        }
    }
    lemma_layer_end_skips(lines, pos, next, depth);
    lemma_layer_end(lines, next, depth);
}

/// The text of a layer depends on the failures of the renderer only through
/// those in the lines of the layer.
pub proof fn lemma_layer_reads_own_failures(
    lines: Seq<Seq<char>>,
    pos: int,
    depth: nat,
    list: Option<ListType>,
    block: Option<BlockType>,
    embed: bool,
    files: Map<Seq<char>, ImageContent>,
    first: Set<(int, int)>,
    second: Set<(int, int)>,
)
    requires
        0 <= pos <= lines.len(),
        same_in_lines(first, second, pos, layer_end(lines, pos, depth)),
    ensures
        layer_from(lines, pos, depth, list, block, embed, files, first) == layer_from(
            lines,
            pos,
            depth,
            list,
            block,
            embed,
            files,
            second,
        ),
    decreases lines.len() - pos,
{
    if pos < lines.len() && in_layer(lines[pos], depth) {
        lemma_layer_end(lines, pos + 1, depth);
        lemma_item_extent(lines, pos, depth);
        let next = layer_end(lines, pos + 1, depth + 1);
        assert(line_failures(first, pos) =~= line_failures(second, pos)) by {
            assert forall|at: int|
                line_failures(first, pos).contains(at) == line_failures(second, pos).contains(
                    at,
                ) by {
                assert(first.contains((pos, at)) == second.contains((pos, at)));
            }
        }
        assert(same_in_lines(first, second, pos + 1, layer_end(lines, pos + 1, depth)));
        assert(same_in_lines(first, second, pos + 1, next));
        assert(same_in_lines(first, second, next, layer_end(lines, next, depth)));
        let text = lines[pos].skip(depth as int);
        lemma_layer_reads_own_failures(lines, pos + 1, depth, list, block, embed, files, first, second);
        lemma_layer_reads_own_failures(lines, pos + 1, depth, list, None, embed, files, first, second);
        lemma_layer_reads_own_failures(
            lines,
            pos + 1,
            depth,
            None,
            opened_block(text),
            embed,
            files,
            first,
            second,
        );
        lemma_layer_reads_own_failures(
            lines,
            pos + 1,
            depth + 1,
            None,
            None,
            embed,
            files,
            first,
            second,
        );
        lemma_layer_reads_own_failures(lines, next, depth, list, None, embed, files, first, second);
        if list_marker(text) is Some {
            lemma_layer_reads_own_failures(
                lines,
                next,
                depth,
                Some(list_marker(text)->0),
                None,
                embed,
                files,
                first,
                second,
            );
        }
    }
}

/// The text of a layer in a document without math does not depend on what
/// the renderer would answer.
pub proof fn lemma_layer_without_math(
    lines: Seq<Seq<char>>,
    pos: int,
    depth: nat,
    list: Option<ListType>,
    block: Option<BlockType>,
    embed: bool,
    files: Map<Seq<char>, ImageContent>,
    failures: Set<(int, int)>,
)
    requires
        0 <= pos <= lines.len(),
        without_math(lines),
    ensures
        layer_from(lines, pos, depth, list, block, embed, files, failures) == layer_from(
            lines,
            pos,
            depth,
            list,
            block,
            embed,
            files,
            Set::empty(),
        ),
    decreases lines.len() - pos,
{
    let none = Set::<(int, int)>::empty();
    if pos < lines.len() && in_layer(lines[pos], depth) {
        lemma_item_extent(lines, pos, depth);
        let next = layer_end(lines, pos + 1, depth + 1);
        let line = lines[pos];
        lemma_layer_without_math(lines, pos + 1, depth, list, block, embed, files, failures);
        lemma_layer_without_math(lines, pos + 1, depth, list, None, embed, files, failures);
        if !is_blank(line) {
            lemma_indented_line(line, depth);
            let text = line.skip(depth as int);
            lemma_math_free_part(line, depth as int, line.len() as int);
            let here = line_failures(failures, pos);
            let nothing = line_failures(none, pos);
            if text.len() >= 2 {
                lemma_math_free_part(text, 2, text.len() as int);
                lemma_inline_without_math(text.skip(2), 0, InlineMode::Text, Seq::empty(), here);
                lemma_inline_without_math(
                    text.skip(2),
                    0,
                    InlineMode::Text,
                    Seq::empty(),
                    nothing,
                );
            }
            lemma_math_free_part(text, 0, text.len() - 1);
            lemma_inline_without_math(text.drop_last(), 0, InlineMode::Text, Seq::empty(), here);
            lemma_inline_without_math(
                text.drop_last(),
                0,
                InlineMode::Text,
                Seq::empty(),
                nothing,
            );
            lemma_inline_without_math(text, 0, InlineMode::Text, Seq::empty(), here);
            lemma_inline_without_math(text, 0, InlineMode::Text, Seq::empty(), nothing);
            lemma_layer_without_math(
                lines,
                pos + 1,
                depth,
                None,
                opened_block(text),
                embed,
                files,
                failures,
            );
            lemma_layer_without_math(lines, pos + 1, depth + 1, None, None, embed, files, failures);
            lemma_layer_without_math(lines, next, depth, list, None, embed, files, failures);
            if list_marker(text) is Some {
                lemma_layer_without_math(
                    lines,
                    next,
                    depth,
                    Some(list_marker(text)->0),
                    None,
                    embed,
                    files,
                    failures,
                );
            }
        }
    }
}

/// One step of a layer, for every way in which the renderer may go on to
/// answer: what was collected up to line `pos`, with `piece` added, is
/// followed by the text from line `next` on.
proof fn lemma_layer_step(
    lines: Seq<Seq<char>>,
    level: nat,
    embed: bool,
    files: Map<Seq<char>, ImageContent>,
    start: int,
    before: Seq<char>,
    piece: Seq<char>,
    pos: int,
    list: Option<ListType>,
    block: Option<BlockType>,
    failures: Set<(int, int)>,
    next: int,
    next_list: Option<ListType>,
    next_block: Option<BlockType>,
    next_failures: Set<(int, int)>,
)
    requires
        pos <= next,
        same_in_lines(next_failures, failures, start, pos),
        forall|answers: Set<(int, int)>| #[trigger]
            same_in_lines(answers, failures, start, pos) ==> ({
                let whole = layer_from(lines, start, level, None, None, embed, files, answers);
                let rest = layer_from(lines, pos, level, list, block, embed, files, answers);
                whole.html == before + rest.html && whole.unclosed == rest.unclosed
            }),
        forall|answers: Set<(int, int)>| #[trigger]
            same_in_lines(answers, next_failures, start, next) ==> layer_from(
                lines,
                pos,
                level,
                list,
                block,
                embed,
                files,
                answers,
            ) == layer_from(
                lines,
                next,
                level,
                next_list,
                next_block,
                embed,
                files,
                answers,
            ).after(piece),
    ensures
        forall|answers: Set<(int, int)>| #[trigger]
            same_in_lines(answers, next_failures, start, next) ==> ({
                let whole = layer_from(lines, start, level, None, None, embed, files, answers);
                let rest = layer_from(
                    lines,
                    next,
                    level,
                    next_list,
                    next_block,
                    embed,
                    files,
                    answers,
                );
                whole.html == (before + piece) + rest.html && whole.unclosed == rest.unclosed
            }),
{
    assert forall|answers: Set<(int, int)>| #[trigger]
        same_in_lines(answers, next_failures, start, next) implies ({
        let whole = layer_from(lines, start, level, None, None, embed, files, answers);
        let rest = layer_from(lines, next, level, next_list, next_block, embed, files, answers);
        whole.html == (before + piece) + rest.html && whole.unclosed == rest.unclosed
    }) by {
        assert(same_in_lines(answers, failures, start, pos)) by {
            assert forall|k: int, at: int| start <= k < pos implies answers.contains((k, at))
                == failures.contains((k, at)) by {
                assert(answers.contains((k, at)) == next_failures.contains((k, at)));
                assert(next_failures.contains((k, at)) == failures.contains((k, at)));
            }
        }
        let rest = layer_from(lines, next, level, next_list, next_block, embed, files, answers);
        assert(before + (piece + rest.html) =~= (before + piece) + rest.html);
    }
}

/// Reads the layer of `depth` that starts at the cursor and returns its
/// markup. The cursor is left in front of the first line that the layer does
/// not own, so that the caller reads that line next. Images are embedded
/// from `images` where `base64_image_compiling` is set, and referred to by
/// path where it is not. Where the layer ends inside a code fence or raw
/// HTML, the result is an error fragment.
///
/// Math is handed to the renderer, and the error fragment stands for math
/// that it could not render: the result is the markup of the layer for some
/// set of places at which the renderer failed. For a document without math
/// it is the one markup of the layer.
pub fn process_layer(
    raw_lines: &mut LineTracker,
    depth: usize,
    base64_image_compiling: bool,
    images: &Vec<ImageFile>,
) -> (html: String)
    ensures
        final(raw_lines).lines() == old(raw_lines).lines(),
        final(raw_lines).position() == layer_end(
            old(raw_lines).lines(),
            old(raw_lines).position() as int,
            depth as nat,
        ),
        old(raw_lines).position() <= final(raw_lines).position() <= old(raw_lines).lines().len(),
        exists|failures: Set<(int, int)>|
            html@ == layer_markup(
                old(raw_lines).lines(),
                old(raw_lines).position() as int,
                depth as nat,
                base64_image_compiling,
                image_table(images@),
                failures,
            ),
        without_math(old(raw_lines).lines()) ==> html@ == layer_markup(
            old(raw_lines).lines(),
            old(raw_lines).position() as int,
            depth as nat,
            base64_image_compiling,
            image_table(images@),
            Set::empty(),
        ),
    decreases old(raw_lines).lines().len() - old(raw_lines).position(),
{
    let ghost lines = raw_lines.lines();
    let ghost start = raw_lines.position() as int;
    let ghost files = image_table(images@);
    let ghost level = depth as nat;
    let ghost embed = base64_image_compiling;
    let ghost mut failures: Set<(int, int)> = Set::empty();
    let mut output = String::new();
    let mut current_list_type: Option<ListType> = None;
    let mut current_block_type: Option<BlockType> = None;
    let mut at_end = false;
    proof {
        assert forall|answers: Set<(int, int)>| #[trigger]
            same_in_lines(answers, failures, start, start) implies ({
            let whole = layer_from(lines, start, level, None, None, embed, files, answers);
            whole.html == output@ + whole.html
        }) by {
            let whole = layer_from(lines, start, level, None, None, embed, files, answers);
            assert(output@ + whole.html =~= whole.html);
        }
    }
    while !at_end
        invariant
            raw_lines.lines() == lines,
            lines == old(raw_lines).lines(),
            start == old(raw_lines).position(),
            files == image_table(images@),
            level == depth as nat,
            embed == base64_image_compiling,
            start <= raw_lines.position(),
            layer_end(lines, start, level) == layer_end(lines, raw_lines.position() as int, level),
            forall|k: int, at: int| #[trigger]
                failures.contains((k, at)) ==> start <= k < raw_lines.position(),
            forall|answers: Set<(int, int)>| #[trigger]
                same_in_lines(answers, failures, start, raw_lines.position() as int) ==> ({
                    let whole = layer_from(lines, start, level, None, None, embed, files, answers);
                    let rest = layer_from(
                        lines,
                        raw_lines.position() as int,
                        level,
                        current_list_type,
                        current_block_type,
                        embed,
                        files,
                        answers,
                    );
                    whole.html == output@ + rest.html && whole.unclosed == rest.unclosed
                }),
            at_end ==> raw_lines.position() <= lines.len(),
            at_end ==> raw_lines.position() == lines.len() || !in_layer(
                lines[raw_lines.position() as int],
                level,
            ),
        decreases lines.len() - raw_lines.position() + (if at_end { 0int } else { 1int }),
    {
        let ghost pos = raw_lines.position() as int;
        let ghost before = output@;
        let ghost list = current_list_type;
        let ghost block = current_block_type;
        let ghost failures_before = failures;
        match raw_lines.next() {
            None => {
                at_end = true;
            },
            Some(raw_text) => {
                let raw = str_chars(raw_text);
                if line_is_blank(raw.as_slice()) {
                    output.append("<span class='small-space'></span>");
                    proof {
                        lemma_layer_step(
                            lines,
                            level,
                            embed,
                            files,
                            start,
                            before,
                            spacer(),
                            pos,
                            list,
                            block,
                            failures_before,
                            pos + 1,
                            list,
                            block,
                            failures,
                        );
                    }
                } else {
                    match indent_of(raw.as_slice(), depth) {
                        None => {
                            raw_lines.back();
                            at_end = true;
                        },
                        Some(tabs) => {
                            proof {
                                lemma_indented_line(raw@, level);
                            }
                            let line = slice_subrange(raw.as_slice(), tabs, raw.len());
                            let ghost text = lines[pos].skip(level as int);
                            assert(line@ == text);
                            match current_block_type {
                                Some(kind) => {
                                    if push_verbatim_line(&mut output, line, kind) {
                                        current_block_type = None;
                                    }
                                    proof {
                                        lemma_layer_step(
                                            lines,
                                            level,
                                            embed,
                                            files,
                                            start,
                                            before,
                                            verbatim_line_markup(text, kind),
                                            pos,
                                            list,
                                            block,
                                            failures_before,
                                            pos + 1,
                                            list,
                                            current_block_type,
                                            failures,
                                        );
                                    }
                                },
                                None => {
                                    match marker_of(line) {
                                        Some(kind) => {
                                            if current_list_type.is_none() {
                                                push_list_open(&mut output, kind);
                                                current_list_type = Some(kind);
                                            }
                                            let inner_html = process_layer(
                                                raw_lines,
                                                depth + 1,
                                                base64_image_compiling,
                                                images,
                                            );
                                            let item_title = render_inline(
                                                slice_subrange(line, 2, line.len()),
                                            );
                                            push_list_item(
                                                &mut output,
                                                item_title.as_str(),
                                                inner_html.as_str(),
                                            );
                                            proof {
                                                let next = layer_end(lines, pos + 1, level + 1);
                                                lemma_item_extent(lines, pos, level);
                                                assert(line@.subrange(2, line@.len() as int)
                                                    =~= text.skip(2));
                                                let in_title = choose|failed: Set<int>|
                                                    item_title@ == inline_markup(
                                                        text.skip(2),
                                                        failed,
                                                    );
                                                let below = pos + 1;
                                                let deeper = level + 1;
                                                let in_body = choose|inner: Set<(int, int)>|
                                                    inner_html@ == layer_markup(
                                                        lines,
                                                        below,
                                                        deeper,
                                                        embed,
                                                        files,
                                                        inner,
                                                    );
                                                failures = failures_before.union(
                                                    failures_in_line(in_title, pos),
                                                ).union(failures_between(in_body, pos + 1, next));
                                                let item = list_item(item_title@, inner_html@);
                                                let piece = if list is None {
                                                    list_open(kind) + item
                                                } else {
                                                    item
                                                };
                                                assert(output@ =~= before + piece);
                                                assert forall|answers: Set<(int, int)>| #[trigger]
                                                    same_in_lines(
                                                        answers,
                                                        failures,
                                                        start,
                                                        next,
                                                    ) implies layer_from(
                                                    lines,
                                                    pos,
                                                    level,
                                                    list,
                                                    block,
                                                    embed,
                                                    files,
                                                    answers,
                                                ) == layer_from(
                                                    lines,
                                                    next,
                                                    level,
                                                    current_list_type,
                                                    None,
                                                    embed,
                                                    files,
                                                    answers,
                                                ).after(piece) by {
                                                    assert(line_failures(answers, pos)
                                                        =~= in_title) by {
                                                        assert forall|at: int|
                                                            line_failures(answers, pos).contains(
                                                                at,
                                                            ) == in_title.contains(at) by {
                                                            assert(answers.contains((pos, at))
                                                                == failures.contains((pos, at)));
                                                            assert(!failures_before.contains(
                                                                (pos, at),
                                                            ));
                                                        }
                                                    }
                                                    assert(same_in_lines(
                                                        answers,
                                                        in_body,
                                                        pos + 1,
                                                        next,
                                                    )) by {
                                                        assert forall|k: int, at: int|
                                                            pos + 1 <= k
                                                                < next implies answers.contains(
                                                            (k, at),
                                                        ) == in_body.contains((k, at)) by {
                                                            assert(answers.contains((k, at))
                                                                == failures.contains((k, at)));
                                                            assert(!failures_before.contains(
                                                                (k, at),
                                                            ));
                                                        }
                                                    }
                                                    lemma_layer_reads_own_failures(
                                                        lines,
                                                        pos + 1,
                                                        level + 1,
                                                        None,
                                                        None,
                                                        embed,
                                                        files,
                                                        answers,
                                                        in_body,
                                                    );
                                                }
                                                lemma_layer_step(
                                                    lines,
                                                    level,
                                                    embed,
                                                    files,
                                                    start,
                                                    before,
                                                    piece,
                                                    pos,
                                                    list,
                                                    block,
                                                    failures_before,
                                                    next,
                                                    current_list_type,
                                                    None,
                                                    failures,
                                                );
                                            }
                                        },
                                        None => {
                                            push_list_close(&mut output, current_list_type);
                                            current_list_type = None;
                                            let ghost closed = output@;
                                            let opened = push_plain_line(
                                                &mut output,
                                                line,
                                                base64_image_compiling,
                                                images,
                                            );
                                            current_block_type = opened;
                                            proof {
                                                let in_line = choose|failed: Set<int>|
                                                    output@ == closed + plain_line_markup(
                                                        text,
                                                        embed,
                                                        files,
                                                        failed,
                                                    );
                                                failures = failures_before.union(
                                                    failures_in_line(in_line, pos),
                                                );
                                                let piece = list_close(list) + plain_line_markup(
                                                    text,
                                                    embed,
                                                    files,
                                                    in_line,
                                                );
                                                assert(output@ =~= before + piece);
                                                assert forall|answers: Set<(int, int)>| #[trigger]
                                                    same_in_lines(
                                                        answers,
                                                        failures,
                                                        start,
                                                        pos + 1,
                                                    ) implies layer_from(
                                                    lines,
                                                    pos,
                                                    level,
                                                    list,
                                                    block,
                                                    embed,
                                                    files,
                                                    answers,
                                                ) == layer_from(
                                                    lines,
                                                    pos + 1,
                                                    level,
                                                    None,
                                                    opened,
                                                    embed,
                                                    files,
                                                    answers,
                                                ).after(piece) by {
                                                    assert(line_failures(answers, pos)
                                                        =~= in_line) by {
                                                        assert forall|at: int|
                                                            line_failures(answers, pos).contains(
                                                                at,
                                                            ) == in_line.contains(at) by {
                                                            assert(answers.contains((pos, at))
                                                                == failures.contains((pos, at)));
                                                            assert(!failures_before.contains(
                                                                (pos, at),
                                                            ));
                                                        }
                                                    }
                                                }
                                                lemma_layer_step(
                                                    lines,
                                                    level,
                                                    embed,
                                                    files,
                                                    start,
                                                    before,
                                                    piece,
                                                    pos,
                                                    list,
                                                    block,
                                                    failures_before,
                                                    pos + 1,
                                                    None,
                                                    opened,
                                                    failures,
                                                );
                                            }
                                        },
                                    }
                                },
                            }
                        },
                    }
                }
            },
        }
    }
    push_list_close(&mut output, current_list_type);
    proof {
        let pos = raw_lines.position() as int;
        assert(same_in_lines(failures, failures, start, pos));
        let whole = layer_from(lines, start, level, None, None, embed, files, failures);
        assert(finished(whole) == layer_markup(lines, start, level, embed, files, failures));
        if without_math(lines) {
            lemma_layer_without_math(lines, start, level, None, None, embed, files, failures);
        }
    }
    if current_block_type.is_some() {
        return html_error("Block was not closed");
    }
    output
}

/// A layer that owns every line from `from` up to `to` stops where the
/// layer that starts at `to` stops.
pub proof fn lemma_layer_end_skips(lines: Seq<Seq<char>>, from: int, to: int, depth: nat)
    requires
        0 <= from <= to <= lines.len(),
        forall|k: int| from <= k < to ==> in_layer(#[trigger] lines[k], depth),
    ensures
        layer_end(lines, from, depth) == layer_end(lines, to, depth),
    decreases to - from,
{
    if from < to {
        lemma_layer_end_skips(lines, from + 1, to, depth);
    }
}

/// The paths of the images that `content` names, for a caller that reads
/// the files before it has them embedded. Every line that has the form of an
/// image is listed, also one inside a code fence or raw HTML.
pub fn image_paths(content: &str) -> (paths: Vec<String>)
    ensures
        lines_view(paths@) == listed_images(split_lines(content@), 0),
{
    let mut tracker = LineTracker::new(content);
    let ghost lines = tracker.lines();
    let mut paths: Vec<String> = Vec::new();
    let mut at_end = false;
    proof {
        assert(lines_view(paths@) + listed_images(lines, 0) =~= listed_images(lines, 0));
    }
    while !at_end
        invariant
            tracker.lines() == lines,
            listed_images(lines, 0) == lines_view(paths@) + listed_images(
                lines,
                tracker.position() as int,
            ),
            at_end ==> tracker.position() == lines.len(),
        decreases lines.len() - tracker.position() + (if at_end { 0int } else { 1int }),
    {
        let ghost pos = tracker.position() as int;
        let ghost found = lines_view(paths@);
        match tracker.next() {
            None => {
                at_end = true;
            },
            Some(raw_text) => {
                let raw = str_chars(raw_text);
                let tabs = count_run(raw.as_slice(), 0, '\t', raw.len());
                let line = slice_subrange(raw.as_slice(), tabs, raw.len());
                if line.len() >= 2 && line[0] == '!' && line[1] == '[' {
                    let end = find_from(line, 2, ']');
                    let path = chars_string(slice_subrange(line, 2, end));
                    proof {
                        assert(lines_view(paths@.push(path)) =~= found.push(path@));
                        assert(found.push(path@) + listed_images(lines, pos + 1) =~= found + (
                        seq![path@] + listed_images(lines, pos + 1)));
                    }
                    paths.push(path);
                }
            },
        }
    }
    proof {
        assert(lines_view(paths@) + Seq::<Seq<char>>::empty() =~= lines_view(paths@));
    }
    paths
}

/// Turns a whole document into markup: its lines are read as the layer of
/// depth 0. Images are embedded from `images` where `base64_image_compiling`
/// is set, and referred to by path where it is not.
///
/// Math is handed to the renderer, and the error fragment stands for math
/// that it could not render: the result is the markup of the document for
/// some set of places at which the renderer failed. For a document without
/// math it is the one markup of the document.
pub fn transpile(content: &str, base64_image_compiling: bool, images: &Vec<ImageFile>) -> (html:
    String)
    ensures
        exists|failures: Set<(int, int)>|
            html@ == document_markup(
                content@,
                base64_image_compiling,
                image_table(images@),
                failures,
            ),
        without_math(split_lines(content@)) ==> html@ == document_markup(
            content@,
            base64_image_compiling,
            image_table(images@),
            Set::empty(),
        ),
{
    let mut lines = LineTracker::new(content);
    let html = process_layer(&mut lines, 0, base64_image_compiling, images);
    proof {
        let files = image_table(images@);
        let failures = choose|failures: Set<(int, int)>|
            html@ == layer_markup(
                split_lines(content@),
                0,
                0,
                base64_image_compiling,
                files,
                failures,
            );
        assert(html@ == document_markup(content@, base64_image_compiling, files, failures));
    }
    html
}

} // verus!
