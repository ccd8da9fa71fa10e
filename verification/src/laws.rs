//! What holds of every document: the laws that follow from the definitions
//! of the layer and its lines, each stated over the spec functions that the
//! contracts of the executable functions use, and proved.
//!
//! The markup of a document is a function of its text, of the files of its
//! images, and of the places at which the renderer of math failed. The last
//! is not in the hands of the library, so the laws speak of it as a given.

use crate::images::{ImageContent, ImageFile};
use crate::layer::{
    closes_block, document_markup, in_layer, layer_end, layer_from, layer_markup, leading_tabs,
    lemma_indented_line, lemma_layer_end, lemma_layer_reads_own_failures, line_failures,
    list_item, list_marker, list_open, listed_image, opened_block, plain_line_markup,
    same_in_lines, spacer, transpile, without_math,
};
use crate::parsing::{image_path, inline_markup};
use crate::text::{index_from, is_blank, lemma_index_from, lemma_run_from, lemma_run_from_limit};
use crate::types::{split_lines, split_lines_from, BlockType, ListType};
use crate::utils::error_fragment;
use vstd::prelude::*;

verus! {

/// No line of a document holds a line feed: the line feeds are what parts
/// the lines.
pub proof fn lemma_lines_hold_no_line_feed(text: Seq<char>, from: int)
    requires
        0 <= from <= text.len(),
    ensures
        forall|k: int, j: int|
            0 <= k < split_lines_from(text, from).len() && 0 <= j < split_lines_from(
                text,
                from,
            )[k].len() ==> #[trigger] split_lines_from(text, from)[k][j] != '\n',
    decreases text.len() - from,
{
    let lines = split_lines_from(text, from);
    if from < text.len() {
        let end = index_from(text, from, '\n');
        lemma_index_from(text, from, '\n');
        if end < text.len() {
            let rest = split_lines_from(text, end + 1);
            lemma_lines_hold_no_line_feed(text, end + 1);
            assert forall|k: int, j: int|
                0 <= k < lines.len() && 0 <= j < lines[k].len() implies #[trigger] lines[k][j]
                != '\n' by {
                if k == 0 {
                    assert(lines[0][j] == text[from + j]);
                } else {
                    assert(lines[k] == rest[k - 1]);
                }
            }
        } else {
            assert forall|k: int, j: int|
                0 <= k < lines.len() && 0 <= j < lines[k].len() implies #[trigger] lines[k][j]
                != '\n' by {
                assert(lines[0][j] == text[from + j]);
            }
        }
    }
}

/// A blank line gives one spacer and changes nothing else: the layer goes on
/// after it with the same list and the same block.
pub proof fn lemma_blank_line_gives_spacer(
    lines: Seq<Seq<char>>,
    pos: int,
    depth: nat,
    list: Option<ListType>,
    block: Option<BlockType>,
    embed: bool,
    files: Map<Seq<char>, ImageContent>,
    failures: Set<(int, int)>,
)
    requires
        0 <= pos < lines.len(),
        is_blank(lines[pos]),
    ensures
        layer_from(lines, pos, depth, list, block, embed, files, failures) == layer_from(
            lines,
            pos + 1,
            depth,
            list,
            block,
            embed,
            files,
            failures,
        ).after(spacer()),
{
}

/// A document of one blank line is one spacer and nothing more.
pub proof fn lemma_blank_document(
    line: Seq<char>,
    depth: nat,
    embed: bool,
    files: Map<Seq<char>, ImageContent>,
    failures: Set<(int, int)>,
)
    requires
        is_blank(line),
    ensures
        layer_markup(seq![line], 0, depth, embed, files, failures) == spacer(),
{
    let lines = seq![line];
    let tail = layer_from(lines, 1, depth, None, None, embed, files, failures);
    assert(tail.html =~= Seq::<char>::empty());
    assert(layer_from(lines, 0, depth, None, None, embed, files, failures) == tail.after(
        spacer(),
    ));
    assert(spacer() + tail.html =~= spacer());
}

/// A list item takes the lines after it that the layer one level deeper
/// owns, and no more: the first line with fewer tabs than that layer asks
/// for is not part of the item. The layer of the item goes on with that
/// very line.
pub proof fn lemma_shallow_line_goes_to_parent(
    lines: Seq<Seq<char>>,
    pos: int,
    depth: nat,
    list: Option<ListType>,
    embed: bool,
    files: Map<Seq<char>, ImageContent>,
    failures: Set<(int, int)>,
)
    requires
        0 <= pos < lines.len(),
        !is_blank(lines[pos]),
        in_layer(lines[pos], depth),
        list_marker(lines[pos].skip(depth as int)) is Some,
    ensures
        ({
            let text = lines[pos].skip(depth as int);
            let kind = list_marker(text)->0;
            let next = layer_end(lines, pos + 1, depth + 1);
            let item = list_item(
                inline_markup(text.skip(2), line_failures(failures, pos)),
                layer_markup(lines, pos + 1, depth + 1, embed, files, failures),
            );
            &&& pos < next <= lines.len()
            &&& forall|k: int| pos < k < next ==> in_layer(#[trigger] lines[k], depth + 1)
            &&& next < lines.len() ==> !in_layer(lines[next], depth + 1)
            &&& layer_from(lines, pos, depth, list, None, embed, files, failures) == if list
                is None {
                layer_from(lines, next, depth, Some(kind), None, embed, files, failures).after(
                    list_open(kind) + item,
                )
            } else {
                layer_from(lines, next, depth, list, None, embed, files, failures).after(item)
            }
        }),
{
    lemma_layer_end(lines, pos + 1, depth + 1);
}

/// Inside a verbatim block that no line of the layer closes, the layer ends
/// with the block still open.
pub proof fn lemma_open_block_stays_open(
    lines: Seq<Seq<char>>,
    pos: int,
    depth: nat,
    list: Option<ListType>,
    kind: BlockType,
    embed: bool,
    files: Map<Seq<char>, ImageContent>,
    failures: Set<(int, int)>,
)
    requires
        0 <= pos <= lines.len(),
        forall|k: int|
            pos <= k < layer_end(lines, pos, depth) ==> is_blank(#[trigger] lines[k])
                || !closes_block(lines[k].skip(depth as int), kind),
    ensures
        layer_from(lines, pos, depth, list, Some(kind), embed, files, failures).unclosed,
    decreases lines.len() - pos,
{
    if pos < lines.len() && in_layer(lines[pos], depth) {
        lemma_layer_end(lines, pos + 1, depth);
        assert(is_blank(lines[pos]) || !closes_block(lines[pos].skip(depth as int), kind));
        lemma_open_block_stays_open(lines, pos + 1, depth, list, kind, embed, files, failures);
    }
}

/// A layer whose first line opens a code fence or raw HTML that no later
/// line of the layer closes gives the error fragment, and nothing of what it
/// read.
pub proof fn lemma_unclosed_block_gives_error(
    lines: Seq<Seq<char>>,
    pos: int,
    depth: nat,
    kind: BlockType,
    embed: bool,
    files: Map<Seq<char>, ImageContent>,
    failures: Set<(int, int)>,
)
    requires
        0 <= pos < lines.len(),
        !is_blank(lines[pos]),
        in_layer(lines[pos], depth),
        opened_block(lines[pos].skip(depth as int)) == Some(kind),
        forall|k: int|
            pos < k < layer_end(lines, pos + 1, depth) ==> is_blank(#[trigger] lines[k])
                || !closes_block(lines[k].skip(depth as int), kind),
    ensures
        layer_markup(lines, pos, depth, embed, files, failures) == error_fragment(
            "Block was not closed"@,
        ),
{
    let text = lines[pos].skip(depth as int);
    reveal_strlit("```");
    reveal_strlit("<html>");
    assert(list_marker(text) is None) by {
        if text.len() >= 3 {
            assert(text.subrange(0, 3)[0] == text[0]);
            assert(text.subrange(0, 3)[1] == text[1]);
        }
    }
    lemma_open_block_stays_open(lines, pos + 1, depth, None, kind, embed, files, failures);
}

/// Whether two tables of files hold the same for every image that `lines`
/// name.
pub open spec fn same_listed_images(
    lines: Seq<Seq<char>>,
    first: Map<Seq<char>, ImageContent>,
    second: Map<Seq<char>, ImageContent>,
) -> bool {
    forall|k: int|
        0 <= k < lines.len() ==> (#[trigger] listed_image(lines[k]) matches Some(path)
            ==> first.get(path) == second.get(path))
}

/// A line of a layer that is an image names it whatever the depth: taking
/// off the tabs of the layer is taking off all its leading tabs.
pub proof fn lemma_image_line_is_listed(line: Seq<char>, depth: nat)
    requires
        !is_blank(line),
        leading_tabs(line, depth) is Some,
        image_path(line.skip(depth as int)) is Some,
    ensures
        listed_image(line) == image_path(line.skip(depth as int)),
{
    lemma_indented_line(line, depth);
    lemma_run_from_limit(line, 0, '\t', depth, line.len());
    lemma_run_from(line, 0, '\t', line.len());
    assert(line.skip(depth as int)[0] == line[depth as int]);
}

/// The markup of a layer depends on the files only through the images that
/// the lines name, and only where images are embedded.
pub proof fn lemma_layer_reads_listed_images(
    lines: Seq<Seq<char>>,
    pos: int,
    depth: nat,
    list: Option<ListType>,
    block: Option<BlockType>,
    embed: bool,
    first: Map<Seq<char>, ImageContent>,
    second: Map<Seq<char>, ImageContent>,
    failures: Set<(int, int)>,
)
    requires
        0 <= pos <= lines.len(),
        embed ==> same_listed_images(lines, first, second),
    ensures
        layer_from(lines, pos, depth, list, block, embed, first, failures) == layer_from(
            lines,
            pos,
            depth,
            list,
            block,
            embed,
            second,
            failures,
        ),
    decreases lines.len() - pos,
{
    if pos < lines.len() && in_layer(lines[pos], depth) {
        let line = lines[pos];
        lemma_layer_reads_listed_images(
            lines,
            pos + 1,
            depth,
            list,
            block,
            embed,
            first,
            second,
            failures,
        );
        if !is_blank(line) {
            let text = line.skip(depth as int);
            match block {
                Some(kind) => {
                    lemma_layer_reads_listed_images(
                        lines,
                        pos + 1,
                        depth,
                        list,
                        None,
                        embed,
                        first,
                        second,
                        failures,
                    );
                },
                None => {
                    match list_marker(text) {
                        Some(kind) => {
                            let next = layer_end(lines, pos + 1, depth + 1);
                            lemma_layer_end(lines, pos + 1, depth + 1);
                            lemma_layer_reads_listed_images(
                                lines,
                                pos + 1,
                                depth + 1,
                                None,
                                None,
                                embed,
                                first,
                                second,
                                failures,
                            );
                            lemma_layer_reads_listed_images(
                                lines,
                                next,
                                depth,
                                Some(kind),
                                None,
                                embed,
                                first,
                                second,
                                failures,
                            );
                            lemma_layer_reads_listed_images(
                                lines,
                                next,
                                depth,
                                list,
                                None,
                                embed,
                                first,
                                second,
                                failures,
                            );
                        },
                        None => {
                            if embed && image_path(text) is Some {
                                lemma_image_line_is_listed(line, depth);
                                assert(listed_image(lines[pos]) == image_path(text));
                            }
                            let here = line_failures(failures, pos);
                            assert(plain_line_markup(text, embed, first, here)
                                == plain_line_markup(text, embed, second, here));
                            lemma_layer_reads_listed_images(
                                lines,
                                pos + 1,
                                depth,
                                None,
                                opened_block(text),
                                embed,
                                first,
                                second,
                                failures,
                            );
                        },
                    }
                },
            }
        }
    }
}

/// Where the renderer answers alike, a document has one markup: it is
/// decided by the text, by the places at which the renderer failed, and,
/// where images are embedded, by what the files hold for the images that the
/// text names. Where images are referred to by path, the files do not count
/// at all.
pub proof fn lemma_same_answers_same_markup(
    content: Seq<char>,
    embed: bool,
    first_files: Map<Seq<char>, ImageContent>,
    second_files: Map<Seq<char>, ImageContent>,
    first_failures: Set<(int, int)>,
    second_failures: Set<(int, int)>,
)
    requires
        embed ==> same_listed_images(split_lines(content), first_files, second_files),
        same_in_lines(first_failures, second_failures, 0, split_lines(content).len() as int),
    ensures
        document_markup(content, embed, first_files, first_failures) == document_markup(
            content,
            embed,
            second_files,
            second_failures,
        ),
{
    let lines = split_lines(content);
    lemma_layer_end(lines, 0, 0);
    lemma_layer_reads_own_failures(
        lines,
        0,
        0,
        None,
        None,
        embed,
        first_files,
        first_failures,
        second_failures,
    );
    lemma_layer_reads_listed_images(
        lines,
        0,
        0,
        None,
        None,
        embed,
        first_files,
        second_files,
        second_failures,
    );
}

/// Two runs of `transpile` on the same document without math, with the same
/// setting and the same files, give the same text: nothing is asked of the
/// renderer, and nothing else is left open.
pub proof fn lemma_transpile_is_deterministic(
    content: &str,
    base64_image_compiling: bool,
    images: &Vec<ImageFile>,
    first: String,
    second: String,
)
    requires
        without_math(split_lines(content@)),
        call_ensures(transpile, (content, base64_image_compiling, images), first),
        call_ensures(transpile, (content, base64_image_compiling, images), second),
    ensures
        first@ == second@,
{
}

} // verus!
