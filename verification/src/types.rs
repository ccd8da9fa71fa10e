//! The document as a sequence of lines, the cursor that the block layers
//! share, and the two small states of a layer.

use crate::text::{chars_string, find_from, index_from, lemma_index_from, str_chars};
use vstd::prelude::*;
use vstd::slice::slice_subrange;

verus! {

/// The list that a layer has open.
#[derive(Clone, Copy, PartialEq, Eq, Debug, Structural)]
pub enum ListType {
    /// An unordered list, `<ul>`.
    UL,
    /// An ordered list, `<ol>`.
    OL,
}

/// The verbatim block that a layer is inside of.
#[derive(Clone, Copy, PartialEq, Eq, Debug, Structural)]
pub enum BlockType {
    /// A code fence, between two lines that start with three backticks.
    CODE,
    /// Raw HTML, between a line `<html>` and a line `</html>`.
    HTML,
}

/// `line` without the carriage return at its end, if it has one.
pub open spec fn strip_return(line: Seq<char>) -> Seq<char> {
    if line.len() > 0 && line.last() == '\r' {
        line.drop_last()
    } else {
        line
    }
}

/// The lines of `text` from position `from` on. A line ends at a line feed;
/// neither the line feed nor a carriage return just before it belongs to the
/// line. What follows the last line feed is a line too, unless it is empty.
pub open spec fn split_lines_from(text: Seq<char>, from: int) -> Seq<Seq<char>>
    decreases text.len() - from,
{
    if from < 0 || from >= text.len() {
        Seq::empty()
    } else {
        let end = index_from(text, from, '\n');
        if end < text.len() {
            proof {
                lemma_index_from(text, from, '\n');
            }
            seq![strip_return(text.subrange(from, end))] + split_lines_from(text, end + 1)
        } else {
            seq![text.subrange(from, text.len() as int)]
        }
    }
}

/// The lines of `text`.
pub open spec fn split_lines(text: Seq<char>) -> Seq<Seq<char>> {
    split_lines_from(text, 0)
}

/// The lines held in `lines`, each as its characters.
pub open spec fn lines_view(lines: Seq<String>) -> Seq<Seq<char>> {
    lines.map_values(|line: String| line@)
}

/// A cursor over the lines of a document: it hands the lines out one by one
/// and can step back by one.
pub struct LineTracker {
    lines: Vec<String>,
    current: usize,
}

impl LineTracker {
    #[verifier::type_invariant]
    spec fn in_range(&self) -> bool {
        self.current <= self.lines@.len()
    }

    /// The lines of the document.
    pub closed spec fn lines(&self) -> Seq<Seq<char>> {
        lines_view(self.lines@)
    }

    /// The index of the line that `next` hands out; the number of lines
    /// where all have been handed out.
    pub closed spec fn position(&self) -> nat {
        self.current as nat
    }

    /// A cursor in front of the first line of `content`.
    pub fn new(content: &str) -> (tracker: LineTracker)
        ensures
            tracker.lines() == split_lines(content@),
            tracker.position() == 0,
    {
        let text = str_chars(content);
        let mut lines: Vec<String> = Vec::new();
        let mut start: usize = 0;
        proof {
            assert(lines_view(lines@) + split_lines(text@) =~= split_lines(text@));
        }
        while start < text.len()
            invariant
                start <= text@.len(),
                split_lines(text@) == lines_view(lines@) + split_lines_from(text@, start as int),
            decreases text@.len() - start,
        {
            let ghost done = lines_view(lines@);
            let end = find_from(text.as_slice(), start, '\n');
            if end < text.len() {
                let cut = if end > start && text[end - 1] == '\r' {
                    end - 1
                } else {
                    end
                };
                let line = chars_string(slice_subrange(text.as_slice(), start, cut));
                proof {
                    let whole = text@.subrange(start as int, end as int);
                    assert(line@ =~= strip_return(whole));
                    assert(lines_view(lines@.push(line)) =~= done.push(line@));
                    assert(done.push(line@) + split_lines_from(text@, end + 1) =~= done + (
                    seq![line@] + split_lines_from(text@, end + 1)));
                }
                lines.push(line);
                start = end + 1;
            } else {
                let line = chars_string(slice_subrange(text.as_slice(), start, end));
                proof {
                    assert(lines_view(lines@.push(line)) =~= done.push(line@));
                    assert(done.push(line@) + split_lines_from(text@, end as int) =~= done
                        + seq![line@]);
                }
                lines.push(line);
                start = end;
            }
        }
        proof {
            assert(lines_view(lines@) + Seq::<Seq<char>>::empty() =~= lines_view(lines@));
        }
        LineTracker { lines, current: 0 }
    }

    /// Steps back by one line; at the first line nothing changes.
    pub fn back(&mut self)
        ensures
            final(self).lines() == old(self).lines(),
            final(self).position() == if old(self).position() > 0 {
                old(self).position() - 1
            } else {
                0
            },
            final(self).position() <= final(self).lines().len(),
    {
        proof {
            use_type_invariant(&*self);
        }
        if self.current > 0 {
            self.current -= 1;
        }
    }

    /// Hands out the line at the position and moves past it; `None` at the
    /// end of the document, where nothing changes.
    pub fn next(&mut self) -> (line: Option<&str>)
        ensures
            final(self).lines() == old(self).lines(),
            final(self).position() <= final(self).lines().len(),
            match line {
                Some(text) => old(self).position() < old(self).lines().len() && text@ == old(
                    self,
                ).lines()[old(self).position() as int] && final(self).position() == old(
                    self,
                ).position() + 1,
                None => old(self).position() == old(self).lines().len() && final(self).position()
                    == old(self).position(),
            },
    {
        proof {
            use_type_invariant(&*self);
        }
        if self.current < self.lines.len() {
            let at = self.current;
            self.current += 1;
            Some(self.lines[at].as_str())
        } else {
            None
        }
    }
}

} // verus!
