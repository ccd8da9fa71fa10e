//! Character-level building blocks: the predicates and searches that the
//! block and inline rules are phrased in, over a line seen as a sequence of
//! characters, and the few operations that assemble output text.

use vstd::prelude::*;
use vstd::string::StrSliceExecFns;
use vstd::string::StringExecFns;

verus! {

/// `String::push` of the standard library: the character is added at the end
/// of the string and nothing else changes.
pub assume_specification[ String::push ](s: &mut String, c: char)
    ensures
        final(s)@ == old(s)@.push(c),
;

/// The characters that count as white space: those with the Unicode
/// `White_Space` property.
pub open spec fn is_white_space(c: char) -> bool {
    let n = c as u32;
    ||| 0x09 <= n <= 0x0D
    ||| n == 0x20
    ||| n == 0x85
    ||| n == 0xA0
    ||| n == 0x1680
    ||| 0x2000 <= n <= 0x200A
    ||| n == 0x2028
    ||| n == 0x2029
    ||| n == 0x202F
    ||| n == 0x205F
    ||| n == 0x3000
}

/// A decimal digit, `0` to `9`.
pub open spec fn is_ascii_digit(c: char) -> bool {
    '0' <= c <= '9'
}

/// A blank line holds nothing but white space; the empty line is blank.
pub open spec fn is_blank(line: Seq<char>) -> bool {
    forall|i: int| 0 <= i < line.len() ==> is_white_space(#[trigger] line[i])
}

/// `pattern` stands in `text` at position `at`.
pub open spec fn has_at(text: Seq<char>, at: int, pattern: Seq<char>) -> bool {
    &&& 0 <= at
    &&& at + pattern.len() <= text.len()
    &&& text.subrange(at, at + pattern.len()) == pattern
}

/// The position of the first `c` in `text` at or after `from`, or the length
/// of `text` where there is none.
pub open spec fn index_from(text: Seq<char>, from: int, c: char) -> int
    decreases text.len() - from,
{
    if from < 0 || from >= text.len() {
        text.len() as int
    } else if text[from] == c {
        from
    } else {
        index_from(text, from + 1, c)
    }
}

/// The number of consecutive `c` in `text` that start at `from`, counted up
/// to `limit`.
pub open spec fn run_from(text: Seq<char>, from: int, c: char, limit: nat) -> nat
    decreases limit,
{
    if limit == 0 || from < 0 || from >= text.len() || text[from] != c {
        0
    } else {
        1 + run_from(text, from + 1, c, (limit - 1) as nat)
    }
}

/// What `index_from` finds: a position between `from` and the end, holding
/// `c` unless it is the end, with no `c` before it.
pub proof fn lemma_index_from(text: Seq<char>, from: int, c: char)
    requires
        0 <= from <= text.len(),
    ensures
        from <= index_from(text, from, c) <= text.len(),
        index_from(text, from, c) < text.len() ==> text[index_from(text, from, c)] == c,
        forall|j: int| from <= j < index_from(text, from, c) ==> text[j] != c,
    decreases text.len() - from,
{
    if from < text.len() && text[from] != c {
        lemma_index_from(text, from + 1, c);
    }
}

/// What `run_from` counts: at most `limit` positions, all inside `text`, all
/// holding `c`; and the run ends there unless the limit was reached.
pub proof fn lemma_run_from(text: Seq<char>, from: int, c: char, limit: nat)
    requires
        0 <= from <= text.len(),
    ensures
        run_from(text, from, c, limit) <= limit,
        from + run_from(text, from, c, limit) <= text.len(),
        forall|j: int| from <= j < from + run_from(text, from, c, limit) ==> text[j] == c,
        run_from(text, from, c, limit) < limit && from + run_from(text, from, c, limit)
            < text.len() ==> text[from + run_from(text, from, c, limit)] != c,
    decreases limit,
{
    if limit > 0 && from < text.len() && text[from] == c {
        lemma_run_from(text, from + 1, c, (limit - 1) as nat);
    }
}

/// A run counted up to a smaller limit is the run counted up to a larger
/// one, cut at the smaller limit.
pub proof fn lemma_run_from_limit(text: Seq<char>, from: int, c: char, small: nat, large: nat)
    requires
        small <= large,
    ensures
        run_from(text, from, c, small) == if run_from(text, from, c, large) < small {
            run_from(text, from, c, large)
        } else {
            small
        },
    decreases small,
{
    if small > 0 && 0 <= from < text.len() && text[from] == c {
        lemma_run_from_limit(text, from + 1, c, (small - 1) as nat, (large - 1) as nat);
    }
}

/// Tells whether `c` is white space.
pub fn char_is_white_space(c: char) -> (b: bool)
    ensures
        b == is_white_space(c),
{
    let n: u32 = c as u32;
    (0x09 <= n && n <= 0x0D) || n == 0x20 || n == 0x85 || n == 0xA0 || n == 0x1680 || (0x2000 <= n
        && n <= 0x200A) || n == 0x2028 || n == 0x2029 || n == 0x202F || n == 0x205F || n == 0x3000
}

/// Tells whether `c` is a decimal digit.
pub fn char_is_ascii_digit(c: char) -> (b: bool)
    ensures
        b == is_ascii_digit(c),
{
    '0' <= c && c <= '9'
}

/// Tells whether `line` is blank.
pub fn line_is_blank(line: &[char]) -> (b: bool)
    ensures
        b == is_blank(line@),
{
    let mut i: usize = 0;
    while i < line.len()
        invariant
            i <= line@.len(),
            forall|j: int| 0 <= j < i ==> is_white_space(#[trigger] line@[j]),
        decreases line@.len() - i,
    {
        if !char_is_white_space(line[i]) {
            return false;
        }
        i += 1;
    }
    true
}

/// Tells whether `pattern` stands in `text` at position `at`.
pub fn matches_at(text: &[char], at: usize, pattern: &str) -> (b: bool)
    ensures
        b == has_at(text@, at as int, pattern@),
{
    let n = pattern.unicode_len();
    if at > text.len() || text.len() - at < n {
        return false;
    }
    let mut k: usize = 0;
    while k < n
        invariant
            k <= n,
            n == pattern@.len(),
            at + n <= text.len() == text@.len(),
            forall|j: int| 0 <= j < k ==> text@[at + j] == pattern@[j],
        decreases n - k,
    {
        if text[at + k] != pattern.get_char(k) {
            assert(text@.subrange(at as int, at + n)[k as int] != pattern@[k as int]);
            return false;
        }
        k += 1;
    }
    assert(text@.subrange(at as int, at + n) =~= pattern@);
    true
}

/// Finds the first `c` in `text` at or after `from`; the length of `text`
/// stands for "not found".
pub fn find_from(text: &[char], from: usize, c: char) -> (k: usize)
    ensures
        k == index_from(text@, from as int, c),
        from <= text@.len() ==> from <= k <= text@.len(),
{
    if from >= text.len() {
        return text.len();
    }
    let mut k: usize = from;
    while k < text.len() && text[k] != c
        invariant
            from <= k <= text@.len(),
            index_from(text@, from as int, c) == index_from(text@, k as int, c),
        decreases text@.len() - k,
    {
        k += 1;
    }
    k
}

/// Counts the consecutive `c` in `text` that start at `from`, up to `limit`.
pub fn count_run(text: &[char], from: usize, c: char, limit: usize) -> (n: usize)
    ensures
        n == run_from(text@, from as int, c, limit as nat),
        n <= limit,
        from <= text@.len() ==> from + n <= text@.len(),
{
    if from >= text.len() {
        return 0;
    }
    let mut n: usize = 0;
    while n < limit && n < text.len() - from && text[from + n] == c
        invariant
            from < text@.len(),
            n <= limit,
            from + n <= text@.len(),
            run_from(text@, from as int, c, limit as nat) == n + run_from(
                text@,
                from + n,
                c,
                (limit - n) as nat,
            ),
        decreases limit - n,
    {
        n += 1;
    }
    n
}

/// The characters of `s`, in order.
pub fn str_chars(s: &str) -> (v: Vec<char>)
    ensures
        v@ == s@,
{
    let mut v: Vec<char> = Vec::new();
    for c in it: s.chars()
        invariant
            v@ == it.seq().take(it.index()),
            it.seq() == s@,
    {
        v.push(c);
    }
    v
}

/// Appends the characters of `text` to `out`.
pub fn push_chars(out: &mut String, text: &[char])
    ensures
        final(out)@ == old(out)@ + text@,
{
    let mut i: usize = 0;
    while i < text.len()
        invariant
            i <= text@.len(),
            out@ == old(out)@ + text@.take(i as int),
        decreases text@.len() - i,
    {
        out.push(text[i]);
        i += 1;
    }
    assert(text@.take(i as int) =~= text@);
}

/// The string made of the characters of `text`.
pub fn chars_string(text: &[char]) -> (s: String)
    ensures
        s@ == text@,
{
    let mut s = String::new();
    push_chars(&mut s, text);
    s
}

} // verus!
