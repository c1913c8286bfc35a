//! Splitting a text into lines, and finding the words of a line.

use crate::records::views;
use crate::text::{chars_of, is_space, text_from, white_space};
use vstd::prelude::*;

verus! {

/// The position of the first line feed at or after `i`, or the length of
/// the text where there is none.
pub open spec fn line_stop(s: Seq<char>, i: int) -> int
    decreases s.len() - i,
{
    if i < 0 || i >= s.len() || s[i] == '\n' {
        i
    } else {
        line_stop(s, i + 1)
    }
}

/// The line that starts at `start`: what stands before the next line feed,
/// without the carriage return that may precede that line feed. A last
/// line that no line feed ends keeps a carriage return at its end.
pub open spec fn line_at(s: Seq<char>, start: int) -> Seq<char> {
    let stop = line_stop(s, start);
    if stop < s.len() && start < stop && s[stop - 1] == '\r' {
        s.subrange(start, stop - 1)
    } else {
        s.subrange(start, stop)
    }
}

/// The lines of a text from `start` on.
pub open spec fn lines_from(s: Seq<char>, start: int) -> Seq<Seq<char>>
    decreases s.len() - start,
    via lines_from_decreases
{
    if start < 0 || start >= s.len() {
        Seq::empty()
    } else if line_stop(s, start) + 1 >= s.len() {
        seq![line_at(s, start)]
    } else {
        seq![line_at(s, start)] + lines_from(s, line_stop(s, start) + 1)
    }
}

#[via_fn]
proof fn lines_from_decreases(s: Seq<char>, start: int) {
    if 0 <= start {
        lemma_line_stop(s, start);
    }
}

/// The lines of a text. Each line feed ends a line; a text that ends in a
/// line feed has no empty line after it, and the empty text has no lines.
pub open spec fn lines_of(s: Seq<char>) -> Seq<Seq<char>> {
    lines_from(s, 0)
}

/// A line stops at or after its start and within the text, at the first
/// line feed there is.
pub proof fn lemma_line_stop(s: Seq<char>, i: int)
    requires
        0 <= i,
    ensures
        i <= line_stop(s, i),
        i <= s.len() ==> line_stop(s, i) <= s.len(),
        line_stop(s, i) < s.len() ==> s[line_stop(s, i)] == '\n',
        forall|k: int| i <= k < line_stop(s, i) ==> s[k] != '\n',
    decreases s.len() - i,
{
    if i < s.len() && s[i] != '\n' {
        lemma_line_stop(s, i + 1);
    }
}

/// The position of the first character at or after `i` that is not
/// whitespace, or the length of the text where there is none.
pub open spec fn skip_blank(s: Seq<char>, i: int) -> int
    decreases s.len() - i,
{
    if 0 <= i < s.len() && is_space(s[i]) {
        skip_blank(s, i + 1)
    } else {
        i
    }
}

/// The position of the first whitespace character at or after `i`, or the
/// length of the text where there is none.
pub open spec fn word_stop(s: Seq<char>, i: int) -> int
    decreases s.len() - i,
{
    if 0 <= i < s.len() && !is_space(s[i]) {
        word_stop(s, i + 1)
    } else {
        i
    }
}

/// The second word of a text, where words are the runs of characters
/// between whitespace; nothing where the text has fewer than two words.
pub open spec fn second_word(s: Seq<char>) -> Option<Seq<char>> {
    let first = skip_blank(s, 0);
    let after = word_stop(s, first);
    let second = skip_blank(s, after);
    if second < s.len() {
        Some(s.subrange(second, word_stop(s, second)))
    } else {
        None
    }
}

fn find_line_stop(chars: &Vec<char>, start: usize) -> (stop: usize)
    requires
        start <= chars@.len(),
    ensures
        stop == line_stop(chars@, start as int),
        start <= stop <= chars@.len(),
{
    let mut i = start;
    while i < chars.len() && chars[i] != '\n'
        invariant
            start <= i <= chars@.len(),
            line_stop(chars@, i as int) == line_stop(chars@, start as int),
        decreases chars@.len() - i,
    {
        i += 1;
    }
    i
}

fn find_blank_end(chars: &Vec<char>, start: usize) -> (stop: usize)
    requires
        start <= chars@.len(),
    ensures
        stop == skip_blank(chars@, start as int),
        start <= stop <= chars@.len(),
{
    let mut i = start;
    while i < chars.len() && white_space(chars[i])
        invariant
            start <= i <= chars@.len(),
            skip_blank(chars@, i as int) == skip_blank(chars@, start as int),
        decreases chars@.len() - i,
    {
        i += 1;
    }
    i
}

fn find_word_stop(chars: &Vec<char>, start: usize) -> (stop: usize)
    requires
        start <= chars@.len(),
    ensures
        stop == word_stop(chars@, start as int),
        start <= stop <= chars@.len(),
{
    let mut i = start;
    while i < chars.len() && !white_space(chars[i])
        invariant
            start <= i <= chars@.len(),
            word_stop(chars@, i as int) == word_stop(chars@, start as int),
        decreases chars@.len() - i,
    {
        i += 1;
    }
    i
}

/// Splits a text into its lines.
pub fn split_lines(text: &str) -> (lines: Vec<String>)
    ensures
        views(lines@) == lines_of(text@),
{
    let chars = chars_of(text);
    let mut lines: Vec<String> = Vec::new();
    let mut start: usize = 0;
    while start < chars.len()
        invariant
            start <= chars@.len(),
            chars@ == text@,
            views(lines@) + lines_from(chars@, start as int) == lines_of(chars@),
        decreases chars@.len() - start,
    {
        let stop = find_line_stop(&chars, start);
        let end = if stop < chars.len() && start < stop && chars[stop - 1] == '\r' {
            stop - 1
        } else {
            stop
        };
        let line = text_from(&chars, start, end);
        proof {
            assert(line@ == line_at(chars@, start as int));
            assert(views(lines@.push(line)) =~= views(lines@) + seq![line@]);
            let rest = if stop + 1 >= chars@.len() {
                Seq::<Seq<char>>::empty()
            } else {
                lines_from(chars@, stop + 1)
            };
            assert(lines_from(chars@, start as int) =~= seq![line@] + rest);
            assert(views(lines@.push(line)) + rest =~= views(lines@) + lines_from(
                chars@,
                start as int,
            ));
        }
        lines.push(line);
        start = if stop < chars.len() {
            stop + 1
        } else {
            stop
        };
        proof {
            assert(lines_from(chars@, start as int) =~= if stop + 1 >= chars@.len() {
                Seq::<Seq<char>>::empty()
            } else {
                lines_from(chars@, stop + 1)
            });
        }
    }
    proof {
        assert(views(lines@) + Seq::<Seq<char>>::empty() =~= views(lines@));
    }
    lines
}

/// The second word of a text, if it has two.
pub fn word_after_first(text: &str) -> (word: Option<String>)
    ensures
        match word {
            Some(w) => second_word(text@) == Some(w@),
            None => second_word(text@) is None,
        },
{
    let chars = chars_of(text);
    let first = find_blank_end(&chars, 0);
    let after = find_word_stop(&chars, first);
    let second = find_blank_end(&chars, after);
    if second < chars.len() {
        let stop = find_word_stop(&chars, second);
        Some(text_from(&chars, second, stop))
    } else {
        None
    }
}

} // verus!
