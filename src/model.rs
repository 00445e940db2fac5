use vstd::prelude::*;

verus! {

/// The unit that a count tallies.
#[derive(Debug, Clone, Copy, PartialEq, Eq, Hash, Structural)]
pub enum CountOption {
    /// Every character of a line.
    Char,
    /// Every maximal run of word characters.
    Word,
    /// Every whole line.
    Line,
}

impl Default for CountOption {
    fn default() -> (r: Self)
        ensures
            r == CountOption::Word,
    {
        CountOption::Word
    }
}

/// What `regex::Regex::find_iter` yields for a pattern on a text: the
/// successive non-overlapping matches, each as the text it covers.
pub uninterp spec fn regex_matches(pattern: Seq<char>, text: Seq<char>) -> Seq<Seq<char>>;

/// The pattern of a word: a maximal run of word characters.
pub open spec fn word_pattern() -> Seq<char> {
    seq!['\\', 'w', '+']
}

/// A line without the carriage return that ended it before its line feed.
pub open spec fn strip_cr(line: Seq<char>) -> Seq<char> {
    if line.len() > 0 && line.last() == '\r' {
        line.drop_last()
    } else {
        line
    }
}

/// Scanning a text from the front: the lines that a line feed has closed,
/// and the characters read since the last line feed.
pub open spec fn scan_lines(s: Seq<char>) -> (Seq<Seq<char>>, Seq<char>)
    decreases s.len(),
{
    if s.len() == 0 {
        (Seq::empty(), Seq::empty())
    } else {
        let (done, cur) = scan_lines(s.drop_last());
        if s.last() == '\n' {
            (done.push(strip_cr(cur)), Seq::empty())
        } else {
            (done, cur.push(s.last()))
        }
    }
}

/// The lines of a text: split at each line feed, with the line feed (and a
/// carriage return right before it) removed; a last line that no line feed
/// ends counts only when it is not empty.
pub open spec fn lines_of(s: Seq<char>) -> Seq<Seq<char>> {
    let (done, cur) = scan_lines(s);
    if cur.len() == 0 {
        done
    } else {
        done.push(cur)
    }
}

/// The number of characters over all lines.
pub open spec fn total_chars(lines: Seq<Seq<char>>) -> nat
    decreases lines.len(),
{
    if lines.len() == 0 {
        0
    } else {
        total_chars(lines.drop_last()) + lines.last().len()
    }
}

/// The tokens of one line under a counting option.
pub open spec fn line_tokens(line: Seq<char>, option: CountOption) -> Seq<Seq<char>> {
    match option {
        CountOption::Char => Seq::new(line.len(), |i: int| seq![line[i]]),
        CountOption::Word => regex_matches(word_pattern(), line),
        CountOption::Line => seq![line],
    }
}

/// The tokens of a sequence of lines, line after line.
pub open spec fn tokens(lines: Seq<Seq<char>>, option: CountOption) -> Seq<Seq<char>>
    decreases lines.len(),
{
    if lines.len() == 0 {
        Seq::empty()
    } else {
        tokens(lines.drop_last(), option) + line_tokens(lines.last(), option)
    }
}

/// How many times `k` occurs in `toks`.
pub open spec fn occurrences(toks: Seq<Seq<char>>, k: Seq<char>) -> nat
    decreases toks.len(),
{
    if toks.len() == 0 {
        0
    } else {
        occurrences(toks.drop_last(), k) + if toks.last() == k {
            1nat
        } else {
            0nat
        }
    }
}

/// The frequency mapping of a token sequence: each token that occurs, mapped
/// to the number of its occurrences.
pub open spec fn frequencies(toks: Seq<Seq<char>>) -> Map<Seq<char>, nat> {
    Map::new(|k: Seq<char>| occurrences(toks, k) > 0, |k: Seq<char>| occurrences(toks, k))
}

/// The sum of the counts of `m` at the keys `ks`.
pub open spec fn sum_of_counts(m: Map<Seq<char>, nat>, ks: Seq<Seq<char>>) -> nat
    decreases ks.len(),
{
    if ks.len() == 0 {
        0
    } else {
        sum_of_counts(m, ks.drop_last()) + m[ks.last()]
    }
}

} // verus!
