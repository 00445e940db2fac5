use vstd::prelude::*;

use crate::model::{regex_matches, word_pattern};

verus! {

/// The views of a sequence of strings.
pub open spec fn views(v: Seq<String>) -> Seq<Seq<char>> {
    v.map_values(|s: String| s@)
}

/// Relies on `String::push`: the character is appended at the end.
#[verifier::external_body]
pub(crate) fn push_char(s: &mut String, c: char)
    ensures
        final(s)@ == old(s)@.push(c),
{
    s.push(c);
}

/// Relies on `regex::Regex::new`, which accepts the pattern `\w+`, and on
/// `regex::Regex::find_iter`, which yields the successive non-overlapping
/// matches of a line. A match of `\w+` holds at least one character, so a
/// line has at most as many matches as characters.
#[verifier::external_body]
pub(crate) fn find_matches_per_line(pattern: &str, lines: &Vec<String>) -> (r: Vec<Vec<String>>)
    requires
        pattern@ == word_pattern(),
    ensures
        r@.len() == lines@.len(),
        forall|i: int|
            0 <= i < r@.len() ==> views(#[trigger] r@[i]@) == regex_matches(pattern@, lines@[i]@),
        forall|i: int| 0 <= i < r@.len() ==> (#[trigger] r@[i]@).len() <= lines@[i]@.len(),
{
    let re = regex::Regex::new(pattern).unwrap();
    lines.iter().map(|line| re.find_iter(line).map(|m| m.as_str().to_string()).collect()).collect()
}

/// The string of the characters `cs[0..end]`.
pub(crate) fn string_of_chars(cs: &Vec<char>, end: usize) -> (r: String)
    requires
        end <= cs@.len(),
    ensures
        r@ == cs@.take(end as int),
{
    let mut r = String::new();
    let mut i: usize = 0;
    while i < end
        invariant
            i <= end <= cs@.len(),
            r@ == cs@.take(i as int),
        decreases end - i,
    {
        push_char(&mut r, cs[i]);
        assert(cs@.take(i + 1) == cs@.take(i as int).push(cs@[i as int]));
        i = i + 1;
    }
    r
}

} // verus!
