use vstd::prelude::*;

use crate::freq::Frequencies;
use crate::laws::lemma_counts_sum_to_token_total;
use crate::model::{
    frequencies, line_tokens, lines_of, occurrences, scan_lines, strip_cr, sum_of_counts, tokens,
    total_chars, word_pattern, CountOption,
};
use crate::text::{find_matches_per_line, push_char, string_of_chars, views};

verus! {

proof fn lemma_scan_chars(s: Seq<char>)
    ensures
        total_chars(scan_lines(s).0) + scan_lines(s).1.len() <= s.len(),
    decreases s.len(),
{
    if s.len() > 0 {
        lemma_scan_chars(s.drop_last());
        let (done, cur) = scan_lines(s.drop_last());
        if s.last() == '\n' {
            assert(done.push(strip_cr(cur)).drop_last() == done);
        }
    }
}

proof fn lemma_lines_chars(s: Seq<char>)
    ensures
        total_chars(lines_of(s)) <= s.len(),
{
    lemma_scan_chars(s);
    let (done, cur) = scan_lines(s);
    if cur.len() > 0 {
        assert(done.push(cur).drop_last() == done);
    }
}

proof fn lemma_total_chars_prefix(lines: Seq<Seq<char>>, i: int)
    requires
        0 <= i <= lines.len(),
    ensures
        total_chars(lines.take(i)) <= total_chars(lines),
    decreases lines.len(),
{
    if i < lines.len() {
        assert(lines.drop_last().take(i) == lines.take(i));
        lemma_total_chars_prefix(lines.drop_last(), i);
    } else {
        assert(lines.take(i) == lines);
    }
}

/// A prefix of one more line adds that line's tokens.
proof fn lemma_tokens_step(lines: Seq<Seq<char>>, i: int, option: CountOption)
    requires
        0 <= i < lines.len(),
    ensures
        tokens(lines.take(i + 1), option) == tokens(lines.take(i), option) + line_tokens(
            lines[i],
            option,
        ),
        total_chars(lines.take(i + 1)) == total_chars(lines.take(i)) + lines[i].len(),
{
    assert(lines.take(i + 1).drop_last() == lines.take(i));
}

/// One more token adds one to its count and leaves the others.
proof fn lemma_frequencies_push(toks: Seq<Seq<char>>, t: Seq<char>)
    ensures
        frequencies(toks.push(t)) == frequencies(toks).insert(
            t,
            if frequencies(toks).contains_key(t) {
                frequencies(toks)[t] + 1
            } else {
                1
            },
        ),
{
    assert(toks.push(t).drop_last() == toks);
    assert(frequencies(toks.push(t)) =~= frequencies(toks).insert(
        t,
        if frequencies(toks).contains_key(t) {
            frequencies(toks)[t] + 1
        } else {
            1
        },
    ));
}

/// No token occurs more often than there are tokens.
proof fn lemma_occurrences_bound(toks: Seq<Seq<char>>, k: Seq<char>)
    ensures
        occurrences(toks, k) <= toks.len(),
    decreases toks.len(),
{
    if toks.len() > 0 {
        lemma_occurrences_bound(toks.drop_last(), k);
    }
}

/// Adds every token of `toks`, in order, to `f`.
fn add_tokens(f: &mut Frequencies, toks: &Vec<String>, Ghost(base): Ghost<Seq<Seq<char>>>)
    requires
        old(f).wf(),
        old(f)@ == frequencies(base),
        base.len() + toks@.len() <= usize::MAX,
    ensures
        final(f).wf(),
        final(f)@ == frequencies(base + views(toks@)),
{
    let mut j: usize = 0;
    while j < toks.len()
        invariant
            f.wf(),
            j <= toks@.len(),
            base.len() + toks@.len() <= usize::MAX,
            f@ == frequencies(base + views(toks@).take(j as int)),
        decreases toks@.len() - j,
    {
        let ghost prefix = base + views(toks@).take(j as int);
        let t = toks[j].clone();
        proof {
            lemma_occurrences_bound(prefix, t@);
            lemma_frequencies_push(prefix, t@);
            assert(base + views(toks@).take(j + 1) == prefix.push(t@));
        }
        f.add(t);
        j = j + 1;
    }
    assert(views(toks@).take(j as int) == views(toks@));
}

/// Tallies the given tokens: each distinct token is mapped to the number of
/// its occurrences.
pub fn tally(toks: &Vec<String>) -> (r: Frequencies)
    ensures
        r.wf(),
        r@ == frequencies(views(toks@)),
        sum_of_counts(r@, r.key_order()) == toks@.len(),
{
    let _n_toks = toks.len();
    let mut r = Frequencies::new();
    let ghost base = Seq::<Seq<char>>::empty();
    assert(frequencies(base) =~= Map::<Seq<char>, nat>::empty());
    add_tokens(&mut r, toks, Ghost(base));
    assert(base + views(toks@) == views(toks@));
    proof {
        r.lemma_key_order();
        lemma_counts_sum_to_token_total(views(toks@), r.key_order());
    }
    r
}

/// The characters of a line, each as a string of its own.
fn char_tokens(line: &String) -> (r: Vec<String>)
    ensures
        views(r@) == line_tokens(line@, CountOption::Char),
{
    let mut r: Vec<String> = Vec::new();
    for c in it: line.as_str().chars()
        invariant
            it.seq() == line@,
            views(r@) == Seq::new(it.index() as nat, |k: int| seq![line@[k]]),
    {
        let mut s = String::new();
        push_char(&mut s, c);
        assert(s@ =~= seq![c]);
        assert(c == line@[it.index() as int]);
        let ghost before = r@;
        r.push(s);
        assert(views(r@) =~= views(before).push(s@));
        assert(views(r@) =~= Seq::new((it.index() + 1) as nat, |k: int| seq![line@[k]]));
    }
    assert(views(r@) =~= line_tokens(line@, CountOption::Char));
    r
}

/// Splits a text into its lines.
fn split_lines(input: &str) -> (r: Vec<String>)
    ensures
        views(r@) == lines_of(input@),
{
    let mut done: Vec<String> = Vec::new();
    let mut cur: Vec<char> = Vec::new();
    for c in it: input.chars()
        invariant
            it.seq() == input@,
            scan_lines(input@.take(it.index() as int)) == (views(done@), cur@),
    {
        let ghost i = it.index() as int;
        proof {
            assert(input@.take(i + 1).drop_last() == input@.take(i));
        }
        if c == '\n' {
            let n = cur.len();
            let end: usize = if n > 0 && cur[n - 1] == '\r' { n - 1 } else { n };
            let line = string_of_chars(&cur, end);
            proof {
                if n > 0 && cur@[n - 1] == '\r' {
                    assert(cur@.take(end as int) == cur@.drop_last());
                } else {
                    assert(cur@.take(end as int) == cur@);
                }
            }
            let ghost before = done@;
            done.push(line);
            assert(views(done@) =~= views(before).push(line@));
            cur = Vec::new();
        } else {
            cur.push(c);
        }
    }
    assert(input@.take(input@.len() as int) == input@);
    if cur.len() > 0 {
        let line = string_of_chars(&cur, cur.len());
        assert(cur@.take(cur@.len() as int) == cur@);
        let ghost before = done@;
        done.push(line);
        assert(views(done@) =~= views(before).push(line@));
    }
    done
}

/// Tallies the tokens of `lines` under `option`.
fn count_lines(lines: &Vec<String>, option: CountOption) -> (r: Frequencies)
    requires
        total_chars(views(lines@)) <= usize::MAX,
    ensures
        r.wf(),
        r@ == frequencies(tokens(views(lines@), option)),
{
    let ghost ls = views(lines@);
    let words: Vec<Vec<String>> = match option {
        CountOption::Word => {
            let pattern = "\\w+";
            proof {
                reveal_strlit("\\w+");
                assert(pattern@ =~= word_pattern());
            }
            find_matches_per_line(pattern, lines)
        },
        _ => Vec::new(),
    };
    let mut f = Frequencies::new();
    let mut i: usize = 0;
    assert(ls.take(0) == Seq::<Seq<char>>::empty());
    while i < lines.len()
        invariant
            i <= lines@.len(),
            ls == views(lines@),
            total_chars(ls) <= usize::MAX,
            option == CountOption::Word ==> words@.len() == lines@.len() && forall|j: int|
                0 <= j < words@.len() ==> views(#[trigger] words@[j]@) == line_tokens(
                    ls[j],
                    option,
                ) && words@[j]@.len() <= ls[j].len(),
            f.wf(),
            f@ == frequencies(tokens(ls.take(i as int), option)),
            option == CountOption::Line ==> tokens(ls.take(i as int), option).len() == i,
            option != CountOption::Line ==> tokens(ls.take(i as int), option).len()
                <= total_chars(ls.take(i as int)),
        decreases lines@.len() - i,
    {
        proof {
            lemma_tokens_step(ls, i as int, option);
            lemma_total_chars_prefix(ls, i + 1);
        }
        let ghost base = tokens(ls.take(i as int), option);
        match option {
            CountOption::Char => {
                let toks = char_tokens(&lines[i]);
                add_tokens(&mut f, &toks, Ghost(base));
            },
            CountOption::Word => {
                assert(views(words@[i as int]@) == line_tokens(ls[i as int], option));
                add_tokens(&mut f, &words[i], Ghost(base));
            },
            CountOption::Line => {
                let toks = vec![lines[i].clone()];
                assert(views(toks@) =~= line_tokens(ls[i as int], option));
                add_tokens(&mut f, &toks, Ghost(base));
            },
        }
        i = i + 1;
    }
    assert(ls.take(i as int) == ls);
    f
}

/// Counts the tokens of `input` under `option`.
///
/// The input is split into lines at each line feed; the line feed, and a
/// carriage return right before it, belong to no line. Each line is then
/// broken into its characters, its words (maximal runs of word characters,
/// as the pattern `\w+` finds them) or kept whole, and every token is
/// tallied.
pub fn count(input: &str, option: CountOption) -> (r: Frequencies)
    ensures
        r.wf(),
        r@ == frequencies(tokens(lines_of(input@), option)),
        sum_of_counts(r@, r.key_order()) == tokens(lines_of(input@), option).len(),
{
    let _n_chars = input.unicode_len();
    let lines = split_lines(input);
    proof {
        lemma_lines_chars(input@);
    }
    let r = count_lines(&lines, option);
    proof {
        r.lemma_key_order();
        lemma_counts_sum_to_token_total(tokens(lines_of(input@), option), r.key_order());
    }
    r
}

} // verus!
