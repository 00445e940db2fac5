use vstd::prelude::*;

use crate::model::{
    frequencies, line_tokens, lines_of, occurrences, sum_of_counts, tokens, total_chars,
    CountOption,
};

verus! {

/// How many of the tokens in `toks` lie in `keys`.
spec fn count_in(toks: Seq<Seq<char>>, keys: Set<Seq<char>>) -> nat
    decreases toks.len(),
{
    if toks.len() == 0 {
        0
    } else {
        count_in(toks.drop_last(), keys) + if keys.contains(toks.last()) {
            1nat
        } else {
            0nat
        }
    }
}

proof fn lemma_count_in_insert(toks: Seq<Seq<char>>, keys: Set<Seq<char>>, k: Seq<char>)
    requires
        !keys.contains(k),
    ensures
        count_in(toks, keys.insert(k)) == count_in(toks, keys) + occurrences(toks, k),
    decreases toks.len(),
{
    if toks.len() > 0 {
        lemma_count_in_insert(toks.drop_last(), keys, k);
    }
}

proof fn lemma_count_in_all(toks: Seq<Seq<char>>, keys: Set<Seq<char>>)
    requires
        forall|i: int| 0 <= i < toks.len() ==> keys.contains(#[trigger] toks[i]),
    ensures
        count_in(toks, keys) == toks.len(),
    decreases toks.len(),
{
    if toks.len() > 0 {
        lemma_count_in_all(toks.drop_last(), keys);
    }
}

proof fn lemma_occurs(toks: Seq<Seq<char>>, i: int)
    requires
        0 <= i < toks.len(),
    ensures
        occurrences(toks, toks[i]) > 0,
    decreases toks.len(),
{
    if i < toks.len() - 1 {
        lemma_occurs(toks.drop_last(), i);
    }
}

proof fn lemma_occurs_only_if_contained(toks: Seq<Seq<char>>, k: Seq<char>)
    requires
        occurrences(toks, k) > 0,
    ensures
        toks.contains(k),
    decreases toks.len(),
{
    if toks.last() != k {
        lemma_occurs_only_if_contained(toks.drop_last(), k);
        let i = choose|i: int| 0 <= i < toks.len() - 1 && toks.drop_last()[i] == k;
        assert(toks[i] == k);
    } else {
        assert(toks[toks.len() - 1] == k);
    }
}

/// The keys of a frequency mapping are exactly the tokens that occur.
pub proof fn lemma_keys_are_tokens(toks: Seq<Seq<char>>)
    ensures
        forall|k: Seq<char>| frequencies(toks).contains_key(k) <==> toks.contains(k),
{
    assert forall|k: Seq<char>| frequencies(toks).contains_key(k) <==> toks.contains(k) by {
        if toks.contains(k) {
            let i = choose|i: int| 0 <= i < toks.len() && toks[i] == k;
            lemma_occurs(toks, i);
        }
        if frequencies(toks).contains_key(k) {
            lemma_occurs_only_if_contained(toks, k);
        }
    }
}

proof fn lemma_sum_is_count_in(toks: Seq<Seq<char>>, ks: Seq<Seq<char>>)
    requires
        ks.no_duplicates(),
        forall|j: int| 0 <= j < ks.len() ==> frequencies(toks).contains_key(#[trigger] ks[j]),
    ensures
        sum_of_counts(frequencies(toks), ks) == count_in(toks, ks.to_set()),
    decreases ks.len(),
{
    if ks.len() == 0 {
        assert(ks.to_set() =~= Set::<Seq<char>>::empty());
        lemma_count_in_all_absent(toks);
    } else {
        let rest = ks.drop_last();
        let k = ks.last();
        assert(rest.no_duplicates());
        assert forall|j: int| 0 <= j < rest.len() implies frequencies(toks).contains_key(
            #[trigger] rest[j],
        ) by {
            assert(rest[j] == ks[j]);
        }
        assert(frequencies(toks).contains_key(ks[ks.len() - 1]));
        lemma_sum_is_count_in(toks, rest);
        assert forall|a: Seq<char>| ks.contains(a) <==> rest.contains(a) || a == k by {
            if ks.contains(a) {
                let j = choose|j: int| 0 <= j < ks.len() && ks[j] == a;
                if j < ks.len() - 1 {
                    assert(rest[j] == a);
                }
            }
            if rest.contains(a) {
                let j = choose|j: int| 0 <= j < rest.len() && rest[j] == a;
                assert(ks[j] == a);
            }
            if a == k {
                assert(ks[ks.len() - 1] == a);
            }
        }
        assert(ks.to_set() =~= rest.to_set().insert(k));
        assert(!rest.contains(k)) by {
            if rest.contains(k) {
                let j = choose|j: int| 0 <= j < rest.len() && rest[j] == k;
                assert(ks[j] == ks[ks.len() - 1]);
            }
        }
        lemma_count_in_insert(toks, rest.to_set(), k);
    }
}

proof fn lemma_count_in_all_absent(toks: Seq<Seq<char>>)
    ensures
        count_in(toks, Set::<Seq<char>>::empty()) == 0,
    decreases toks.len(),
{
    if toks.len() > 0 {
        lemma_count_in_all_absent(toks.drop_last());
    }
}

/// The counts of a frequency mapping, summed over its keys listed once each
/// in any order, give the number of tokens.
pub proof fn lemma_counts_sum_to_token_total(toks: Seq<Seq<char>>, ks: Seq<Seq<char>>)
    requires
        ks.no_duplicates(),
        ks.to_set() == frequencies(toks).dom(),
    ensures
        sum_of_counts(frequencies(toks), ks) == toks.len(),
{
    assert forall|j: int| 0 <= j < ks.len() implies frequencies(toks).contains_key(
        #[trigger] ks[j],
    ) by {
        assert(ks.to_set().contains(ks[j]));
    }
    lemma_sum_is_count_in(toks, ks);
    lemma_keys_are_tokens(toks);
    assert forall|i: int| 0 <= i < toks.len() implies ks.to_set().contains(#[trigger] toks[i]) by {
        assert(toks.contains(toks[i]));
    }
    lemma_count_in_all(toks, ks.to_set());
}

/// Counting characters yields one token per character of every line, and
/// counting lines one token per line.
pub proof fn lemma_token_totals(lines: Seq<Seq<char>>)
    ensures
        tokens(lines, CountOption::Char).len() == total_chars(lines),
        tokens(lines, CountOption::Line).len() == lines.len(),
    decreases lines.len(),
{
    if lines.len() > 0 {
        lemma_token_totals(lines.drop_last());
    }
}

/// Counting the same text twice gives the same mapping.
pub proof fn lemma_recount_identical(
    input: Seq<char>,
    option: CountOption,
    first: Map<Seq<char>, nat>,
    second: Map<Seq<char>, nat>,
)
    requires
        first == frequencies(tokens(lines_of(input), option)),
        second == frequencies(tokens(lines_of(input), option)),
    ensures
        first == second,
{
}

/// Each key of a count is a token of the chosen mode, taken from one line:
/// a single character of it under `Char`, a word of it under `Word`, the
/// whole line under `Line`. No mode brings in the keys of another.
pub proof fn lemma_keys_follow_mode(input: Seq<char>, option: CountOption)
    ensures
        forall|k: Seq<char>|
            #[trigger] frequencies(tokens(lines_of(input), option)).contains_key(k) ==> exists|
                i: int,
            |
                0 <= i < lines_of(input).len() && #[trigger] line_tokens(
                    lines_of(input)[i],
                    option,
                ).contains(k),
        forall|i: int, k: Seq<char>|
            0 <= i < lines_of(input).len() && #[trigger] line_tokens(
                lines_of(input)[i],
                option,
            ).contains(k) ==> frequencies(tokens(lines_of(input), option)).contains_key(k),
        option == CountOption::Char ==> forall|k: Seq<char>|
            #[trigger] frequencies(tokens(lines_of(input), option)).contains_key(k) ==> k.len()
                == 1,
        option == CountOption::Line ==> forall|k: Seq<char>|
            #[trigger] frequencies(tokens(lines_of(input), option)).contains_key(k)
                ==> lines_of(input).contains(k),
{
    let ls = lines_of(input);
    lemma_keys_are_tokens(tokens(ls, option));
    lemma_tokens_from_lines(ls, option);
    assert forall|k: Seq<char>|
        #[trigger] frequencies(tokens(ls, option)).contains_key(k) implies exists|i: int|
            0 <= i < ls.len() && #[trigger] line_tokens(ls[i], option).contains(k) by {
        assert(tokens(ls, option).contains(k));
    }
    assert forall|k: Seq<char>|
        #[trigger] frequencies(tokens(ls, option)).contains_key(k) implies (option
            == CountOption::Char ==> k.len() == 1) && (option == CountOption::Line
            ==> ls.contains(k)) by {
        assert(tokens(ls, option).contains(k));
        let i = choose|i: int| 0 <= i < ls.len() && #[trigger] line_tokens(ls[i], option).contains(k);
        let lt = line_tokens(ls[i], option);
        let j = choose|j: int| 0 <= j < lt.len() && lt[j] == k;
        if option == CountOption::Line {
            assert(ls[i] == k);
        }
    }
}

/// A token occurs among the tokens of the lines exactly when it is a token of
/// one of them.
proof fn lemma_tokens_from_lines(lines: Seq<Seq<char>>, option: CountOption)
    ensures
        forall|k: Seq<char>|
            #[trigger] tokens(lines, option).contains(k) ==> exists|i: int|
                0 <= i < lines.len() && #[trigger] line_tokens(lines[i], option).contains(k),
        forall|i: int, k: Seq<char>|
            0 <= i < lines.len() && #[trigger] line_tokens(lines[i], option).contains(k)
                ==> tokens(lines, option).contains(k),
    decreases lines.len(),
{
    if lines.len() > 0 {
        let rest = lines.drop_last();
        lemma_tokens_from_lines(rest, option);
        let a = tokens(rest, option);
        let b = line_tokens(lines.last(), option);
        assert(tokens(lines, option) == a + b);
        assert forall|k: Seq<char>| #[trigger] tokens(lines, option).contains(k) implies exists|
            i: int,
        | 0 <= i < lines.len() && #[trigger] line_tokens(lines[i], option).contains(k) by {
            let j = choose|j: int| 0 <= j < (a + b).len() && (a + b)[j] == k;
            if j < a.len() {
                assert(a[j] == k);
                assert(a.contains(k));
                let i = choose|i: int|
                    0 <= i < rest.len() && #[trigger] line_tokens(rest[i], option).contains(k);
                assert(lines[i] == rest[i]);
                assert(line_tokens(lines[i], option).contains(k));
            } else {
                assert(b[j - a.len()] == k);
                assert(lines[lines.len() - 1] == lines.last());
                assert(line_tokens(lines[lines.len() - 1], option).contains(k));
            }
        }
        assert forall|i: int, k: Seq<char>|
            0 <= i < lines.len() && #[trigger] line_tokens(lines[i], option).contains(
                k,
            ) implies tokens(lines, option).contains(k) by {
            if i < lines.len() - 1 {
                assert(rest[i] == lines[i]);
                assert(line_tokens(rest[i], option).contains(k));
                assert(a.contains(k));
                let j = choose|j: int| 0 <= j < a.len() && a[j] == k;
                assert((a + b)[j] == k);
            } else {
                let j = choose|j: int| 0 <= j < b.len() && b[j] == k;
                assert((a + b)[a.len() + j] == k);
            }
        }
    }
}

} // verus!
