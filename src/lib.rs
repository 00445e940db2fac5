//! Frequency counting of characters, words or lines in a text.
//!
//! [`count`] splits its input into lines, breaks every line into tokens of the
//! granularity that a [`CountOption`] selects, and tallies how often each
//! token occurs.

mod counter;
mod freq;
mod laws;
mod model;
mod text;

pub use counter::{count, tally};
pub use freq::Frequencies;
pub use laws::{
    lemma_counts_sum_to_token_total, lemma_keys_are_tokens, lemma_keys_follow_mode,
    lemma_recount_identical, lemma_token_totals,
};
pub use model::{
    frequencies, line_tokens, lines_of, occurrences, regex_matches, scan_lines, strip_cr,
    sum_of_counts, tokens, total_chars, word_pattern, CountOption,
};
pub use text::views;
