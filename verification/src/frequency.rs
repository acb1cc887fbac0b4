//! The frequency profiler: a batch-wide table that counts, for each distinct
//! plain-token text, how many times it occurs across all titles' token
//! streams. Bracketed tokens never contribute. The table is built once per
//! batch and only read afterwards.

use vstd::prelude::*;

use crate::tokenizer::split_title_tokens;
use crate::tokenizer::spec_tokenize;
use crate::tokenizer::token_views;
use crate::tokenizer::SpecToken;

verus! {

/// The number of plain tokens with text `t` in a token stream.
pub open spec fn count_plain(toks: Seq<SpecToken>, t: Seq<char>) -> nat
    decreases toks.len(),
{
    if toks.len() == 0 {
        0nat
    } else {
        count_plain(toks.drop_last(), t) + if !toks.last().bracketed && toks.last().text == t {
            1nat
        } else {
            0nat
        }
    }
}

/// The models of a batch of titles.
pub open spec fn string_views(titles: Seq<String>) -> Seq<Seq<char>> {
    titles.map_values(|s: String| s@)
}

/// The number of times the plain-token text `t` occurs across the token
/// streams of all titles of the batch combined.
pub open spec fn spec_batch_count(titles: Seq<Seq<char>>, t: Seq<char>) -> nat
    decreases titles.len(),
{
    if titles.len() == 0 {
        0nat
    } else {
        spec_batch_count(titles.drop_last(), t) + count_plain(spec_tokenize(titles.last()), t)
    }
}

/// The number of strings in `es` whose characters are exactly `t`.
spec fn count_in(es: Seq<String>, t: Seq<char>) -> nat
    decreases es.len(),
{
    if es.len() == 0 {
        0nat
    } else {
        count_in(es.drop_last(), t) + if es.last()@ == t {
            1nat
        } else {
            0nat
        }
    }
}

/// A frequency table over the plain tokens of a batch: for each distinct
/// token text it answers how many times that exact text occurred across all
/// titles' plain tokens combined.
pub struct FrequencyTable {
    occurrences: Vec<String>,
}

impl FrequencyTable {
    /// The count the table holds for the token text `t`; a text that was
    /// never recorded has count zero.
    pub closed spec fn spec_count(self, t: Seq<char>) -> nat {
        count_in(self.occurrences@, t)
    }

    /// An empty table: every text has count zero.
    pub fn new() -> (table: FrequencyTable)
        ensures
            forall|t: Seq<char>| table.spec_count(t) == 0,
    {
        FrequencyTable { occurrences: Vec::new() }
    }

    /// Records one occurrence of a plain token's text: its count rises by
    /// one and every other count is unchanged.
    pub fn record(&mut self, text: &String)
        ensures
            forall|t: Seq<char>|
                final(self).spec_count(t) == old(self).spec_count(t) + if t == text@ {
                    1nat
                } else {
                    0nat
                },
    {
        let ghost prior = self.occurrences@;
        self.occurrences.push(text.clone());
        proof {
            assert(self.occurrences@.drop_last() =~= prior);
        }
    }

    /// Looks the given text up in the table.
    pub fn get_count(&self, text: &String) -> (count: usize)
        ensures
            count == self.spec_count(text@),
    {
        let n = self.occurrences.len();
        let mut count: usize = 0;
        let mut j: usize = 0;
        proof {
            assert(self.occurrences@.take(0) =~= Seq::<String>::empty());
        }
        while j < n
            invariant
                n == self.occurrences@.len(),
                j <= n,
                count <= j,
                count == count_in(self.occurrences@.take(j as int), text@),
            decreases n - j,
        {
            proof {
                assert(self.occurrences@.take(j + 1).drop_last() =~= self.occurrences@.take(
                    j as int,
                ));
                assert(self.occurrences@.take(j + 1).last() == self.occurrences@[j as int]);
            }
            let entry: &String = &self.occurrences[j];
            if entry.eq(text) {
                count = count + 1;
            }
            j = j + 1;
        }
        proof {
            assert(self.occurrences@.take(n as int) =~= self.occurrences@);
        }
        count
    }
}

/// Builds the frequency table of a batch: every title is tokenized and each
/// plain token's text is counted once per occurrence; bracketed tokens are
/// never counted. The order of the titles does not affect the counts.
pub fn build_token_frequency(titles: &Vec<String>) -> (table: FrequencyTable)
    ensures
        forall|t: Seq<char>| table.spec_count(t) == spec_batch_count(string_views(titles@), t),
{
    let mut table = FrequencyTable::new();
    let mut i: usize = 0;
    proof {
        assert(string_views(titles@).take(0) =~= Seq::<Seq<char>>::empty());
    }
    while i < titles.len()
        invariant
            i <= titles@.len(),
            forall|t: Seq<char>|
                table.spec_count(t) == spec_batch_count(
                    string_views(titles@).take(i as int),
                    t,
                ),
        decreases titles@.len() - i,
    {
        let tokens = split_title_tokens(titles[i].as_str());
        let mut j: usize = 0;
        proof {
            assert(token_views(tokens@).take(0) =~= Seq::<SpecToken>::empty());
        }
        while j < tokens.len()
            invariant
                i < titles@.len(),
                j <= tokens@.len(),
                token_views(tokens@) == spec_tokenize(titles@[i as int]@),
                forall|t: Seq<char>|
                    table.spec_count(t) == spec_batch_count(string_views(titles@).take(i as int), t)
                        + count_plain(token_views(tokens@).take(j as int), t),
            decreases tokens@.len() - j,
        {
            proof {
                assert(token_views(tokens@).take(j + 1).drop_last() =~= token_views(
                    tokens@,
                ).take(j as int));
                assert(token_views(tokens@).take(j + 1).last() == tokens@[j as int]@);
            }
            if !tokens[j].is_bracketed {
                table.record(&tokens[j].text);
            }
            j = j + 1;
        }
        proof {
            assert(token_views(tokens@).take(tokens@.len() as int) =~= token_views(tokens@));
            assert(string_views(titles@).take(i + 1).drop_last() =~= string_views(titles@).take(
                i as int,
            ));
            assert(string_views(titles@).take(i + 1).last() == titles@[i as int]@);
        }
        i = i + 1;
    }
    proof {
        assert(string_views(titles@).take(titles@.len() as int) =~= string_views(titles@));
    }
    table
}

} // verus!
