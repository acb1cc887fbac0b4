//! The title cleaner: walks a title's tokens left to right and drops the
//! leading run of plain tokens whose batch-wide occurrence ratio meets the
//! threshold; the first bracketed token or the first infrequent plain token
//! stops the stripping permanently, and every later token is kept. The
//! surviving tokens are joined with no separator and the result is trimmed.
//!
//! The threshold is a fraction `num / den` in (0, 1]; a plain token is
//! boilerplate when `count / total >= num / den`, compared exactly as
//! `count * den >= num * total` (the comparison is inclusive by design).

use vstd::prelude::*;
use vstd::string::StrSliceExecFns;
use vstd::string::StringExecFns;

use crate::chars::is_space_char;
use crate::chars::space_char;
use crate::frequency::FrequencyTable;
use crate::tokenizer::spec_tokenize;
use crate::tokenizer::split_title_tokens;
use crate::tokenizer::token_views;
use crate::tokenizer::SpecToken;
use crate::tokenizer::TitleToken;

verus! {

/// A plain token is boilerplate when its occurrence ratio across the batch
/// meets or exceeds the threshold `num / den`; a bracketed token never is.
pub open spec fn is_boilerplate(
    tok: SpecToken,
    table: FrequencyTable,
    total: nat,
    num: nat,
    den: nat,
) -> bool {
    !tok.bracketed && table.spec_count(tok.text) * den >= num * total
}

/// The number of leading tokens that cleaning drops: the length of the
/// longest prefix of the stream consisting of boilerplate plain tokens.
pub open spec fn spec_strip_count(
    toks: Seq<SpecToken>,
    table: FrequencyTable,
    total: nat,
    num: nat,
    den: nat,
) -> nat
    decreases toks.len(),
{
    if toks.len() > 0 && is_boilerplate(toks[0], table, total, num, den) {
        1 + spec_strip_count(toks.drop_first(), table, total, num, den)
    } else {
        0nat
    }
}

/// The tokens that survive cleaning: the stream with its stripped prefix
/// removed.
pub open spec fn spec_kept(
    toks: Seq<SpecToken>,
    table: FrequencyTable,
    total: nat,
    num: nat,
    den: nat,
) -> Seq<SpecToken> {
    toks.skip(spec_strip_count(toks, table, total, num, den) as int)
}

/// The concatenation of the tokens' raw texts, with no separator.
pub open spec fn spec_join(toks: Seq<SpecToken>) -> Seq<char>
    decreases toks.len(),
{
    if toks.len() == 0 {
        Seq::<char>::empty()
    } else {
        spec_join(toks.drop_last()) + toks.last().text
    }
}

/// The string without its leading run of white-space characters.
pub open spec fn spec_trim_start(s: Seq<char>) -> Seq<char>
    decreases s.len(),
{
    if s.len() > 0 && is_space_char(s[0]) {
        spec_trim_start(s.drop_first())
    } else {
        s
    }
}

/// The string without its trailing run of white-space characters.
pub open spec fn spec_trim_end(s: Seq<char>) -> Seq<char>
    decreases s.len(),
{
    if s.len() > 0 && is_space_char(s.last()) {
        spec_trim_end(s.drop_last())
    } else {
        s
    }
}

/// The string with leading and trailing white space removed.
pub open spec fn spec_trim(s: Seq<char>) -> Seq<char> {
    spec_trim_end(spec_trim_start(s))
}

/// The cleaned form of a title: its tokens without the stripped boilerplate
/// prefix, joined with no separator and trimmed of surrounding white space.
pub open spec fn spec_clean(
    title: Seq<char>,
    table: FrequencyTable,
    total: nat,
    num: nat,
    den: nat,
) -> Seq<char> {
    spec_trim(spec_join(spec_kept(spec_tokenize(title), table, total, num, den)))
}

/// Exact threshold comparison: `count / total >= num / den`, decided without
/// division as `count * den >= num * total`.
fn ratio_meets(count: usize, total: usize, num: u64, den: u64) -> (r: bool)
    ensures
        r == ((count as nat) * (den as nat) >= (num as nat) * (total as nat)),
{
    proof {
        assert((count as nat) * (den as nat) <= u128::MAX && (num as nat) * (total as nat)
            <= u128::MAX) by (nonlinear_arith)
            requires
                count as nat <= u64::MAX as nat,
                den as nat <= u64::MAX as nat,
                num as nat <= u64::MAX as nat,
                total as nat <= u64::MAX as nat,
        ;
    }
    (count as u128) * (den as u128) >= (num as u128) * (total as u128)
}

/// Whether cleaning, still in its stripping phase, drops the token at
/// position `k`.
fn should_strip(
    tokens: &Vec<TitleToken>,
    k: usize,
    table: &FrequencyTable,
    total: usize,
    num: u64,
    den: u64,
) -> (r: bool)
    requires
        k < tokens@.len(),
    ensures
        r == is_boilerplate(tokens@[k as int]@, *table, total as nat, num as nat, den as nat),
{
    if tokens[k].is_bracketed {
        false
    } else {
        let count = table.get_count(&tokens[k].text);
        ratio_meets(count, total, num, den)
    }
}

/// Cleans one chapter title against a batch's frequency table: the leading
/// run of plain tokens whose ratio `count / total_titles` meets or exceeds
/// the threshold `threshold_num / threshold_den` is dropped; the first
/// bracketed token or the first plain token below the threshold ends the
/// stripping, and every token from there on is kept. The kept tokens' texts
/// are joined with no separator and the result is trimmed of leading and
/// trailing white space. A title whose tokens are all stripped cleans to the
/// empty string, which is a valid result.
pub fn dynamic_clean_title(
    title: &str,
    token_frequency: &FrequencyTable,
    total_titles: usize,
    threshold_num: u64,
    threshold_den: u64,
) -> (cleaned: String)
    requires
        total_titles >= 1,
        0 < threshold_num,
        threshold_num <= threshold_den,
    ensures
        cleaned@ == spec_clean(
            title@,
            *token_frequency,
            total_titles as nat,
            threshold_num as nat,
            threshold_den as nat,
        ),
{
    let tokens = split_title_tokens(title);
    let ghost tv = token_views(tokens@);
    let ghost total = total_titles as nat;
    let ghost num = threshold_num as nat;
    let ghost den = threshold_den as nat;

    let mut k: usize = 0;
    proof {
        assert(tv.skip(0) =~= tv);
    }
    while k < tokens.len() && should_strip(&tokens, k, token_frequency, total_titles, threshold_num,
        threshold_den)
        invariant
            tv == token_views(tokens@),
            total == total_titles as nat,
            num == threshold_num as nat,
            den == threshold_den as nat,
            k <= tv.len(),
            spec_strip_count(tv, *token_frequency, total, num, den) == k + spec_strip_count(
                tv.skip(k as int),
                *token_frequency,
                total,
                num,
                den,
            ),
        decreases tv.len() - k,
    {
        proof {
            assert(tv.skip(k as int)[0] == tv[k as int]);
            assert(tv.skip(k as int).drop_first() =~= tv.skip(k + 1));
        }
        k = k + 1;
    }
    proof {
        if k < tokens@.len() {
            assert(tv.skip(k as int)[0] == tv[k as int]);
            assert(spec_strip_count(tv.skip(k as int), *token_frequency, total, num, den) == 0);
        } else {
            assert(tv.skip(k as int) =~= Seq::<SpecToken>::empty());
            assert(spec_strip_count(tv.skip(k as int), *token_frequency, total, num, den) == 0);
        }
        assert(spec_strip_count(tv, *token_frequency, total, num, den) == k);
    }

    let mut joined = String::new();
    let mut m: usize = k;
    proof {
        assert(tv.subrange(k as int, k as int) =~= Seq::<SpecToken>::empty());
    }
    while m < tokens.len()
        invariant
            tv == token_views(tokens@),
            k <= m <= tv.len(),
            joined@ == spec_join(tv.subrange(k as int, m as int)),
        decreases tv.len() - m,
    {
        joined.append(tokens[m].text.as_str());
        proof {
            assert(tv.subrange(k as int, m + 1).drop_last() =~= tv.subrange(k as int, m as int));
            assert(tv.subrange(k as int, m + 1).last() == tv[m as int]);
        }
        m = m + 1;
    }
    proof {
        assert(tv.subrange(k as int, tv.len() as int) =~= tv.skip(k as int));
        assert(joined@ == spec_join(spec_kept(tv, *token_frequency, total, num, den)));
    }

    let jn: &str = joined.as_str();
    let n = jn.unicode_len();
    let mut a: usize = 0;
    proof {
        assert(jn@.skip(0) =~= jn@);
    }
    while a < n && space_char(jn.get_char(a))
        invariant
            n == jn@.len(),
            a <= n,
            spec_trim_start(jn@) == spec_trim_start(jn@.skip(a as int)),
        decreases n - a,
    {
        proof {
            assert(jn@.skip(a as int)[0] == jn@[a as int]);
            assert(jn@.skip(a as int).drop_first() =~= jn@.skip(a + 1));
        }
        a = a + 1;
    }
    proof {
        if a < n {
            assert(jn@.skip(a as int)[0] == jn@[a as int]);
        } else {
            assert(jn@.skip(a as int) =~= Seq::<char>::empty());
        }
        assert(spec_trim_start(jn@) == jn@.skip(a as int));
        assert(jn@.skip(a as int) =~= jn@.subrange(a as int, n as int));
    }

    let mut b: usize = n;
    while b > a && space_char(jn.get_char(b - 1))
        invariant
            n == jn@.len(),
            a <= b <= n,
            spec_trim_end(jn@.subrange(a as int, n as int)) == spec_trim_end(
                jn@.subrange(a as int, b as int),
            ),
        decreases b,
    {
        proof {
            assert(jn@.subrange(a as int, b as int).last() == jn@[b - 1]);
            assert(jn@.subrange(a as int, b as int).drop_last() =~= jn@.subrange(
                a as int,
                b - 1,
            ));
        }
        b = b - 1;
    }
    proof {
        if b > a {
            assert(jn@.subrange(a as int, b as int).last() == jn@[b - 1]);
        } else {
            assert(jn@.subrange(a as int, b as int) =~= Seq::<char>::empty());
        }
        assert(spec_trim_end(jn@.subrange(a as int, n as int)) == jn@.subrange(a as int, b as int));
        assert(spec_trim(joined@) == jn@.subrange(a as int, b as int));
    }
    let cleaned = jn.substring_char(a, b).to_owned();
    cleaned
}

/// The stripped prefix never exceeds the token stream.
pub proof fn lemma_strip_count_bounds(
    toks: Seq<SpecToken>,
    table: FrequencyTable,
    total: nat,
    num: nat,
    den: nat,
)
    ensures
        spec_strip_count(toks, table, total, num, den) <= toks.len(),
    decreases toks.len(),
{
    if toks.len() > 0 && is_boilerplate(toks[0], table, total, num, den) {
        lemma_strip_count_bounds(toks.drop_first(), table, total, num, den);
    }
}

/// Bracket preservation: whatever the threshold and the batch, a bracketed
/// token is never dropped — it lies at or beyond the stripped prefix and
/// survives at its place in the kept suffix.
pub proof fn lemma_bracketed_never_dropped(
    toks: Seq<SpecToken>,
    table: FrequencyTable,
    total: nat,
    num: nat,
    den: nat,
    i: int,
)
    requires
        0 <= i < toks.len(),
        toks[i].bracketed,
    ensures
        spec_strip_count(toks, table, total, num, den) <= i,
        spec_kept(toks, table, total, num, den)[i - spec_strip_count(
            toks,
            table,
            total,
            num,
            den,
        )] == toks[i],
    decreases i,
{
    if is_boilerplate(toks[0], table, total, num, den) {
        lemma_bracketed_never_dropped(toks.drop_first(), table, total, num, den, i - 1);
    }
}

/// Prefix-only stripping: the kept tokens are exactly the suffix of the
/// stream that starts at the stripped prefix's end, in order — once one
/// token is kept, every later token is kept, whatever its own frequency.
pub proof fn lemma_prefix_only(
    toks: Seq<SpecToken>,
    table: FrequencyTable,
    total: nat,
    num: nat,
    den: nat,
)
    ensures
        spec_strip_count(toks, table, total, num, den) <= toks.len(),
        spec_kept(toks, table, total, num, den).len() == toks.len() - spec_strip_count(
            toks,
            table,
            total,
            num,
            den,
        ),
        forall|i: int|
            spec_strip_count(toks, table, total, num, den) <= i < toks.len()
                ==> spec_kept(toks, table, total, num, den)[i - spec_strip_count(
                toks,
                table,
                total,
                num,
                den,
            )] == toks[i],
{
    lemma_strip_count_bounds(toks, table, total, num, den);
}

/// Monotonicity in the threshold: raising the threshold can only shrink the
/// stripped prefix, so every token kept at the lower threshold is also kept
/// at the higher one. The thresholds `num1 / den1 <= num2 / den2` are
/// compared as fractions.
pub proof fn lemma_threshold_monotone(
    toks: Seq<SpecToken>,
    table: FrequencyTable,
    total: nat,
    num1: nat,
    den1: nat,
    num2: nat,
    den2: nat,
)
    requires
        0 < den1,
        0 < den2,
        num1 * den2 <= num2 * den1,
    ensures
        spec_strip_count(toks, table, total, num2, den2) <= spec_strip_count(
            toks,
            table,
            total,
            num1,
            den1,
        ),
    decreases toks.len(),
{
    if toks.len() > 0 && is_boilerplate(toks[0], table, total, num2, den2) {
        assert(table.spec_count(toks[0].text) * den1 >= num1 * total) by (nonlinear_arith)
            requires
                table.spec_count(toks[0].text) * den2 >= num2 * total,
                num1 * den2 <= num2 * den1,
                0 < den1,
                0 < den2,
        ;
        lemma_threshold_monotone(toks.drop_first(), table, total, num1, den1, num2, den2);
    }
}

} // verus!
