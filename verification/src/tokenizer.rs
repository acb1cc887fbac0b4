//! The tokenizer: bracket standardization and the left-to-right scan that
//! splits a title into bracketed and plain tokens.
//!
//! The scan prefers, at each position, the shortest bracketed span (from a
//! `[` to the next `]`) over a maximal run of plain characters; separator
//! characters between tokens are dropped, and a bracket character that opens
//! no span is skipped without emitting a token.

use vstd::prelude::*;
use vstd::string::StrSliceExecFns;

use crate::chars::is_bracket_char;
use crate::chars::is_plain_char;
use crate::chars::is_separator_char;
use crate::chars::plain_char;
use crate::chars::spec_standardize;

verus! {

/// The mathematical model of a token: its kind and the exact characters of
/// the matched substring (bracket delimiters included for bracketed tokens).
pub struct SpecToken {
    pub bracketed: bool,
    pub text: Seq<char>,
}

/// A token parsed from a chapter title. A token is either a bracketed span
/// such as `[Intro]` or a plain text run; the flag distinguishes the two.
#[derive(Debug)]
pub struct TitleToken {
    pub is_bracketed: bool,
    pub text: String,
}

impl View for TitleToken {
    type V = SpecToken;

    open spec fn view(&self) -> SpecToken {
        SpecToken { bracketed: self.is_bracketed, text: self.text@ }
    }
}

/// The models of a sequence of parsed tokens.
pub open spec fn token_views(ts: Seq<TitleToken>) -> Seq<SpecToken> {
    ts.map_values(|t: TitleToken| t@)
}

/// The index of the first `]` at or after position `i`, or the length of the
/// string if there is none.
pub open spec fn find_close(s: Seq<char>, i: int) -> int
    recommends
        0 <= i <= s.len(),
    decreases s.len() - i,
    when 0 <= i <= s.len()
{
    if i >= s.len() {
        s.len() as int
    } else if s[i] == ']' {
        i
    } else {
        find_close(s, i + 1)
    }
}

/// The end of the maximal run of plain characters starting at position `i`:
/// the index of the first non-plain character at or after `i`, or the length
/// of the string if the run reaches the end.
pub open spec fn plain_run_end(s: Seq<char>, i: int) -> int
    recommends
        0 <= i <= s.len(),
    decreases s.len() - i,
    when 0 <= i <= s.len()
{
    if i >= s.len() {
        s.len() as int
    } else if is_plain_char(s[i]) {
        plain_run_end(s, i + 1)
    } else {
        i
    }
}

pub proof fn lemma_find_close_bounds(s: Seq<char>, i: int)
    requires
        0 <= i <= s.len(),
    ensures
        i <= find_close(s, i) <= s.len(),
    decreases s.len() - i,
{
    if i < s.len() && s[i] != ']' {
        lemma_find_close_bounds(s, i + 1);
    }
}

pub proof fn lemma_plain_run_end_bounds(s: Seq<char>, i: int)
    requires
        0 <= i <= s.len(),
    ensures
        i <= plain_run_end(s, i) <= s.len(),
        i < s.len() && is_plain_char(s[i]) ==> i + 1 <= plain_run_end(s, i),
    decreases s.len() - i,
{
    if i < s.len() && is_plain_char(s[i]) {
        lemma_plain_run_end_bounds(s, i + 1);
    }
}

/// The token stream of the standardized string `s`, scanning from position
/// `i`. At each position: a `[` that has a matching `]` yields a bracketed
/// token up to the nearest `]`; a plain character starts a plain token that
/// extends over the maximal plain run; any other character (a separator, a
/// stray bracket) is dropped and the scan moves on by one.
pub open spec fn spec_scan_from(s: Seq<char>, i: int) -> Seq<SpecToken>
    recommends
        0 <= i <= s.len(),
    decreases s.len() - i,
    when 0 <= i <= s.len()
    via spec_scan_from_decreases
{
    if i >= s.len() {
        Seq::<SpecToken>::empty()
    } else if s[i] == '[' {
        let j = find_close(s, i + 1);
        if j < s.len() {
            seq![SpecToken { bracketed: true, text: s.subrange(i, j + 1) }] + spec_scan_from(
                s,
                j + 1,
            )
        } else {
            spec_scan_from(s, i + 1)
        }
    } else if is_plain_char(s[i]) {
        let k = plain_run_end(s, i);
        seq![SpecToken { bracketed: false, text: s.subrange(i, k) }] + spec_scan_from(s, k)
    } else {
        spec_scan_from(s, i + 1)
    }
}

#[via_fn]
proof fn spec_scan_from_decreases(s: Seq<char>, i: int) {
    if 0 <= i < s.len() {
        if s[i] == '[' {
            lemma_find_close_bounds(s, i + 1);
        } else if is_plain_char(s[i]) {
            lemma_plain_run_end_bounds(s, i);
        }
    }
}

/// The token stream of a raw title: the scan of the bracket-standardized
/// string, from its start.
pub open spec fn spec_tokenize(title: Seq<char>) -> Seq<SpecToken> {
    spec_scan_from(spec_standardize(title), 0)
}

/// One segment of the scanned string: either an emitted token (`is_token`)
/// or a single character that the scan dropped (a separator or a bracket
/// character that delimits no token). For a token piece, `bracketed` and
/// `chars` are the token's kind and text; for a dropped piece, `bracketed`
/// is false and `chars` holds the one dropped character.
pub struct SpecPiece {
    pub is_token: bool,
    pub bracketed: bool,
    pub chars: Seq<char>,
}

/// The token a token piece stands for.
pub open spec fn piece_token(p: SpecPiece) -> SpecToken {
    SpecToken { bracketed: p.bracketed, text: p.chars }
}

/// The concatenation of the characters all pieces cover, in order.
pub open spec fn pieces_text(ps: Seq<SpecPiece>) -> Seq<char>
    decreases ps.len(),
{
    if ps.len() == 0 {
        Seq::<char>::empty()
    } else {
        ps[0].chars + pieces_text(ps.drop_first())
    }
}

/// The tokens among the pieces, in order.
pub open spec fn pieces_tokens(ps: Seq<SpecPiece>) -> Seq<SpecToken>
    decreases ps.len(),
{
    if ps.len() == 0 {
        Seq::<SpecToken>::empty()
    } else if ps[0].is_token {
        seq![piece_token(ps[0])] + pieces_tokens(ps.drop_first())
    } else {
        pieces_tokens(ps.drop_first())
    }
}

/// A dropped piece only ever covers one separator character or one bracket
/// character; a token piece is always fine.
pub open spec fn piece_dropped_ok(p: SpecPiece) -> bool {
    p.is_token || (p.chars.len() == 1 && (is_separator_char(p.chars[0]) || is_bracket_char(
        p.chars[0],
    )))
}

/// The decomposition of the standardized string from position `i` into
/// pieces: it mirrors the scan, but also records each dropped character.
pub open spec fn spec_pieces_from(s: Seq<char>, i: int) -> Seq<SpecPiece>
    recommends
        0 <= i <= s.len(),
    decreases s.len() - i,
    when 0 <= i <= s.len()
    via spec_pieces_from_decreases
{
    if i >= s.len() {
        Seq::<SpecPiece>::empty()
    } else if s[i] == '[' {
        let j = find_close(s, i + 1);
        if j < s.len() {
            seq![SpecPiece { is_token: true, bracketed: true, chars: s.subrange(i, j + 1) }]
                + spec_pieces_from(s, j + 1)
        } else {
            seq![SpecPiece { is_token: false, bracketed: false, chars: seq![s[i]] }]
                + spec_pieces_from(s, i + 1)
        }
    } else if is_plain_char(s[i]) {
        let k = plain_run_end(s, i);
        seq![SpecPiece { is_token: true, bracketed: false, chars: s.subrange(i, k) }]
            + spec_pieces_from(s, k)
    } else {
        seq![SpecPiece { is_token: false, bracketed: false, chars: seq![s[i]] }]
            + spec_pieces_from(s, i + 1)
    }
}

#[via_fn]
proof fn spec_pieces_from_decreases(s: Seq<char>, i: int) {
    if 0 <= i < s.len() {
        if s[i] == '[' {
            lemma_find_close_bounds(s, i + 1);
        } else if is_plain_char(s[i]) {
            lemma_plain_run_end_bounds(s, i);
        }
    }
}

/// Unfolding helper: text and tokens of a decomposition that starts with one
/// known piece.
proof fn lemma_pieces_cons(x: SpecPiece, rest: Seq<SpecPiece>)
    ensures
        pieces_text(seq![x] + rest) == x.chars + pieces_text(rest),
        x.is_token ==> pieces_tokens(seq![x] + rest) == seq![piece_token(x)] + pieces_tokens(rest),
        !x.is_token ==> pieces_tokens(seq![x] + rest) == pieces_tokens(rest),
{
    assert((seq![x] + rest)[0] == x);
    assert((seq![x] + rest).drop_first() =~= rest);
}

/// Unfolding helper: every piece of a decomposition that starts with one
/// acceptable piece is acceptable if the rest are.
proof fn lemma_pieces_all_ok(x: SpecPiece, rest: Seq<SpecPiece>)
    requires
        piece_dropped_ok(x),
        forall|p: int| 0 <= p < rest.len() ==> piece_dropped_ok(#[trigger] rest[p]),
    ensures
        forall|p: int|
            0 <= p < (seq![x] + rest).len() ==> piece_dropped_ok(#[trigger] (seq![x] + rest)[p]),
{
    assert forall|p: int| 0 <= p < (seq![x] + rest).len() implies piece_dropped_ok(
        #[trigger] (seq![x] + rest)[p],
    ) by {
        if p == 0 {
            assert((seq![x] + rest)[p] == x);
        } else {
            assert((seq![x] + rest)[p] == rest[p - 1]);
        }
    }
}

/// Token partition completeness over the scan: the pieces of the
/// decomposition cover the string from `i` exactly once each — their texts
/// concatenate back to the string, their tokens are exactly the scan's
/// tokens, and every dropped character is a separator or a bracket.
pub proof fn lemma_scan_partition(s: Seq<char>, i: int)
    requires
        0 <= i <= s.len(),
    ensures
        pieces_text(spec_pieces_from(s, i)) == s.subrange(i, s.len() as int),
        pieces_tokens(spec_pieces_from(s, i)) == spec_scan_from(s, i),
        forall|p: int|
            0 <= p < spec_pieces_from(s, i).len() ==> piece_dropped_ok(
                #[trigger] spec_pieces_from(s, i)[p],
            ),
    decreases s.len() - i,
{
    let ps = spec_pieces_from(s, i);
    if i >= s.len() {
        assert(s.subrange(i, s.len() as int) =~= Seq::<char>::empty());
    } else if s[i] == '[' {
        lemma_find_close_bounds(s, i + 1);
        let j = find_close(s, i + 1);
        if j < s.len() {
            let x = SpecPiece { is_token: true, bracketed: true, chars: s.subrange(i, j + 1) };
            let rest = spec_pieces_from(s, j + 1);
            lemma_scan_partition(s, j + 1);
            lemma_pieces_cons(x, rest);
            assert(s.subrange(i, s.len() as int) =~= s.subrange(i, j + 1) + s.subrange(
                j + 1,
                s.len() as int,
            ));
            lemma_pieces_all_ok(x, rest);
            assert(ps == seq![x] + rest);
            assert(spec_scan_from(s, i) == seq![piece_token(x)] + spec_scan_from(s, j + 1));
            assert(pieces_tokens(ps) == spec_scan_from(s, i));
        } else {
            let x = SpecPiece { is_token: false, bracketed: false, chars: seq![s[i]] };
            let rest = spec_pieces_from(s, i + 1);
            lemma_scan_partition(s, i + 1);
            lemma_pieces_cons(x, rest);
            assert(x.chars =~= s.subrange(i, i + 1));
            assert(s.subrange(i, s.len() as int) =~= s.subrange(i, i + 1) + s.subrange(
                i + 1,
                s.len() as int,
            ));
            lemma_pieces_all_ok(x, rest);
            assert(ps == seq![x] + rest);
            assert(spec_scan_from(s, i) == spec_scan_from(s, i + 1));
            assert(pieces_tokens(ps) == spec_scan_from(s, i));
        }
    } else if is_plain_char(s[i]) {
        lemma_plain_run_end_bounds(s, i);
        let k = plain_run_end(s, i);
        let x = SpecPiece { is_token: true, bracketed: false, chars: s.subrange(i, k) };
        let rest = spec_pieces_from(s, k);
        lemma_scan_partition(s, k);
        lemma_pieces_cons(x, rest);
        assert(s.subrange(i, s.len() as int) =~= s.subrange(i, k) + s.subrange(
            k,
            s.len() as int,
        ));
        lemma_pieces_all_ok(x, rest);
        assert(ps == seq![x] + rest);
        assert(spec_scan_from(s, i) == seq![piece_token(x)] + spec_scan_from(s, k));
        assert(pieces_tokens(ps) == spec_scan_from(s, i));
    } else {
        let x = SpecPiece { is_token: false, bracketed: false, chars: seq![s[i]] };
        let rest = spec_pieces_from(s, i + 1);
        lemma_scan_partition(s, i + 1);
        lemma_pieces_cons(x, rest);
        assert(x.chars =~= s.subrange(i, i + 1));
        assert(s.subrange(i, s.len() as int) =~= s.subrange(i, i + 1) + s.subrange(
            i + 1,
            s.len() as int,
        ));
        lemma_pieces_all_ok(x, rest);
        assert(ps == seq![x] + rest);
        assert(spec_scan_from(s, i) == spec_scan_from(s, i + 1));
        assert(pieces_tokens(ps) == spec_scan_from(s, i));
    }
}

/// Token partition completeness for a whole title: every character of the
/// standardized title is accounted for by exactly one emitted token or by
/// one dropped separator or bracket character — the pieces' texts
/// concatenate back to the standardized title and their tokens are exactly
/// the tokenizer's output.
pub proof fn lemma_token_partition(title: Seq<char>)
    ensures
        pieces_text(spec_pieces_from(spec_standardize(title), 0)) == spec_standardize(title),
        pieces_tokens(spec_pieces_from(spec_standardize(title), 0)) == spec_tokenize(title),
        forall|p: int|
            0 <= p < spec_pieces_from(spec_standardize(title), 0).len() ==> piece_dropped_ok(
                #[trigger] spec_pieces_from(spec_standardize(title), 0)[p],
            ),
{
    let s = spec_standardize(title);
    lemma_scan_partition(s, 0);
    assert(s.subrange(0, s.len() as int) =~= s);
}

/// Standardizes the bracket characters of the input by replacing every
/// recognized alternate bracket glyph (full-width parentheses, full-width
/// corner brackets, ASCII parentheses) with `[` or `]`.
pub fn standardize_brackets(input: &str) -> (r: String)
    ensures
        r@ == spec_standardize(input@),
{
    let n = input.unicode_len();
    let mut r = String::new();
    let mut i: usize = 0;
    proof {
        reveal_strlit("[");
        reveal_strlit("]");
        assert(r@ =~= spec_standardize(input@.subrange(0, 0)));
    }
    while i < n
        invariant
            n == input@.len(),
            i <= n,
            r@ == spec_standardize(input@.subrange(0, i as int)),
        decreases n - i,
    {
        let c = input.get_char(i);
        if c == '（' || c == '(' || c == '【' {
            r.append("[");
        } else if c == '）' || c == ')' || c == '】' {
            r.append("]");
        } else {
            r.append(input.substring_char(i, i + 1));
        }
        proof {
            reveal_strlit("[");
            reveal_strlit("]");
            assert(input@.subrange(i as int, i + 1) =~= seq![input@[i as int]]);
            assert(r@ =~= spec_standardize(input@.subrange(0, i + 1)));
        }
        i = i + 1;
    }
    proof {
        assert(input@.subrange(0, n as int) =~= input@);
    }
    r
}

/// Splits a chapter title into tokens: the title's brackets are standardized
/// and the result is scanned into bracketed and plain tokens, in scan order.
pub fn split_title_tokens(title: &str) -> (tokens: Vec<TitleToken>)
    ensures
        token_views(tokens@) == spec_tokenize(title@),
{
    let standardized_title = standardize_brackets(title);
    let st: &str = standardized_title.as_str();
    let n = st.unicode_len();
    let mut tokens: Vec<TitleToken> = Vec::new();
    let mut i: usize = 0;
    proof {
        assert(token_views(tokens@) + spec_scan_from(st@, 0) =~= spec_scan_from(st@, 0));
    }
    while i < n
        invariant
            st@ == spec_standardize(title@),
            n == st@.len(),
            i <= n,
            token_views(tokens@) + spec_scan_from(st@, i as int) == spec_scan_from(st@, 0),
        decreases n - i,
    {
        let c = st.get_char(i);
        if c == '[' {
            let mut j = i + 1;
            while j < n && st.get_char(j) != ']'
                invariant
                    n == st@.len(),
                    i + 1 <= j <= n,
                    find_close(st@, i + 1) == find_close(st@, j as int),
                decreases n - j,
            {
                j = j + 1;
            }
            if j < n {
                assert(find_close(st@, i + 1) == j);
                let text = st.substring_char(i, j + 1).to_owned();
                let ghost tok = SpecToken { bracketed: true, text: st@.subrange(i as int, j + 1) };
                let ghost prior = tokens@;
                tokens.push(TitleToken { is_bracketed: true, text });
                proof {
                    assert(token_views(tokens@) =~= token_views(prior).push(tok));
                    assert(spec_scan_from(st@, i as int) == seq![tok] + spec_scan_from(
                        st@,
                        j + 1,
                    ));
                    assert(token_views(prior).push(tok) + spec_scan_from(st@, j + 1)
                        =~= token_views(prior) + spec_scan_from(st@, i as int));
                }
                i = j + 1;
            } else {
                assert(find_close(st@, i + 1) == n);
                assert(spec_scan_from(st@, i as int) == spec_scan_from(st@, i + 1));
                i = i + 1;
            }
        } else if plain_char(c) {
            proof {
                assert(plain_run_end(st@, i as int) == plain_run_end(st@, i + 1));
            }
            let mut j = i + 1;
            while j < n && plain_char(st.get_char(j))
                invariant
                    n == st@.len(),
                    i < j <= n,
                    plain_run_end(st@, i as int) == plain_run_end(st@, j as int),
                decreases n - j,
            {
                j = j + 1;
            }
            assert(plain_run_end(st@, i as int) == j);
            let text = st.substring_char(i, j).to_owned();
            let ghost tok = SpecToken { bracketed: false, text: st@.subrange(i as int, j as int) };
            let ghost prior = tokens@;
            tokens.push(TitleToken { is_bracketed: false, text });
            proof {
                assert(token_views(tokens@) =~= token_views(prior).push(tok));
                assert(spec_scan_from(st@, i as int) == seq![tok] + spec_scan_from(st@, j as int));
                assert(token_views(prior).push(tok) + spec_scan_from(st@, j as int)
                    =~= token_views(prior) + spec_scan_from(st@, i as int));
            }
            i = j;
        } else {
            assert(spec_scan_from(st@, i as int) == spec_scan_from(st@, i + 1));
            i = i + 1;
        }
    }
    proof {
        assert(spec_scan_from(st@, n as int) =~= Seq::<SpecToken>::empty());
        assert(token_views(tokens@) + Seq::<SpecToken>::empty() =~= token_views(tokens@));
    }
    tokens
}

} // verus!
