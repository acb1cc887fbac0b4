//! Character classes used by the tokenizer: bracket glyphs, whitespace and
//! the separator characters that are dropped between tokens.

use vstd::prelude::*;

verus! {

/// An opening bracket glyph that is standardized to `[`: a full-width
/// parenthesis, a full-width corner bracket, or an ASCII parenthesis.
pub open spec fn is_open_glyph(c: char) -> bool {
    c == '（' || c == '(' || c == '【'
}

/// A closing bracket glyph that is standardized to `]`.
pub open spec fn is_close_glyph(c: char) -> bool {
    c == '）' || c == ')' || c == '】'
}

/// The bracket-standardization map on a single character: every recognized
/// opening glyph becomes `[`, every closing glyph becomes `]`, and every
/// other character is unchanged.
pub open spec fn std_char(c: char) -> char {
    if is_open_glyph(c) {
        '['
    } else if is_close_glyph(c) {
        ']'
    } else {
        c
    }
}

/// Bracket standardization of a whole string: `std_char` applied to each
/// character independently.
pub open spec fn spec_standardize(s: Seq<char>) -> Seq<char> {
    s.map_values(|c: char| std_char(c))
}

/// The Unicode white-space characters (the `White_Space` property), which the
/// tokenizer treats as separators and trimming removes at the ends of a
/// cleaned title.
pub open spec fn is_space_char(c: char) -> bool {
    let u = c as u32;
    u == 0x09 || u == 0x0A || u == 0x0B || u == 0x0C || u == 0x0D || u == 0x20 || u == 0x85
        || u == 0xA0 || u == 0x1680 || (0x2000 <= u && u <= 0x200A) || u == 0x2028 || u == 0x2029
        || u == 0x202F || u == 0x205F || u == 0x3000
}

/// An ASCII decimal digit.
pub open spec fn is_digit_char(c: char) -> bool {
    let u = c as u32;
    0x30 <= u && u <= 0x39
}

/// A separator character: digits, white space, hyphens, and colons (ASCII or
/// full-width) act as token separators and are never emitted as tokens.
pub open spec fn is_separator_char(c: char) -> bool {
    is_digit_char(c) || is_space_char(c) || c == '-' || c == ':' || c == '：'
}

/// A bracket character of the standardized alphabet (square brackets) or a
/// raw ASCII parenthesis; these delimit bracketed tokens and never occur
/// inside a plain token.
pub open spec fn is_bracket_char(c: char) -> bool {
    c == '[' || c == ']' || c == '(' || c == ')'
}

/// A character that can belong to a plain token: anything that is neither a
/// separator nor a bracket character.
pub open spec fn is_plain_char(c: char) -> bool {
    !is_separator_char(c) && !is_bracket_char(c)
}

/// Executable test for `is_space_char`.
pub fn space_char(c: char) -> (r: bool)
    ensures
        r == is_space_char(c),
{
    let u = c as u32;
    u == 0x09 || u == 0x0A || u == 0x0B || u == 0x0C || u == 0x0D || u == 0x20 || u == 0x85
        || u == 0xA0 || u == 0x1680 || (0x2000 <= u && u <= 0x200A) || u == 0x2028 || u == 0x2029
        || u == 0x202F || u == 0x205F || u == 0x3000
}

/// Executable test for `is_plain_char`.
pub fn plain_char(c: char) -> (r: bool)
    ensures
        r == is_plain_char(c),
{
    let u = c as u32;
    let digit = 0x30 <= u && u <= 0x39;
    let sep = digit || space_char(c) || c == '-' || c == ':' || c == '：';
    let bracket = c == '[' || c == ']' || c == '(' || c == ')';
    !sep && !bracket
}

/// Bracket standardization of a whole string is idempotent: applying it twice
/// yields the same string as applying it once — the map sends every
/// character to a fixed point.
pub proof fn lemma_standardize_idempotent(s: Seq<char>)
    ensures
        spec_standardize(spec_standardize(s)) == spec_standardize(s),
{
    assert(spec_standardize(spec_standardize(s)) =~= spec_standardize(s));
}

} // verus!
