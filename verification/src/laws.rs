//! Laws of the parser, stated over the grammar functions that the executable
//! methods are proved against.

use crate::grammar::{
    is_ws_char, lemma_parse_val_skip_ws, lemma_skip_ws, parse_val, skip_ws, starts_value,
};
use crate::parser::value_result;
use crate::value::JSONValue;
use vstd::prelude::*;

verus! {

/// Whitespace skipping lands exactly on the first non-whitespace character:
/// for any prefix of whitespace running from `i` up to `j`, with a
/// non-whitespace character at `j`, the cursor after skipping points at `j`.
/// `ParserData::consume_white_space` moves the cursor to `skip_ws`, so this
/// pins where it stops.
pub proof fn lemma_ws_prefix_lands(s: Seq<char>, i: int, j: int)
    requires
        0 <= i <= j < s.len(),
        forall|k: int| i <= k < j ==> is_ws_char(s[k]),
        !is_ws_char(s[j]),
    ensures
        skip_ws(s, i) == j,
    decreases j - i,
{
    if i < j {
        lemma_ws_prefix_lands(s, i + 1, j);
    }
}

/// Parsing is deterministic: two results that both satisfy the value
/// production's contract on the same text and position are trees of the same
/// shape and content, ending at the same position.
pub proof fn lemma_parse_deterministic(
    s: Seq<char>,
    i: int,
    r1: Option<JSONValue>,
    j1: int,
    r2: Option<JSONValue>,
    j2: int,
)
    requires
        value_result(s, i, r1, j1),
        value_result(s, i, r2, j2),
    ensures
        (match (r1, r2) {
            (Some(a), Some(b)) => a.abs() == b.abs() && j1 == j2,
            (None, None) => true,
            _ => false,
        }),
{
}

/// A value position whose first significant character can start no value (it
/// is no quote, digit, `-`, `.`, `{` or `[`) parses to a failure.
pub proof fn lemma_bad_start_fails(s: Seq<char>, i: int)
    requires
        0 <= i <= s.len(),
        skip_ws(s, i) < s.len(),
        !starts_value(s[skip_ws(s, i)]),
    ensures
        parse_val(s, i) is None,
{
    lemma_skip_ws(s, i);
    lemma_parse_val_skip_ws(s, i);
}

} // verus!
