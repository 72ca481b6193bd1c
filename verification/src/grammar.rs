//! The grammar accepted by the parser, as spec functions over character
//! sequences. Every executable parsing function is proved to return exactly
//! what these functions describe.
//!
//! The grammar is a strict subset of JSON: a value is a number literal (a run
//! of digits, `-` and `.`, captured verbatim and not checked for numeric well-
//! formedness), a quoted string (captured verbatim between the unescaped
//! quotes, escapes not decoded), an array `[v, v, ...]` or an object
//! `{"k": v, ...}`. Commas are required between items, trailing commas are
//! rejected, and the closing delimiter must be present.

use crate::value::{assoc_insert, JVal};
use vstd::prelude::*;

verus! {

/// A whitespace character: space, tab, newline or carriage return.
pub open spec fn is_ws_char(c: char) -> bool {
    c == ' ' || c == '\t' || c == '\n' || c == '\r'
}

/// An ASCII decimal digit.
pub open spec fn is_digit_char(c: char) -> bool {
    ('0' as u32) <= (c as u32) && (c as u32) <= ('9' as u32)
}

/// A character that may appear in a number literal: digit, `-` or `.`.
pub open spec fn is_number_char(c: char) -> bool {
    is_digit_char(c) || c == '-' || c == '.'
}

/// A character that can start a value: quote, number character, `{` or `[`.
pub open spec fn starts_value(c: char) -> bool {
    is_number_char(c) || c == '"' || c == '{' || c == '['
}

/// The first position at or after `i` that does not hold whitespace (or the
/// end of the input).
pub open spec fn skip_ws(s: Seq<char>, i: int) -> int
    decreases s.len() - i,
{
    if i < s.len() && is_ws_char(s[i]) {
        skip_ws(s, i + 1)
    } else {
        i
    }
}

/// The position just after the number literal starting at `i`: the first
/// position holding neither a digit nor `-` nor `.` (or the end of the input).
pub open spec fn number_end(s: Seq<char>, i: int) -> int
    decreases s.len() - i,
{
    if i < s.len() && is_number_char(s[i]) {
        number_end(s, i + 1)
    } else {
        i
    }
}

/// The position of the quote closing a string body scanned from `i`, where
/// `esc` says whether the previous character was a yet unconsumed backslash.
/// A backslash makes exactly the next character literal content; the first
/// unescaped quote closes the string. `None` if the string never closes.
pub open spec fn string_end(s: Seq<char>, i: int, esc: bool) -> Option<int>
    decreases s.len() - i,
{
    if i >= s.len() {
        None
    } else if esc {
        string_end(s, i + 1, false)
    } else if s[i] == '\\' {
        string_end(s, i + 1, true)
    } else if s[i] == '"' {
        Some(i)
    } else {
        string_end(s, i + 1, false)
    }
}

/// The quoted string starting exactly at `q` (no whitespace skipped): its
/// verbatim body and the position just past the closing quote, or `None` if
/// `q` does not hold a quote or the string never closes.
pub open spec fn string_at(s: Seq<char>, q: int) -> Option<(Seq<char>, int)> {
    if 0 <= q < s.len() && s[q] == '"' {
        match string_end(s, q + 1, false) {
            Some(e) => Some((s.subrange(q + 1, e), e + 1)),
            None => None,
        }
    } else {
        None
    }
}

/// `j` if it lies beyond `i`, else `i + 1`. Recursive positions below go
/// through `past` so that the recursion visibly advances; the progress lemmas
/// show that in every successful parse the clamp never binds.
pub open spec fn past(j: int, i: int) -> int {
    if j > i {
        j
    } else {
        i + 1
    }
}

/// The input remaining beyond position `i`, floored at zero: the termination
/// measure of the grammar functions below.
pub open spec fn rem(s: Seq<char>, i: int) -> int {
    if i <= s.len() {
        s.len() - i
    } else {
        0
    }
}

/// The value starting at `i`, after any whitespace: dispatch on the first
/// significant character, yielding the value and the position just after it.
/// `None` on a character that starts no value, on a string that never closes,
/// on a malformed array or object, and at the end of the input.
pub open spec fn parse_val(s: Seq<char>, i: int) -> Option<(JVal, int)>
    decreases rem(s, i), 0int,
{
    if i >= s.len() {
        None
    } else if is_ws_char(s[i]) {
        parse_val(s, i + 1)
    } else if is_number_char(s[i]) {
        Some((JVal::JNum(s.subrange(i, number_end(s, i))), number_end(s, i)))
    } else if s[i] == '"' {
        match string_at(s, i) {
            Some((body, j)) => Some((JVal::JStr(body), j)),
            None => None,
        }
    } else if s[i] == '[' {
        match elems_first(s, i + 1) {
            Some((vs, j)) => Some((JVal::JArr(vs), j)),
            None => None,
        }
    } else if s[i] == '{' {
        match members_first(s, i + 1) {
            Some((es, j)) => Some((JVal::JObj(es), j)),
            None => None,
        }
    } else {
        None
    }
}

/// Just after `[`: whitespace, then either `]` (empty array) or the elements.
pub open spec fn elems_first(s: Seq<char>, i: int) -> Option<(Seq<JVal>, int)>
    decreases rem(s, i), 2int,
{
    if i >= s.len() {
        None
    } else if is_ws_char(s[i]) {
        elems_first(s, i + 1)
    } else if s[i] == ']' {
        Some((Seq::empty(), i + 1))
    } else {
        elem_chain(s, i)
    }
}

/// One element, then a comma and further elements or the closing `]`.
pub open spec fn elem_chain(s: Seq<char>, i: int) -> Option<(Seq<JVal>, int)>
    decreases rem(s, i), 1int,
{
    if i >= s.len() {
        None
    } else {
        match parse_val(s, i) {
            Some((v, j)) => match elems_rest(s, past(j, i)) {
                Some((vs, k)) => Some((seq![v] + vs, k)),
                None => None,
            },
            None => None,
        }
    }
}

/// After an element: whitespace, then `]` to close or `,` before the next
/// element. Anything else is a malformed array.
pub open spec fn elems_rest(s: Seq<char>, i: int) -> Option<(Seq<JVal>, int)>
    decreases rem(s, i), 2int,
{
    if i >= s.len() {
        None
    } else if is_ws_char(s[i]) {
        elems_rest(s, i + 1)
    } else if s[i] == ']' {
        Some((Seq::empty(), i + 1))
    } else if s[i] == ',' {
        elem_chain(s, i + 1)
    } else {
        None
    }
}

/// Just after `{`: whitespace, then either `}` (empty object) or the members.
pub open spec fn members_first(s: Seq<char>, i: int) -> Option<
    (Seq<(Seq<char>, JVal)>, int),
>
    decreases rem(s, i), 2int,
{
    if i >= s.len() {
        None
    } else if is_ws_char(s[i]) {
        members_first(s, i + 1)
    } else if s[i] == '}' {
        Some((Seq::empty(), i + 1))
    } else {
        member_chain(s, i, Seq::empty())
    }
}

/// One `"key"` at the current position (after whitespace), then its colon and
/// value. `acc` holds the members seen so far, in insertion order.
pub open spec fn member_chain(
    s: Seq<char>,
    i: int,
    acc: Seq<(Seq<char>, JVal)>,
) -> Option<(Seq<(Seq<char>, JVal)>, int)>
    decreases rem(s, i), 1int,
{
    if i >= s.len() {
        None
    } else if is_ws_char(s[i]) {
        member_chain(s, i + 1, acc)
    } else {
        match string_at(s, i) {
            Some((k, j)) => member_colon(s, past(j, i), k, acc),
            None => None,
        }
    }
}

/// After a member's key: whitespace, then the required `:` and the value.
/// A duplicate key overwrites the earlier value in place.
pub open spec fn member_colon(
    s: Seq<char>,
    i: int,
    k: Seq<char>,
    acc: Seq<(Seq<char>, JVal)>,
) -> Option<(Seq<(Seq<char>, JVal)>, int)>
    decreases rem(s, i), 2int,
{
    if i >= s.len() {
        None
    } else if is_ws_char(s[i]) {
        member_colon(s, i + 1, k, acc)
    } else if s[i] == ':' {
        match parse_val(s, i + 1) {
            Some((v, j)) => members_rest(s, past(j, i), assoc_insert(acc, k, v)),
            None => None,
        }
    } else {
        None
    }
}

/// After a member: whitespace, then `}` to close or `,` before the next
/// member. Anything else is a malformed object.
pub open spec fn members_rest(
    s: Seq<char>,
    i: int,
    acc: Seq<(Seq<char>, JVal)>,
) -> Option<(Seq<(Seq<char>, JVal)>, int)>
    decreases rem(s, i), 2int,
{
    if i >= s.len() {
        None
    } else if is_ws_char(s[i]) {
        members_rest(s, i + 1, acc)
    } else if s[i] == '}' {
        Some((acc, i + 1))
    } else if s[i] == ',' {
        member_chain(s, i + 1, acc)
    } else {
        None
    }
}

/// The object starting at `i`, after any whitespace: requires `{`.
pub open spec fn object_at(s: Seq<char>, i: int) -> Option<(Seq<(Seq<char>, JVal)>, int)> {
    let q = skip_ws(s, i);
    if q < s.len() && s[q] == '{' {
        members_first(s, q + 1)
    } else {
        None
    }
}

/// The position after an optional `"label"` at `i` (whitespace skipped): just
/// past its closing quote if a closed quoted string starts there, else the
/// whitespace-skipped position itself.
pub open spec fn after_label(s: Seq<char>, i: int) -> int {
    match string_at(s, skip_ws(s, i)) {
        Some((_k, j)) => j,
        None => skip_ws(s, i),
    }
}

/// The position after an optional `:` at `i` (whitespace skipped).
pub open spec fn after_colon(s: Seq<char>, i: int) -> int {
    let q = skip_ws(s, i);
    if q < s.len() && s[q] == ':' {
        q + 1
    } else {
        q
    }
}

/// The array starting at `i`: an optional `"label" :` prefix is tolerated and
/// discarded, then `[` is required and the elements follow.
pub open spec fn array_at(s: Seq<char>, i: int) -> Option<(Seq<JVal>, int)> {
    let b = skip_ws(s, after_colon(s, after_label(s, i)));
    if b < s.len() && s[b] == '[' {
        elems_first(s, b + 1)
    } else {
        None
    }
}

/// Whitespace skipping never moves backward, never passes the end, stops at
/// the first non-whitespace character, and skips nothing but whitespace.
pub proof fn lemma_skip_ws(s: Seq<char>, i: int)
    requires
        i <= s.len(),
    ensures
        i <= skip_ws(s, i) <= s.len(),
        skip_ws(s, i) < s.len() ==> !is_ws_char(s[skip_ws(s, i)]),
        forall|k: int| i <= k < skip_ws(s, i) ==> is_ws_char(s[k]),
    decreases s.len() - i,
{
    if i < s.len() && is_ws_char(s[i]) {
        lemma_skip_ws(s, i + 1);
    }
}

/// A number scan never moves backward, never passes the end, stops at the
/// first non-number character, and takes nothing but number characters.
pub proof fn lemma_number_end(s: Seq<char>, i: int)
    requires
        i <= s.len(),
    ensures
        i <= number_end(s, i) <= s.len(),
        number_end(s, i) < s.len() ==> !is_number_char(s[number_end(s, i)]),
        forall|k: int| i <= k < number_end(s, i) ==> is_number_char(s[k]),
    decreases s.len() - i,
{
    if i < s.len() && is_number_char(s[i]) {
        lemma_number_end(s, i + 1);
    }
}

/// A found closing quote lies within the input, at or after the scan start,
/// and holds a quote character.
pub proof fn lemma_string_end(s: Seq<char>, i: int, esc: bool)
    ensures
        (match string_end(s, i, esc) {
            Some(e) => i <= e < s.len() && s[e] == '"',
            None => true,
        }),
    decreases s.len() - i,
{
    if i < s.len() {
        if esc {
            lemma_string_end(s, i + 1, false);
        } else if s[i] == '\\' {
            lemma_string_end(s, i + 1, true);
        } else if s[i] != '"' {
            lemma_string_end(s, i + 1, false);
        }
    }
}

/// A value parse starts where whitespace skipping lands.
pub proof fn lemma_parse_val_skip_ws(s: Seq<char>, i: int)
    ensures
        parse_val(s, i) == parse_val(s, skip_ws(s, i)),
    decreases rem(s, i),
{
    if i < s.len() && is_ws_char(s[i]) {
        lemma_parse_val_skip_ws(s, i + 1);
    }
}

/// An element list parse starts where whitespace skipping lands.
pub proof fn lemma_elems_first_skip_ws(s: Seq<char>, i: int)
    ensures
        elems_first(s, i) == elems_first(s, skip_ws(s, i)),
    decreases rem(s, i),
{
    if i < s.len() && is_ws_char(s[i]) {
        lemma_elems_first_skip_ws(s, i + 1);
    }
}

/// An element continuation parse starts where whitespace skipping lands.
pub proof fn lemma_elems_rest_skip_ws(s: Seq<char>, i: int)
    ensures
        elems_rest(s, i) == elems_rest(s, skip_ws(s, i)),
    decreases rem(s, i),
{
    if i < s.len() && is_ws_char(s[i]) {
        lemma_elems_rest_skip_ws(s, i + 1);
    }
}

/// A member list parse starts where whitespace skipping lands.
pub proof fn lemma_members_first_skip_ws(s: Seq<char>, i: int)
    ensures
        members_first(s, i) == members_first(s, skip_ws(s, i)),
    decreases rem(s, i),
{
    if i < s.len() && is_ws_char(s[i]) {
        lemma_members_first_skip_ws(s, i + 1);
    }
}

/// A member parse starts where whitespace skipping lands.
pub proof fn lemma_member_chain_skip_ws(s: Seq<char>, i: int, acc: Seq<(Seq<char>, JVal)>)
    ensures
        member_chain(s, i, acc) == member_chain(s, skip_ws(s, i), acc),
    decreases rem(s, i),
{
    if i < s.len() && is_ws_char(s[i]) {
        lemma_member_chain_skip_ws(s, i + 1, acc);
    }
}

/// A colon parse starts where whitespace skipping lands.
pub proof fn lemma_member_colon_skip_ws(
    s: Seq<char>,
    i: int,
    k: Seq<char>,
    acc: Seq<(Seq<char>, JVal)>,
)
    ensures
        member_colon(s, i, k, acc) == member_colon(s, skip_ws(s, i), k, acc),
    decreases rem(s, i),
{
    if i < s.len() && is_ws_char(s[i]) {
        lemma_member_colon_skip_ws(s, i + 1, k, acc);
    }
}

/// A member continuation parse starts where whitespace skipping lands.
pub proof fn lemma_members_rest_skip_ws(s: Seq<char>, i: int, acc: Seq<(Seq<char>, JVal)>)
    ensures
        members_rest(s, i, acc) == members_rest(s, skip_ws(s, i), acc),
    decreases rem(s, i),
{
    if i < s.len() && is_ws_char(s[i]) {
        lemma_members_rest_skip_ws(s, i + 1, acc);
    }
}

/// A successful value parse ends beyond its start and within the input.
pub proof fn lemma_parse_val_progress(s: Seq<char>, i: int)
    ensures
        (match parse_val(s, i) {
            Some((v, j)) => i < j <= s.len(),
            None => true,
        }),
    decreases rem(s, i), 0int,
{
    if i >= s.len() {
    } else if is_ws_char(s[i]) {
        lemma_parse_val_progress(s, i + 1);
    } else if is_number_char(s[i]) {
        lemma_number_end(s, i);
    } else if s[i] == '"' {
        lemma_string_end(s, i + 1, false);
    } else if s[i] == '[' {
        lemma_elems_first_progress(s, i + 1);
    } else if s[i] == '{' {
        lemma_members_first_progress(s, i + 1);
    }
}

/// A successful element list parse ends beyond its start, within the input.
pub proof fn lemma_elems_first_progress(s: Seq<char>, i: int)
    ensures
        (match elems_first(s, i) {
            Some((vs, j)) => i < j <= s.len(),
            None => true,
        }),
    decreases rem(s, i), 2int,
{
    if i >= s.len() {
    } else if is_ws_char(s[i]) {
        lemma_elems_first_progress(s, i + 1);
    } else if s[i] == ']' {
    } else {
        lemma_elem_chain_progress(s, i);
    }
}

/// A successful element parse ends beyond its start, within the input.
pub proof fn lemma_elem_chain_progress(s: Seq<char>, i: int)
    ensures
        (match elem_chain(s, i) {
            Some((vs, j)) => i < j <= s.len(),
            None => true,
        }),
    decreases rem(s, i), 1int,
{
    if i < s.len() {
        lemma_parse_val_progress(s, i);
        match parse_val(s, i) {
            Some((v, j)) => {
                lemma_elems_rest_progress(s, j);
            },
            None => {},
        }
    }
}

/// A successful element continuation ends beyond its start, within the input.
pub proof fn lemma_elems_rest_progress(s: Seq<char>, i: int)
    ensures
        (match elems_rest(s, i) {
            Some((vs, j)) => i < j <= s.len(),
            None => true,
        }),
    decreases rem(s, i), 2int,
{
    if i >= s.len() {
    } else if is_ws_char(s[i]) {
        lemma_elems_rest_progress(s, i + 1);
    } else if s[i] == ',' {
        lemma_elem_chain_progress(s, i + 1);
    }
}

/// A successful member list parse ends beyond its start, within the input.
pub proof fn lemma_members_first_progress(s: Seq<char>, i: int)
    ensures
        (match members_first(s, i) {
            Some((es, j)) => i < j <= s.len(),
            None => true,
        }),
    decreases rem(s, i), 2int,
{
    if i >= s.len() {
    } else if is_ws_char(s[i]) {
        lemma_members_first_progress(s, i + 1);
    } else if s[i] == '}' {
    } else {
        lemma_member_chain_progress(s, i, Seq::empty());
    }
}

/// A successful member parse ends beyond its start, within the input.
pub proof fn lemma_member_chain_progress(s: Seq<char>, i: int, acc: Seq<(Seq<char>, JVal)>)
    ensures
        (match member_chain(s, i, acc) {
            Some((es, j)) => i < j <= s.len(),
            None => true,
        }),
    decreases rem(s, i), 1int,
{
    if i >= s.len() {
    } else if is_ws_char(s[i]) {
        lemma_member_chain_progress(s, i + 1, acc);
    } else {
        lemma_string_end(s, i + 1, false);
        match string_at(s, i) {
            Some((k, j)) => {
                lemma_member_colon_progress(s, j, k, acc);
            },
            None => {},
        }
    }
}

/// A successful colon-and-value parse ends beyond its start, within the input.
pub proof fn lemma_member_colon_progress(
    s: Seq<char>,
    i: int,
    k: Seq<char>,
    acc: Seq<(Seq<char>, JVal)>,
)
    ensures
        (match member_colon(s, i, k, acc) {
            Some((es, j)) => i < j <= s.len(),
            None => true,
        }),
    decreases rem(s, i), 2int,
{
    if i >= s.len() {
    } else if is_ws_char(s[i]) {
        lemma_member_colon_progress(s, i + 1, k, acc);
    } else if s[i] == ':' {
        lemma_parse_val_progress(s, i + 1);
        match parse_val(s, i + 1) {
            Some((v, j)) => {
                lemma_members_rest_progress(s, j, assoc_insert(acc, k, v));
            },
            None => {},
        }
    }
}

/// A successful member continuation ends beyond its start, within the input.
pub proof fn lemma_members_rest_progress(s: Seq<char>, i: int, acc: Seq<(Seq<char>, JVal)>)
    ensures
        (match members_rest(s, i, acc) {
            Some((es, j)) => i < j <= s.len(),
            None => true,
        }),
    decreases rem(s, i), 2int,
{
    if i >= s.len() {
    } else if is_ws_char(s[i]) {
        lemma_members_rest_progress(s, i + 1, acc);
    } else if s[i] == ',' {
        lemma_member_chain_progress(s, i + 1, acc);
    }
}

} // verus!
