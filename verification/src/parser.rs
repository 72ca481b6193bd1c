//! The cursor-based parser: a read position into the input text, low-level
//! scanning primitives, and the recursive-descent grammar productions.

use crate::grammar::{
    array_at, elem_chain, elems_first, is_number_char, is_ws_char, lemma_elems_first_skip_ws,
    lemma_elems_rest_skip_ws, lemma_member_chain_skip_ws, lemma_member_colon_skip_ws,
    lemma_members_first_skip_ws, lemma_members_rest_skip_ws, lemma_parse_val_progress,
    lemma_parse_val_skip_ws, lemma_skip_ws, lemma_string_end, member_chain, members_first,
    number_end, object_at, parse_val, rem, skip_ws, string_at, string_end,
};
use crate::value::{
    abs_elems, abs_entries, all_wf, entries_wf, keys_unique, lemma_abs_elems_index,
    lemma_all_wf_index, object_insert, JSONValue, JType, JVal,
};
use vstd::prelude::*;

verus! {

/// What the value production returns: exactly the value and end position that
/// the grammar gives at `i`, or `None` exactly where the grammar gives none.
pub open spec fn value_result(s: Seq<char>, i: int, r: Option<JSONValue>, j: int) -> bool {
    match parse_val(s, i) {
        Some(m_end) => match r {
            Some(v) => v.abs() == m_end.0 && v.wf() && j == m_end.1,
            None => false,
        },
        None => r is None,
    }
}

/// What the array production returns: exactly the elements and end position
/// that the grammar gives at `i` (label prefix included), or `None` exactly
/// where the grammar gives none.
pub open spec fn array_result(s: Seq<char>, i: int, r: Option<JSONValue>, j: int) -> bool {
    match array_at(s, i) {
        Some(vs_end) => match r {
            Some(v) => v.abs() == JVal::JArr(vs_end.0) && v.wf() && j == vs_end.1,
            None => false,
        },
        None => r is None,
    }
}

/// What the object production returns: exactly the members and end position
/// that the grammar gives at `i`, or `None` exactly where the grammar gives
/// none.
pub open spec fn object_result(s: Seq<char>, i: int, r: Option<JSONValue>, j: int) -> bool {
    match object_at(s, i) {
        Some(es_end) => match r {
            Some(v) => v.abs() == JVal::JObj(es_end.0) && v.wf() && j == es_end.1,
            None => false,
        },
        None => r is None,
    }
}

/// The parser's state: the input text and the current read position, counted
/// in characters. The position never exceeds the input's length.
#[derive(Debug, Default, Clone)]
pub struct ParserData<'a> {
    pub data: &'a str,
    pub curr_pos: usize,
}

/// Whether `c` is a whitespace character (space, tab, newline, carriage ret).
fn ws_char(c: char) -> (r: bool)
    ensures
        r == is_ws_char(c),
{
    c == ' ' || c == '\t' || c == '\n' || c == '\r'
}

/// Whether the character at `i` in `s` is whitespace.
fn ws_at(s: &str, i: usize) -> (r: bool)
    requires
        i < s@.len(),
    ensures
        r == is_ws_char(s@[i as int]),
{
    ws_char(s.get_char(i))
}

/// Whether `c` may appear in a number literal: an ASCII digit, `-` or `.`.
fn number_char(c: char) -> (r: bool)
    ensures
        r == is_number_char(c),
{
    let u = c as u32;
    (('0' as u32) <= u && u <= ('9' as u32)) || c == '-' || c == '.'
}

/// Whether the character at `i` in `s` may appear in a number literal.
fn number_at(s: &str, i: usize) -> (r: bool)
    requires
        i < s@.len(),
    ensures
        r == is_number_char(s@[i as int]),
{
    number_char(s.get_char(i))
}

impl<'a> ParserData<'a> {
    /// The cursor lies within the input (at most one past its last character).
    pub open spec fn wf(self) -> bool {
        self.curr_pos <= self.data@.len()
    }

    /// Advance the position past any run of whitespace; stop at the first
    /// non-whitespace character or at the end of the input.
    pub fn consume_white_space(&mut self)
        requires
            old(self).wf(),
        ensures
            final(self).data == old(self).data,
            final(self).curr_pos == skip_ws(old(self).data@, old(self).curr_pos as int),
            final(self).wf(),
    {
        let n = self.data.unicode_len();
        while self.curr_pos < n && ws_at(self.data, self.curr_pos)
            invariant
                self.data@.len() == n,
                self.curr_pos <= n,
                self.data == old(self).data,
                skip_ws(self.data@, self.curr_pos as int) == skip_ws(
                    old(self).data@,
                    old(self).curr_pos as int,
                ),
            decreases n - self.curr_pos,
        {
            self.curr_pos = self.curr_pos + 1;
        }
    }

    /// The single character at the current position, as a one-character text
    /// slice. The caller must make sure the position is not at the end.
    pub fn get_data(&self) -> (r: &str)
        requires
            self.curr_pos < self.data@.len(),
        ensures
            r@ == self.data@.subrange(self.curr_pos as int, self.curr_pos as int + 1),
    {
        // The character count fits in usize, which bounds the position arithmetic.
        let n = self.data.unicode_len();
        self.data.substring_char(self.curr_pos, self.curr_pos + 1)
    }

    /// Whether the character at `ahead` positions past the current one equals
    /// the first character of `token`, without moving the position. The caller
    /// must make sure the probed position is within the input.
    pub fn peek(&mut self, token: &str, ahead: usize) -> (r: bool)
        requires
            token@.len() >= 1,
            old(self).curr_pos + ahead < old(self).data@.len(),
        ensures
            *final(self) == *old(self),
            r == (token@[0] == old(self).data@[old(self).curr_pos + ahead]),
    {
        // The character count fits in usize, which bounds the position arithmetic.
        let n = self.data.unicode_len();
        self.data.get_char(self.curr_pos + ahead) == token.get_char(0)
    }

    /// If the character at the current position equals the first character of
    /// `token`, advance by `token`'s length (in characters, clamped to the end
    /// of the input) and succeed; otherwise leave the position unchanged and
    /// fail. Only the first character is compared; at the end of the input the
    /// call fails. Every internal use passes a one-character token.
    pub fn consume(&mut self, token: &str) -> (r: bool)
        requires
            old(self).wf(),
            token@.len() >= 1,
        ensures
            final(self).data == old(self).data,
            final(self).wf(),
            r == (old(self).curr_pos < old(self).data@.len() && token@[0] == old(
                self,
            ).data@[old(self).curr_pos as int]),
            r ==> final(self).curr_pos as int == (if old(self).curr_pos + token@.len() <= old(
                self,
            ).data@.len() {
                old(self).curr_pos + token@.len()
            } else {
                old(self).data@.len() as int
            }),
            !r ==> final(self).curr_pos == old(self).curr_pos,
    {
        let n = self.data.unicode_len();
        if self.curr_pos >= n {
            return false;
        }
        if self.data.get_char(self.curr_pos) != token.get_char(0) {
            return false;
        }
        let tlen = token.unicode_len();
        if tlen <= n - self.curr_pos {
            self.curr_pos = self.curr_pos + tlen;
        } else {
            self.curr_pos = n;
        }
        true
    }

    /// Whether the character at the current position may start a number: an
    /// ASCII digit, a leading `-`, or a `.`. At the end of the input: no.
    /// This is a lookahead classification, not a numeric validity check.
    pub fn is_digit(&self) -> (r: bool)
        requires
            self.wf(),
        ensures
            r == (self.curr_pos < self.data@.len() && is_number_char(
                self.data@[self.curr_pos as int],
            )),
    {
        let n = self.data.unicode_len();
        if self.curr_pos >= n {
            false
        } else {
            number_at(self.data, self.curr_pos)
        }
    }

    /// Skip whitespace, then capture the number literal at the current
    /// position: the run of digits, `-` and `.` up to the first other
    /// character or the end of the input, verbatim and unvalidated. The
    /// position advances to the end of the run. An empty capture means no
    /// number starts there.
    pub fn parse_number(&mut self) -> (r: String)
        requires
            old(self).wf(),
        ensures
            final(self).data == old(self).data,
            final(self).wf(),
            old(self).curr_pos <= final(self).curr_pos,
            final(self).curr_pos == number_end(
                old(self).data@,
                skip_ws(old(self).data@, old(self).curr_pos as int),
            ),
            r@ == old(self).data@.subrange(
                skip_ws(old(self).data@, old(self).curr_pos as int),
                number_end(old(self).data@, skip_ws(old(self).data@, old(self).curr_pos as int)),
            ),
    {
        self.consume_white_space();
        let n = self.data.unicode_len();
        let start = self.curr_pos;
        proof {
            lemma_skip_ws(self.data@, old(self).curr_pos as int);
        }
        while self.curr_pos < n && number_at(self.data, self.curr_pos)
            invariant
                self.data@.len() == n,
                start <= self.curr_pos <= n,
                self.data == old(self).data,
                number_end(self.data@, start as int) == number_end(
                    self.data@,
                    self.curr_pos as int,
                ),
            decreases n - self.curr_pos,
        {
            self.curr_pos = self.curr_pos + 1;
        }
        let piece = self.data.substring_char(start, self.curr_pos);
        piece.to_owned()
    }

    /// Skip whitespace, then capture the quoted string at the current
    /// position, verbatim: escape sequences are not decoded, a backslash makes
    /// exactly the next character literal content, and the first unescaped
    /// quote closes the string. On success the position lands just past the
    /// closing quote. If no quote starts there, or the string never closes,
    /// the empty string comes back and the position stays at the first
    /// non-whitespace character.
    pub fn parse_qouted_string(&mut self) -> (r: String)
        requires
            old(self).wf(),
        ensures
            final(self).data == old(self).data,
            final(self).wf(),
            old(self).curr_pos <= final(self).curr_pos,
            (match string_at(
                old(self).data@,
                skip_ws(old(self).data@, old(self).curr_pos as int),
            ) {
                Some(body_and_end) => r@ == body_and_end.0 && final(self).curr_pos
                    == body_and_end.1,
                None => r@ == Seq::<char>::empty() && final(self).curr_pos == skip_ws(
                    old(self).data@,
                    old(self).curr_pos as int,
                ),
            }),
    {
        self.consume_white_space();
        let n = self.data.unicode_len();
        proof {
            lemma_skip_ws(self.data@, old(self).curr_pos as int);
        }
        if self.curr_pos >= n {
            return String::new();
        }
        let q = self.curr_pos;
        if self.data.get_char(q) != '"' {
            return String::new();
        }
        let mut i = q + 1;
        let mut esc = false;
        proof {
            lemma_string_end(self.data@, q as int + 1, false);
        }
        loop
            invariant
                self.data@.len() == n,
                self.data == old(self).data,
                self.curr_pos == q,
                q < n,
                self.data@[q as int] == '"',
                q == skip_ws(old(self).data@, old(self).curr_pos as int),
                old(self).curr_pos <= q,
                q + 1 <= i <= n,
                string_end(self.data@, q as int + 1, false) == string_end(
                    self.data@,
                    i as int,
                    esc,
                ),
            decreases n - i,
        {
            if i >= n {
                return String::new();
            }
            let c = self.data.get_char(i);
            if esc {
                esc = false;
                i = i + 1;
            } else if c == '\\' {
                esc = true;
                i = i + 1;
            } else if c == '"' {
                let body = self.data.substring_char(q + 1, i);
                self.curr_pos = i + 1;
                return body.to_owned();
            } else {
                i = i + 1;
            }
        }
    }

    /// Parse one value at the current position, after whitespace: a number at
    /// a digit, `-` or `.`; a string at `"`; an object at `{`; an array at
    /// `[`. Any other character, and any malformed value, gives `None`. On
    /// success the position lands just past the value; the result is exactly
    /// what the grammar (`parse_val`) describes.
    pub fn parse_value(&mut self) -> (r: Option<JSONValue>)
        requires
            old(self).wf(),
        ensures
            final(self).data == old(self).data,
            final(self).wf(),
            old(self).curr_pos <= final(self).curr_pos,
            value_result(
                old(self).data@,
                old(self).curr_pos as int,
                r,
                final(self).curr_pos as int,
            ),
        decreases rem(self.data@, self.curr_pos as int), 1int,
    {
        let ghost s = self.data@;
        let ghost p0 = self.curr_pos as int;
        proof {
            lemma_skip_ws(s, p0);
            lemma_parse_val_skip_ws(s, p0);
        }
        self.consume_white_space();
        let n = self.data.unicode_len();
        if self.curr_pos >= n {
            return None;
        }
        let qpos = self.curr_pos;
        let ghost q = qpos as int;
        if self.is_digit() {
            let num = self.parse_number();
            let rv = JSONValue {
                jtype: JType::JNumber,
                str_value: num,
                arr: Vec::new(),
                object: Vec::new(),
            };
            return Some(rv);
        }
        let c = self.data.get_char(qpos);
        if c == '"' {
            let sv = self.parse_qouted_string();
            if self.curr_pos == qpos {
                proof {
                    lemma_string_end(s, q + 1, false);
                }
                return None;
            }
            let rv = JSONValue {
                jtype: JType::JString,
                str_value: sv,
                arr: Vec::new(),
                object: Vec::new(),
            };
            return Some(rv);
        }
        if c == '{' {
            return self.parse_object();
        }
        if c == '[' {
            return self.parse_array();
        }
        None
    }

    /// Parse an array at the current position. A leading `"label" :` (each
    /// part optional) is tolerated and discarded; then `[` is required,
    /// followed by the comma-separated elements in source order and the
    /// closing `]`. A missing comma, a trailing comma, a malformed element or
    /// a missing `]` gives `None`; the result is exactly what the grammar
    /// (`array_at`) describes.
    #[verifier::loop_isolation(false)]
    pub fn parse_array(&mut self) -> (r: Option<JSONValue>)
        requires
            old(self).wf(),
        ensures
            final(self).data == old(self).data,
            final(self).wf(),
            old(self).curr_pos <= final(self).curr_pos,
            array_result(
                old(self).data@,
                old(self).curr_pos as int,
                r,
                final(self).curr_pos as int,
            ),
        decreases rem(self.data@, self.curr_pos as int), 0int,
    {
        let ghost s = self.data@;
        let ghost p0 = self.curr_pos as int;
        proof {
            lemma_skip_ws(s, p0);
            lemma_string_end(s, skip_ws(s, p0) + 1, false);
        }
        let _label = self.parse_qouted_string();
        proof {
            lemma_skip_ws(s, self.curr_pos as int);
            reveal_strlit(":");
            reveal_strlit("[");
        }
        self.consume_white_space();
        self.consume(":");
        proof {
            lemma_skip_ws(s, self.curr_pos as int);
        }
        self.consume_white_space();
        if !self.consume("[") {
            return None;
        }
        let ghost astart = self.curr_pos as int;
        proof {
            lemma_elems_first_skip_ws(s, astart);
            lemma_skip_ws(s, astart);
        }
        self.consume_white_space();
        let n = self.data.unicode_len();
        if self.curr_pos >= n {
            return None;
        }
        let mut elems: Vec<Box<JSONValue>> = Vec::new();
        if self.data.get_char(self.curr_pos) == ']' {
            self.curr_pos = self.curr_pos + 1;
            let rv = JSONValue {
                jtype: JType::JArray,
                str_value: String::new(),
                arr: elems,
                object: Vec::new(),
            };
            return Some(rv);
        }
        proof {
            match elem_chain(s, self.curr_pos as int) {
                Some(vs_end) => {
                    assert(Seq::<JVal>::empty() + vs_end.0 =~= vs_end.0);
                },
                None => {},
            }
        }
        loop
            invariant
                self.data == old(self).data,
                p0 < self.curr_pos <= n,
                all_wf(elems@),
                (match elem_chain(s, self.curr_pos as int) {
                    Some(vs_end) => elems_first(s, astart) == Some(
                        (abs_elems(elems@) + vs_end.0, vs_end.1),
                    ),
                    None => elems_first(s, astart) is None,
                }),
            decreases n - self.curr_pos,
        {
            let ghost cur = self.curr_pos as int;
            proof {
                lemma_parse_val_progress(s, cur);
            }
            let parsed = self.parse_value();
            match parsed {
                None => {
                    return None;
                },
                Some(v) => {
                    let ghost done = abs_elems(elems@);
                    let ghost before_elems = elems@;
                    let ghost jafter = self.curr_pos as int;
                    elems.push(Box::new(v));
                    proof {
                        lemma_abs_elems_index(before_elems);
                        lemma_abs_elems_index(elems@);
                        lemma_all_wf_index(before_elems);
                        lemma_all_wf_index(elems@);
                        assert(abs_elems(elems@) =~= done + seq![v.abs()]);
                        lemma_elems_rest_skip_ws(s, jafter);
                        lemma_skip_ws(s, jafter);
                    }
                    self.consume_white_space();
                    if self.curr_pos >= n {
                        return None;
                    }
                    let c = self.data.get_char(self.curr_pos);
                    if c == ']' {
                        self.curr_pos = self.curr_pos + 1;
                        proof {
                            assert(done + (seq![v.abs()] + Seq::<JVal>::empty()) =~= abs_elems(
                                elems@,
                            ));
                        }
                        let rv = JSONValue {
                            jtype: JType::JArray,
                            str_value: String::new(),
                            arr: elems,
                            object: Vec::new(),
                        };
                        return Some(rv);
                    }
                    if c != ',' {
                        return None;
                    }
                    self.curr_pos = self.curr_pos + 1;
                    proof {
                        match elem_chain(s, self.curr_pos as int) {
                            Some(vs_end) => {
                                assert(done + (seq![v.abs()] + vs_end.0) =~= abs_elems(elems@)
                                    + vs_end.0);
                            },
                            None => {},
                        }
                    }
                },
            }
        }
    }

    /// Parse an object at the current position, after whitespace: `{` is
    /// required, followed by comma-separated `"key" : value` members and the
    /// closing `}`. Keys are captured verbatim; a duplicate key overwrites the
    /// earlier value in place. A missing `{`, key, colon or `}`, a trailing
    /// comma or a malformed value gives `None`; the result is exactly what the
    /// grammar (`object_at`) describes.
    #[verifier::loop_isolation(false)]
    pub fn parse_object(&mut self) -> (r: Option<JSONValue>)
        requires
            old(self).wf(),
        ensures
            final(self).data == old(self).data,
            final(self).wf(),
            old(self).curr_pos <= final(self).curr_pos,
            object_result(
                old(self).data@,
                old(self).curr_pos as int,
                r,
                final(self).curr_pos as int,
            ),
        decreases rem(self.data@, self.curr_pos as int), 0int,
    {
        let ghost s = self.data@;
        let ghost p0 = self.curr_pos as int;
        proof {
            lemma_skip_ws(s, p0);
            reveal_strlit("{");
            reveal_strlit(":");
        }
        self.consume_white_space();
        if !self.consume("{") {
            return None;
        }
        let ghost ostart = self.curr_pos as int;
        proof {
            lemma_members_first_skip_ws(s, ostart);
            lemma_skip_ws(s, ostart);
        }
        self.consume_white_space();
        let n = self.data.unicode_len();
        if self.curr_pos >= n {
            return None;
        }
        let mut entries: Vec<(String, JSONValue)> = Vec::new();
        if self.data.get_char(self.curr_pos) == '}' {
            self.curr_pos = self.curr_pos + 1;
            let rv = JSONValue {
                jtype: JType::JObject,
                str_value: String::new(),
                arr: Vec::new(),
                object: entries,
            };
            return Some(rv);
        }
        loop
            invariant
                self.data == old(self).data,
                p0 < self.curr_pos <= n,
                entries_wf(entries@),
                keys_unique(entries@),
                members_first(s, ostart) == member_chain(
                    s,
                    self.curr_pos as int,
                    abs_entries(entries@),
                ),
            decreases n - self.curr_pos,
        {
            let ghost cur = self.curr_pos as int;
            let ghost acc = abs_entries(entries@);
            proof {
                lemma_member_chain_skip_ws(s, cur, acc);
                lemma_skip_ws(s, cur);
            }
            self.consume_white_space();
            let qpos = self.curr_pos;
            let ghost q = qpos as int;
            proof {
                lemma_string_end(s, q + 1, false);
            }
            let key = self.parse_qouted_string();
            if self.curr_pos == qpos {
                return None;
            }
            let ghost jkey = self.curr_pos as int;
            proof {
                lemma_member_colon_skip_ws(s, jkey, key@, acc);
                lemma_skip_ws(s, jkey);
            }
            self.consume_white_space();
            if !self.consume(":") {
                return None;
            }
            let ghost colon_after = self.curr_pos as int;
            proof {
                lemma_parse_val_progress(s, colon_after);
            }
            let parsed = self.parse_value();
            match parsed {
                None => {
                    return None;
                },
                Some(v) => {
                    let ghost jval = self.curr_pos as int;
                    object_insert(&mut entries, key, v);
                    proof {
                        lemma_members_rest_skip_ws(s, jval, abs_entries(entries@));
                        lemma_skip_ws(s, jval);
                    }
                    self.consume_white_space();
                    if self.curr_pos >= n {
                        return None;
                    }
                    let c = self.data.get_char(self.curr_pos);
                    if c == '}' {
                        self.curr_pos = self.curr_pos + 1;
                        let rv = JSONValue {
                            jtype: JType::JObject,
                            str_value: String::new(),
                            arr: Vec::new(),
                            object: entries,
                        };
                        return Some(rv);
                    }
                    if c != ',' {
                        return None;
                    }
                    self.curr_pos = self.curr_pos + 1;
                },
            }
        }
    }
}

/// The parser's interface: a cursor over a text, scanning primitives and the
/// grammar productions. Every method is bound to the same grammar functions
/// that `ParserData`'s own methods are proved against, so any implementation
/// must parse exactly the same language.
pub trait Parser {
    /// The input text.
    spec fn text(&self) -> Seq<char>;

    /// The current read position, counted in characters.
    spec fn pos(&self) -> int;

    /// See [`ParserData::consume`].
    fn consume(&mut self, token: &str) -> (r: bool)
        requires
            0 <= old(self).pos() <= old(self).text().len(),
            token@.len() >= 1,
        ensures
            final(self).text() == old(self).text(),
            0 <= final(self).pos() <= final(self).text().len(),
            r == (old(self).pos() < old(self).text().len() && token@[0] == old(self).text()[old(
                self,
            ).pos()]),
            r ==> final(self).pos() == (if old(self).pos() + token@.len() <= old(
                self,
            ).text().len() {
                old(self).pos() + token@.len()
            } else {
                old(self).text().len() as int
            }),
            !r ==> final(self).pos() == old(self).pos(),
    ;

    /// See [`ParserData::consume_white_space`].
    fn consume_white_space(&mut self)
        requires
            0 <= old(self).pos() <= old(self).text().len(),
        ensures
            final(self).text() == old(self).text(),
            final(self).pos() == skip_ws(old(self).text(), old(self).pos()),
            0 <= final(self).pos() <= final(self).text().len(),
    ;

    /// See [`ParserData::get_data`].
    fn get_data(&self) -> (r: &str)
        requires
            0 <= self.pos() < self.text().len(),
        ensures
            r@ == self.text().subrange(self.pos(), self.pos() + 1),
    ;

    /// See [`ParserData::is_digit`].
    fn is_digit(&self) -> (r: bool)
        requires
            0 <= self.pos() <= self.text().len(),
        ensures
            r == (self.pos() < self.text().len() && is_number_char(self.text()[self.pos()])),
    ;

    /// See [`ParserData::parse_array`].
    fn parse_array(&mut self) -> (r: Option<JSONValue>)
        requires
            0 <= old(self).pos() <= old(self).text().len(),
        ensures
            final(self).text() == old(self).text(),
            0 <= final(self).pos() <= final(self).text().len(),
            old(self).pos() <= final(self).pos(),
            array_result(old(self).text(), old(self).pos(), r, final(self).pos()),
    ;

    /// See [`ParserData::parse_number`].
    fn parse_number(&mut self) -> (r: String)
        requires
            0 <= old(self).pos() <= old(self).text().len(),
        ensures
            final(self).text() == old(self).text(),
            0 <= final(self).pos() <= final(self).text().len(),
            old(self).pos() <= final(self).pos(),
            final(self).pos() == number_end(
                old(self).text(),
                skip_ws(old(self).text(), old(self).pos()),
            ),
            r@ == old(self).text().subrange(
                skip_ws(old(self).text(), old(self).pos()),
                number_end(old(self).text(), skip_ws(old(self).text(), old(self).pos())),
            ),
    ;

    /// See [`ParserData::parse_object`].
    fn parse_object(&mut self) -> (r: Option<JSONValue>)
        requires
            0 <= old(self).pos() <= old(self).text().len(),
        ensures
            final(self).text() == old(self).text(),
            0 <= final(self).pos() <= final(self).text().len(),
            old(self).pos() <= final(self).pos(),
            object_result(old(self).text(), old(self).pos(), r, final(self).pos()),
    ;

    /// See [`ParserData::parse_qouted_string`].
    fn parse_qouted_string(&mut self) -> (r: String)
        requires
            0 <= old(self).pos() <= old(self).text().len(),
        ensures
            final(self).text() == old(self).text(),
            0 <= final(self).pos() <= final(self).text().len(),
            old(self).pos() <= final(self).pos(),
            (match string_at(old(self).text(), skip_ws(old(self).text(), old(self).pos())) {
                Some(body_and_end) => r@ == body_and_end.0 && final(self).pos() == body_and_end.1,
                None => r@ == Seq::<char>::empty() && final(self).pos() == skip_ws(
                    old(self).text(),
                    old(self).pos(),
                ),
            }),
    ;

    /// See [`ParserData::parse_value`].
    fn parse_value(&mut self) -> (r: Option<JSONValue>)
        requires
            0 <= old(self).pos() <= old(self).text().len(),
        ensures
            final(self).text() == old(self).text(),
            0 <= final(self).pos() <= final(self).text().len(),
            old(self).pos() <= final(self).pos(),
            value_result(old(self).text(), old(self).pos(), r, final(self).pos()),
    ;

    /// See [`ParserData::peek`].
    fn peek(&mut self, token: &str, ahead: usize) -> (r: bool)
        requires
            token@.len() >= 1,
            0 <= old(self).pos(),
            old(self).pos() + ahead < old(self).text().len(),
        ensures
            final(self).text() == old(self).text(),
            final(self).pos() == old(self).pos(),
            r == (token@[0] == old(self).text()[old(self).pos() + ahead]),
    ;
}

impl<'a> Parser for ParserData<'a> {
    open spec fn text(&self) -> Seq<char> {
        self.data@
    }

    open spec fn pos(&self) -> int {
        self.curr_pos as int
    }

    fn consume(&mut self, token: &str) -> (r: bool) {
        ParserData::consume(self, token)
    }

    fn consume_white_space(&mut self) {
        ParserData::consume_white_space(self)
    }

    fn get_data(&self) -> (r: &str) {
        ParserData::get_data(self)
    }

    fn is_digit(&self) -> (r: bool) {
        ParserData::is_digit(self)
    }

    fn parse_array(&mut self) -> (r: Option<JSONValue>) {
        ParserData::parse_array(self)
    }

    fn parse_number(&mut self) -> (r: String) {
        ParserData::parse_number(self)
    }

    fn parse_object(&mut self) -> (r: Option<JSONValue>) {
        ParserData::parse_object(self)
    }

    fn parse_qouted_string(&mut self) -> (r: String) {
        ParserData::parse_qouted_string(self)
    }

    fn parse_value(&mut self) -> (r: Option<JSONValue>) {
        ParserData::parse_value(self)
    }

    fn peek(&mut self, token: &str, ahead: usize) -> (r: bool) {
        ParserData::peek(self, token, ahead)
    }
}

} // verus!
