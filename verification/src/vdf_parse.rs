//! Reading the KeyValues text of `loginusers.vdf`.
//!
//! The grammar is stated as spec functions over the characters of the input and a position;
//! each one returns the position after what it read. Whitespace is ASCII whitespace plus `//`
//! line comments; strings are double-quoted with backslash escapes; an optional byte order
//! mark at the start is skipped.

use vstd::prelude::*;

use crate::error::VdfError;
use crate::text::{empty_text, push_char};
use crate::vdf::{VdfEntry, VdfField, VdfObject, VdfTree, VdfValue, fields_of};

verus! {

/// ASCII whitespace: tab, line feed, form feed, carriage return, space.
pub open spec fn is_vdf_space(c: char) -> bool {
    c == '\t' || c == '\n' || c == '\x0C' || c == '\r' || c == ' '
}

/// Position of the first byte at or after `p` that is neither whitespace nor inside a
/// `//` comment.
pub open spec fn ws_end(s: Seq<char>, p: int) -> int
    decreases s.len() - p,
{
    if 0 <= p < s.len() {
        if is_vdf_space(s[p]) {
            ws_end(s, p + 1)
        } else if s[p] == '/' && p + 1 < s.len() && s[p + 1] == '/' {
            comment_end(s, p + 2)
        } else {
            p
        }
    } else {
        p
    }
}

/// Inside a `//` comment at `p`: skips to after the line break, then on over whitespace.
pub open spec fn comment_end(s: Seq<char>, p: int) -> int
    decreases s.len() - p,
{
    if 0 <= p < s.len() {
        if s[p] == '\n' {
            ws_end(s, p + 1)
        } else {
            comment_end(s, p + 1)
        }
    } else {
        p
    }
}

/// Skips whitespace, then reads the character `b`; gives the position after it.
pub open spec fn expect_from(s: Seq<char>, p: int, b: char) -> Result<int, VdfError> {
    let q = ws_end(s, p);
    if 0 <= q < s.len() {
        if s[q] == b {
            Ok(q + 1)
        } else {
            Err(VdfError::UnexpectedByte { expected: b, found: s[q] })
        }
    } else {
        Err(VdfError::UnexpectedEnd)
    }
}

/// The character that a backslash followed by `b` stands for.
pub open spec fn unescape(b: char) -> char {
    if b == 'n' {
        '\n'
    } else if b == 'r' {
        '\r'
    } else if b == 't' {
        '\t'
    } else {
        b
    }
}

/// The characters of a quoted string whose opening quote lies just before `p`, and the
/// position after its closing quote.
pub open spec fn string_from(s: Seq<char>, p: int) -> Result<(Seq<char>, int), VdfError>
    decreases s.len() - p,
{
    if 0 <= p < s.len() {
        if s[p] == '\\' {
            if p + 1 < s.len() {
                match string_from(s, p + 2) {
                    Ok((t, e)) => Ok((seq![unescape(s[p + 1])] + t, e)),
                    Err(x) => Err(x),
                }
            } else {
                Err(VdfError::UnterminatedEscape)
            }
        } else if s[p] == '"' {
            Ok((Seq::empty(), p + 1))
        } else {
            match string_from(s, p + 1) {
                Ok((t, e)) => Ok((seq![s[p]] + t, e)),
                Err(x) => Err(x),
            }
        }
    } else {
        Err(VdfError::UnterminatedString)
    }
}

/// A quoted string, after optional whitespace.
pub open spec fn quoted_from(s: Seq<char>, p: int) -> Result<(Seq<char>, int), VdfError> {
    match expect_from(s, ws_end(s, p), '"') {
        Ok(q) => string_from(s, q),
        Err(x) => Err(x),
    }
}

/// One field: a quoted key, then a braced object or a quoted text.
pub open spec fn entry_from(s: Seq<char>, p: int) -> Result<(VdfField, int), VdfError>
    decreases s.len() - p, 0int,
{
    match quoted_from(s, p) {
        Err(x) => Err(x),
        Ok((key, p1)) => {
            let p2 = ws_end(s, p1);
            if 0 <= p2 < s.len() && s[p2] == '{' {
                if p < p2 {
                    match object_from(s, p2) {
                        Ok((fields, e)) => Ok((VdfField { key, value: VdfTree::Node(fields) }, e)),
                        Err(x) => Err(x),
                    }
                } else {
                    Err(VdfError::UnexpectedEnd)
                }
            } else {
                match quoted_from(s, p2) {
                    Ok((v, e)) => Ok((VdfField { key, value: VdfTree::Text(v) }, e)),
                    Err(x) => Err(x),
                }
            }
        },
    }
}

/// A braced object: `{`, its fields, `}`.
pub open spec fn object_from(s: Seq<char>, p: int) -> Result<(Seq<VdfField>, int), VdfError>
    decreases s.len() - p, 1int,
{
    match expect_from(s, p, '{') {
        Ok(q) => if p < q && q <= s.len() {
            members_from(s, q)
        } else {
            Err(VdfError::UnexpectedEnd)
        },
        Err(x) => Err(x),
    }
}

/// The fields of an object up to and including its closing brace.
pub open spec fn members_from(s: Seq<char>, p: int) -> Result<(Seq<VdfField>, int), VdfError>
    decreases s.len() - p, 2int,
{
    let q = ws_end(s, p);
    if 0 <= q < s.len() && s[q] == '}' {
        Ok((Seq::empty(), q + 1))
    } else if p <= q && q <= s.len() {
        match entry_from(s, q) {
            Ok((f, r)) => if q < r && r <= s.len() {
                match members_from(s, r) {
                    Ok((fs, e)) => Ok((seq![f] + fs, e)),
                    Err(x) => Err(x),
                }
            } else {
                Err(VdfError::UnexpectedEnd)
            },
            Err(x) => Err(x),
        }
    } else {
        Err(VdfError::UnexpectedEnd)
    }
}

/// The top-level fields, up to the end of the input.
pub open spec fn root_from(s: Seq<char>, p: int) -> Result<(Seq<VdfField>, int), VdfError>
    decreases s.len() - p,
{
    let q = ws_end(s, p);
    if !(0 <= q < s.len()) {
        Ok((Seq::empty(), q))
    } else if p <= q && q <= s.len() {
        match entry_from(s, q) {
            Ok((f, r)) => if q < r && r <= s.len() {
                match root_from(s, r) {
                    Ok((fs, e)) => Ok((seq![f] + fs, e)),
                    Err(x) => Err(x),
                }
            } else {
                Err(VdfError::UnexpectedEnd)
            },
            Err(x) => Err(x),
        }
    } else {
        Err(VdfError::UnexpectedEnd)
    }
}

/// Length of a leading byte order mark (U+FEFF): 1 when present, else 0.
pub open spec fn bom_len(s: Seq<char>) -> int {
    if s.len() >= 1 && s[0] == '\u{feff}' {
        1
    } else {
        0
    }
}

/// The fields of a whole document.
pub open spec fn document_fields(s: Seq<char>) -> Result<Seq<VdfField>, VdfError> {
    match root_from(s, bom_len(s)) {
        Ok((fields, q)) => if ws_end(s, q) < s.len() {
            Err(VdfError::TrailingContent)
        } else {
            Ok(fields)
        },
        Err(x) => Err(x),
    }
}

// ---------------------------------------------------------------------------
// Positions only move forward and stay within the input
// ---------------------------------------------------------------------------

pub proof fn lemma_ws_end(s: Seq<char>, p: int)
    requires
        0 <= p <= s.len(),
    ensures
        p <= ws_end(s, p) <= s.len(),
    decreases s.len() - p,
{
    if p < s.len() {
        if is_vdf_space(s[p]) {
            lemma_ws_end(s, p + 1);
        } else if s[p] == '/' && p + 1 < s.len() && s[p + 1] == '/' {
            lemma_comment_end(s, p + 2);
        }
    }
}

pub proof fn lemma_comment_end(s: Seq<char>, p: int)
    requires
        0 <= p <= s.len(),
    ensures
        p <= comment_end(s, p) <= s.len(),
    decreases s.len() - p,
{
    if p < s.len() {
        if s[p] == '\n' {
            lemma_ws_end(s, p + 1);
        } else {
            lemma_comment_end(s, p + 1);
        }
    }
}

pub proof fn lemma_string_from(s: Seq<char>, p: int)
    requires
        0 <= p <= s.len(),
    ensures
        string_from(s, p) matches Ok((_, e)) ==> p < e <= s.len(),
    decreases s.len() - p,
{
    if 0 <= p < s.len() {
        if s[p] == '\\' {
            if p + 1 < s.len() {
                lemma_string_from(s, p + 2);
            }
        } else if s[p] != '"' {
            lemma_string_from(s, p + 1);
        }
    }
}

pub proof fn lemma_quoted_from(s: Seq<char>, p: int)
    requires
        0 <= p <= s.len(),
    ensures
        quoted_from(s, p) matches Ok((_, e)) ==> p < e <= s.len(),
{
    lemma_ws_end(s, p);
    lemma_ws_end(s, ws_end(s, p));
    if let Ok(q) = expect_from(s, ws_end(s, p), '"') {
        lemma_string_from(s, q);
    }
}

pub proof fn lemma_entry_from(s: Seq<char>, p: int)
    requires
        0 <= p <= s.len(),
    ensures
        entry_from(s, p) matches Ok((_, e)) ==> p < e <= s.len(),
    decreases s.len() - p, 0int,
{
    lemma_quoted_from(s, p);
    if let Ok((key, p1)) = quoted_from(s, p) {
        lemma_ws_end(s, p1);
        let p2 = ws_end(s, p1);
        if 0 <= p2 < s.len() && s[p2] == '{' {
            lemma_object_from(s, p2);
        } else {
            lemma_quoted_from(s, p2);
        }
    }
}

pub proof fn lemma_object_from(s: Seq<char>, p: int)
    requires
        0 <= p <= s.len(),
    ensures
        object_from(s, p) matches Ok((_, e)) ==> p < e <= s.len(),
    decreases s.len() - p, 1int,
{
    if let Ok(q) = expect_from(s, p, '{') {
        if p < q && q <= s.len() {
            lemma_members_from(s, q);
        }
    }
}

pub proof fn lemma_members_from(s: Seq<char>, p: int)
    requires
        0 <= p <= s.len(),
    ensures
        members_from(s, p) matches Ok((_, e)) ==> p < e <= s.len(),
    decreases s.len() - p, 2int,
{
    lemma_ws_end(s, p);
    let q = ws_end(s, p);
    if 0 <= q < s.len() && s[q] == '}' {
    } else if p <= q && q <= s.len() {
        lemma_entry_from(s, q);
        if let Ok((f, r)) = entry_from(s, q) {
            if q < r && r <= s.len() {
                lemma_members_from(s, r);
            }
        }
    }
}

// ---------------------------------------------------------------------------
// A leading character shifts every position by one
// ---------------------------------------------------------------------------

pub open spec fn shift_pos(r: Result<int, VdfError>) -> Result<int, VdfError> {
    match r {
        Ok(q) => Ok(q + 1),
        Err(e) => Err(e),
    }
}

pub open spec fn shift_read<T>(r: Result<(T, int), VdfError>) -> Result<(T, int), VdfError> {
    match r {
        Ok((x, q)) => Ok((x, q + 1)),
        Err(e) => Err(e),
    }
}

proof fn lemma_shift_ws(c: char, s: Seq<char>, p: int)
    requires
        0 <= p <= s.len(),
    ensures
        ws_end(seq![c] + s, p + 1) == ws_end(s, p) + 1,
        comment_end(seq![c] + s, p + 1) == comment_end(s, p) + 1,
    decreases s.len() - p,
{
    let t = seq![c] + s;
    if p < s.len() {
        assert(t[p + 1] == s[p]);
        lemma_shift_ws(c, s, p + 1);
        if p + 1 < s.len() {
            assert(t[p + 2] == s[p + 1]);
            lemma_shift_ws(c, s, p + 2);
        }
    }
}

proof fn lemma_shift_string(c: char, s: Seq<char>, p: int)
    requires
        0 <= p <= s.len(),
    ensures
        string_from(seq![c] + s, p + 1) == shift_read(string_from(s, p)),
    decreases s.len() - p,
{
    let t = seq![c] + s;
    if p < s.len() {
        assert(t[p + 1] == s[p]);
        if p + 1 < s.len() {
            assert(t[p + 2] == s[p + 1]);
        }
        if s[p] == '\\' {
            if p + 1 < s.len() {
                if p + 2 <= s.len() {
                    lemma_shift_string(c, s, p + 2);
                }
            }
        } else if s[p] != '"' {
            lemma_shift_string(c, s, p + 1);
        }
    }
}

proof fn lemma_shift_quoted(c: char, s: Seq<char>, p: int)
    requires
        0 <= p <= s.len(),
    ensures
        expect_from(seq![c] + s, p + 1, '"') == shift_pos(expect_from(s, p, '"')),
        expect_from(seq![c] + s, p + 1, '{') == shift_pos(expect_from(s, p, '{')),
        quoted_from(seq![c] + s, p + 1) == shift_read(quoted_from(s, p)),
{
    let t = seq![c] + s;
    lemma_shift_ws(c, s, p);
    lemma_ws_end(s, p);
    let q = ws_end(s, p);
    if q < s.len() {
        assert(t[q + 1] == s[q]);
    }
    lemma_shift_ws(c, s, q);
    lemma_ws_end(s, q);
    let q2 = ws_end(s, q);
    if q2 < s.len() {
        assert(t[q2 + 1] == s[q2]);
    }
    if let Ok(e) = expect_from(s, q, '"') {
        lemma_shift_string(c, s, e);
    }
}

proof fn lemma_shift_entry(c: char, s: Seq<char>, p: int)
    requires
        0 <= p <= s.len(),
    ensures
        entry_from(seq![c] + s, p + 1) == shift_read(entry_from(s, p)),
    decreases s.len() - p, 0int,
{
    let t = seq![c] + s;
    lemma_shift_quoted(c, s, p);
    lemma_quoted_from(s, p);
    if let Ok((key, p1)) = quoted_from(s, p) {
        lemma_shift_ws(c, s, p1);
        lemma_ws_end(s, p1);
        let p2 = ws_end(s, p1);
        if p2 < s.len() {
            assert(t[p2 + 1] == s[p2]);
        }
        lemma_shift_quoted(c, s, p2);
        if 0 <= p2 < s.len() && s[p2] == '{' {
            if p < p2 {
                lemma_shift_object(c, s, p2);
            }
        }
    }
}

proof fn lemma_shift_object(c: char, s: Seq<char>, p: int)
    requires
        0 <= p <= s.len(),
    ensures
        object_from(seq![c] + s, p + 1) == shift_read(object_from(s, p)),
    decreases s.len() - p, 1int,
{
    lemma_shift_quoted(c, s, p);
    if let Ok(q) = expect_from(s, p, '{') {
        lemma_ws_end(s, p);
        if p < q && q <= s.len() {
            lemma_shift_members(c, s, q);
        }
    }
}

proof fn lemma_shift_members(c: char, s: Seq<char>, p: int)
    requires
        0 <= p <= s.len(),
    ensures
        members_from(seq![c] + s, p + 1) == shift_read(members_from(s, p)),
    decreases s.len() - p, 2int,
{
    let t = seq![c] + s;
    lemma_shift_ws(c, s, p);
    lemma_ws_end(s, p);
    let q = ws_end(s, p);
    if q < s.len() {
        assert(t[q + 1] == s[q]);
    }
    if 0 <= q < s.len() && s[q] == '}' {
    } else if p <= q && q <= s.len() {
        lemma_shift_entry(c, s, q);
        if let Ok((f, r)) = entry_from(s, q) {
            if q < r && r <= s.len() {
                lemma_shift_members(c, s, r);
            }
        }
    }
}

proof fn lemma_shift_root(c: char, s: Seq<char>, p: int)
    requires
        0 <= p <= s.len(),
    ensures
        root_from(seq![c] + s, p + 1) == shift_read(root_from(s, p)),
    decreases s.len() - p,
{
    lemma_shift_ws(c, s, p);
    lemma_ws_end(s, p);
    let q = ws_end(s, p);
    if 0 <= q < s.len() && p <= q {
        lemma_shift_entry(c, s, q);
        if let Ok((f, r)) = entry_from(s, q) {
            if q < r && r <= s.len() {
                lemma_shift_root(c, s, r);
            }
        }
    }
}

proof fn lemma_root_from(s: Seq<char>, p: int)
    requires
        0 <= p <= s.len(),
    ensures
        root_from(s, p) matches Ok((_, e)) ==> p <= e <= s.len(),
    decreases s.len() - p,
{
    lemma_ws_end(s, p);
    let q = ws_end(s, p);
    if 0 <= q < s.len() && p <= q {
        lemma_entry_from(s, q);
        if let Ok((f, r)) = entry_from(s, q) {
            if q < r && r <= s.len() {
                lemma_root_from(s, r);
            }
        }
    }
}

/// A byte order mark in front of a text that has none is read over: the text reads as it
/// does without the mark.
pub proof fn lemma_byte_order_mark_ignored(s: Seq<char>)
    requires
        bom_len(s) == 0,
    ensures
        document_fields(seq!['\u{feff}'] + s) == document_fields(s),
{
    let t = seq!['\u{feff}'] + s;
    assert(t[0] == '\u{feff}');
    assert(bom_len(t) == 1);
    lemma_shift_root('\u{feff}', s, 0);
    if let Ok((fields, q)) = root_from(s, 0) {
        lemma_root_from(s, 0);
        lemma_shift_ws('\u{feff}', s, q);
    }
}

// ---------------------------------------------------------------------------
// The reader
// ---------------------------------------------------------------------------

pub fn is_vdf_space_char(c: char) -> (r: bool)
    ensures
        r == is_vdf_space(c),
{
    c == '\t' || c == '\n' || c == '\x0C' || c == '\r' || c == ' '
}

/// A reader over the characters of a text and a position in them.
pub struct Parser {
    pub input: Vec<char>,
    pub position: usize,
}

impl Parser {
    pub open spec fn wf(&self) -> bool {
        self.position <= self.input@.len() && self.input@.len() <= usize::MAX
    }

    pub fn new(input: Vec<char>) -> (r: Self)
        ensures
            r.input@ == input@,
            r.position == 0,
            r.wf(),
    {
        let _n = input.len();
        Parser { input, position: 0 }
    }

    pub fn is_eof(&self) -> (r: bool)
        ensures
            r == (self.position >= self.input@.len()),
    {
        self.position >= self.input.len()
    }

    pub fn peek(&self) -> (r: Option<char>)
        ensures
            r == (if self.position < self.input@.len() {
                Some(self.input@[self.position as int])
            } else {
                None
            }),
    {
        if self.position < self.input.len() {
            Some(self.input[self.position])
        } else {
            None
        }
    }

    pub fn peek_next(&self) -> (r: Option<char>)
        requires
            self.wf(),
        ensures
            r == (if self.position + 1 < self.input@.len() {
                Some(self.input@[self.position + 1])
            } else {
                None
            }),
    {
        if self.position < self.input.len() && self.position + 1 < self.input.len() {
            Some(self.input[self.position + 1])
        } else {
            None
        }
    }

    /// Skips whitespace and `//` comments.
    pub fn skip_ws(&mut self)
        requires
            old(self).wf(),
        ensures
            final(self).input@ == old(self).input@,
            final(self).position == ws_end(old(self).input@, old(self).position as int),
            final(self).wf(),
    {
        let ghost s = self.input@;
        let ghost target = ws_end(s, self.position as int);
        proof {
            lemma_ws_end(s, self.position as int);
        }
        loop
            invariant
                self.input@ == s,
                self.wf(),
                ws_end(s, self.position as int) == target,
            ensures
                self.input@ == s,
                self.wf(),
                self.position == target,
            decreases s.len() - self.position,
        {
            match self.peek() {
                None => {
                    break;
                },
                Some(current) => {
                    if is_vdf_space_char(current) {
                        self.position = self.position + 1;
                    } else if current == '/' && self.peek_next() == Some('/') {
                        let ghost p0 = self.position;
                        self.position = self.position + 2;
                        loop
                            invariant_except_break
                                comment_end(s, self.position as int) == target,
                            invariant
                                self.input@ == s,
                                self.wf(),
                                self.position >= p0 + 2,
                            ensures
                                self.input@ == s,
                                self.wf(),
                                ws_end(s, self.position as int) == target,
                                self.position >= p0 + 2,
                            decreases s.len() - self.position,
                        {
                            match self.peek() {
                                None => {
                                    break;
                                },
                                Some(ch) => {
                                    self.position = self.position + 1;
                                    if ch == '\n' {
                                        break;
                                    }
                                },
                            }
                        }
                    } else {
                        break;
                    }
                },
            }
        }
    }

    /// Skips whitespace, then consumes `expected`.
    pub fn expect(&mut self, expected: char) -> (r: Result<(), VdfError>)
        requires
            old(self).wf(),
        ensures
            final(self).input@ == old(self).input@,
            final(self).wf(),
            match expect_from(old(self).input@, old(self).position as int, expected) {
                Ok(q) => r is Ok && final(self).position == q,
                Err(x) => r == Err::<(), VdfError>(x),
            },
    {
        self.skip_ws();
        match self.peek() {
            Some(value) => {
                if value == expected {
                    self.position = self.position + 1;
                    Ok(())
                } else {
                    Err(VdfError::UnexpectedByte { expected, found: value })
                }
            },
            None => Err(VdfError::UnexpectedEnd),
        }
    }

    /// Reads a quoted string.
    pub fn parse_string(&mut self) -> (r: Result<String, VdfError>)
        requires
            old(self).wf(),
        ensures
            final(self).input@ == old(self).input@,
            final(self).wf(),
            match quoted_from(old(self).input@, old(self).position as int) {
                Ok((t, e)) => r matches Ok(v) && v@ == t && final(self).position == e,
                Err(x) => r == Err::<String, VdfError>(x),
            },
    {
        let ghost s = self.input@;
        self.skip_ws();
        self.expect('"')?;
        let ghost start = self.position as int;
        let mut output = empty_text();
        loop
            invariant
                self.input@ == s,
                s == old(self).input@,
                quoted_from(s, old(self).position as int) == string_from(s, start),
                self.wf(),
                start <= self.position,
                match string_from(s, self.position as int) {
                    Ok((t, e)) => string_from(s, start) == Ok::<(Seq<char>, int), VdfError>(
                        (output@ + t, e),
                    ),
                    Err(x) => string_from(s, start) == Err::<(Seq<char>, int), VdfError>(x),
                },
            decreases s.len() - self.position,
        {
            let ghost p = self.position as int;
            match self.peek() {
                None => {
                    return Err(VdfError::UnterminatedString);
                },
                Some(current) => {
                    self.position = self.position + 1;
                    if current == '\\' {
                        match self.peek() {
                            None => {
                                return Err(VdfError::UnterminatedEscape);
                            },
                            Some(escaped) => {
                                self.position = self.position + 1;
                                let c: char = if escaped == 'n' {
                                    '\n'
                                } else if escaped == 'r' {
                                    '\r'
                                } else if escaped == 't' {
                                    '\t'
                                } else {
                                    escaped
                                };
                                let ghost before = output@;
                                push_char(&mut output, c);
                                proof {
                                    assert(c == unescape(s[p + 1]));
                                    if let Ok((t, e)) = string_from(s, p + 2) {
                                        assert(before + (seq![c] + t) =~= output@ + t);
                                    }
                                }
                            },
                        }
                    } else if current == '"' {
                        proof {
                            assert(output@ + Seq::<char>::empty() =~= output@);
                        }
                        return Ok(output);
                    } else {
                        let ghost before = output@;
                        push_char(&mut output, current);
                        proof {
                            if let Ok((t, e)) = string_from(s, p + 1) {
                                assert(before + (seq![current] + t) =~= output@ + t);
                            }
                        }
                    }
                },
            }
        }
    }

    /// Reads one field.
    pub fn parse_entry(&mut self) -> (r: Result<VdfEntry, VdfError>)
        requires
            old(self).wf(),
        ensures
            final(self).input@ == old(self).input@,
            final(self).wf(),
            match entry_from(old(self).input@, old(self).position as int) {
                Ok((f, e)) => r matches Ok(en) && en.field() == f && final(self).position == e,
                Err(x) => r == Err::<VdfEntry, VdfError>(x),
            },
        decreases old(self).input@.len() - old(self).position, 0int,
    {
        let ghost s = self.input@;
        let ghost p = self.position as int;
        proof {
            lemma_quoted_from(s, p);
        }
        let key = self.parse_string()?;
        let ghost p1 = self.position as int;
        self.skip_ws();
        proof {
            lemma_ws_end(s, p1);
        }
        if self.peek() == Some('{') {
            let object = self.parse_object()?;
            let value = VdfValue::Object(object);
            Ok(VdfEntry { key, value })
        } else {
            let text = self.parse_string()?;
            Ok(VdfEntry { key, value: VdfValue::String(text) })
        }
    }

    /// Reads a braced object.
    pub fn parse_object(&mut self) -> (r: Result<VdfObject, VdfError>)
        requires
            old(self).wf(),
        ensures
            final(self).input@ == old(self).input@,
            final(self).wf(),
            match object_from(old(self).input@, old(self).position as int) {
                Ok((fs, e)) => r matches Ok(o) && o.fields() == fs && final(self).position == e,
                Err(x) => r == Err::<VdfObject, VdfError>(x),
            },
        decreases old(self).input@.len() - old(self).position, 1int,
    {
        let ghost s = self.input@;
        let ghost p = self.position as int;
        proof {
            lemma_ws_end(s, p);
        }
        self.expect('{')?;
        let mut entries: Vec<VdfEntry> = Vec::new();
        let ghost start = self.position as int;
        loop
            invariant
                self.input@ == s,
                s == old(self).input@,
                p == old(self).position,
                self.wf(),
                p < start <= self.position,
                object_from(s, p) == members_from(s, start),
                match members_from(s, self.position as int) {
                    Ok((fs, e)) => members_from(s, start) == Ok::<
                        (Seq<VdfField>, int),
                        VdfError,
                    >((fields_of(entries@) + fs, e)),
                    Err(x) => members_from(s, start) == Err::<(Seq<VdfField>, int), VdfError>(x),
                },
            decreases s.len() - self.position,
        {
            let ghost q0 = self.position as int;
            self.skip_ws();
            let ghost q = self.position as int;
            proof {
                lemma_ws_end(s, q0);
            }
            if self.peek() == Some('}') {
                self.position = self.position + 1;
                proof {
                    assert(fields_of(entries@) + Seq::<VdfField>::empty() =~= fields_of(entries@));
                }
                return Ok(VdfObject { entries });
            }
            proof {
                lemma_entry_from(s, q);
            }
            let entry = self.parse_entry()?;
            let ghost before = entries@;
            proof {
                if let Ok((f, r)) = entry_from(s, q) {
                    lemma_members_from(s, r);
                }
            }
            entries.push(entry);
            proof {
                assert(fields_of(entries@) =~= fields_of(before).push(entry.field()));
                if let Ok((fs, e)) = members_from(s, self.position as int) {
                    assert(fields_of(before) + (seq![entry.field()] + fs) =~= fields_of(entries@)
                        + fs);
                }
            }
        }
    }

    /// Reads the top-level fields up to the end of the input.
    pub fn parse_root(&mut self) -> (r: Result<VdfObject, VdfError>)
        requires
            old(self).wf(),
        ensures
            final(self).input@ == old(self).input@,
            final(self).wf(),
            match root_from(old(self).input@, old(self).position as int) {
                Ok((fs, e)) => r matches Ok(o) && o.fields() == fs && final(self).position == e,
                Err(x) => r == Err::<VdfObject, VdfError>(x),
            },
    {
        let ghost s = self.input@;
        let ghost start = self.position as int;
        let mut entries: Vec<VdfEntry> = Vec::new();
        proof {
            lemma_ws_end(s, start);
        }
        self.skip_ws();
        loop
            invariant
                self.input@ == s,
                s == old(self).input@,
                start == old(self).position,
                self.wf(),
                start <= self.position,
                ({
                    let q = self.position as int;
                    let rest = if !(0 <= q < s.len()) {
                        Ok::<(Seq<VdfField>, int), VdfError>((Seq::empty(), q))
                    } else if q > s.len() {
                        Err(VdfError::UnexpectedEnd)
                    } else {
                        match entry_from(s, q) {
                            Ok((f, r)) => if q < r && r <= s.len() {
                                match root_from(s, r) {
                                    Ok((fs, e)) => Ok((seq![f] + fs, e)),
                                    Err(x) => Err(x),
                                }
                            } else {
                                Err(VdfError::UnexpectedEnd)
                            },
                            Err(x) => Err(x),
                        }
                    };
                    match rest {
                        Ok((fs, e)) => root_from(s, start) == Ok::<
                            (Seq<VdfField>, int),
                            VdfError,
                        >((fields_of(entries@) + fs, e)),
                        Err(x) => root_from(s, start) == Err::<(Seq<VdfField>, int), VdfError>(x),
                    }
                }),
            decreases s.len() - self.position,
        {
            if self.is_eof() {
                proof {
                    assert(fields_of(entries@) + Seq::<VdfField>::empty() =~= fields_of(entries@));
                }
                return Ok(VdfObject { entries });
            }
            let ghost q = self.position as int;
            proof {
                lemma_entry_from(s, q);
            }
            let entry = self.parse_entry()?;
            let ghost r = self.position as int;
            let ghost before = entries@;
            entries.push(entry);
            proof {
                lemma_ws_end(s, r);
                assert(fields_of(entries@) =~= fields_of(before).push(entry.field()));
                if let Ok((fs, e)) = root_from(s, r) {
                    assert(fields_of(before) + (seq![entry.field()] + fs) =~= fields_of(entries@)
                        + fs);
                }
            }
            self.skip_ws();
        }
    }
}

} // verus!
