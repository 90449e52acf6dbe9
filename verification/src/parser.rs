use vstd::prelude::*;
use vstd::string::StrSliceExecFns;
use vstd::string::StringExecFns;
use crate::value::JsonValue;
use crate::value::ValModel;
use crate::value::num_cap;

verus! {

/// Errors produced while parsing a path, filter, or expression text.
#[derive(Debug)]
pub enum ParseError {
    /// The text does not conform to the grammar; the message names the
    /// offending construct.
    InvalidSyntax(String),
}

impl From<String> for ParseError {
    fn from(msg: String) -> (r: ParseError) {
        ParseError::InvalidSyntax(msg)
    }
}

impl vstd::std_specs::convert::FromSpecImpl<String> for ParseError {
    open spec fn obeys_from_spec() -> bool {
        true
    }

    open spec fn from_spec(msg: String) -> ParseError {
        ParseError::InvalidSyntax(msg)
    }
}

// --- character classes ---

pub open spec fn is_digit_char(c: char) -> bool {
    48 <= c as u32 <= 57
}

/// The numeric value of a decimal digit character (zero for others).
pub open spec fn digit_val(c: char) -> int {
    if is_digit_char(c) {
        c as u32 - 48
    } else {
        0
    }
}

/// Identifier characters: ASCII letters, digits, and underscore.
pub open spec fn is_ident_char(c: char) -> bool {
    c == '_' || is_digit_char(c) || (65 <= c as u32 <= 90) || (97 <= c as u32 <= 122)
}

/// The Unicode white-space characters.
pub open spec fn is_ws_char(c: char) -> bool {
    let u = c as u32;
    (9 <= u <= 13) || u == 32 || u == 0x85 || u == 0xA0 || u == 0x1680 || (0x2000 <= u <= 0x200A)
        || u == 0x2028 || u == 0x2029 || u == 0x202F || u == 0x205F || u == 0x3000
}

pub fn digit_char(c: char) -> (r: bool)
    ensures
        r == is_digit_char(c),
{
    let u = c as u32;
    48 <= u && u <= 57
}

pub fn ident_char(c: char) -> (r: bool)
    ensures
        r == is_ident_char(c),
{
    let u = c as u32;
    u == 95 || (48 <= u && u <= 57) || (65 <= u && u <= 90) || (97 <= u && u <= 122)
}

pub fn ws_char(c: char) -> (r: bool)
    ensures
        r == is_ws_char(c),
{
    let u = c as u32;
    (9 <= u && u <= 13) || u == 32 || u == 0x85 || u == 0xA0 || u == 0x1680 || (0x2000 <= u && u
        <= 0x200A) || u == 0x2028 || u == 0x2029 || u == 0x202F || u == 0x205F || u == 0x3000
}

// --- scanning positions ---

/// The position of the first non-white-space character at or after `i`.
pub open spec fn ws_end(s: Seq<char>, i: int) -> int
    decreases s.len() - i,
{
    if 0 <= i < s.len() && is_ws_char(s[i]) {
        ws_end(s, i + 1)
    } else {
        i
    }
}

/// The position of the first non-identifier character at or after `i`.
pub open spec fn ident_end(s: Seq<char>, i: int) -> int
    decreases s.len() - i,
{
    if 0 <= i < s.len() && is_ident_char(s[i]) {
        ident_end(s, i + 1)
    } else {
        i
    }
}

/// The position of the first non-digit character at or after `i`.
pub open spec fn digits_end(s: Seq<char>, i: int) -> int
    decreases s.len() - i,
{
    if 0 <= i < s.len() && is_digit_char(s[i]) {
        digits_end(s, i + 1)
    } else {
        i
    }
}

/// The position of the first occurrence of `c` at or after `i`, or the
/// length of `s` when there is none.
pub open spec fn find_char(s: Seq<char>, i: int, c: char) -> int
    decreases s.len() - i,
{
    if 0 <= i < s.len() {
        if s[i] == c {
            i
        } else {
            find_char(s, i + 1, c)
        }
    } else {
        s.len() as int
    }
}

pub broadcast proof fn lemma_ws_end(s: Seq<char>, i: int)
    requires
        0 <= i <= s.len(),
    ensures
        i <= #[trigger] ws_end(s, i) <= s.len(),
    decreases s.len() - i,
{
    if i < s.len() && is_ws_char(s[i]) {
        lemma_ws_end(s, i + 1);
    }
}

pub broadcast proof fn lemma_ident_end(s: Seq<char>, i: int)
    requires
        0 <= i <= s.len(),
    ensures
        i <= #[trigger] ident_end(s, i) <= s.len(),
    decreases s.len() - i,
{
    if i < s.len() && is_ident_char(s[i]) {
        lemma_ident_end(s, i + 1);
    }
}

pub broadcast proof fn lemma_digits_end(s: Seq<char>, i: int)
    requires
        0 <= i <= s.len(),
    ensures
        i <= #[trigger] digits_end(s, i) <= s.len(),
    decreases s.len() - i,
{
    if i < s.len() && is_digit_char(s[i]) {
        lemma_digits_end(s, i + 1);
    }
}

pub broadcast proof fn lemma_find_char(s: Seq<char>, i: int, c: char)
    requires
        0 <= i <= s.len(),
    ensures
        i <= #[trigger] find_char(s, i, c) <= s.len(),
        find_char(s, i, c) < s.len() ==> s[find_char(s, i, c)] == c,
    decreases s.len() - i,
{
    if i < s.len() && s[i] != c {
        lemma_find_char(s, i + 1, c);
    }
}

// --- digit strings as numbers ---

/// The value of the decimal digit string `s[i..j]`.
pub open spec fn digits_val(s: Seq<char>, i: int, j: int) -> int
    decreases j - i,
{
    if i < j {
        digits_val(s, i, j - 1) * 10 + digit_val(s[j - 1])
    } else {
        0
    }
}

pub broadcast proof fn lemma_digits_val_bounds(s: Seq<char>, i: int, j: int)
    ensures
        0 <= #[trigger] digits_val(s, i, j) < pow10(j - i),
    decreases j - i,
{
    if i < j {
        lemma_digits_val_bounds(s, i, j - 1);
        let prev = digits_val(s, i, j - 1);
        assert(pow10(j - i) == 10 * pow10(j - i - 1));
        assert(prev * 10 + 9 < 10 * pow10(j - i - 1)) by (nonlinear_arith)
            requires
                0 <= prev < pow10(j - i - 1),
        ;
    }
}

pub proof fn lemma_pow10_pos(k: int)
    ensures
        pow10(k) >= 1,
    decreases k,
{
    if k > 0 {
        lemma_pow10_pos(k - 1);
    }
}

pub proof fn lemma_pow10_mono(a: int, b: int)
    requires
        a <= b,
    ensures
        pow10(a) <= pow10(b),
    decreases b - a,
{
    if a < b {
        lemma_pow10_mono(a, b - 1);
        lemma_pow10_pos(b - 1);
    }
}

/// Powers of ten.
pub open spec fn pow10(k: int) -> int
    decreases k,
{
    if k <= 0 {
        1
    } else {
        10 * pow10(k - 1)
    }
}

/// Nano-units contributed by the fraction digits `s[f..e]`: the value of
/// the first nine of them, padded with zeros to nine digits.
pub open spec fn frac_nanos(s: Seq<char>, f: int, e: int) -> int {
    let fm = if e > f + 9 {
        f + 9
    } else {
        e
    };
    digits_val(s, f, fm) * pow10(9 - (fm - f))
}

pub proof fn lemma_frac_nanos_empty(s: Seq<char>, f: int)
    ensures
        frac_nanos(s, f, f) == 0,
{
    let p = pow10(9);
    assert(digits_val(s, f, f) == 0);
    assert(0 * p == 0) by (nonlinear_arith);
}

/// The nano-unit value and end position of a number literal at `i`:
/// an optionally-signed integer, or a decimal with a fraction part.
pub open spec fn num_literal_spec(s: Seq<char>, i: int) -> (Option<int>, int) {
    let p = int_sign_pos(s, i);
    let neg = p > i;
    let e1 = digits_end(s, p);
    let has_dot = e1 < s.len() && s[e1] == '.';
    if !has_dot {
        let dv = digits_val(s, p, e1);
        let v = if neg {
            -dv
        } else {
            dv
        };
        (
            if e1 > p && i64::MIN <= v <= i64::MAX {
                Some(v * 1_000_000_000)
            } else {
                None
            },
            e1,
        )
    } else {
        let f = e1 + 1;
        let e2 = digits_end(s, f);
        let mag = digits_val(s, p, e1) * 1_000_000_000 + frac_nanos(s, f, e2);
        let nanos = if mag > num_cap() {
            num_cap()
        } else {
            mag
        };
        let v = if neg {
            -nanos
        } else {
            nanos
        };
        (
            if e1 > p || e2 > f {
                Some(v)
            } else {
                None
            },
            e2,
        )
    }
}

/// Position after an optional leading minus sign.
pub open spec fn int_sign_pos(s: Seq<char>, i: int) -> int {
    if 0 <= i < s.len() && s[i] == '-' {
        i + 1
    } else {
        i
    }
}

// --- quoted strings ---

/// What one escape sequence `\c` stands for.
pub open spec fn esc_piece(c: char) -> Seq<char> {
    if c == 'n' {
        seq!['\n']
    } else if c == 't' {
        seq!['\t']
    } else if c == 'r' {
        seq!['\r']
    } else if c == '\\' {
        seq!['\\']
    } else if c == '"' {
        seq!['"']
    } else if c == '\'' {
        seq!['\'']
    } else {
        seq!['\\', c]
    }
}

/// The content of a quoted string whose body starts at `i` (just after
/// the opening quote `q`), together with the position just after the
/// closing quote; `None` when the string is unterminated.
pub open spec fn quoted_body(s: Seq<char>, i: int, q: char) -> Option<(Seq<char>, int)>
    decreases s.len() - i,
{
    if i < 0 || i >= s.len() {
        None
    } else if s[i] == q {
        Some((Seq::empty(), i + 1))
    } else if s[i] == '\\' {
        if i + 1 >= s.len() {
            None
        } else {
            match quoted_body(s, i + 2, q) {
                Some((t, j)) => Some((esc_piece(s[i + 1]) + t, j)),
                None => None,
            }
        }
    } else {
        match quoted_body(s, i + 1, q) {
            Some((t, j)) => Some((seq![s[i]] + t, j)),
            None => None,
        }
    }
}

pub broadcast proof fn lemma_quoted_body(s: Seq<char>, i: int, q: char)
    requires
        0 <= i <= s.len(),
    ensures
        match #[trigger] quoted_body(s, i, q) {
            Some((t, j)) => i < j <= s.len(),
            None => true,
        },
    decreases s.len() - i,
{
    if i < s.len() && s[i] != q {
        if s[i] == '\\' {
            if i + 2 <= s.len() {
                lemma_quoted_body(s, i + 2, q);
            }
        } else {
            lemma_quoted_body(s, i + 1, q);
        }
    }
}

// --- the scanner ---

/// A character-level cursor over an input string: `s` is the source,
/// `i` the current character position, and `n` the character length of
/// the source.
pub struct Parser<'a> {
    pub s: &'a str,
    pub n: usize,
    pub i: usize,
}

impl<'a> Parser<'a> {
    pub open spec fn wf(&self) -> bool {
        self.n == self.s@.len() && self.i <= self.n
    }

    /// The source as a sequence of characters.
    pub open spec fn src(&self) -> Seq<char> {
        self.s@
    }

    /// The current position, as a character index.
    pub open spec fn pos(&self) -> int {
        self.i as int
    }

    /// Both cursors read the same source text.
    pub open spec fn same_src(&self, other: &Parser<'a>) -> bool {
        self.s == other.s && self.n == other.n
    }

    pub fn new(s: &'a str) -> (r: Parser<'a>)
        ensures
            r.wf(),
            r.src() == s@,
            r.pos() == 0,
    {
        let n = s.unicode_len();
        Parser { s, n, i: 0 }
    }

    pub fn peek_char(&self) -> (r: Option<char>)
        requires
            self.wf(),
        ensures
            match r {
                Some(c) => self.pos() < self.src().len() && c == self.src()[self.pos()],
                None => self.pos() == self.src().len(),
            },
    {
        if self.i < self.n {
            Some(self.s.get_char(self.i))
        } else {
            None
        }
    }

    pub fn peek_str(&self, lit: &str) -> (r: bool)
        requires
            self.wf(),
        ensures
            r == (self.pos() + lit@.len() <= self.src().len() && self.src().subrange(
                self.pos(),
                self.pos() + lit@.len(),
            ) == lit@),
    {
        let m = lit.unicode_len();
        if m > self.n - self.i {
            return false;
        }
        let mut j: usize = 0;
        #[verifier::loop_isolation(false)]
        while j < m
            invariant
                0 <= j <= m,
                forall|k: int| 0 <= k < j ==> self.src()[self.pos() + k] == lit@[k],
            decreases m - j,
        {
            if self.s.get_char(self.i + j) != lit.get_char(j) {
                proof {
                    assert(self.src().subrange(self.pos(), self.pos() + lit@.len())[j as int]
                        != lit@[j as int]);
                }
                return false;
            }
            j += 1;
        }
        proof {
            assert(self.src().subrange(self.pos(), self.pos() + lit@.len()) =~= lit@);
        }
        true
    }

    pub fn eof(&self) -> (r: bool)
        requires
            self.wf(),
        ensures
            r == (self.pos() == self.src().len()),
    {
        self.i >= self.n
    }

    pub fn consume_char(&mut self, c: char) -> (r: bool)
        requires
            old(self).wf(),
        ensures
            final(self).wf(),
            final(self).same_src(old(self)),
            r == (old(self).pos() < old(self).src().len() && old(self).src()[old(self).pos()]
                == c),
            final(self).pos() == if r {
                old(self).pos() + 1
            } else {
                old(self).pos()
            },
    {
        if self.i < self.n && self.s.get_char(self.i) == c {
            self.i += 1;
            true
        } else {
            false
        }
    }

    pub fn expect(&mut self, c: char) -> (r: Result<(), ParseError>)
        requires
            old(self).wf(),
        ensures
            final(self).wf(),
            final(self).same_src(old(self)),
            r is Ok <==> (old(self).pos() < old(self).src().len() && old(self).src()[old(
                self,
            ).pos()] == c),
            final(self).pos() == if r is Ok {
                old(self).pos() + 1
            } else {
                old(self).pos()
            },
    {
        if self.consume_char(c) {
            Ok(())
        } else {
            let mut msg = String::new();
            msg.append("expected '");
            push_char(&mut msg, c);
            msg.append("'");
            Err(ParseError::InvalidSyntax(msg))
        }
    }

    pub fn skip_ws(&mut self)
        requires
            old(self).wf(),
        ensures
            final(self).wf(),
            final(self).same_src(old(self)),
            final(self).pos() == ws_end(old(self).src(), old(self).pos()),
            old(self).pos() <= final(self).pos(),
    {
        #[verifier::loop_isolation(false)]
        while self.i < self.n && ws_char(self.s.get_char(self.i))
            invariant
                self.wf(),
                self.same_src(old(self)),
                old(self).pos() <= self.pos(),
                ws_end(old(self).src(), old(self).pos()) == ws_end(self.src(), self.pos()),
            decreases self.n - self.i,
        {
            self.i += 1;
        }
    }

    /// Parses an identifier (ASCII letters, digits, underscore).
    pub fn parse_identifier(&mut self) -> (r: Result<String, ParseError>)
        requires
            old(self).wf(),
        ensures
            final(self).wf(),
            final(self).same_src(old(self)),
            ({
                let e = ident_end(old(self).src(), old(self).pos());
                match r {
                    Ok(id) => e > old(self).pos() && id@ == old(self).src().subrange(
                        old(self).pos(),
                        e,
                    ) && final(self).pos() == e,
                    Err(_) => e == old(self).pos() && final(self).pos() == old(self).pos(),
                }
            }),
    {
        broadcast use lemma_ident_end;

        let start = self.i;
        #[verifier::loop_isolation(false)]
        while self.i < self.n && ident_char(self.s.get_char(self.i))
            invariant
                self.wf(),
                self.same_src(old(self)),
                start <= self.i,
                ident_end(self.src(), start as int) == ident_end(self.src(), self.pos()),
            decreases self.n - self.i,
        {
            self.i += 1;
        }
        if self.i == start {
            return Err(ParseError::InvalidSyntax(String::from_str("identifier expected")));
        }
        let sub = self.s.substring_char(start, self.i);
        Ok(sub.to_owned())
    }

    /// Captures the text up to (not including) the next `end` character;
    /// the cursor stops on that character.
    pub fn capture_until(&mut self, end: char) -> (r: Result<&'a str, ParseError>)
        requires
            old(self).wf(),
        ensures
            final(self).wf(),
            final(self).same_src(old(self)),
            ({
                let e = find_char(old(self).src(), old(self).pos(), end);
                final(self).pos() == e && match r {
                    Ok(sub) => e < old(self).src().len() && sub@ == old(self).src().subrange(
                        old(self).pos(),
                        e,
                    ),
                    Err(_) => e == old(self).src().len(),
                }
            }),
    {
        broadcast use lemma_find_char;

        let start = self.i;
        #[verifier::loop_isolation(false)]
        while self.i < self.n && self.s.get_char(self.i) != end
            invariant
                self.wf(),
                self.same_src(old(self)),
                start <= self.i,
                find_char(self.src(), start as int, end) == find_char(self.src(), self.pos(), end),
            decreases self.n - self.i,
        {
            self.i += 1;
        }
        if self.i >= self.n {
            let mut msg = String::new();
            msg.append("expected '");
            push_char(&mut msg, end);
            msg.append("'");
            return Err(ParseError::InvalidSyntax(msg));
        }
        Ok(self.s.substring_char(start, self.i))
    }

    /// Advances the cursor by `k` characters.
    pub fn advance(&mut self, k: usize)
        requires
            old(self).wf(),
            old(self).pos() + k <= old(self).src().len(),
        ensures
            final(self).wf(),
            final(self).same_src(old(self)),
            final(self).pos() == old(self).pos() + k,
    {
        self.i += k;
    }

    /// Scans a run of digits, accumulating their value; the result is
    /// exact when the value is at most `limit` and otherwise exceeds
    /// `limit` (saturating at `limit + 1`).
    pub(crate) fn parse_digits_clamped(&mut self, limit: u128) -> (acc: u128)
        requires
            old(self).wf(),
            limit <= 10_000_000_000_000_000_000_000_000_000u128,
        ensures
            final(self).wf(),
            final(self).same_src(old(self)),
            final(self).pos() == digits_end(old(self).src(), old(self).pos()),
            old(self).pos() <= final(self).pos(),
            ({
                let dv = digits_val(old(self).src(), old(self).pos(), final(self).pos());
                &&& (dv <= limit ==> acc == dv)
                &&& (dv > limit ==> acc > limit)
                &&& acc <= limit + 1
            }),
    {
        broadcast use lemma_digits_end, lemma_digits_val_bounds;

        let ghost s = self.src();
        let start = self.i;
        let mut acc: u128 = 0;
        #[verifier::loop_isolation(false)]
        while self.i < self.n && digit_char(self.s.get_char(self.i))
            invariant
                self.wf(),
                self.same_src(old(self)),
                start <= self.i,
                digits_end(s, start as int) == digits_end(s, self.pos()),
                ({
                    let dv = digits_val(s, start as int, self.pos());
                    &&& (dv <= limit ==> acc == dv)
                    &&& (dv > limit ==> acc > limit)
                    &&& acc <= limit + 1
                }),
            decreases self.n - self.i,
        {
            let ghost dv_pre = digits_val(s, start as int, self.pos());
            let c = self.s.get_char(self.i);
            let d = (c as u32) - 48;
            let t = acc * 10 + (d as u128);
            proof {
                let dv_post = digits_val(s, start as int, self.pos() + 1);
                assert(dv_post == dv_pre * 10 + digit_val(s[self.pos()]));
                if dv_pre <= limit {
                    assert(t == dv_post);
                } else {
                    assert(acc * 10 >= acc) by (nonlinear_arith)
                        requires
                            acc >= 0,
                    ;
                    assert(dv_pre * 10 >= dv_pre) by (nonlinear_arith)
                        requires
                            dv_pre >= 0,
                    ;
                }
            }
            acc = if t > limit {
                limit + 1
            } else {
                t
            };
            self.i += 1;
        }
        acc
    }

    /// Parses an optionally-signed decimal integer.
    pub fn parse_int(&mut self) -> (r: Result<i64, ParseError>)
        requires
            old(self).wf(),
        ensures
            final(self).wf(),
            final(self).same_src(old(self)),
            ({
                let s = old(self).src();
                let p = int_sign_pos(s, old(self).pos());
                let e = digits_end(s, p);
                let dv = digits_val(s, p, e);
                let v = if p > old(self).pos() {
                    -dv
                } else {
                    dv
                };
                &&& final(self).pos() == e
                &&& (r is Ok <==> (e > p && i64::MIN <= v <= i64::MAX))
                &&& (r is Ok ==> r->Ok_0 == v)
            }),
    {
        broadcast use lemma_digits_end, lemma_digits_val_bounds;

        let ghost s0 = self.src();
        let start = self.i;
        let neg = self.consume_char('-');
        let p = self.i;
        let acc = self.parse_digits_clamped(9_223_372_036_854_775_808u128);
        if self.i == p {
            return Err(ParseError::InvalidSyntax(String::from_str("expected integer")));
        }
        if neg {
            if acc <= 9_223_372_036_854_775_808u128 {
                let v = -(acc as i128);
                Ok(v as i64)
            } else {
                Err(ParseError::InvalidSyntax(String::from_str("bad integer")))
            }
        } else {
            if acc <= 9_223_372_036_854_775_807u128 {
                Ok(acc as i64)
            } else {
                Err(ParseError::InvalidSyntax(String::from_str("bad integer")))
            }
        }
    }

    /// Parses a quoted string (single or double quotes) with backslash
    /// escapes for `n t r \ " '`; an unknown escape is kept literally.
    pub fn parse_quoted_string(&mut self) -> (r: Result<String, ParseError>)
        requires
            old(self).wf(),
        ensures
            final(self).wf(),
            final(self).same_src(old(self)),
            old(self).pos() <= final(self).pos(),
            ({
                let s = old(self).src();
                let i0 = old(self).pos();
                if i0 < s.len() && (s[i0] == '\'' || s[i0] == '"') {
                    match quoted_body(s, i0 + 1, s[i0]) {
                        Some((t, j)) => r is Ok && r->Ok_0@ == t && final(self).pos() == j,
                        None => r is Err,
                    }
                } else {
                    r is Err && final(self).pos() == i0
                }
            }),
    {
        broadcast use lemma_quoted_body;

        let q = match self.peek_char() {
            Some(c) => c,
            None => {
                return Err(ParseError::InvalidSyntax(String::from_str("string")));
            },
        };
        if q != '\'' && q != '"' {
            return Err(ParseError::InvalidSyntax(String::from_str("expected quoted string")));
        }
        self.i += 1;
        let ghost s = self.src();
        let ghost b0 = self.pos();
        let mut out = String::new();
        #[verifier::loop_isolation(false)]
        while self.i < self.n
            invariant
                self.wf(),
                self.same_src(old(self)),
                b0 <= self.pos(),
                match quoted_body(s, b0, q) {
                    Some((t, j)) => quoted_body(s, self.pos(), q) matches Some((t2, j2)) && t
                        == out@ + t2 && j == j2,
                    None => quoted_body(s, self.pos(), q) is None,
                },
            decreases self.n - self.i,
        {
            let c = self.s.get_char(self.i);
            if c == q {
                self.i += 1;
                proof {
                    let (t, j) = quoted_body(s, b0, q)->Some_0;
                    assert(t =~= out@);
                }
                return Ok(out);
            }
            if c == '\\' {
                if self.i + 1 >= self.n {
                    break ;
                }
                let nc = self.s.get_char(self.i + 1);
                let ghost out0 = out@;
                if nc == 'n' {
                    push_char(&mut out, '\n');
                } else if nc == 't' {
                    push_char(&mut out, '\t');
                } else if nc == 'r' {
                    push_char(&mut out, '\r');
                } else if nc == '\\' {
                    push_char(&mut out, '\\');
                } else if nc == '"' {
                    push_char(&mut out, '"');
                } else if nc == '\'' {
                    push_char(&mut out, '\'');
                } else {
                    push_char(&mut out, '\\');
                    push_char(&mut out, nc);
                }
                proof {
                    assert(out@ =~= out0 + esc_piece(nc));
                    if quoted_body(s, b0, q) is Some {
                        let (t, j) = quoted_body(s, b0, q)->Some_0;
                        let (t2, j2) = quoted_body(s, self.pos(), q)->Some_0;
                        let (t3, j3) = quoted_body(s, self.pos() + 2, q)->Some_0;
                        assert(t2 == esc_piece(nc) + t3);
                        assert(t =~= (out0 + esc_piece(nc)) + t3);
                    }
                }
                self.i += 2;
            } else {
                let ghost out0 = out@;
                push_char(&mut out, c);
                proof {
                    if quoted_body(s, b0, q) is Some {
                        let (t, j) = quoted_body(s, b0, q)->Some_0;
                        let (t3, j3) = quoted_body(s, self.pos() + 1, q)->Some_0;
                        assert(t =~= (out0 + seq![c]) + t3);
                    }
                }
                self.i += 1;
            }
        }
        Err(ParseError::InvalidSyntax(String::from_str("unterminated string")))
    }

    /// Scans the fraction digits after a decimal point and returns the
    /// nano-units they denote.
    fn parse_frac_nanos(&mut self) -> (fr: u128)
        requires
            old(self).wf(),
        ensures
            final(self).wf(),
            final(self).same_src(old(self)),
            final(self).pos() == digits_end(old(self).src(), old(self).pos()),
            old(self).pos() <= final(self).pos(),
            fr == frac_nanos(old(self).src(), old(self).pos(), final(self).pos()),
            fr < 1_000_000_000u128,
    {
        broadcast use lemma_digits_end, lemma_digits_val_bounds;

        let ghost s = self.src();
        let ghost b0 = self.pos();
        let mut fr: u128 = 0;
        let mut k: usize = 0;
        #[verifier::loop_isolation(false)]
        while k < 9 && self.i < self.n && digit_char(self.s.get_char(self.i))
            invariant
                self.wf(),
                self.same_src(old(self)),
                k <= 9,
                self.pos() == b0 + k,
                digits_end(s, b0) == digits_end(s, self.pos()),
                fr == digits_val(s, b0, self.pos()),
                fr < pow10(k as int),
            decreases 9 - k,
        {
            let c = self.s.get_char(self.i);
            let d = (c as u32) - 48;
            proof {
                lemma_pow10_mono(k as int, 8);
                reveal_with_fuel(pow10, 12);
                assert(pow10(k as int + 1) == 10 * pow10(k as int));
                assert(digits_val(s, b0, self.pos() + 1) == digits_val(s, b0, self.pos()) * 10
                    + digit_val(s[self.pos()]));
            }
            fr = fr * 10 + (d as u128);
            k += 1;
            self.i += 1;
        }
        let ghost fm = self.pos();
        proof {
            assert(fm == if digits_end(s, b0) > b0 + 9 {
                b0 + 9
            } else {
                digits_end(s, b0)
            });
            assert(fm - b0 == k);
            assert(pow10(0) == 1);
            let dv = digits_val(s, b0, fm);
            assert(dv * 1 == dv) by (nonlinear_arith);
        }
        #[verifier::loop_isolation(false)]
        while k < 9
            invariant
                k <= 9,
                self.pos() == fm,
                fr == digits_val(s, b0, fm) * pow10(k - (fm - b0)),
                fr < pow10(k as int),
                fm - b0 <= k,
            decreases 9 - k,
        {
            proof {
                lemma_pow10_mono(k as int, 8);
                reveal_with_fuel(pow10, 12);
                assert(pow10(k as int + 1) == 10 * pow10(k as int));
                assert(pow10(k + 1 - (fm - b0)) == 10 * pow10(k - (fm - b0)));
                let dv = digits_val(s, b0, fm);
                assert(dv * (10 * pow10(k - (fm - b0))) == (dv * pow10(k - (fm - b0))) * 10)
                    by (nonlinear_arith);
            }
            fr = fr * 10;
            k += 1;
        }
        #[verifier::loop_isolation(false)]
        while self.i < self.n && digit_char(self.s.get_char(self.i))
            invariant
                self.wf(),
                self.same_src(old(self)),
                fm <= self.pos(),
                digits_end(s, b0) == digits_end(s, self.pos()),
            decreases self.n - self.i,
        {
            self.i += 1;
        }
        proof {
            reveal_with_fuel(pow10, 12);
        }
        fr
    }

    /// Parses a number literal: an optionally-signed integer, or a
    /// decimal with a fraction part. The result is a number value;
    /// decimal magnitudes saturate at the number cap.
    pub fn parse_number_literal(&mut self) -> (r: Result<JsonValue, ParseError>)
        requires
            old(self).wf(),
        ensures
            final(self).wf(),
            final(self).same_src(old(self)),
            ({
                let (ov, j) = num_literal_spec(old(self).src(), old(self).pos());
                &&& final(self).pos() == j
                &&& (r is Ok <==> ov is Some)
                &&& (r is Ok ==> r->Ok_0@ == (ValModel::Num { n: ov->0 }))
            }),
    {
        broadcast use lemma_digits_end, lemma_digits_val_bounds;

        let ghost s = old(self).src();
        let ghost i0 = old(self).pos();
        let neg = self.consume_char('-');
        let p = self.i;
        let acc = self.parse_digits_clamped(1_000_000_000_000_000_000_000_000_000u128);
        let ghost e1 = digits_end(s, p as int);
        let ghost dv = digits_val(s, p as int, e1);
        let has_dot = if self.i < self.n {
            self.s.get_char(self.i) == '.'
        } else {
            false
        };
        if !has_dot {
            if self.i == p {
                return Err(ParseError::InvalidSyntax(String::from_str("number expected")));
            }
            if neg {
                if acc <= 9_223_372_036_854_775_808u128 {
                    let v = -(acc as i128);
                    proof {
                        assert((-dv) * 1_000_000_000int == -(dv * 1_000_000_000int));
                    }
                    Ok(JsonValue::Num(v * (1_000_000_000i128)))
                } else {
                    Err(ParseError::InvalidSyntax(String::from_str("bad int")))
                }
            } else {
                if acc <= 9_223_372_036_854_775_807u128 {
                    Ok(JsonValue::Num((acc as i128) * (1_000_000_000i128)))
                } else {
                    Err(ParseError::InvalidSyntax(String::from_str("bad int")))
                }
            }
        } else {
            let had_int = self.i > p;
            let _ = self.consume_char('.');
            let f = self.i;
            let fr = self.parse_frac_nanos();
            let had_frac = self.i > f;
            if !had_int && !had_frac {
                return Err(ParseError::InvalidSyntax(String::from_str("bad float")));
            }
            let mag: u128 = if acc > 1_000_000_000_000_000_000_000_000_000u128 {
                proof {
                    assert(dv * 1_000_000_000int > 1_000_000_000_000_000_000_000_000_000int
                        * 1_000_000_000int) by (nonlinear_arith)
                        requires
                            dv > 1_000_000_000_000_000_000_000_000_000int,
                    ;
                }
                CAP_NANOS
            } else {
                let t = acc * 1_000_000_000u128 + fr;
                if t > CAP_NANOS {
                    CAP_NANOS
                } else {
                    t
                }
            };
            let nanos: i128 = if neg {
                -(mag as i128)
            } else {
                mag as i128
            };
            Ok(JsonValue::Num(nanos))
        }
    }
}

/// Saturation bound for number magnitudes, in nano-units.
pub const CAP_NANOS: u128 = 1_000_000_000_000_000_000_000_000_000_000_000_000;

/// Saturating decimal shift of a nano-unit magnitude: one power of ten
/// per step, saturating at the number cap going up and truncating going
/// down.
pub open spec fn shift_nanos(m: int, e: int) -> int
    decreases
            (if e >= 0 {
                e
            } else {
                -e
            }),
{
    if e == 0 {
        m
    } else if e > 0 {
        shift_nanos(
            if m > num_cap() / 10 {
                num_cap()
            } else {
                m * 10
            },
            e - 1,
        )
    } else {
        shift_nanos(m / 10, e + 1)
    }
}

/// The nano-unit value denoted by a decimal text with an optional sign,
/// fraction, and exponent; `None` when the text is not such a number.
/// Fraction digits beyond the ninth are dropped, magnitudes saturate at
/// the number cap, and exponent magnitudes beyond 100 act as 100.
pub open spec fn sci_nanos(s: Seq<char>) -> Option<int> {
    let p: int = if s.len() > 0 && (s[0] == '+' || s[0] == '-') {
        1
    } else {
        0
    };
    let neg = s.len() > 0 && s[0] == '-';
    let e1 = digits_end(s, p);
    let has_dot = e1 < s.len() && s[e1] == '.';
    let f = if has_dot {
        e1 + 1
    } else {
        e1
    };
    let e2 = if has_dot {
        digits_end(s, f)
    } else {
        e1
    };
    let mant_ok = e1 > p || e2 > f;
    let mag = digits_val(s, p, e1) * 1_000_000_000 + frac_nanos(s, f, e2);
    let base = if mag > num_cap() {
        num_cap()
    } else {
        mag
    };
    let has_exp = e2 < s.len() && (s[e2] == 'e' || s[e2] == 'E');
    if !mant_ok {
        None
    } else if has_exp {
        let q: int = if e2 + 1 < s.len() && (s[e2 + 1] == '+' || s[e2 + 1] == '-') {
            e2 + 2
        } else {
            e2 + 1
        };
        let eneg = e2 + 1 < s.len() && s[e2 + 1] == '-';
        let e3 = digits_end(s, q);
        if e3 == q || e3 != s.len() {
            None
        } else {
            let emag0 = digits_val(s, q, e3);
            let emag = if emag0 > 100 {
                100
            } else {
                emag0
            };
            let m = shift_nanos(
                base,
                if eneg {
                    -emag
                } else {
                    emag
                },
            );
            Some(
                if neg {
                    -m
                } else {
                    m
                },
            )
        }
    } else if e2 != s.len() {
        None
    } else {
        Some(
            if neg {
                -base
            } else {
                base
            },
        )
    }
}

/// Parses a whole string as a decimal number (optional sign, fraction,
/// exponent) and returns its nano-unit value.
#[verifier::rlimit(100)]
#[verifier::spinoff_prover]
pub fn str_to_nanos(t: &str) -> (r: Option<i128>)
    ensures
        match r {
            Some(v) => sci_nanos(t@) == Some(v as int),
            None => sci_nanos(t@) is None,
        },
{
    broadcast use lemma_digits_end, lemma_digits_val_bounds;

    let ghost s = t@;
    let mut p = Parser::new(t);
    let neg = p.consume_char('-');
    if !neg {
        let _ = p.consume_char('+');
    }
    let m0 = p.i;
    let acc = p.parse_digits_clamped(1_000_000_000_000_000_000_000_000_000u128);
    let ghost e1 = p.pos();
    let had_int = p.i > m0;
    let has_dot = if p.i < p.n {
        p.s.get_char(p.i) == '.'
    } else {
        false
    };
    let mut fr: u128 = 0;
    let mut had_frac = false;
    if has_dot {
        let _ = p.consume_char('.');
        let f = p.i;
        fr = p.parse_frac_nanos();
        had_frac = p.i > f;
    }
    if !had_int && !had_frac {
        return None;
    }
    let ghost dv = digits_val(s, m0 as int, e1);
    let base: u128 = if acc > 1_000_000_000_000_000_000_000_000_000u128 {
        proof {
            assert(dv * 1_000_000_000int > 1_000_000_000_000_000_000_000_000_000int
                * 1_000_000_000int) by (nonlinear_arith)
                requires
                    dv > 1_000_000_000_000_000_000_000_000_000int,
            ;
        }
        CAP_NANOS
    } else {
        let u = acc * 1_000_000_000u128 + fr;
        if u > CAP_NANOS {
            CAP_NANOS
        } else {
            u
        }
    };
    proof {
        let sp: int = if s.len() > 0 && (s[0] == '+' || s[0] == '-') {
            1
        } else {
            0
        };
        assert(m0 as int == sp);
        let se1 = digits_end(s, sp);
        assert(e1 == se1);
        let shas_dot = se1 < s.len() && s[se1] == '.';
        assert(has_dot == shas_dot);
        let sf: int = if shas_dot {
            se1 + 1
        } else {
            se1
        };
        let se2: int = if shas_dot {
            digits_end(s, sf)
        } else {
            se1
        };
        let sfr = frac_nanos(s, sf, se2);
        lemma_pow10_pos(9 - (if se2 > sf + 9 {
            sf + 9
        } else {
            se2
        } - sf));
        let fdv = digits_val(s, sf, if se2 > sf + 9 {
            sf + 9
        } else {
            se2
        });
        assert(sfr >= 0) by (nonlinear_arith)
            requires
                sfr == fdv * pow10(9 - (if se2 > sf + 9 {
                    sf + 9
                } else {
                    se2
                } - sf)),
                fdv >= 0,
                pow10(9 - (if se2 > sf + 9 {
                    sf + 9
                } else {
                    se2
                } - sf)) >= 1,
        ;
        if has_dot {
            assert(fr as int == frac_nanos(s, e1 + 1, digits_end(s, e1 + 1)));
            assert(sf == e1 + 1);
            assert(se2 == digits_end(s, e1 + 1));
            assert(fr as int == sfr);
        } else {
            assert(fr == 0);
            lemma_frac_nanos_empty(s, sf);
            assert(fr as int == sfr);
        }
        let smag = digits_val(s, sp, se1) * 1_000_000_000 + sfr;
        let sbase: int = if smag > num_cap() {
            num_cap()
        } else {
            smag
        };
        assert(base as int == sbase);
    }
    let has_exp = if p.i < p.n {
        let c = p.s.get_char(p.i);
        c == 'e' || c == 'E'
    } else {
        false
    };
    if !has_exp {
        if !p.eof() {
            return None;
        }
        let v: i128 = if neg {
            -(base as i128)
        } else {
            base as i128
        };
        return Some(v);
    }
    p.i += 1;
    let eneg = p.consume_char('-');
    if !eneg {
        let _ = p.consume_char('+');
    }
    let q = p.i;
    let eacc = p.parse_digits_clamped(100u128);
    if p.i == q {
        return None;
    }
    if !p.eof() {
        return None;
    }
    let emag: u128 = if eacc > 100 {
        100
    } else {
        eacc
    };
    let ghost etotal: int = if eneg {
        -(emag as int)
    } else {
        emag as int
    };
    let mut m: u128 = base;
    let mut k: u128 = 0;
    #[verifier::loop_isolation(false)]
    while k < emag
        invariant
            k <= emag,
            m <= CAP_NANOS,
            shift_nanos(base as int, etotal) == shift_nanos(
                m as int,
                if eneg {
                    -((emag - k) as int)
                } else {
                    (emag - k) as int
                },
            ),
        decreases emag - k,
    {
        if eneg {
            m = m / 10;
        } else {
            m = if m > CAP_NANOS / 10 {
                CAP_NANOS
            } else {
                m * 10
            };
        }
        k += 1;
    }
    proof {
        assert(shift_nanos(m as int, 0) == m as int);
        assert(shift_nanos(base as int, etotal) == m as int);
    }
    let v: i128 = if neg {
        -(m as i128)
    } else {
        m as i128
    };
    Some(v)
}

/// Appends one character to a string.
///
/// Relies on `String::push`: appends the given `char` to the end of the
/// string.
#[verifier::external_body]
pub(crate) fn push_char(out: &mut String, c: char)
    ensures
        final(out)@ == old(out)@ + seq![c],
{
    out.push(c);
}

} // verus!

