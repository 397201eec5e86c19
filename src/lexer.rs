//! The scanner: turns source text into positioned tokens.
//!
//! Its behaviour is stated as a state machine over a [`Cursor`]: each step
//! reads one driving character from `pos`, possibly scans a longer run, and
//! may emit one token or record one error. Every token is stamped with the
//! line and column reached after its characters were consumed.

use vstd::prelude::*;
use crate::text::{chars_of, decimal, push_char, push_chars, push_decimal, push_str};

verus! {

/// The kind of a token, with its payload. A float literal keeps its text.
#[derive(Debug)]
pub enum TType {
    String(String),
    Number(i32),
    Float(String),
    Ident(String),
    Quote,
    LParen,
    RParen,
    LBracket,
    RBracket,
}

/// A token kind over mathematical values.
pub enum Kind {
    Str(Seq<char>),
    Number(i32),
    Float(Seq<char>),
    Ident(Seq<char>),
    Quote,
    LParen,
    RParen,
    LBracket,
    RBracket,
}

impl TType {
    pub open spec fn view(&self) -> Kind {
        match self {
            TType::String(s) => Kind::Str(s@),
            TType::Number(n) => Kind::Number(*n),
            TType::Float(s) => Kind::Float(s@),
            TType::Ident(s) => Kind::Ident(s@),
            TType::Quote => Kind::Quote,
            TType::LParen => Kind::LParen,
            TType::RParen => Kind::RParen,
            TType::LBracket => Kind::LBracket,
            TType::RBracket => Kind::RBracket,
        }
    }

    /// A human-readable name of the kind.
    pub fn get_type(&self) -> (r: String)
        ensures
            r@ == kind_name(self@),
    {
        let s = match self {
            TType::RBracket => "Closing Bracket",
            TType::LBracket => "Opening Bracket",
            TType::String(_) => "String",
            TType::Number(_) => "Number",
            TType::Float(_) => "Float",
            TType::Ident(_) => "Identifier",
            TType::Quote => "Quote",
            TType::LParen => "Opening Parenthese",
            TType::RParen => "Closing Parenthese",
        };
        String::from_str(s)
    }
}

/// The name under which a token kind is reported.
pub open spec fn kind_name(k: Kind) -> Seq<char> {
    match k {
        Kind::RBracket => "Closing Bracket"@,
        Kind::LBracket => "Opening Bracket"@,
        Kind::Str(_) => "String"@,
        Kind::Number(_) => "Number"@,
        Kind::Float(_) => "Float"@,
        Kind::Ident(_) => "Identifier"@,
        Kind::Quote => "Quote"@,
        Kind::LParen => "Opening Parenthese"@,
        Kind::RParen => "Closing Parenthese"@,
    }
}

/// A token with the line and column reached after it was consumed.
#[derive(Debug)]
pub struct Token {
    pub ttype: TType,
    pub column: usize,
    pub line: usize,
}

/// A token over mathematical values.
pub struct TokenView {
    pub kind: Kind,
    pub line: int,
    pub column: int,
}

impl Token {
    pub open spec fn view(&self) -> TokenView {
        TokenView { kind: self.ttype@, line: self.line as int, column: self.column as int }
    }

    pub fn new(ttype: TType, line: usize, column: usize) -> (r: Self)
        ensures
            r.ttype == ttype,
            r.line == line,
            r.column == column,
    {
        Self { ttype, column, line }
    }

    /// A copy of this token.
    pub fn copy(&self) -> (r: Self)
        ensures
            r@ == self@,
    {
        let ttype = match &self.ttype {
            TType::String(s) => TType::String(s.clone()),
            TType::Number(n) => TType::Number(*n),
            TType::Float(s) => TType::Float(s.clone()),
            TType::Ident(s) => TType::Ident(s.clone()),
            TType::Quote => TType::Quote,
            TType::LParen => TType::LParen,
            TType::RParen => TType::RParen,
            TType::LBracket => TType::LBracket,
            TType::RBracket => TType::RBracket,
        };
        Token { ttype, column: self.column, line: self.line }
    }
}

/// A copy of a token sequence.
fn copy_tokens(v: &Vec<Token>) -> (r: Vec<Token>)
    ensures
        r@.map_values(|t: Token| t@) == v@.map_values(|t: Token| t@),
{
    let mut r: Vec<Token> = Vec::new();
    let mut i: usize = 0;
    while i < v.len()
        invariant
            i <= v@.len(),
            r@.len() == i,
            r@.map_values(|t: Token| t@) == v@.subrange(0, i as int).map_values(|t: Token| t@),
        decreases v@.len() - i,
    {
        let ghost before = r@;
        r.push(v[i].copy());
        proof {
            let sub = v@.subrange(0, i + 1);
            assert forall|j: int| 0 <= j < i + 1 implies r@[j]@ == (#[trigger] sub[j])@ by {
                if j < i {
                    assert(before.map_values(|t: Token| t@)[j] == v@.subrange(0, i as int).map_values(|t: Token| t@)[j]);
                }
            }
            assert(r@.map_values(|t: Token| t@) =~= sub.map_values(|t: Token| t@));
        }
        i += 1;
    }
    assert(v@.subrange(0, i as int) =~= v@);
    r
}

/// A position in the text with the line and column counters.
pub struct Cursor {
    pub pos: int,
    pub line: int,
    pub column: int,
}

/// Consumes one character.
pub open spec fn adv(c: Cursor) -> Cursor {
    Cursor { pos: c.pos + 1, line: c.line, column: c.column + 1 }
}

pub open spec fn is_digit(c: char) -> bool {
    '0' <= c <= '9'
}

/// The characters that end an identifier.
pub open spec fn ends_ident(c: char) -> bool {
    c == '(' || c == ')' || c == ' '
}

/// Consumes characters up to an identifier boundary or the end.
pub open spec fn skip_ident(s: Seq<char>, c: Cursor) -> Cursor
    decreases s.len() - c.pos,
{
    if c.pos < 0 || c.pos >= s.len() || ends_ident(s[c.pos]) {
        c
    } else {
        skip_ident(s, adv(c))
    }
}

/// Consumes a maximal run of decimal digits.
pub open spec fn skip_digits(s: Seq<char>, c: Cursor) -> Cursor
    decreases s.len() - c.pos,
{
    if c.pos < 0 || c.pos >= s.len() || !is_digit(s[c.pos]) {
        c
    } else {
        skip_digits(s, adv(c))
    }
}

/// Consumes digits, then at most one `.`, then digits.
pub open spec fn skip_number(s: Seq<char>, c: Cursor) -> Cursor {
    let a = skip_digits(s, c);
    let b = if 0 <= a.pos < s.len() && s[a.pos] == '.' { adv(a) } else { a };
    skip_digits(s, b)
}

/// Consumes characters up to a newline (left in place) or the end.
pub open spec fn skip_comment(s: Seq<char>, c: Cursor) -> Cursor
    decreases s.len() - c.pos,
{
    if c.pos < 0 || c.pos >= s.len() || s[c.pos] == '\n' {
        c
    } else {
        skip_comment(s, adv(c))
    }
}

/// Whether the string body ends at `pos`: a `"` not preceded by `\`.
pub open spec fn closes_string(s: Seq<char>, pos: int) -> bool {
    1 <= pos < s.len() && s[pos] == '"' && s[pos - 1] != '\\'
}

/// Consumes a string body up to its closing quote (left in place) or the
/// end; a newline in it counts a line and resets the column.
pub open spec fn skip_string(s: Seq<char>, c: Cursor) -> Cursor
    decreases s.len() - c.pos,
{
    if c.pos < 1 || c.pos >= s.len() || closes_string(s, c.pos) {
        c
    } else {
        let d = if s[c.pos] == '\n' { Cursor { pos: c.pos, line: c.line + 1, column: 0 } } else { c };
        skip_string(s, adv(d))
    }
}

/// The text with every `\"` replaced by `"`, left to right.
pub open spec fn unescape(t: Seq<char>) -> Seq<char>
    decreases t.len(),
{
    if t.len() == 0 {
        t
    } else if t.len() >= 2 && t[0] == '\\' && t[1] == '"' {
        seq!['"'] + unescape(t.subrange(2, t.len() as int))
    } else {
        seq![t[0]] + unescape(t.subrange(1, t.len() as int))
    }
}

/// The value of a run of decimal digits.
pub open spec fn digits_value(t: Seq<char>) -> int
    decreases t.len(),
{
    if t.len() == 0 {
        0
    } else {
        digits_value(t.drop_last()) * 10 + (t.last() as int - '0' as int)
    }
}

pub open spec fn all_digits(t: Seq<char>) -> bool {
    forall|i: int| 0 <= i < t.len() ==> is_digit(#[trigger] t[i])
}

/// A numeric literal is a `Number` when it is a run of digits whose value
/// fits in an `i32`, and a `Float` holding its text otherwise.
pub open spec fn number_kind(t: Seq<char>) -> Kind {
    if all_digits(t) && digits_value(t) <= i32::MAX {
        Kind::Number(digits_value(t) as i32)
    } else {
        Kind::Float(t)
    }
}

pub open spec fn stamp(k: Kind, c: Cursor) -> TokenView {
    TokenView { kind: k, line: c.line, column: c.column }
}

/// What one step of the scanner yields.
pub struct Step {
    pub next: Cursor,
    pub token: Option<TokenView>,
    /// The position of an unterminated string.
    pub error: Option<(int, int)>,
}

pub open spec fn emit(c: Cursor, k: Kind) -> Step {
    Step { next: c, token: Some(stamp(k, c)), error: None }
}

pub open spec fn discard(c: Cursor) -> Step {
    Step { next: c, token: None, error: None }
}

/// One step of the scanner from `c`, which is not at the end.
pub open spec fn step(s: Seq<char>, c: Cursor) -> Step {
    let ch = s[c.pos];
    let a = adv(c);
    if ch == '(' {
        emit(a, Kind::LParen)
    } else if ch == ')' {
        emit(a, Kind::RParen)
    } else if ch == '[' {
        emit(a, Kind::LBracket)
    } else if ch == ']' {
        emit(a, Kind::RBracket)
    } else if ch == '"' {
        let e = skip_string(s, a);
        if e.pos >= s.len() {
            Step { next: e, token: None, error: Some((e.line, e.column)) }
        } else {
            let f = adv(e);
            emit(f, Kind::Str(unescape(s.subrange(c.pos + 1, e.pos))))
        }
    } else if ch == ';' {
        discard(skip_comment(s, a))
    } else if ch == ' ' || ch == '\t' || ch == '\r' {
        discard(a)
    } else if ch == '\n' {
        discard(Cursor { pos: a.pos, line: a.line + 1, column: 0 })
    } else if ch == '\'' {
        emit(a, Kind::Quote)
    } else if is_digit(ch) {
        let e = skip_number(s, a);
        emit(e, number_kind(s.subrange(c.pos, e.pos)))
    } else {
        let e = skip_ident(s, a);
        emit(e, Kind::Ident(s.subrange(c.pos, e.pos)))
    }
}

pub open spec fn opt_seq<T>(o: Option<T>) -> Seq<T> {
    match o {
        Some(x) => seq![x],
        None => Seq::empty(),
    }
}

/// The tokens and the error positions of scanning from `c` to the end.
pub open spec fn scan_from(s: Seq<char>, c: Cursor) -> (Seq<TokenView>, Seq<(int, int)>)
    decreases s.len() - c.pos,
{
    if c.pos < 0 || c.pos >= s.len() {
        (Seq::empty(), Seq::empty())
    } else {
        let st = step(s, c);
        if st.next.pos <= c.pos || st.next.pos > s.len() {
            (Seq::empty(), Seq::empty())
        } else {
            let rest = scan_from(s, st.next);
            (opt_seq(st.token) + rest.0, opt_seq(st.error) + rest.1)
        }
    }
}

/// The positions reached after each step of a scan from `c`: the text from
/// `c.pos` is cut into the pieces between consecutive positions.
pub open spec fn boundaries(s: Seq<char>, c: Cursor) -> Seq<int>
    decreases s.len() - c.pos,
{
    if c.pos < 0 || c.pos >= s.len() {
        Seq::empty()
    } else {
        let st = step(s, c);
        if st.next.pos <= c.pos || st.next.pos > s.len() {
            Seq::empty()
        } else {
            seq![st.next.pos] + boundaries(s, st.next)
        }
    }
}

proof fn lemma_skip_ident_bounds(s: Seq<char>, c: Cursor)
    requires
        0 <= c.pos <= s.len(),
    ensures
        c.pos <= skip_ident(s, c).pos <= s.len(),
    decreases s.len() - c.pos,
{
    if c.pos < s.len() && !ends_ident(s[c.pos]) {
        lemma_skip_ident_bounds(s, adv(c));
    }
}

proof fn lemma_skip_digits_bounds(s: Seq<char>, c: Cursor)
    requires
        0 <= c.pos <= s.len(),
    ensures
        c.pos <= skip_digits(s, c).pos <= s.len(),
    decreases s.len() - c.pos,
{
    if c.pos < s.len() && is_digit(s[c.pos]) {
        lemma_skip_digits_bounds(s, adv(c));
    }
}

proof fn lemma_skip_comment_bounds(s: Seq<char>, c: Cursor)
    requires
        0 <= c.pos <= s.len(),
    ensures
        c.pos <= skip_comment(s, c).pos <= s.len(),
    decreases s.len() - c.pos,
{
    if c.pos < s.len() && s[c.pos] != '\n' {
        lemma_skip_comment_bounds(s, adv(c));
    }
}

proof fn lemma_skip_string_bounds(s: Seq<char>, c: Cursor)
    requires
        1 <= c.pos <= s.len(),
    ensures
        c.pos <= skip_string(s, c).pos <= s.len(),
    decreases s.len() - c.pos,
{
    if c.pos < s.len() && !closes_string(s, c.pos) {
        let d = if s[c.pos] == '\n' { Cursor { pos: c.pos, line: c.line + 1, column: 0 } } else { c };
        lemma_skip_string_bounds(s, adv(d));
    }
}

/// Every step of the scanner consumes at least one character and stays
/// within the text.
pub proof fn lemma_step_progress(s: Seq<char>, c: Cursor)
    requires
        0 <= c.pos < s.len(),
    ensures
        c.pos < step(s, c).next.pos <= s.len(),
{
    let a = adv(c);
    lemma_skip_ident_bounds(s, a);
    lemma_skip_comment_bounds(s, a);
    lemma_skip_string_bounds(s, a);
    lemma_skip_digits_bounds(s, a);
    let d = skip_digits(s, a);
    let b = if 0 <= d.pos < s.len() && s[d.pos] == '.' { adv(d) } else { d };
    lemma_skip_digits_bounds(s, b);
}

proof fn lemma_boundaries_from(s: Seq<char>, c: Cursor)
    requires
        0 <= c.pos <= s.len(),
    ensures
        ({
            let b = boundaries(s, c);
            &&& (b.len() == 0 <==> c.pos == s.len())
            &&& b.len() > 0 ==> b.last() == s.len()
            &&& forall|i: int| 0 <= i < b.len() ==> c.pos < #[trigger] b[i] <= s.len()
            &&& forall|i: int| 0 <= i < b.len() - 1 ==> #[trigger] b[i] < b[i + 1]
            &&& scan_from(s, c).0.len() + scan_from(s, c).1.len() <= b.len()
        }),
    decreases s.len() - c.pos,
{
    if c.pos < s.len() {
        lemma_step_progress(s, c);
        let st = step(s, c);
        lemma_boundaries_from(s, st.next);
        let rest = boundaries(s, st.next);
        let b = boundaries(s, c);
        assert(b == seq![st.next.pos] + rest);
        assert forall|i: int| 0 <= i < b.len() implies c.pos < #[trigger] b[i] <= s.len() by {
            if i > 0 {
                assert(b[i] == rest[i - 1]);
            }
        }
        assert forall|i: int| 0 <= i < b.len() - 1 implies #[trigger] b[i] < b[i + 1] by {
            assert(b[i + 1] == rest[i]);
            if i > 0 {
                assert(b[i] == rest[i - 1]);
            }
        }
        if rest.len() > 0 {
            assert(b.last() == rest.last());
        }
        assert(opt_seq(st.token).len() + opt_seq(st.error).len() <= 1);
    }
}

/// A scan cuts the whole text into consecutive, non-empty pieces, from the
/// first character to the last, and each piece yields at most one token or
/// one error: every character lies in exactly one token, discarded span or
/// unterminated string.
pub proof fn lemma_scan_partitions(s: Seq<char>)
    ensures
        ({
            let b = boundaries(s, start_cursor());
            let (ts, es) = scan_from(s, start_cursor());
            &&& (b.len() == 0 <==> s.len() == 0)
            &&& b.len() > 0 ==> b[0] > 0 && b.last() == s.len()
            &&& forall|i: int| 0 <= i < b.len() - 1 ==> #[trigger] b[i] < b[i + 1]
            &&& ts.len() + es.len() <= b.len()
        }),
{
    lemma_boundaries_from(s, start_cursor());
}

/// Where a scan of a whole text starts.
pub open spec fn start_cursor() -> Cursor {
    Cursor { pos: 0, line: 1, column: 0 }
}

/// The message of an unterminated string at a position.
pub open spec fn unterminated_message(p: (int, int)) -> Seq<char> {
    decimal(p.0 as nat) + ":"@ + decimal(p.1 as nat) + " | Unterminated String."@
}

/// Whether `c` ends an identifier.
fn ends_ident_char(c: char) -> (r: bool)
    ensures
        r == ends_ident(c),
{
    c == '(' || c == ')' || c == ' '
}

fn is_digit_char(c: char) -> (r: bool)
    ensures
        r == is_digit(c),
{
    '0' <= c && c <= '9'
}

proof fn lemma_digits_value_grows(u: Seq<char>, k: int)
    requires
        all_digits(u),
        0 <= k <= u.len(),
    ensures
        0 <= digits_value(u.subrange(0, k)) <= digits_value(u),
    decreases u.len(),
{
    if u.len() > 0 {
        let d = u.drop_last();
        assert(all_digits(d)) by {
            assert forall|i: int| 0 <= i < d.len() implies is_digit(#[trigger] d[i]) by {
                assert(d[i] == u[i]);
            }
        }
        assert(is_digit(u[u.len() - 1]));
        if k == u.len() {
            assert(u.subrange(0, k) =~= u);
            lemma_digits_value_grows(d, d.len() as int);
            assert(d.subrange(0, d.len() as int) =~= d);
        } else {
            lemma_digits_value_grows(d, k);
            assert(d.subrange(0, k) =~= u.subrange(0, k));
            lemma_digits_value_grows(d, d.len() as int);
            assert(d.subrange(0, d.len() as int) =~= d);
        }
    } else {
        assert(u.subrange(0, k) =~= u);
    }
}

/// Reads `cs[from..to]` as a decimal `i32`: `None` unless it is a run of
/// digits whose value fits.
fn parse_i32(cs: &Vec<char>, from: usize, to: usize) -> (r: Option<i32>)
    requires
        from <= to <= cs@.len(),
    ensures
        ({
            let t = cs@.subrange(from as int, to as int);
            r == if all_digits(t) && digits_value(t) <= i32::MAX {
                Some(digits_value(t) as i32)
            } else {
                None::<i32>
            }
        }),
{
    let ghost t = cs@.subrange(from as int, to as int);
    let mut acc: i64 = 0;
    let mut i: usize = from;
    while i < to
        invariant
            from <= i <= to <= cs@.len(),
            t == cs@.subrange(from as int, to as int),
            all_digits(cs@.subrange(from as int, i as int)),
            acc == digits_value(cs@.subrange(from as int, i as int)),
            0 <= acc <= i32::MAX,
        decreases to - i,
    {
        let ghost p = cs@.subrange(from as int, i as int);
        let ghost q = cs@.subrange(from as int, i + 1);
        assert(q.drop_last() =~= p);
        assert(q[i - from] == cs@[i as int]);
        let c = cs[i];
        if !is_digit_char(c) {
            assert(t[i - from] == c);
            return None;
        }
        acc = acc * 10 + (c as u32 - '0' as u32) as i64;
        assert(all_digits(q)) by {
            assert forall|j: int| 0 <= j < q.len() implies is_digit(#[trigger] q[j]) by {
                if j < p.len() {
                    assert(q[j] == p[j]);
                }
            }
        }
        if acc > 2147483647 {
            proof {
                if all_digits(t) {
                    lemma_digits_value_grows(t, i + 1 - from);
                    assert(t.subrange(0, i + 1 - from) =~= q);
                }
            }
            return None;
        }
        i += 1;
    }
    assert(cs@.subrange(from as int, i as int) =~= t);
    Some(acc as i32)
}

/// The characters `cs[from..to]` with every `\"` replaced by `"`.
fn unescape_range(cs: &Vec<char>, from: usize, to: usize) -> (r: String)
    requires
        from <= to <= cs@.len(),
    ensures
        r@ == unescape(cs@.subrange(from as int, to as int)),
{
    let mut out = String::new();
    let mut i: usize = from;
    while i < to
        invariant
            from <= i <= to <= cs@.len(),
            out@ + unescape(cs@.subrange(i as int, to as int)) == unescape(cs@.subrange(from as int, to as int)),
        decreases to - i,
    {
        let ghost t = cs@.subrange(i as int, to as int);
        if i + 1 < to && cs[i] == '\\' && cs[i + 1] == '"' {
            assert(t.subrange(2, t.len() as int) =~= cs@.subrange(i + 2, to as int));
            assert(out@.push('"') + unescape(cs@.subrange(i + 2, to as int)) =~= out@ + unescape(t));
            push_char(&mut out, '"');
            i += 2;
        } else {
            assert(t.subrange(1, t.len() as int) =~= cs@.subrange(i + 1, to as int));
            assert(out@.push(cs@[i as int]) + unescape(cs@.subrange(i + 1, to as int)) =~= out@ + unescape(t));
            push_char(&mut out, cs[i]);
            i += 1;
        }
    }
    assert(unescape(cs@.subrange(i as int, to as int)) =~= Seq::<char>::empty());
    assert(out@ + Seq::<char>::empty() =~= out@);
    out
}

/// The scanner's state over one text.
pub struct Lexer {
    input: Vec<char>,
    output: Vec<Token>,
    column: usize,
    line: usize,
    current: usize,
    start: usize,
}

impl Lexer {
    /// The text being scanned.
    pub closed spec fn text(&self) -> Seq<char> {
        self.input@
    }

    /// Where the scanner stands.
    pub closed spec fn cursor(&self) -> Cursor {
        Cursor { pos: self.current as int, line: self.line as int, column: self.column as int }
    }

    /// The tokens emitted so far.
    pub closed spec fn tokens(&self) -> Seq<TokenView> {
        self.output@.map_values(|t: Token| t@)
    }

    spec fn inner(&self) -> bool {
        &&& self.input@.len() < usize::MAX
        &&& self.start <= self.current <= self.input@.len()
        &&& 1 <= self.line <= self.current + 1
        &&& self.column <= self.current
    }

    /// The scanner stands between two tokens.
    pub closed spec fn wf(&self) -> bool {
        self.inner() && self.start == self.current
    }

    pub fn new(input: &str) -> (r: Self)
        requires
            input@.len() < usize::MAX,
        ensures
            r.wf(),
            r.text() == input@,
            r.cursor() == start_cursor(),
            r.tokens() == Seq::<TokenView>::empty(),
    {
        let r = Self { input: chars_of(input), output: Vec::new(), column: 0, line: 1, current: 0, start: 0 };
        assert(r.tokens() =~= Seq::<TokenView>::empty());
        r
    }

    fn advance(&mut self) -> (c: char)
        requires
            old(self).input@.len() < usize::MAX,
            old(self).start <= old(self).current < old(self).input@.len(),
            1 <= old(self).line <= old(self).current + 2,
            old(self).column <= old(self).current,
        ensures
            final(self).inner(),
            final(self).cursor() == adv(old(self).cursor()),
            final(self).input@ == old(self).input@,
            final(self).current >= old(self).current,
            final(self).output == old(self).output,
            final(self).start == old(self).start,
            c == old(self).input@[old(self).current as int],
    {
        self.current += 1;
        self.column += 1;
        self.input[self.current - 1]
    }

    fn is_at_end(&self) -> (r: bool)
        ensures
            r == (self.current >= self.input@.len()),
    {
        self.current >= self.input.len()
    }

    fn peek(&self) -> (c: char)
        requires
            self.current < self.input@.len(),
        ensures
            c == self.input@[self.current as int],
    {
        self.input[self.current]
    }

    fn add_token(&mut self, ttype: TType)
        ensures
            final(self).tokens() == old(self).tokens().push(stamp(ttype@, old(self).cursor())),
            final(self).input@ == old(self).input@,
            final(self).current >= old(self).current,
            final(self).cursor() == old(self).cursor(),
            final(self).start == old(self).start,
    {
        let ghost k = ttype@;
        self.output.push(Token::new(ttype, self.line, self.column));
        assert(self.tokens() =~= old(self).tokens().push(stamp(k, old(self).cursor())));
    }

    fn identifier(&mut self)
        requires
            old(self).inner(),
            old(self).start < old(self).current,
        ensures
            final(self).inner(),
            final(self).input@ == old(self).input@,
            final(self).current >= old(self).current,
            final(self).start == old(self).start,
            final(self).cursor() == skip_ident(old(self).text(), old(self).cursor()),
            final(self).tokens() == old(self).tokens().push(
                stamp(Kind::Ident(old(self).text().subrange(old(self).start as int, final(self).current as int)), final(self).cursor()),
            ),
    {
        let ghost s = self.input@;
        let ghost c0 = self.cursor();
        while !self.is_at_end() && !ends_ident_char(self.peek())
            invariant
                self.inner(),
                self.input@ == s,
                self.output == old(self).output,
                self.start == old(self).start,
                self.current >= old(self).current,
                skip_ident(s, self.cursor()) == skip_ident(s, c0),
            decreases s.len() - self.current,
        {
            self.advance();
        }
        let mut text = String::new();
        push_chars(&mut text, &self.input, self.start, self.current);
        assert(text@ =~= s.subrange(self.start as int, self.current as int));
        self.add_token(TType::Ident(text));
    }

    fn skip_digit_run(&mut self)
        requires
            old(self).inner(),
        ensures
            final(self).inner(),
            final(self).input@ == old(self).input@,
            final(self).current >= old(self).current,
            final(self).output == old(self).output,
            final(self).start == old(self).start,
            final(self).cursor() == skip_digits(old(self).text(), old(self).cursor()),
    {
        let ghost s = self.input@;
        let ghost c0 = self.cursor();
        while !self.is_at_end() && is_digit_char(self.peek())
            invariant
                self.inner(),
                self.input@ == s,
                self.output == old(self).output,
                self.start == old(self).start,
                self.current >= old(self).current,
                skip_digits(s, self.cursor()) == skip_digits(s, c0),
            decreases s.len() - self.current,
        {
            self.advance();
        }
    }

    fn number(&mut self)
        requires
            old(self).inner(),
            old(self).start < old(self).current,
        ensures
            final(self).inner(),
            final(self).input@ == old(self).input@,
            final(self).current >= old(self).current,
            final(self).start == old(self).start,
            final(self).cursor() == skip_number(old(self).text(), old(self).cursor()),
            final(self).tokens() == old(self).tokens().push(
                stamp(number_kind(old(self).text().subrange(old(self).start as int, final(self).current as int)), final(self).cursor()),
            ),
    {
        self.skip_digit_run();
        if !self.is_at_end() && self.peek() == '.' {
            self.advance();
        }
        self.skip_digit_run();
        let ghost t = self.input@.subrange(self.start as int, self.current as int);
        match parse_i32(&self.input, self.start, self.current) {
            Some(z) => self.add_token(TType::Number(z)),
            None => {
                let mut text = String::new();
                push_chars(&mut text, &self.input, self.start, self.current);
                assert(text@ =~= t);
                self.add_token(TType::Float(text));
            },
        }
    }

    fn string(&mut self) -> (r: Result<(), String>)
        requires
            old(self).inner(),
            old(self).start + 1 == old(self).current,
        ensures
            final(self).inner(),
            final(self).input@ == old(self).input@,
            final(self).current >= old(self).current,
            final(self).start == old(self).start,
            ({
                let s = old(self).text();
                let e = skip_string(s, old(self).cursor());
                if e.pos >= s.len() {
                    &&& final(self).cursor() == e
                    &&& final(self).tokens() == old(self).tokens()
                    &&& r matches Err(m) && m@ == unterminated_message((e.line, e.column))
                } else {
                    &&& final(self).cursor() == adv(e)
                    &&& final(self).tokens() == old(self).tokens().push(
                        stamp(Kind::Str(unescape(s.subrange(old(self).start + 1, e.pos))), adv(e)),
                    )
                    &&& r is Ok
                }
            }),
    {
        let ghost s = self.input@;
        let ghost c0 = self.cursor();
        while !self.is_at_end() && !(self.peek() == '"' && self.input[self.current - 1] != '\\')
            invariant
                self.inner(),
                self.current >= 1,
                self.input@ == s,
                self.output == old(self).output,
                self.start == old(self).start,
                self.current >= old(self).current,
                skip_string(s, self.cursor()) == skip_string(s, c0),
            decreases s.len() - self.current,
        {
            if self.peek() == '\n' {
                self.line += 1;
                self.column = 0;
            }
            self.advance();
        }
        if self.is_at_end() {
            let mut m = String::new();
            push_decimal(&mut m, self.line);
            push_str(&mut m, ":");
            push_decimal(&mut m, self.column);
            push_str(&mut m, " | Unterminated String.");
            return Err(m);
        }
        let end = self.current;
        self.advance();
        let text = unescape_range(&self.input, self.start + 1, end);
        self.add_token(TType::String(text));
        Ok(())
    }

    fn proc_token(&mut self) -> (r: Result<(), String>)
        requires
            old(self).wf(),
            old(self).current < old(self).input@.len(),
        ensures
            final(self).inner(),
            final(self).input@ == old(self).input@,
            final(self).current >= old(self).current,
            final(self).start == old(self).start,
            final(self).current > old(self).current,
            ({
                let st = step(old(self).text(), old(self).cursor());
                &&& final(self).cursor() == st.next
                &&& final(self).tokens() == old(self).tokens() + opt_seq(st.token)
                &&& match st.error {
                    Some(p) => r matches Err(m) && m@ == unterminated_message(p),
                    None => r is Ok,
                }
            }),
    {
        let c = self.advance();
        let ghost t0 = old(self).tokens();
        match c {
            '(' => self.add_token(TType::LParen),
            ')' => self.add_token(TType::RParen),
            '[' => self.add_token(TType::LBracket),
            ']' => self.add_token(TType::RBracket),
            '"' => {
                let r = self.string();
                if r.is_err() {
                    assert(self.tokens() =~= t0 + Seq::<TokenView>::empty());
                    return r;
                }
            },
            ';' => {
                let ghost s = self.input@;
                let ghost c0 = self.cursor();
                while !self.is_at_end() && self.peek() != '\n'
                    invariant
                        self.inner(),
                        self.input@ == s,
                        self.output == old(self).output,
                        self.start == old(self).start,
                        self.current >= old(self).current,
                        skip_comment(s, self.cursor()) == skip_comment(s, c0),
                    decreases s.len() - self.current,
                {
                    self.advance();
                }
            },
            ' ' | '\t' | '\r' => {},
            '\n' => {
                self.line += 1;
                self.column = 0;
            },
            '\'' => self.add_token(TType::Quote),
            _ => {
                if is_digit_char(c) {
                    self.number();
                } else {
                    self.identifier();
                }
            },
        }
        assert(self.tokens() =~= t0 + opt_seq(step(old(self).text(), old(self).cursor()).token));
        Ok(())
    }

    /// Scans the rest of the text. On success the result holds every token
    /// emitted so far; otherwise it holds one message for each unterminated
    /// string, in order.
    pub fn proc_tokens(&mut self) -> (r: Result<Vec<Token>, Vec<String>>)
        requires
            old(self).wf(),
        ensures
            final(self).wf(),
            final(self).text() == old(self).text(),
            final(self).cursor().pos == old(self).text().len(),
            final(self).tokens() == old(self).tokens() + scan_from(old(self).text(), old(self).cursor()).0,
            ({
                let (ts, es) = scan_from(old(self).text(), old(self).cursor());
                match r {
                    Ok(v) => es.len() == 0 && v@.map_values(|t: Token| t@) == old(self).tokens() + ts,
                    Err(m) => es.len() > 0 && m@.map_values(|x: String| x@) == es.map_values(
                        |p: (int, int)| unterminated_message(p),
                    ),
                }
            }),
    {
        let ghost s = self.input@;
        let ghost c0 = self.cursor();
        let ghost t0 = self.tokens();
        let mut errors: Vec<String> = Vec::new();
        while !self.is_at_end()
            invariant
                self.wf(),
                self.input@ == s,
                ({
                    let all = scan_from(s, c0);
                    let rest = scan_from(s, self.cursor());
                    &&& self.tokens() + rest.0 == t0 + all.0
                    &&& errors@.map_values(|x: String| x@) + rest.1.map_values(
                        |p: (int, int)| unterminated_message(p),
                    ) == all.1.map_values(|p: (int, int)| unterminated_message(p))
                    &&& (errors@.len() == 0 <==> all.1.len() == rest.1.len())
                }),
            decreases s.len() - self.current,
        {
            let ghost cur = self.cursor();
            let ghost t1 = self.tokens();
            let ghost e1 = errors@.map_values(|x: String| x@);
            let ghost st = step(s, cur);
            let ghost rest = scan_from(s, st.next);
            let ghost msg = |p: (int, int)| unterminated_message(p);
            match self.proc_token() {
                Ok(_) => {},
                Err(e) => errors.push(e),
            }
            self.start = self.current;
            assert(scan_from(s, cur) == (opt_seq(st.token) + rest.0, opt_seq(st.error) + rest.1));
            assert(t1 + (opt_seq(st.token) + rest.0) =~= self.tokens() + rest.0);
            assert((opt_seq(st.error) + rest.1).map_values(msg) =~= opt_seq(st.error).map_values(msg) + rest.1.map_values(msg));
            assert(errors@.map_values(|x: String| x@) =~= e1 + opt_seq(st.error).map_values(msg));
        }
        let ghost all = scan_from(s, c0);
        assert(self.tokens() =~= t0 + all.0);
        assert(errors@.map_values(|x: String| x@) =~= all.1.map_values(|p: (int, int)| unterminated_message(p)));
        if errors.len() == 0 {
            Ok(copy_tokens(&self.output))
        } else {
            Err(errors)
        }
    }
}

/// Scans a whole text: its tokens, or one message per unterminated string.
pub fn scan(input: &str) -> (r: Result<Vec<Token>, Vec<String>>)
    requires
        input@.len() < usize::MAX,
    ensures
        ({
            let (ts, es) = scan_from(input@, start_cursor());
            match r {
                Ok(v) => es.len() == 0 && v@.map_values(|t: Token| t@) == ts,
                Err(m) => es.len() > 0 && m@.map_values(|x: String| x@) == es.map_values(
                    |p: (int, int)| unterminated_message(p),
                ),
            }
        }),
{
    let mut lexer = Lexer::new(input);
    let r = lexer.proc_tokens();
    proof {
        let (ts, es) = scan_from(input@, start_cursor());
        assert(Seq::<TokenView>::empty() + ts =~= ts);
    }
    r
}

} // verus!
