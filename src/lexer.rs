//! The lexer: a cursor over the characters of one line, producing one token per call.
use vstd::prelude::*;
use crate::error::RispError;
use crate::number::{Number, make_spec};
use crate::text::{chars_of, push_char, single};
use crate::token::{Token, TokenView};

verus! {

/// The character at `i`, or `'\0'` past the end of the input.
pub open spec fn char_at(s: Seq<char>, i: int) -> char {
    if 0 <= i < s.len() { s[i] } else { '\0' }
}

/// Unicode white space, as `char::is_whitespace` documents it.
pub open spec fn is_space(c: char) -> bool {
    ('\t' <= c && c <= '\r') || c == ' ' || c == '\u{85}' || c == '\u{a0}' || c == '\u{1680}'
        || ('\u{2000}' <= c && c <= '\u{200a}') || c == '\u{2028}' || c == '\u{2029}'
        || c == '\u{202f}' || c == '\u{205f}' || c == '\u{3000}'
}

pub open spec fn is_digit(c: char) -> bool {
    '0' <= c && c <= '9'
}

pub open spec fn is_letter(c: char) -> bool {
    ('a' <= c && c <= 'z') || ('A' <= c && c <= 'Z')
}

/// The upper-case form of an ASCII letter; other characters are kept.
pub open spec fn upper(c: char) -> char {
    if 'a' <= c && c <= 'z' { ((c as u32 - 32) as u8) as char } else { c }
}

pub open spec fn upper_seq(t: Seq<char>) -> Seq<char> {
    t.map_values(|c: char| upper(c))
}

/// The first position at or after `i` that does not hold white space.
pub open spec fn skip_space(s: Seq<char>, i: int) -> int
    decreases s.len() - i,
{
    if 0 <= i < s.len() && is_space(s[i]) { skip_space(s, i + 1) } else { i }
}

/// The last position of the run of letters that starts at `i`.
pub open spec fn letters_last(s: Seq<char>, i: int) -> int
    decreases s.len() - i,
{
    if 0 <= i && i + 1 < s.len() && is_letter(s[i + 1]) { letters_last(s, i + 1) } else { i }
}

/// The last position of the numeral that starts at `i`: digits and dots follow its first character.
pub open spec fn numeral_last(s: Seq<char>, i: int) -> int
    decreases s.len() - i,
{
    if 0 <= i && i + 1 < s.len() && (is_digit(s[i + 1]) || s[i + 1] == '.') {
        numeral_last(s, i + 1)
    } else {
        i
    }
}

/// The last character of a string's contents that starts at `i`: the one before the closing
/// quote; `None` when the input ends first.
pub open spec fn string_last(s: Seq<char>, i: int) -> Option<int>
    decreases s.len() - i,
{
    if i < 0 || i >= s.len() {
        None
    } else if char_at(s, i + 1) == '"' {
        Some(i)
    } else {
        string_last(s, i + 1)
    }
}

pub open spec fn digit_value(c: char) -> int {
    c as u32 - '0' as u32
}

/// Reads digits and at most one dot of `t` from `i` on, with `n / d` read so far: the magnitude
/// and the scale of the whole numeral, or `None` on a second dot or a part beyond 64 bits.
pub open spec fn numeral_from(t: Seq<char>, i: int, n: int, d: int, dot: bool) -> Option<(int, int)>
    decreases t.len() - i,
{
    if i < 0 || i >= t.len() {
        Some((n, d))
    } else if t[i] == '.' {
        if dot { None } else { numeral_from(t, i + 1, n, d, true) }
    } else if !is_digit(t[i]) {
        None
    } else {
        let n2 = n * 10 + digit_value(t[i]);
        let d2 = if dot { d * 10 } else { d };
        if n2 > i64::MAX || d2 > i64::MAX { None } else { numeral_from(t, i + 1, n2, d2, dot) }
    }
}

/// The number that a numeral denotes: an optional sign, a digit, then digits and at most
/// one dot.
pub open spec fn numeral_value(t: Seq<char>) -> Option<Number> {
    let signed = t.len() > 0 && (t[0] == '+' || t[0] == '-');
    let start: int = if signed { 1 } else { 0 };
    if start >= t.len() || !is_digit(t[start]) {
        None
    } else {
        match numeral_from(t, start, 0, 1, false) {
            None => None,
            Some((n, d)) => make_spec(if t[0] == '-' { -n } else { n }, d),
        }
    }
}

/// Why a token could not be scanned.
pub enum LexFault {
    /// A numeral that denotes no number, with its text.
    Numeral(Seq<char>),
    /// A string without its closing quote.
    Unterminated,
}

/// Scans the numeral at `j`: the token and the position of its last character.
pub open spec fn scan_number(s: Seq<char>, j: int) -> (Result<TokenView, LexFault>, int) {
    let e = numeral_last(s, j);
    match numeral_value(s.subrange(j, e + 1)) {
        Some(n) => (Ok(TokenView::Number(n)), e),
        None => (Err(LexFault::Numeral(s.subrange(j, e + 1))), e),
    }
}

/// Scans the literal at `j`: the token and the position of its last character.
pub open spec fn scan_literal(s: Seq<char>, j: int) -> (TokenView, int) {
    if s[j] == 't' && char_at(s, j + 1) == '\0' {
        (TokenView::True, j)
    } else {
        let e = letters_last(s, j);
        let t = upper_seq(s.subrange(j, e + 1));
        if t == seq!['N', 'I', 'L'] {
            (TokenView::Nil, e)
        } else {
            (TokenView::Literal(t), e)
        }
    }
}

/// Scans the string whose opening quote is at `j`: the token and the position of its
/// closing quote.
pub open spec fn scan_string(s: Seq<char>, j: int) -> (Result<TokenView, LexFault>, int) {
    match string_last(s, j + 1) {
        Some(k) => (Ok(TokenView::Str(s.subrange(j + 1, k + 1))), k + 1),
        None => (Err(LexFault::Unterminated), s.len() as int),
    }
}

/// Scans the token that starts at `j` (no white space there): the token and the position of
/// its last character.
pub open spec fn scan_at(s: Seq<char>, j: int) -> (Result<TokenView, LexFault>, int) {
    let c = char_at(s, j);
    if c == '(' {
        (Ok(TokenView::LParen), j)
    } else if c == ')' {
        (Ok(TokenView::RParen), j)
    } else if c == '*' {
        (Ok(TokenView::Asterisk), j)
    } else if c == '/' {
        (Ok(TokenView::Slash), j)
    } else if c == '+' || c == '-' {
        if is_digit(char_at(s, j + 1)) {
            scan_number(s, j)
        } else if c == '+' {
            (Ok(TokenView::Plus), j)
        } else {
            (Ok(TokenView::Minus), j)
        }
    } else if is_digit(c) {
        scan_number(s, j)
    } else if c == '"' {
        scan_string(s, j)
    } else if is_letter(c) {
        let (t, e) = scan_literal(s, j);
        (Ok(t), e)
    } else if j >= s.len() {
        (Ok(TokenView::Eof), j)
    } else {
        (Ok(TokenView::Illegal(seq![c])), j)
    }
}

/// The token that the cursor at `p` yields, and where the cursor stands after it: just past
/// the token's last character. Past the end of the input every token is `Eof`.
pub open spec fn lex(s: Seq<char>, p: int) -> (Result<TokenView, LexFault>, int) {
    let (r, e) = scan_at(s, skip_space(s, p));
    (r, e + 1)
}

/// The message of an unterminated string.
pub open spec fn unterminated_text() -> Seq<char> {
    "unterminated string"@
}

/// The error that reports a lexer fault: its text is the numeral, or the fixed message.
pub open spec fn reports_lex(f: LexFault, x: RispError) -> bool {
    match f {
        LexFault::Numeral(t) => x matches RispError::Parse(m) && m@ == t,
        LexFault::Unterminated => x matches RispError::Read(m) && m@ == unterminated_text(),
    }
}

/// The longest input a lexer takes: its cursor may run on past the end by as much again,
/// and must still fit a `usize`.
pub open spec fn max_input() -> int {
    (usize::MAX / 4) as int
}

pub proof fn lemma_skip_space(s: Seq<char>, i: int)
    requires
        0 <= i,
    ensures
        i <= skip_space(s, i),
        i <= s.len() ==> skip_space(s, i) <= s.len(),
        i > s.len() ==> skip_space(s, i) == i,
    decreases s.len() - i,
{
    if 0 <= i < s.len() && is_space(s[i]) {
        lemma_skip_space(s, i + 1);
    }
}

pub proof fn lemma_letters_last(s: Seq<char>, i: int)
    requires
        0 <= i < s.len(),
    ensures
        i <= letters_last(s, i) < s.len(),
    decreases s.len() - i,
{
    if i + 1 < s.len() && is_letter(s[i + 1]) {
        lemma_letters_last(s, i + 1);
    }
}

pub proof fn lemma_numeral_last(s: Seq<char>, i: int)
    requires
        0 <= i < s.len(),
    ensures
        i <= numeral_last(s, i) < s.len(),
    decreases s.len() - i,
{
    if i + 1 < s.len() && (is_digit(s[i + 1]) || s[i + 1] == '.') {
        lemma_numeral_last(s, i + 1);
    }
}

pub proof fn lemma_string_last(s: Seq<char>, i: int)
    requires
        0 <= i,
    ensures
        string_last(s, i) matches Some(k) ==> i <= k && k + 1 < s.len(),
    decreases s.len() - i,
{
    if 0 <= i < s.len() && char_at(s, i + 1) != '"' {
        lemma_string_last(s, i + 1);
    }
}

/// Every token but `Eof` starts and ends inside the input and moves the cursor on; `Eof`
/// leaves the cursor one past the end, or one further when it already stood past it.
pub proof fn lemma_lex_bounds(s: Seq<char>, p: int)
    requires
        0 <= p,
    ensures
        p < lex(s, p).1,
        lex(s, p).0 matches Ok(t) && !(t is Eof) ==> p < s.len() && lex(s, p).1 <= s.len(),
        lex(s, p).0 matches Ok(t) && t is Eof ==> lex(s, p).1 == (if p <= s.len() {
            s.len() as int + 1
        } else {
            p + 1
        }),
{
    let j = skip_space(s, p);
    lemma_skip_space(s, p);
    if 0 <= j < s.len() {
        lemma_letters_last(s, j);
        lemma_numeral_last(s, j);
        lemma_string_last(s, j + 1);
    }
}

/// A cursor over the characters of one line of source text.
#[derive(Debug)]
pub struct Lexer {
    /// The character under the cursor, `'\0'` past the end.
    pub ch: char,
    pub input: Vec<char>,
    /// The index of the last character.
    pub length: usize,
    pub read_position: usize,
    pub position: usize,
}

fn is_space_char(c: char) -> (r: bool)
    ensures
        r == is_space(c),
{
    ('\t' <= c && c <= '\r') || c == ' ' || c == '\u{85}' || c == '\u{a0}' || c == '\u{1680}'
        || ('\u{2000}' <= c && c <= '\u{200a}') || c == '\u{2028}' || c == '\u{2029}'
        || c == '\u{202f}' || c == '\u{205f}' || c == '\u{3000}'
}

fn is_digit_char(c: char) -> (r: bool)
    ensures
        r == is_digit(c),
{
    '0' <= c && c <= '9'
}

fn is_letter_char(c: char) -> (r: bool)
    ensures
        r == is_letter(c),
{
    ('a' <= c && c <= 'z') || ('A' <= c && c <= 'Z')
}

fn upper_char(c: char) -> (r: char)
    ensures
        r == upper(c),
{
    if 'a' <= c && c <= 'z' { ((c as u32 - 32) as u8) as char } else { c }
}

/// The number that the numeral `t` denotes.
pub fn parse_numeral(t: &Vec<char>) -> (r: Option<Number>)
    ensures
        r == numeral_value(t@),
        r matches Some(x) ==> x.wf(),
{
    let signed = t.len() > 0 && (t[0] == '+' || t[0] == '-');
    let mut i: usize = if signed { 1 } else { 0 };
    if i >= t.len() || !is_digit_char(t[i]) {
        return None;
    }
    let mut n: i64 = 0;
    let mut d: i64 = 1;
    let mut dot = false;
    let ghost start = i as int;
    while i < t.len()
        invariant
            0 <= start <= i <= t@.len(),
            start == (if signed { 1int } else { 0 }),
            signed == (t@.len() > 0 && (t@[0] == '+' || t@[0] == '-')),
            0 <= n,
            1 <= d,
            numeral_from(t@, start, 0, 1, false) == numeral_from(t@, i as int, n as int, d as int, dot),
        decreases t.len() - i,
    {
        let c = t[i];
        if c == '.' {
            if dot {
                return None;
            }
            dot = true;
        } else if !is_digit_char(c) {
            return None;
        } else {
            let v: i128 = (n as i128) * 10 + ((c as u32) as i128 - ('0' as u32) as i128);
            let w: i128 = if dot { (d as i128) * 10 } else { d as i128 };
            if v > i64::MAX as i128 || w > i64::MAX as i128 {
                return None;
            }
            n = v as i64;
            d = w as i64;
        }
        i = i + 1;
    }
    let m: i64 = if t[0] == '-' { -n } else { n };
    Number::new(m, d)
}

impl Lexer {
    /// `ch` is the character at `position` (`'\0'` once the cursor has passed the end), and
    /// `read_position` is the next position.
    pub open spec fn wf(&self) -> bool {
        &&& 0 < self.input@.len() <= max_input()
        &&& self.length == self.input@.len() - 1
        &&& self.read_position == self.position + 1
        &&& self.ch == char_at(self.input@, self.position as int)
    }

    /// A lexer over `input`, with the cursor on its first character; the input must not be
    /// empty.
    pub fn new(input: String) -> (r: Result<Lexer, RispError>)
        ensures
            r is Ok <==> 0 < input@.len() <= max_input(),
            r matches Err(e) ==> e is LexerInitialize,
            r matches Ok(l) ==> l.wf() && l.input@ == input@ && l.position == 0,
    {
        let chars = chars_of(input.as_str());
        if chars.len() == 0 || chars.len() > usize::MAX / 4 {
            return Err(RispError::LexerInitialize(String::from_str("Lexer initialization Failed")));
        }
        let length = chars.len() - 1;
        let mut lexer = Lexer { ch: '\0', input: chars, length, read_position: 0, position: 0 };
        lexer.advance();
        Ok(lexer)
    }

    /// Moves the cursor to `read_position`.
    fn advance(&mut self)
        requires
            old(self).length + 1 == old(self).input@.len(),
            old(self).read_position < usize::MAX,
        ensures
            final(self).input == old(self).input,
            final(self).length == old(self).length,
            final(self).position == old(self).read_position,
            final(self).read_position == old(self).read_position + 1,
            final(self).ch == char_at(final(self).input@, final(self).position as int),
    {
        if self.read_position > self.length {
            self.ch = '\0';
        } else {
            self.ch = self.input[self.read_position];
        }
        self.position = self.read_position;
        self.read_position = self.read_position + 1;
    }

    /// Moves the cursor one character on; past the end, `ch` stays `'\0'`. This never fails.
    pub fn read(&mut self) -> (r: Result<(), RispError>)
        requires
            old(self).wf(),
            old(self).read_position < usize::MAX,
        ensures
            r is Ok,
            final(self).wf(),
            final(self).input == old(self).input,
            final(self).position == old(self).read_position,
            final(self).read_position == old(self).read_position + 1,
    {
        self.advance();
        Ok(())
    }

    /// The character after the cursor, `'\0'` past the end. This never fails.
    pub fn peek(&self) -> (r: Result<char, RispError>)
        requires
            self.wf(),
        ensures
            r == Ok::<char, RispError>(char_at(self.input@, self.position + 1)),
    {
        Ok(self.lookahead())
    }

    fn lookahead(&self) -> (c: char)
        requires
            self.wf(),
        ensures
            c == char_at(self.input@, self.position + 1),
    {
        if self.read_position > self.length {
            '\0'
        } else {
            self.input[self.read_position]
        }
    }

    /// Scans the numeral under the cursor, leaving the cursor on its last character.
    fn read_as_number(&mut self) -> (r: Result<Token, RispError>)
        requires
            old(self).wf(),
            old(self).position < old(self).input@.len(),
        ensures
            final(self).wf(),
            final(self).input@ == old(self).input@,
            ({
                let (res, e) = scan_number(old(self).input@, old(self).position as int);
                &&& final(self).position == e
                &&& r matches Ok(t) ==> res == Ok::<TokenView, LexFault>(t@)
                &&& r matches Err(x) ==> (res matches Err(f) && reports_lex(f, x))
                &&& res is Ok ==> r is Ok
            }),
    {
        let ghost s0 = self.input@;
        let ghost j = self.position as int;
        let mut chars: Vec<char> = Vec::new();
        let mut text = String::new();
        loop
            invariant_except_break
                j <= self.position < s0.len(),
                numeral_last(s0, j) == numeral_last(s0, self.position as int),
                chars@ == s0.subrange(j, self.position as int),
            invariant
                self.wf(),
                self.input@ == s0,
                s0 == old(self).input@,
                j == old(self).position,
                text@ == chars@,
            ensures
                j <= self.position < s0.len(),
                numeral_last(s0, j) == self.position,
                chars@ == s0.subrange(j, self.position + 1),
            decreases s0.len() - self.position,
        {
            chars.push(self.ch);
            push_char(&mut text, self.ch);
            assert(chars@ =~= s0.subrange(j, self.position + 1));
            let next = self.lookahead();
            if is_digit_char(next) || next == '.' {
                self.advance();
            } else {
                break;
            }
        }
        match parse_numeral(&chars) {
            Some(n) => Ok(Token::NUMBER(n)),
            None => Err(RispError::Parse(text)),
        }
    }

    /// Scans the literal under the cursor, leaving the cursor on its last character.
    fn read_as_literal(&mut self) -> (r: Token)
        requires
            old(self).wf(),
            is_letter(old(self).ch),
        ensures
            final(self).wf(),
            final(self).input@ == old(self).input@,
            (r@, final(self).position as int) == scan_literal(old(self).input@, old(self).position as int),
    {
        let ghost s0 = self.input@;
        let ghost j = self.position as int;
        if self.ch == 't' && self.lookahead() == '\0' {
            return Token::TRUE;
        }
        let mut text = String::new();
        loop
            invariant_except_break
                j <= self.position < s0.len(),
                is_letter(self.ch),
                letters_last(s0, j) == letters_last(s0, self.position as int),
                text@ == upper_seq(s0.subrange(j, self.position as int)),
            invariant
                self.wf(),
                self.input@ == s0,
                s0 == old(self).input@,
                j == old(self).position,
            ensures
                j <= self.position < s0.len(),
                letters_last(s0, j) == self.position,
                text@ == upper_seq(s0.subrange(j, self.position + 1)),
            decreases s0.len() - self.position,
        {
            push_char(&mut text, upper_char(self.ch));
            assert(text@ =~= upper_seq(s0.subrange(j, self.position + 1)));
            let next = self.lookahead();
            if is_letter_char(next) {
                self.advance();
            } else {
                break;
            }
        }
        let nil = String::from_str("NIL");
        proof {
            reveal_strlit("NIL");
            assert(nil@ =~= seq!['N', 'I', 'L']);
        }
        if text == nil {
            assert(text@ =~= seq!['N', 'I', 'L']);
            Token::NIL
        } else {
            assert(text@ != seq!['N', 'I', 'L']);
            Token::LITERAL(text)
        }
    }

    /// Scans the string whose opening quote is under the cursor, leaving the cursor on its
    /// closing quote.
    fn read_as_string(&mut self) -> (r: Result<Token, RispError>)
        requires
            old(self).wf(),
            old(self).position < old(self).input@.len(),
        ensures
            final(self).wf(),
            final(self).input@ == old(self).input@,
            ({
                let (res, e) = scan_string(old(self).input@, old(self).position as int);
                &&& r matches Ok(t) ==> res == Ok::<TokenView, LexFault>(t@) && final(self).position == e
                &&& r matches Err(x) ==> (res matches Err(f) && reports_lex(f, x))
                &&& res is Ok ==> r is Ok
            }),
    {
        let ghost s0 = self.input@;
        let ghost j = self.position as int;
        let mut text = String::new();
        loop
            invariant_except_break
                j <= self.position < s0.len(),
                string_last(s0, j + 1) == string_last(s0, self.position + 1),
                text@ == s0.subrange(j + 1, self.position + 1),
            invariant
                self.wf(),
                self.input@ == s0,
                s0 == old(self).input@,
                j == old(self).position,
            ensures
                string_last(s0, j + 1) == Some(self.position - 1),
                j + 1 < self.position < s0.len(),
                text@ == s0.subrange(j + 1, self.position as int),
            decreases s0.len() - self.position,
        {
            self.advance();
            if self.position >= self.input.len() {
                let m = String::from_str("unterminated string");
                proof {
                    assert(m@ == unterminated_text());
                }
                return Err(RispError::Read(m));
            }
            push_char(&mut text, self.ch);
            assert(text@ =~= s0.subrange(j + 1, self.position + 1));
            if self.lookahead() == '"' {
                self.advance();
                break;
            }
        }
        Ok(Token::STRING(text))
    }

    /// The next token; the cursor then stands just past it.
    pub fn next_token(&mut self) -> (r: Result<Token, RispError>)
        requires
            old(self).wf(),
            old(self).read_position < usize::MAX,
        ensures
            final(self).wf(),
            final(self).input@ == old(self).input@,
            ({
                let (res, p) = lex(old(self).input@, old(self).position as int);
                &&& r matches Ok(t) ==> res == Ok::<TokenView, LexFault>(t@) && final(self).position == p
                &&& r matches Err(x) ==> (res matches Err(f) && reports_lex(f, x))
                &&& res is Ok ==> r is Ok
            }),
    {
        let ghost s0 = self.input@;
        let ghost from = self.position as int;
        while is_space_char(self.ch)
            invariant
                self.wf(),
                self.input@ == s0,
                s0 == old(self).input@,
                from == old(self).position,
                from <= self.position,
                self.position == from || self.position <= s0.len(),
                skip_space(s0, from) == skip_space(s0, self.position as int),
            decreases (if self.position < s0.len() { s0.len() - self.position } else { 0 }),
        {
            self.advance();
        }
        proof {
            lemma_skip_space(s0, from);
            if self.position < s0.len() {
                lemma_letters_last(s0, self.position as int);
                lemma_numeral_last(s0, self.position as int);
                lemma_string_last(s0, self.position + 1);
            }
        }
        let c = self.ch;
        let token = if c == '(' {
            Token::LPAREN
        } else if c == ')' {
            Token::RPAREN
        } else if c == '*' {
            Token::ASTERISK
        } else if c == '/' {
            Token::SLASH
        } else if c == '+' || c == '-' {
            if is_digit_char(self.lookahead()) {
                self.read_as_number()?
            } else if c == '+' {
                Token::PLUS
            } else {
                Token::MINUS
            }
        } else if is_digit_char(c) {
            self.read_as_number()?
        } else if c == '"' {
            self.read_as_string()?
        } else if is_letter_char(c) {
            self.read_as_literal()
        } else if self.position >= self.input.len() {
            Token::EOF
        } else {
            Token::ILLEGAL(single(c))
        };
        self.advance();
        Ok(token)
    }
}

} // verus!
