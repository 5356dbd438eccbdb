//! The lexical scanner: a single left-to-right pass over the source text,
//! tracking a start and a current offset (in characters) and a 1-based line
//! counter, producing the token sequence terminated by one end-of-input
//! token.
use vstd::prelude::*;

use crate::lox::render_report;
use crate::lox::Lox;
use crate::num::parse_bits;
use crate::num::parse_double;
use crate::token::toks_view;
use crate::token::LitM;
use crate::token::Literal;
use crate::token::Token;
use crate::token::TokenM;
use crate::token::TokenType;

verus! {

/// Whether a character is an ASCII digit.
pub open spec fn is_digit(c: char) -> bool {
    48 <= c as u32 && c as u32 <= 57
}

/// Whether a character is alphabetic, as the Unicode property has it.
pub uninterp spec fn alpha_of(c: char) -> bool;

/// Whether a character is alphanumeric, as the Unicode property has it.
pub uninterp spec fn alnum_of(c: char) -> bool;

/// Relies on char::is_alphabetic: the Unicode `Alphabetic` property of the
/// character, a pure function of the character.
#[verifier::external_body]
pub(crate) fn char_alphabetic(c: char) -> (r: bool)
    ensures
        r == alpha_of(c),
{
    c.is_alphabetic()
}

/// Relies on char::is_alphanumeric: the Unicode `Alphabetic` property or
/// general numeric category of the character, a pure function of the
/// character.
#[verifier::external_body]
pub(crate) fn char_alphanumeric(c: char) -> (r: bool)
    ensures
        r == alnum_of(c),
{
    c.is_alphanumeric()
}

pub(crate) fn is_digit_ch(c: char) -> (r: bool)
    ensures
        r == is_digit(c),
{
    let u = c as u32;
    48 <= u && u <= 57
}

/// How many consecutive characters from position `i` satisfy `p`.
pub open spec fn count_while(p: spec_fn(char) -> bool, src: Seq<char>, i: int) -> nat
    decreases src.len() - i,
{
    if 0 <= i < src.len() && p(src[i]) {
        (1 + count_while(p, src, i + 1)) as nat
    } else {
        0
    }
}

pub proof fn lemma_count_while(p: spec_fn(char) -> bool, src: Seq<char>, i: int)
    requires
        0 <= i <= src.len(),
    ensures
        i + count_while(p, src, i) <= src.len(),
        forall|j: int| i <= j < i + count_while(p, src, i) ==> p(#[trigger] src[j]),
        i + count_while(p, src, i) < src.len() ==> !p(src[i + count_while(p, src, i)]),
    decreases src.len() - i,
{
    if i < src.len() && p(src[i]) {
        lemma_count_while(p, src, i + 1);
    }
}

pub proof fn lemma_count_while_exact(p: spec_fn(char) -> bool, src: Seq<char>, i: int, k: int)
    requires
        0 <= i <= k <= src.len(),
        forall|j: int| i <= j < k ==> p(#[trigger] src[j]),
        k < src.len() ==> !p(src[k]),
    ensures
        count_while(p, src, i) == k - i,
    decreases k - i,
{
    if i < k {
        lemma_count_while_exact(p, src, i + 1, k);
    }
}

pub open spec fn digit_pred() -> spec_fn(char) -> bool {
    |c: char| is_digit(c)
}

pub open spec fn alnum_pred() -> spec_fn(char) -> bool {
    |c: char| alnum_of(c)
}

pub open spec fn not_quote_pred() -> spec_fn(char) -> bool {
    |c: char| c != '"'
}

pub open spec fn not_newline_pred() -> spec_fn(char) -> bool {
    |c: char| c != '\n'
}

/// How many newline characters lie in `src[a..b]`.
pub open spec fn count_newlines(src: Seq<char>, a: int, b: int) -> int
    decreases b - a,
{
    if a >= b {
        0
    } else {
        count_newlines(src, a, b - 1) + if src[b - 1] == '\n' {
            1int
        } else {
            0int
        }
    }
}

pub proof fn lemma_count_newlines_bound(src: Seq<char>, a: int, b: int)
    ensures
        0 <= count_newlines(src, a, b),
        count_newlines(src, a, b) <= (if b - a >= 0 {
            b - a
        } else {
            0
        }),
    decreases b - a,
{
    if a < b {
        lemma_count_newlines_bound(src, a, b - 1);
    }
}

pub open spec fn tok(kind: TokenType, lexeme: Seq<char>, literal: Option<LitM>, line: int) -> TokenM {
    TokenM { kind, lexeme, literal, line }
}

pub open spec fn eof_tok(line: int) -> TokenM {
    tok(TokenType::Eof, Seq::empty(), None, line)
}

/// What one dispatch step of the scanner does at position `i`: the tokens it
/// emits, the diagnostics it reports, and the next position and line.
pub struct ScanStep {
    pub toks: Seq<TokenM>,
    pub diags: Seq<Seq<char>>,
    pub next: int,
    pub line: int,
}

pub open spec fn punct_step(src: Seq<char>, i: int, line: int, kind: TokenType) -> ScanStep {
    ScanStep {
        toks: seq![tok(kind, src.subrange(i, i + 1), None, line)],
        diags: Seq::empty(),
        next: i + 1,
        line,
    }
}

/// A one- or two-character operator: the character at `i` followed by `=`
/// makes the two-character kind.
pub open spec fn two_char_step(
    src: Seq<char>,
    i: int,
    line: int,
    two: TokenType,
    one: TokenType,
) -> ScanStep {
    if i + 1 < src.len() && src[i + 1] == '=' {
        ScanStep {
            toks: seq![tok(two, src.subrange(i, i + 2), None, line)],
            diags: Seq::empty(),
            next: i + 2,
            line,
        }
    } else {
        punct_step(src, i, line, one)
    }
}

/// A string literal beginning at the quote at `i`: consumed verbatim to the
/// closing quote (newlines inside increment the line counter); reaching end
/// of input instead reports "Unterminated string." and emits no token.
pub open spec fn string_step(src: Seq<char>, i: int, line: int) -> ScanStep {
    let close = i + 1 + count_while(not_quote_pred(), src, i + 1);
    let line2 = line + count_newlines(src, i + 1, close);
    if close >= src.len() {
        ScanStep {
            toks: Seq::empty(),
            diags: seq![render_report(line2, Seq::empty(), "Unterminated string."@)],
            next: src.len() as int,
            line: line2,
        }
    } else {
        ScanStep {
            toks: seq![
                tok(
                    TokenType::String,
                    src.subrange(i, close + 1),
                    Some(LitM::Str(src.subrange(i + 1, close))),
                    line2,
                ),
            ],
            diags: Seq::empty(),
            next: close + 1,
            line: line2,
        }
    }
}

/// A number literal beginning at the digit at `i`: all following digits,
/// then optionally one `.` followed by at least one digit; the contiguous
/// text is decoded as a 64-bit IEEE 754 number.
pub open spec fn number_step(src: Seq<char>, i: int, line: int) -> ScanStep {
    let end1 = i + 1 + count_while(digit_pred(), src, i + 1);
    let has_frac = end1 + 1 < src.len() && src[end1] == '.' && is_digit(src[end1 + 1]);
    let end2 = if has_frac {
        end1 + 1 + count_while(digit_pred(), src, end1 + 1)
    } else {
        end1
    };
    let lexeme = src.subrange(i, end2);
    ScanStep {
        toks: seq![tok(TokenType::Number, lexeme, Some(LitM::Number(parse_bits(lexeme))), line)],
        diags: Seq::empty(),
        next: end2,
        line,
    }
}

/// The keyword table: a lexeme that matches a reserved word yields its
/// keyword kind, any other lexeme is an identifier.
pub open spec fn keyword_kind(s: Seq<char>) -> TokenType {
    if s == "and"@ {
        TokenType::And
    } else if s == "class"@ {
        TokenType::Class
    } else if s == "else"@ {
        TokenType::Else
    } else if s == "false"@ {
        TokenType::False
    } else if s == "fun"@ {
        TokenType::Fun
    } else if s == "for"@ {
        TokenType::For
    } else if s == "if"@ {
        TokenType::If
    } else if s == "nil"@ {
        TokenType::Nil
    } else if s == "or"@ {
        TokenType::Or
    } else if s == "print"@ {
        TokenType::Print
    } else if s == "return"@ {
        TokenType::Return
    } else if s == "super"@ {
        TokenType::Super
    } else if s == "this"@ {
        TokenType::This
    } else if s == "true"@ {
        TokenType::True
    } else if s == "var"@ {
        TokenType::Var
    } else if s == "while"@ {
        TokenType::While
    } else {
        TokenType::Identifier
    }
}

/// An identifier or keyword beginning at the alphabetic character at `i`:
/// all following alphanumeric characters, looked up in the keyword table.
pub open spec fn ident_step(src: Seq<char>, i: int, line: int) -> ScanStep {
    let end = i + 1 + count_while(alnum_pred(), src, i + 1);
    let lexeme = src.subrange(i, end);
    ScanStep {
        toks: seq![tok(keyword_kind(lexeme), lexeme, None, line)],
        diags: Seq::empty(),
        next: end,
        line,
    }
}

/// The scanner's per-character dispatch at position `i`.
pub open spec fn scan_step(src: Seq<char>, i: int, line: int) -> ScanStep {
    let c = src[i];
    if c == '(' {
        punct_step(src, i, line, TokenType::LeftParen)
    } else if c == ')' {
        punct_step(src, i, line, TokenType::RightParen)
    } else if c == '{' {
        punct_step(src, i, line, TokenType::LeftBrace)
    } else if c == '}' {
        punct_step(src, i, line, TokenType::RightBrace)
    } else if c == ',' {
        punct_step(src, i, line, TokenType::Comma)
    } else if c == '.' {
        punct_step(src, i, line, TokenType::Dot)
    } else if c == '-' {
        punct_step(src, i, line, TokenType::Minus)
    } else if c == '+' {
        punct_step(src, i, line, TokenType::Plus)
    } else if c == ';' {
        punct_step(src, i, line, TokenType::Semicolon)
    } else if c == '*' {
        punct_step(src, i, line, TokenType::Star)
    } else if c == '!' {
        two_char_step(src, i, line, TokenType::BangEqual, TokenType::Bang)
    } else if c == '=' {
        two_char_step(src, i, line, TokenType::EqualEqual, TokenType::Equal)
    } else if c == '<' {
        two_char_step(src, i, line, TokenType::LessEqual, TokenType::Less)
    } else if c == '>' {
        two_char_step(src, i, line, TokenType::GreaterEqual, TokenType::Greater)
    } else if c == '/' {
        if i + 1 < src.len() && src[i + 1] == '/' {
            // A comment: the rest of the line is discarded.
            ScanStep {
                toks: Seq::empty(),
                diags: Seq::empty(),
                next: i + 2 + count_while(not_newline_pred(), src, i + 2),
                line,
            }
        } else {
            punct_step(src, i, line, TokenType::Slash)
        }
    } else if c == ' ' || c == '\r' || c == '\t' {
        ScanStep { toks: Seq::empty(), diags: Seq::empty(), next: i + 1, line }
    } else if c == '\n' {
        ScanStep { toks: Seq::empty(), diags: Seq::empty(), next: i + 1, line: line + 1 }
    } else if c == '"' {
        string_step(src, i, line)
    } else if is_digit(c) {
        number_step(src, i, line)
    } else if alpha_of(c) {
        ident_step(src, i, line)
    } else {
        ScanStep {
            toks: Seq::empty(),
            diags: seq![render_report(line, Seq::empty(), "Unexpected character"@)],
            next: i + 1,
            line,
        }
    }
}

/// Every dispatch step consumes at least one character, stays within the
/// source, and advances the line counter by at most the characters consumed.
pub proof fn lemma_step_progress(src: Seq<char>, i: int, line: int)
    requires
        0 <= i < src.len(),
    ensures
        ({
            let s = scan_step(src, i, line);
            &&& i < s.next <= src.len()
            &&& line <= s.line
            &&& s.line - line <= s.next - i
        }),
{
    let c = src[i];
    if c == '"' {
        lemma_count_while(not_quote_pred(), src, i + 1);
        let close = i + 1 + count_while(not_quote_pred(), src, i + 1);
        lemma_count_newlines_bound(src, i + 1, close);
    } else if c == '/' && i + 1 < src.len() && src[i + 1] == '/' {
        lemma_count_while(not_newline_pred(), src, i + 2);
    } else if is_digit(c) {
        lemma_count_while(digit_pred(), src, i + 1);
        let end1 = i + 1 + count_while(digit_pred(), src, i + 1);
        if end1 + 1 <= src.len() {
            lemma_count_while(digit_pred(), src, end1 + 1);
        }
    } else if alpha_of(c) {
        lemma_count_while(alnum_pred(), src, i + 1);
    }
}

/// The full scan from position `i`: what the rest of the pass emits,
/// reports, and terminates with.
pub struct ScanOut {
    pub toks: Seq<TokenM>,
    pub diags: Seq<Seq<char>>,
}

pub open spec fn scan_rest(src: Seq<char>, i: int, line: int) -> ScanOut
    decreases src.len() - i,
{
    if !(0 <= i < src.len()) {
        ScanOut { toks: seq![eof_tok(line)], diags: Seq::empty() }
    } else {
        let s = scan_step(src, i, line);
        // The bound guards the termination measure; every dispatch step
        // consumes at least one character, so the other arm is never taken.
        if i < s.next <= src.len() {
            let rest = scan_rest(src, s.next, s.line);
            ScanOut { toks: s.toks + rest.toks, diags: s.diags + rest.diags }
        } else {
            ScanOut { toks: s.toks + seq![eof_tok(s.line)], diags: s.diags }
        }
    }
}

/// What scanning a whole source text yields.
pub open spec fn scan_model(src: Seq<char>) -> ScanOut {
    scan_rest(src, 0, 1)
}

/// The scanner: the source text, its length in characters, the start of the
/// lexeme being scanned, the current position, the line counter, and the
/// tokens formed so far.
pub struct Scanner {
    pub source: String,
    pub n: usize,
    pub start: usize,
    pub current: usize,
    pub line: usize,
    pub tokens: Vec<Token>,
}

impl Scanner {
    pub open spec fn wf(self) -> bool {
        &&& self.n == self.source@.len()
        &&& self.start <= self.current <= self.n
        &&& 1 <= self.line <= 1 + self.current
        &&& self.n < usize::MAX
    }

    pub fn new(source: &str) -> (s: Scanner)
        requires
            source@.len() < usize::MAX,
        ensures
            s.wf(),
            s.source@ == source@,
            s.current == 0,
            s.line == 1,
            s.tokens@ =~= Seq::<Token>::empty(),
    {
        let n = source.unicode_len();
        Scanner { source: source.to_owned(), n, start: 0, current: 0, line: 1, tokens: Vec::new() }
    }

    spec fn peek_char(src: Seq<char>, i: int) -> char {
        if 0 <= i < src.len() {
            src[i]
        } else {
            '\0'
        }
    }

    fn peek(&self) -> (c: char)
        requires
            self.wf(),
        ensures
            c == Self::peek_char(self.source@, self.current as int),
    {
        if self.current < self.n {
            self.source.as_str().get_char(self.current)
        } else {
            '\0'
        }
    }

    fn peek_next(&self) -> (c: char)
        requires
            self.wf(),
        ensures
            c == Self::peek_char(self.source@, self.current as int + 1),
    {
        if self.current + 1 < self.n {
            self.source.as_str().get_char(self.current + 1)
        } else {
            '\0'
        }
    }

    fn advance(&mut self) -> (c: char)
        requires
            old(self).wf(),
            old(self).current < old(self).n,
        ensures
            final(self).wf(),
            *final(self) == (Scanner { current: (old(self).current + 1) as usize, ..*old(self) }),
            c == old(self).source@[old(self).current as int],
    {
        let c = self.source.as_str().get_char(self.current);
        self.current = self.current + 1;
        c
    }

    fn match_char(&mut self, expected: char) -> (r: bool)
        requires
            old(self).wf(),
            expected != '\0',
        ensures
            final(self).wf(),
            r == (old(self).current < old(self).n && old(self).source@[old(self).current as int]
                == expected),
            r ==> *final(self) == (Scanner { current: (old(self).current + 1) as usize, ..*old(self) }),
            !r ==> *final(self) == *old(self),
    {
        if self.peek() == expected {
            self.current = self.current + 1;
            return true;
        }
        false
    }

    fn add_token(&mut self, kind: TokenType, literal: Option<Literal>)
        requires
            old(self).wf(),
        ensures
            final(self).wf(),
            *final(self) == (Scanner { tokens: final(self).tokens, ..*old(self) }),
            toks_view(final(self).tokens@) == toks_view(old(self).tokens@).push(
                tok(
                    kind,
                    old(self).source@.subrange(old(self).start as int, old(self).current as int),
                    match literal {
                        Some(l) => Some(l@),
                        None => None,
                    },
                    old(self).line as int,
                ),
            ),
    {
        let lexeme = self.source.as_str().substring_char(self.start, self.current).to_owned();
        let t = Token::new(kind, lexeme, literal, self.line);
        proof {
            crate::token::lemma_toks_view_push(self.tokens@, t);
        }
        self.tokens.push(t);
    }

    fn string(&mut self, lox: &mut Lox)
        requires
            old(self).wf(),
            old(self).start + 1 == old(self).current,
        ensures
            final(self).wf(),
            final(self).source == old(self).source,
            final(self).n == old(self).n,
            final(self).start == old(self).start,
            ({
                let st = string_step(
                    old(self).source@,
                    old(self).start as int,
                    old(self).line as int,
                );
                &&& final(self).current as int == st.next
                &&& final(self).line as int == st.line
                &&& toks_view(final(self).tokens@) == toks_view(old(self).tokens@) + st.toks
                &&& final(lox)@.diags == old(lox)@.diags + st.diags
                &&& final(lox)@.had_error == (old(lox)@.had_error || st.diags.len() > 0)
                &&& final(lox)@.had_runtime_error == old(lox)@.had_runtime_error
            }),
    {
        let ghost src = self.source@;
        let ghost i = self.start as int;
        let ghost line0 = self.line as int;
        while self.current < self.n && self.peek() != '"'
            invariant
                self.wf(),
                self.source == old(self).source,
                self.source@ == src,
                self.n == old(self).n,
                self.start == old(self).start,
                self.tokens == old(self).tokens,
                lox == old(lox),
                i + 1 <= self.current as int,
                forall|j: int| i + 1 <= j < self.current as int ==> src[j] != '"',
                self.line as int == line0 + count_newlines(src, i + 1, self.current as int),
            decreases self.n - self.current,
        {
            let c = self.advance();
            if c == '\n' {
                self.line = self.line + 1;
            }
        }
        proof {
            lemma_count_while_exact(not_quote_pred(), src, i + 1, self.current as int);
        }
        if self.current >= self.n {
            lox.error(self.line, "Unterminated string.");
            proof {
                let st = string_step(src, i, line0);
                assert(toks_view(self.tokens@) =~= toks_view(old(self).tokens@) + st.toks);
                assert(lox@.diags =~= old(lox)@.diags + st.diags);
            }
            return ;
        }
        let _ = self.advance();
        let value = self.source.as_str().substring_char(self.start + 1, self.current - 1).to_owned();
        self.add_token(TokenType::String, Some(Literal::Str(value)));
        proof {
            let st = string_step(src, i, line0);
            assert(toks_view(self.tokens@) =~= toks_view(old(self).tokens@) + st.toks);
            assert(lox@.diags =~= old(lox)@.diags + st.diags);
        }
    }

    fn number(&mut self)
        requires
            old(self).wf(),
            old(self).start + 1 == old(self).current,
        ensures
            final(self).wf(),
            final(self).source == old(self).source,
            final(self).n == old(self).n,
            final(self).start == old(self).start,
            final(self).line == old(self).line,
            ({
                let st = number_step(
                    old(self).source@,
                    old(self).start as int,
                    old(self).line as int,
                );
                &&& final(self).current as int == st.next
                &&& toks_view(final(self).tokens@) == toks_view(old(self).tokens@) + st.toks
            }),
    {
        let ghost src = self.source@;
        let ghost i = self.start as int;
        while self.current < self.n && is_digit_ch(self.peek())
            invariant
                self.wf(),
                self.source == old(self).source,
                self.source@ == src,
                self.n == old(self).n,
                self.start == old(self).start,
                self.line == old(self).line,
                self.tokens == old(self).tokens,
                i + 1 <= self.current as int,
                forall|j: int| i + 1 <= j < self.current as int ==> is_digit(#[trigger] src[j]),
            decreases self.n - self.current,
        {
            let _ = self.advance();
        }
        proof {
            lemma_count_while_exact(digit_pred(), src, i + 1, self.current as int);
        }
        let ghost end1 = i + 1 + count_while(digit_pred(), src, i + 1);
        if self.peek() == '.' && is_digit_ch(self.peek_next()) {
            let _ = self.advance();
            let ghost frac0 = self.current as int;
            while self.current < self.n && is_digit_ch(self.peek())
                invariant
                    self.wf(),
                    self.source == old(self).source,
                    self.source@ == src,
                    self.n == old(self).n,
                    self.start == old(self).start,
                    self.line == old(self).line,
                    self.tokens == old(self).tokens,
                    frac0 == end1 + 1,
                    frac0 <= self.current as int,
                    forall|j: int|
                        frac0 <= j < self.current as int ==> is_digit(#[trigger] src[j]),
                decreases self.n - self.current,
            {
                let _ = self.advance();
            }
            proof {
                lemma_count_while_exact(digit_pred(), src, end1 + 1, self.current as int);
            }
        }
        let lexeme = self.source.as_str().substring_char(self.start, self.current).to_owned();
        let bits = parse_double(lexeme.as_str());
        self.add_token(TokenType::Number, Some(Literal::Number(bits)));
        proof {
            let st = number_step(src, i, old(self).line as int);
            assert(toks_view(self.tokens@) =~= toks_view(old(self).tokens@) + st.toks);
        }
    }

    fn keyword_lookup(lexeme: &String) -> (k: TokenType)
        ensures
            k == keyword_kind(lexeme@),
    {
        if lexeme.eq(&String::from_str("and")) {
            TokenType::And
        } else if lexeme.eq(&String::from_str("class")) {
            TokenType::Class
        } else if lexeme.eq(&String::from_str("else")) {
            TokenType::Else
        } else if lexeme.eq(&String::from_str("false")) {
            TokenType::False
        } else if lexeme.eq(&String::from_str("fun")) {
            TokenType::Fun
        } else if lexeme.eq(&String::from_str("for")) {
            TokenType::For
        } else if lexeme.eq(&String::from_str("if")) {
            TokenType::If
        } else if lexeme.eq(&String::from_str("nil")) {
            TokenType::Nil
        } else if lexeme.eq(&String::from_str("or")) {
            TokenType::Or
        } else if lexeme.eq(&String::from_str("print")) {
            TokenType::Print
        } else if lexeme.eq(&String::from_str("return")) {
            TokenType::Return
        } else if lexeme.eq(&String::from_str("super")) {
            TokenType::Super
        } else if lexeme.eq(&String::from_str("this")) {
            TokenType::This
        } else if lexeme.eq(&String::from_str("true")) {
            TokenType::True
        } else if lexeme.eq(&String::from_str("var")) {
            TokenType::Var
        } else if lexeme.eq(&String::from_str("while")) {
            TokenType::While
        } else {
            TokenType::Identifier
        }
    }

    fn identifier(&mut self)
        requires
            old(self).wf(),
            old(self).start + 1 == old(self).current,
        ensures
            final(self).wf(),
            final(self).source == old(self).source,
            final(self).n == old(self).n,
            final(self).start == old(self).start,
            final(self).line == old(self).line,
            ({
                let st = ident_step(
                    old(self).source@,
                    old(self).start as int,
                    old(self).line as int,
                );
                &&& final(self).current as int == st.next
                &&& toks_view(final(self).tokens@) == toks_view(old(self).tokens@) + st.toks
            }),
    {
        let ghost src = self.source@;
        let ghost i = self.start as int;
        while self.current < self.n && char_alphanumeric(self.peek())
            invariant
                self.wf(),
                self.source == old(self).source,
                self.source@ == src,
                self.n == old(self).n,
                self.start == old(self).start,
                self.line == old(self).line,
                self.tokens == old(self).tokens,
                i + 1 <= self.current as int,
                forall|j: int| i + 1 <= j < self.current as int ==> alnum_of(#[trigger] src[j]),
            decreases self.n - self.current,
        {
            let _ = self.advance();
        }
        proof {
            lemma_count_while_exact(alnum_pred(), src, i + 1, self.current as int);
        }
        let lexeme = self.source.as_str().substring_char(self.start, self.current).to_owned();
        let kind = Self::keyword_lookup(&lexeme);
        self.add_token(kind, None);
        proof {
            let st = ident_step(src, i, old(self).line as int);
            assert(toks_view(self.tokens@) =~= toks_view(old(self).tokens@) + st.toks);
        }
    }

    fn scan_token(&mut self, lox: &mut Lox)
        requires
            old(self).wf(),
            old(self).current < old(self).n,
            old(self).start == old(self).current,
        ensures
            final(self).wf(),
            final(self).source == old(self).source,
            final(self).n == old(self).n,
            ({
                let st = scan_step(
                    old(self).source@,
                    old(self).current as int,
                    old(self).line as int,
                );
                &&& final(self).current as int == st.next
                &&& final(self).line as int == st.line
                &&& toks_view(final(self).tokens@) == toks_view(old(self).tokens@) + st.toks
                &&& final(lox)@.diags == old(lox)@.diags + st.diags
                &&& final(lox)@.had_error == (old(lox)@.had_error || st.diags.len() > 0)
                &&& final(lox)@.had_runtime_error == old(lox)@.had_runtime_error
            }),
    {
        let ghost src = self.source@;
        let ghost i = self.current as int;
        let ghost line0 = self.line as int;
        let ghost st = scan_step(src, i, line0);
        let c = self.advance();
        match c {
            '(' => self.add_token(TokenType::LeftParen, None),
            ')' => self.add_token(TokenType::RightParen, None),
            '{' => self.add_token(TokenType::LeftBrace, None),
            '}' => self.add_token(TokenType::RightBrace, None),
            ',' => self.add_token(TokenType::Comma, None),
            '.' => self.add_token(TokenType::Dot, None),
            '-' => self.add_token(TokenType::Minus, None),
            '+' => self.add_token(TokenType::Plus, None),
            ';' => self.add_token(TokenType::Semicolon, None),
            '*' => self.add_token(TokenType::Star, None),
            '!' => {
                let two = self.match_char('=');
                let kind = if two {
                    TokenType::BangEqual
                } else {
                    TokenType::Bang
                };
                self.add_token(kind, None);
            },
            '=' => {
                let two = self.match_char('=');
                let kind = if two {
                    TokenType::EqualEqual
                } else {
                    TokenType::Equal
                };
                self.add_token(kind, None);
            },
            '<' => {
                let two = self.match_char('=');
                let kind = if two {
                    TokenType::LessEqual
                } else {
                    TokenType::Less
                };
                self.add_token(kind, None);
            },
            '>' => {
                let two = self.match_char('=');
                let kind = if two {
                    TokenType::GreaterEqual
                } else {
                    TokenType::Greater
                };
                self.add_token(kind, None);
            },
            '/' => {
                if self.match_char('/') {
                    while self.current < self.n && self.peek() != '\n'
                        invariant
                            self.wf(),
                            self.source == old(self).source,
                            self.source@ == src,
                            self.n == old(self).n,
                            self.start == old(self).start,
                            self.line == old(self).line,
                            self.tokens == old(self).tokens,
                            i + 2 <= self.current as int,
                            forall|j: int| i + 2 <= j < self.current as int ==> src[j] != '\n',
                        decreases self.n - self.current,
                    {
                        let _ = self.advance();
                    }
                    proof {
                        lemma_count_while_exact(not_newline_pred(), src, i + 2, self.current as int);
                    }
                } else {
                    self.add_token(TokenType::Slash, None);
                }
            },
            ' ' => {},
            '\r' => {},
            '\t' => {},
            '\n' => {
                self.line = self.line + 1;
            },
            '"' => self.string(lox),
            _ => {
                if is_digit_ch(c) {
                    self.number();
                } else if char_alphabetic(c) {
                    self.identifier();
                } else {
                    lox.error(self.line, "Unexpected character");
                }
            },
        }
        proof {
            assert(toks_view(self.tokens@) =~= toks_view(old(self).tokens@) + st.toks);
            assert(lox@.diags =~= old(lox)@.diags + st.diags);
        }
    }

    /// Scan the whole source: the resulting token sequence is exactly what
    /// the scan model yields, always terminated by one end-of-input token,
    /// and every lexical error is reported to the sink.
    pub fn scan_tokens(&mut self, lox: &mut Lox) -> (r: Vec<Token>)
        requires
            old(self).wf(),
            old(self).current == 0,
            old(self).line == 1,
            old(self).tokens@ =~= Seq::<Token>::empty(),
        ensures
            ({
                let out = scan_model(old(self).source@);
                &&& toks_view(r@) == out.toks
                &&& final(lox)@.diags == old(lox)@.diags + out.diags
                &&& final(lox)@.had_error == (old(lox)@.had_error || out.diags.len() > 0)
                &&& final(lox)@.had_runtime_error == old(lox)@.had_runtime_error
            }),
    {
        let ghost src = self.source@;
        let ghost full = scan_model(src);
        let ghost mut gdiags: Seq<Seq<char>> = Seq::empty();
        proof {
            assert(toks_view(self.tokens@) =~= Seq::<TokenM>::empty());
            assert(toks_view(self.tokens@) + scan_rest(src, 0, 1).toks =~= full.toks);
            assert(gdiags + scan_rest(src, 0, 1).diags =~= full.diags);
            assert(lox@.diags =~= old(lox)@.diags + gdiags);
        }
        while self.current < self.n
            invariant
                self.wf(),
                self.source == old(self).source,
                self.source@ == src,
                self.n == old(self).n,
                toks_view(self.tokens@) + scan_rest(src, self.current as int, self.line as int).toks
                    == full.toks,
                gdiags + scan_rest(src, self.current as int, self.line as int).diags == full.diags,
                lox@.diags == old(lox)@.diags + gdiags,
                lox@.had_error == (old(lox)@.had_error || gdiags.len() > 0),
                lox@.had_runtime_error == old(lox)@.had_runtime_error,
            decreases self.n - self.current,
        {
            proof {
                lemma_step_progress(src, self.current as int, self.line as int);
            }
            let ghost st = scan_step(src, self.current as int, self.line as int);
            let ghost cur0 = self.current as int;
            let ghost line_0 = self.line as int;
            self.start = self.current;
            self.scan_token(lox);
            proof {
                gdiags = gdiags + st.diags;
                assert(scan_rest(src, cur0, line_0).toks =~= st.toks + scan_rest(
                    src,
                    self.current as int,
                    self.line as int,
                ).toks);
                assert(scan_rest(src, cur0, line_0).diags =~= st.diags + scan_rest(
                    src,
                    self.current as int,
                    self.line as int,
                ).diags);
                assert(toks_view(self.tokens@) + scan_rest(
                    src,
                    self.current as int,
                    self.line as int,
                ).toks =~= full.toks);
                assert(gdiags + scan_rest(src, self.current as int, self.line as int).diags
                    =~= full.diags);
            }
        }
        let t = Token::new(TokenType::Eof, String::new(), None, self.line);
        proof {
            crate::token::lemma_toks_view_push(self.tokens@, t);
            assert(scan_rest(src, self.current as int, self.line as int).toks =~= seq![
                eof_tok(self.line as int),
            ]);
        }
        self.tokens.push(t);
        proof {
            assert(toks_view(self.tokens@) =~= full.toks);
            assert(gdiags =~= full.diags);
        }
        let mut out: Vec<Token> = Vec::new();
        core::mem::swap(&mut out, &mut self.tokens);
        out
    }
}

/// Whether a token carries the literal its kind requires: number and string
/// tokens always hold a decoded literal value.
pub open spec fn lit_ok(t: TokenM) -> bool {
    (t.kind == TokenType::Number || t.kind == TokenType::String) ==> t.literal is Some
}

/// A well-formed token sequence: nonempty, terminated by an end-of-input
/// token, and every literal token carries its decoded value. The scanner
/// always produces such a sequence, and the parser requires one.
pub open spec fn toks_wf(toks: Seq<TokenM>) -> bool {
    &&& toks.len() >= 1
    &&& toks[toks.len() - 1].kind == TokenType::Eof
    &&& forall|j: int| 0 <= j < toks.len() ==> lit_ok(#[trigger] toks[j])
}

/// Every token a dispatch step emits is a non-end-of-input token that
/// carries the literal its kind requires.
proof fn lemma_step_toks_ok(src: Seq<char>, i: int, line: int)
    requires
        0 <= i < src.len(),
    ensures
        forall|j: int|
            0 <= j < scan_step(src, i, line).toks.len() ==> lit_ok(
                #[trigger] scan_step(src, i, line).toks[j],
            ),
{
}

/// The scan model always yields a well-formed token sequence.
pub proof fn lemma_scan_rest_wf(src: Seq<char>, i: int, line: int)
    ensures
        toks_wf(scan_rest(src, i, line).toks),
    decreases src.len() - i,
{
    if !(0 <= i < src.len()) {
    } else {
        let s = scan_step(src, i, line);
        lemma_step_toks_ok(src, i, line);
        if i < s.next <= src.len() {
            lemma_scan_rest_wf(src, s.next, s.line);
            let rest = scan_rest(src, s.next, s.line);
            assert(scan_rest(src, i, line).toks[scan_rest(src, i, line).toks.len() - 1]
                == rest.toks[rest.toks.len() - 1]);
        }
    }
}

pub proof fn lemma_scan_model_wf(src: Seq<char>)
    ensures
        toks_wf(scan_model(src).toks),
{
    lemma_scan_rest_wf(src, 0, 1);
}

/// Whether every character of `s[a..b]` is an ASCII digit.
pub open spec fn all_digits(s: Seq<char>, a: int, b: int) -> bool {
    forall|j: int| a <= j < b ==> is_digit(#[trigger] s[j])
}

/// A valid numeric literal: one or more digits, optionally followed by a
/// point and one or more digits.
pub open spec fn valid_number_lexeme(s: Seq<char>) -> bool {
    ||| (s.len() >= 1 && all_digits(s, 0, s.len() as int))
    ||| (exists|d: int|
        #![trigger s[d]]
        (1 <= d < s.len() - 1 && s[d] == '.' && all_digits(s, 0, d) && all_digits(
            s,
            d + 1,
            s.len() as int,
        )))
}

/// Law: scanning any valid numeric literal yields exactly one number token,
/// whose lexeme is the whole text and whose decoded value is the parsed
/// value of that lexeme, followed by the end-of-input token, and reports no
/// error.
pub proof fn lemma_scan_number_literal(s: Seq<char>)
    requires
        valid_number_lexeme(s),
    ensures
        scan_model(s).toks == seq![
            tok(TokenType::Number, s, Some(LitM::Number(parse_bits(s))), 1),
            eof_tok(1),
        ],
        scan_model(s).diags == Seq::<Seq<char>>::empty(),
{
    let len = s.len() as int;
    if s.len() >= 1 && all_digits(s, 0, len) {
        assert(is_digit(s[0]));
        lemma_count_while_exact(digit_pred(), s, 1, len);
        let st = scan_step(s, 0, 1);
        assert(st.next == len);
    } else {
        let d = choose|d: int|
            #![trigger s[d]]
            (1 <= d < s.len() - 1 && s[d] == '.' && all_digits(s, 0, d) && all_digits(
                s,
                d + 1,
                s.len() as int,
            ));
        assert(is_digit(s[0]));
        lemma_count_while_exact(digit_pred(), s, 1, d);
        lemma_count_while_exact(digit_pred(), s, d + 1, len);
        let st = scan_step(s, 0, 1);
        assert(st.next == len);
    }
    assert(s.subrange(0, len) =~= s);
    assert(scan_step(s, 0, 1).toks =~= seq![
        tok(TokenType::Number, s, Some(LitM::Number(parse_bits(s))), 1),
    ]);
    assert(scan_rest(s, len, 1).toks =~= seq![eof_tok(1)]);
    assert(scan_rest(s, len, 1).diags =~= Seq::<Seq<char>>::empty());
    assert(scan_model(s).toks =~= seq![
        tok(TokenType::Number, s, Some(LitM::Number(parse_bits(s))), 1),
        eof_tok(1),
    ]);
    assert(scan_model(s).diags =~= Seq::<Seq<char>>::empty());
}

/// Law: scanning a well-formed string literal yields exactly one string
/// token whose literal value is the text between the quotes, followed by the
/// end-of-input token, and reports no error. Newlines inside the string move
/// the line counter.
pub proof fn lemma_scan_string_literal(s: Seq<char>, inner: Seq<char>)
    requires
        s == seq!['"'] + inner + seq!['"'],
        forall|j: int| 0 <= j < inner.len() ==> inner[j] != '"',
    ensures
        ({
            let line2 = 1 + count_newlines(s, 1, s.len() - 1);
            &&& scan_model(s).toks == seq![
                tok(TokenType::String, s, Some(LitM::Str(inner)), line2),
                eof_tok(line2),
            ]
            &&& scan_model(s).diags == Seq::<Seq<char>>::empty()
        }),
{
    let len = s.len() as int;
    assert(len == inner.len() + 2);
    assert(s[0] == '"');
    assert(s[len - 1] == '"');
    assert(forall|j: int| 1 <= j < len - 1 ==> #[trigger] s[j] == inner[j - 1]);
    lemma_count_while_exact(not_quote_pred(), s, 1, len - 1);
    let st = scan_step(s, 0, 1);
    let line2 = 1 + count_newlines(s, 1, len - 1);
    assert(st.next == len);
    assert(s.subrange(0, len) =~= s);
    assert(s.subrange(1, len - 1) =~= inner);
    assert(st.toks =~= seq![tok(TokenType::String, s, Some(LitM::Str(inner)), line2)]);
    assert(scan_rest(s, len, line2).toks =~= seq![eof_tok(line2)]);
    assert(scan_rest(s, len, line2).diags =~= Seq::<Seq<char>>::empty());
    assert(scan_model(s).toks =~= seq![
        tok(TokenType::String, s, Some(LitM::Str(inner)), line2),
        eof_tok(line2),
    ]);
    assert(scan_model(s).diags =~= Seq::<Seq<char>>::empty());
}

/// Law: an opening quote never followed by a closing quote yields no token
/// for that run — only the end-of-input token — and reports exactly one
/// "Unterminated string." error.
pub proof fn lemma_scan_unterminated_string(s: Seq<char>, inner: Seq<char>)
    requires
        s == seq!['"'] + inner,
        forall|j: int| 0 <= j < inner.len() ==> inner[j] != '"',
    ensures
        ({
            let line2 = 1 + count_newlines(s, 1, s.len() as int);
            &&& scan_model(s).toks == seq![eof_tok(line2)]
            &&& scan_model(s).diags == seq![
                render_report(line2, Seq::empty(), "Unterminated string."@),
            ]
        }),
{
    let len = s.len() as int;
    assert(s[0] == '"');
    assert(forall|j: int| 1 <= j < len ==> #[trigger] s[j] == inner[j - 1]);
    lemma_count_while_exact(not_quote_pred(), s, 1, len);
    let st = scan_step(s, 0, 1);
    let line2 = 1 + count_newlines(s, 1, len);
    assert(st.next == len);
    assert(scan_rest(s, len, line2).toks =~= seq![eof_tok(line2)]);
    assert(scan_rest(s, len, line2).diags =~= Seq::<Seq<char>>::empty());
    assert(scan_model(s).toks =~= seq![eof_tok(line2)]);
    assert(scan_model(s).diags =~= seq![
        render_report(line2, Seq::empty(), "Unterminated string."@),
    ]);
}

/// The single-character punctuation set.
pub open spec fn is_single_punct(c: char) -> bool {
    c == '(' || c == ')' || c == '{' || c == '}' || c == ',' || c == '.' || c == '-' || c == '+'
        || c == ';' || c == '*'
}

/// The token kind a single-character punctuation mark scans to.
pub open spec fn punct_kind(c: char) -> TokenType {
    if c == '(' {
        TokenType::LeftParen
    } else if c == ')' {
        TokenType::RightParen
    } else if c == '{' {
        TokenType::LeftBrace
    } else if c == '}' {
        TokenType::RightBrace
    } else if c == ',' {
        TokenType::Comma
    } else if c == '.' {
        TokenType::Dot
    } else if c == '-' {
        TokenType::Minus
    } else if c == '+' {
        TokenType::Plus
    } else if c == ';' {
        TokenType::Semicolon
    } else {
        TokenType::Star
    }
}

/// Law: scanning an input that consists of one single-character punctuation
/// mark yields exactly two tokens — that punctuation token and end-of-input
/// — and reports no error.
pub proof fn lemma_scan_single_punct(c: char)
    requires
        is_single_punct(c),
    ensures
        scan_model(seq![c]).toks == seq![tok(punct_kind(c), seq![c], None, 1), eof_tok(1)],
        scan_model(seq![c]).diags == Seq::<Seq<char>>::empty(),
{
    let s = seq![c];
    assert(s[0] == c);
    let st = scan_step(s, 0, 1);
    assert(st.next == 1);
    assert(s.subrange(0, 1) =~= s);
    assert(st.toks =~= seq![tok(punct_kind(c), s, None, 1)]);
    assert(scan_rest(s, 1, 1).toks =~= seq![eof_tok(1)]);
    assert(scan_rest(s, 1, 1).diags =~= Seq::<Seq<char>>::empty());
    assert(scan_model(s).toks =~= seq![tok(punct_kind(c), seq![c], None, 1), eof_tok(1)]);
    assert(scan_model(s).diags =~= Seq::<Seq<char>>::empty());
}

} // verus!
