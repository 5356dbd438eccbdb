//! The vocabulary of lexical units shared by scanner, parser and evaluator.
use vstd::prelude::*;

verus! {

/// The closed set of lexical categories.
#[derive(Clone, Copy, Debug, PartialEq, Eq, Structural)]
pub enum TokenType {
    LeftParen,
    RightParen,
    LeftBrace,
    RightBrace,
    Comma,
    Dot,
    Minus,
    Plus,
    Semicolon,
    Slash,
    Star,
    Bang,
    BangEqual,
    Equal,
    EqualEqual,
    Greater,
    GreaterEqual,
    Less,
    LessEqual,
    Identifier,
    String,
    Number,
    And,
    Class,
    Else,
    False,
    Fun,
    For,
    If,
    Nil,
    Or,
    Print,
    Return,
    Super,
    This,
    True,
    Var,
    While,
    Eof,
}

/// A literal value decoded by the scanner. Numbers are carried as the bit
/// pattern of an IEEE 754 binary64 value.
#[derive(Debug)]
pub enum Literal {
    Number(u64),
    Str(String),
    Bool(bool),
    Nil,
}

/// Mathematical model of a literal value.
pub enum LitM {
    Number(u64),
    Str(Seq<char>),
    Bool(bool),
    Nil,
}

impl View for Literal {
    type V = LitM;

    open spec fn view(&self) -> LitM {
        match self {
            Literal::Number(n) => LitM::Number(*n),
            Literal::Str(s) => LitM::Str(s@),
            Literal::Bool(b) => LitM::Bool(*b),
            Literal::Nil => LitM::Nil,
        }
    }
}

impl Clone for Literal {
    fn clone(&self) -> (r: Self)
        ensures
            r@ == self@,
    {
        match self {
            Literal::Number(n) => Literal::Number(*n),
            Literal::Str(s) => Literal::Str(s.clone()),
            Literal::Bool(b) => Literal::Bool(*b),
            Literal::Nil => Literal::Nil,
        }
    }
}

/// A lexical unit: category, exact source text, decoded literal (for number
/// and string tokens only) and the 1-based source line it started on.
#[derive(Debug)]
pub struct Token {
    pub kind: TokenType,
    pub lexeme: String,
    pub literal: Option<Literal>,
    pub line: usize,
}

/// Mathematical model of a token.
pub struct TokenM {
    pub kind: TokenType,
    pub lexeme: Seq<char>,
    pub literal: Option<LitM>,
    pub line: int,
}

impl View for Token {
    type V = TokenM;

    open spec fn view(&self) -> TokenM {
        TokenM {
            kind: self.kind,
            lexeme: self.lexeme@,
            literal: match self.literal {
                Some(l) => Some(l@),
                None => None,
            },
            line: self.line as int,
        }
    }
}

impl Clone for Token {
    fn clone(&self) -> (r: Self)
        ensures
            r@ == self@,
    {
        Token {
            kind: self.kind,
            lexeme: self.lexeme.clone(),
            literal: match &self.literal {
                Some(l) => Some(l.clone()),
                None => None,
            },
            line: self.line,
        }
    }
}

impl Token {
    pub fn new(kind: TokenType, lexeme: String, literal: Option<Literal>, line: usize) -> (t:
        Token)
        ensures
            t@ == (TokenM {
                kind,
                lexeme: lexeme@,
                literal: match literal {
                    Some(l) => Some(l@),
                    None => None,
                },
                line: line as int,
            }),
    {
        Token { kind, lexeme, literal, line }
    }
}

/// The models of a sequence of tokens.
pub open spec fn toks_view(ts: Seq<Token>) -> Seq<TokenM> {
    ts.map_values(|t: Token| t@)
}

pub broadcast proof fn lemma_toks_view_push(ts: Seq<Token>, t: Token)
    ensures
        #[trigger] toks_view(ts.push(t)) == toks_view(ts).push(t@),
{
    assert(toks_view(ts.push(t)) =~= toks_view(ts).push(t@));
}

/// The views of a sequence of strings.
pub open spec fn strs_view(ss: Seq<String>) -> Seq<Seq<char>> {
    ss.map_values(|s: String| s@)
}

pub broadcast proof fn lemma_strs_view_push(ss: Seq<String>, s: String)
    ensures
        #[trigger] strs_view(ss.push(s)) == strs_view(ss).push(s@),
{
    assert(strs_view(ss.push(s)) =~= strs_view(ss).push(s@));
}

} // verus!
