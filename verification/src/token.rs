use vstd::prelude::*;

verus! {

/// The kinds of token that the lexer produces and the parser consumes.
#[derive(Clone, Copy, Debug, PartialEq, Eq, Hash, Structural)]
pub enum TokenType {
    // literals
    Number,
    Identifier,
    String,
    // operators
    Assign,
    // arithmetic
    Plus,
    Minus,
    Times,
    Divide,
    Modulo,
    // compound assignment
    PlusEqual,
    MinusEqual,
    TimesEqual,
    DivEqual,
    ModuloEqual,
    // punctuation
    LParen,
    RParen,
    LBrace,
    RBrace,
    Comma,
    Semicolon,
    Colon,
    Dot,
    // comparisons
    Bang,
    Less,
    Greater,
    EqualEqual,
    NotEqual,
    LessEqual,
    GreaterEqual,
    // keywords
    Let,
    True,
    False,
    And,
    Or,
    If,
    Elif,
    Else,
    For,
    While,
    Break,
    Continue,
    Fn,
    Return,
    EOF,
}

/// A token: its kind, the character positions `span.start..span.end` it covers
/// in the source, and its text.
#[derive(Debug)]
pub struct Token {
    pub kind: TokenType,
    pub span: std::ops::Range<usize>,
    pub lexeme: String,
}

/// The mathematical content of a token.
pub struct TokenView {
    pub kind: TokenType,
    pub start: nat,
    pub end: nat,
    pub lexeme: Seq<char>,
}

impl View for Token {
    type V = TokenView;

    open spec fn view(&self) -> TokenView {
        TokenView {
            kind: self.kind,
            start: self.span.start as nat,
            end: self.span.end as nat,
            lexeme: self.lexeme@,
        }
    }
}

impl Clone for Token {
    fn clone(&self) -> (r: Token)
        ensures
            r@ == self@,
    {
        Token {
            kind: self.kind,
            span: self.span.start..self.span.end,
            lexeme: self.lexeme.clone(),
        }
    }
}

/// The views of a sequence of tokens.
pub open spec fn tokens_view(ts: Seq<Token>) -> Seq<TokenView> {
    ts.map_values(|t: Token| t@)
}

impl TokenType {
    /// The name of the kind, as `{:?}` prints it.
    pub open spec fn spec_name(self) -> Seq<char> {
        match self {
            TokenType::Number => "Number"@,
            TokenType::Identifier => "Identifier"@,
            TokenType::String => "String"@,
            TokenType::Assign => "Assign"@,
            TokenType::Plus => "Plus"@,
            TokenType::Minus => "Minus"@,
            TokenType::Times => "Times"@,
            TokenType::Divide => "Divide"@,
            TokenType::Modulo => "Modulo"@,
            TokenType::PlusEqual => "PlusEqual"@,
            TokenType::MinusEqual => "MinusEqual"@,
            TokenType::TimesEqual => "TimesEqual"@,
            TokenType::DivEqual => "DivEqual"@,
            TokenType::ModuloEqual => "ModuloEqual"@,
            TokenType::LParen => "LParen"@,
            TokenType::RParen => "RParen"@,
            TokenType::LBrace => "LBrace"@,
            TokenType::RBrace => "RBrace"@,
            TokenType::Comma => "Comma"@,
            TokenType::Semicolon => "Semicolon"@,
            TokenType::Colon => "Colon"@,
            TokenType::Dot => "Dot"@,
            TokenType::Bang => "Bang"@,
            TokenType::Less => "Less"@,
            TokenType::Greater => "Greater"@,
            TokenType::EqualEqual => "EqualEqual"@,
            TokenType::NotEqual => "NotEqual"@,
            TokenType::LessEqual => "LessEqual"@,
            TokenType::GreaterEqual => "GreaterEqual"@,
            TokenType::Let => "Let"@,
            TokenType::True => "True"@,
            TokenType::False => "False"@,
            TokenType::And => "And"@,
            TokenType::Or => "Or"@,
            TokenType::If => "If"@,
            TokenType::Elif => "Elif"@,
            TokenType::Else => "Else"@,
            TokenType::For => "For"@,
            TokenType::While => "While"@,
            TokenType::Break => "Break"@,
            TokenType::Continue => "Continue"@,
            TokenType::Fn => "Fn"@,
            TokenType::Return => "Return"@,
            TokenType::EOF => "EOF"@,
        }
    }

    /// The name of the kind, as `{:?}` prints it.
    pub fn name(&self) -> (s: &'static str)
        ensures
            s@ == self.spec_name(),
    {
        match self {
            TokenType::Number => "Number",
            TokenType::Identifier => "Identifier",
            TokenType::String => "String",
            TokenType::Assign => "Assign",
            TokenType::Plus => "Plus",
            TokenType::Minus => "Minus",
            TokenType::Times => "Times",
            TokenType::Divide => "Divide",
            TokenType::Modulo => "Modulo",
            TokenType::PlusEqual => "PlusEqual",
            TokenType::MinusEqual => "MinusEqual",
            TokenType::TimesEqual => "TimesEqual",
            TokenType::DivEqual => "DivEqual",
            TokenType::ModuloEqual => "ModuloEqual",
            TokenType::LParen => "LParen",
            TokenType::RParen => "RParen",
            TokenType::LBrace => "LBrace",
            TokenType::RBrace => "RBrace",
            TokenType::Comma => "Comma",
            TokenType::Semicolon => "Semicolon",
            TokenType::Colon => "Colon",
            TokenType::Dot => "Dot",
            TokenType::Bang => "Bang",
            TokenType::Less => "Less",
            TokenType::Greater => "Greater",
            TokenType::EqualEqual => "EqualEqual",
            TokenType::NotEqual => "NotEqual",
            TokenType::LessEqual => "LessEqual",
            TokenType::GreaterEqual => "GreaterEqual",
            TokenType::Let => "Let",
            TokenType::True => "True",
            TokenType::False => "False",
            TokenType::And => "And",
            TokenType::Or => "Or",
            TokenType::If => "If",
            TokenType::Elif => "Elif",
            TokenType::Else => "Else",
            TokenType::For => "For",
            TokenType::While => "While",
            TokenType::Break => "Break",
            TokenType::Continue => "Continue",
            TokenType::Fn => "Fn",
            TokenType::Return => "Return",
            TokenType::EOF => "EOF",
        }
    }
}

} // verus!
