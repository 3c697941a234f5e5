//! The tokens a parser reads: categories with the source text of literals
//! and identifiers.
use vstd::prelude::*;
use vstd::string::StringExecFns;

use crate::lexer::{hidden, Token};

verus! {

/// A token as a parser sees it: literals and identifiers carry their text.
#[derive(Clone, Debug, PartialEq)]
pub enum Tok<'input> {
    Bool,
    Break,
    Class,
    Double,
    Else,
    For,
    If,
    Int,
    Null,
    Public,
    Return,
    Static,
    StringKw,
    Void,
    While,
    BoolLit(bool),
    IntLit(&'input str),
    DoubleLit(&'input str),
    StringLit(&'input str),
    Identifier(&'input str),
    LParen,
    RParen,
    LBracket,
    RBracket,
    LBrace,
    RBrace,
    Semicolon,
    Comma,
    Dot,
    Plus,
    Minus,
    Star,
    Slash,
    Percent,
    Assign,
    Bang,
    Less,
    Greater,
    LessEqual,
    GreaterEqual,
    EqualEqual,
    NotEqual,
    LogicalAnd,
    LogicalOr,
    PlusAssign,
    MinusAssign,
}

/// The parser token for a scanned token of category `tok` with text
/// `slice`. A colon, which the grammar does not use, reads as a semicolon;
/// hidden tokens are never converted.
pub open spec fn mapped<'a>(tok: Token, slice: &'a str) -> Tok<'a> {
    match tok {
        Token::Bool => Tok::Bool,
        Token::Break => Tok::Break,
        Token::Class => Tok::Class,
        Token::Double => Tok::Double,
        Token::Else => Tok::Else,
        Token::For => Tok::For,
        Token::If => Tok::If,
        Token::Int => Tok::Int,
        Token::Null => Tok::Null,
        Token::Public => Tok::Public,
        Token::Return => Tok::Return,
        Token::Static => Tok::Static,
        Token::StringKw => Tok::StringKw,
        Token::Void => Tok::Void,
        Token::While => Tok::While,
        Token::True => Tok::BoolLit(true),
        Token::False => Tok::BoolLit(false),
        Token::IntLit => Tok::IntLit(slice),
        Token::DoubleLit => Tok::DoubleLit(slice),
        Token::StringLit => Tok::StringLit(slice),
        Token::Identifier => Tok::Identifier(slice),
        Token::LParen => Tok::LParen,
        Token::RParen => Tok::RParen,
        Token::LBracket => Tok::LBracket,
        Token::RBracket => Tok::RBracket,
        Token::LBrace => Tok::LBrace,
        Token::RBrace => Tok::RBrace,
        Token::Semicolon => Tok::Semicolon,
        Token::Comma => Tok::Comma,
        Token::Dot => Tok::Dot,
        Token::Plus => Tok::Plus,
        Token::Minus => Tok::Minus,
        Token::Star => Tok::Star,
        Token::Slash => Tok::Slash,
        Token::Percent => Tok::Percent,
        Token::Assign => Tok::Assign,
        Token::Bang => Tok::Bang,
        Token::Less => Tok::Less,
        Token::Greater => Tok::Greater,
        Token::LessEqual => Tok::LessEqual,
        Token::GreaterEqual => Tok::GreaterEqual,
        Token::EqualEqual => Tok::EqualEqual,
        Token::NotEqual => Tok::NotEqual,
        Token::LogicalAnd => Tok::LogicalAnd,
        Token::LogicalOr => Tok::LogicalOr,
        Token::PlusAssign => Tok::PlusAssign,
        Token::MinusAssign => Tok::MinusAssign,
        Token::Colon => Tok::Semicolon,
        _ => Tok::Semicolon,
    }
}

/// Converts a scanned token (not a hidden one) to the parser's token.
pub fn map_token<'a>(tok: Token, slice: &'a str) -> (r: Tok<'a>)
    requires
        !hidden(tok),
    ensures
        r == mapped(tok, slice),
{
    match tok {
        Token::Bool => Tok::Bool,
        Token::Break => Tok::Break,
        Token::Class => Tok::Class,
        Token::Double => Tok::Double,
        Token::Else => Tok::Else,
        Token::For => Tok::For,
        Token::If => Tok::If,
        Token::Int => Tok::Int,
        Token::Null => Tok::Null,
        Token::Public => Tok::Public,
        Token::Return => Tok::Return,
        Token::Static => Tok::Static,
        Token::StringKw => Tok::StringKw,
        Token::Void => Tok::Void,
        Token::While => Tok::While,
        Token::True => Tok::BoolLit(true),
        Token::False => Tok::BoolLit(false),
        Token::IntLit => Tok::IntLit(slice),
        Token::DoubleLit => Tok::DoubleLit(slice),
        Token::StringLit => Tok::StringLit(slice),
        Token::Identifier => Tok::Identifier(slice),
        Token::LParen => Tok::LParen,
        Token::RParen => Tok::RParen,
        Token::LBracket => Tok::LBracket,
        Token::RBracket => Tok::RBracket,
        Token::LBrace => Tok::LBrace,
        Token::RBrace => Tok::RBrace,
        Token::Semicolon => Tok::Semicolon,
        Token::Comma => Tok::Comma,
        Token::Dot => Tok::Dot,
        Token::Plus => Tok::Plus,
        Token::Minus => Tok::Minus,
        Token::Star => Tok::Star,
        Token::Slash => Tok::Slash,
        Token::Percent => Tok::Percent,
        Token::Assign => Tok::Assign,
        Token::Bang => Tok::Bang,
        Token::Less => Tok::Less,
        Token::Greater => Tok::Greater,
        Token::LessEqual => Tok::LessEqual,
        Token::GreaterEqual => Tok::GreaterEqual,
        Token::EqualEqual => Tok::EqualEqual,
        Token::NotEqual => Tok::NotEqual,
        Token::LogicalAnd => Tok::LogicalAnd,
        Token::LogicalOr => Tok::LogicalOr,
        Token::PlusAssign => Tok::PlusAssign,
        Token::MinusAssign => Tok::MinusAssign,
        Token::Colon => Tok::Semicolon,
        Token::Newline | Token::LineComment | Token::BlockComment => Tok::Semicolon,
    }
}

/// How a token reads in a diagnostic: its spelling, or its text.
pub open spec fn tok_text<'a>(t: Tok<'a>) -> Seq<char> {
    match t {
        Tok::Bool => "bool"@,
        Tok::Break => "break"@,
        Tok::Class => "class"@,
        Tok::Double => "double"@,
        Tok::Else => "else"@,
        Tok::For => "for"@,
        Tok::If => "if"@,
        Tok::Int => "int"@,
        Tok::Null => "null"@,
        Tok::Public => "public"@,
        Tok::Return => "return"@,
        Tok::Static => "static"@,
        Tok::StringKw => "string"@,
        Tok::Void => "void"@,
        Tok::While => "while"@,
        Tok::BoolLit(b) => if b {
            "true"@
        } else {
            "false"@
        },
        Tok::IntLit(s) => s@,
        Tok::DoubleLit(s) => s@,
        Tok::StringLit(s) => s@,
        Tok::Identifier(s) => s@,
        Tok::LParen => "("@,
        Tok::RParen => ")"@,
        Tok::LBracket => "["@,
        Tok::RBracket => "]"@,
        Tok::LBrace => "{"@,
        Tok::RBrace => "}"@,
        Tok::Semicolon => ";"@,
        Tok::Comma => ","@,
        Tok::Dot => "."@,
        Tok::Plus => "+"@,
        Tok::Minus => "-"@,
        Tok::Star => "*"@,
        Tok::Slash => "/"@,
        Tok::Percent => "%"@,
        Tok::Assign => "="@,
        Tok::Bang => "!"@,
        Tok::Less => "<"@,
        Tok::Greater => ">"@,
        Tok::LessEqual => "<="@,
        Tok::GreaterEqual => ">="@,
        Tok::EqualEqual => "=="@,
        Tok::NotEqual => "!="@,
        Tok::LogicalAnd => "&&"@,
        Tok::LogicalOr => "||"@,
        Tok::PlusAssign => "+="@,
        Tok::MinusAssign => "-="@,
    }
}

impl<'input> Tok<'input> {
    /// How this token reads in a diagnostic.
    pub fn text(&self) -> (r: String)
        ensures
            r@ == tok_text(*self),
    {
        let s: &str = match self {
            Tok::Bool => "bool",
            Tok::Break => "break",
            Tok::Class => "class",
            Tok::Double => "double",
            Tok::Else => "else",
            Tok::For => "for",
            Tok::If => "if",
            Tok::Int => "int",
            Tok::Null => "null",
            Tok::Public => "public",
            Tok::Return => "return",
            Tok::Static => "static",
            Tok::StringKw => "string",
            Tok::Void => "void",
            Tok::While => "while",
            Tok::BoolLit(b) => if *b {
                "true"
            } else {
                "false"
            },
            Tok::IntLit(s) => s,
            Tok::DoubleLit(s) => s,
            Tok::StringLit(s) => s,
            Tok::Identifier(s) => s,
            Tok::LParen => "(",
            Tok::RParen => ")",
            Tok::LBracket => "[",
            Tok::RBracket => "]",
            Tok::LBrace => "{",
            Tok::RBrace => "}",
            Tok::Semicolon => ";",
            Tok::Comma => ",",
            Tok::Dot => ".",
            Tok::Plus => "+",
            Tok::Minus => "-",
            Tok::Star => "*",
            Tok::Slash => "/",
            Tok::Percent => "%",
            Tok::Assign => "=",
            Tok::Bang => "!",
            Tok::Less => "<",
            Tok::Greater => ">",
            Tok::LessEqual => "<=",
            Tok::GreaterEqual => ">=",
            Tok::EqualEqual => "==",
            Tok::NotEqual => "!=",
            Tok::LogicalAnd => "&&",
            Tok::LogicalOr => "||",
            Tok::PlusAssign => "+=",
            Tok::MinusAssign => "-=",
        };
        s.to_owned()
    }
}

/// A scanning failure reported to a parser: the byte position and a
/// message.
#[derive(Clone, Debug, PartialEq)]
pub struct LexicalError {
    pub pos: usize,
    pub msg: String,
}

impl LexicalError {
    /// The diagnostic text: `lexical error at byte N: message`.
    pub fn message(&self) -> (r: String)
        ensures
            r@ == "lexical error at byte "@ + crate::text::decimal(self.pos as nat) + ": "@
                + self.msg@,
    {
        let mut r = String::from_str("lexical error at byte ");
        r.append(crate::text::decimal_string(self.pos as u64).as_str());
        r.append(": ");
        r.append(self.msg.as_str());
        r
    }
}

/// The outcome of a syntax check: whether the input was accepted, and the
/// messages otherwise.
#[derive(Debug)]
pub struct ParseResult {
    pub success: bool,
    pub errors: Vec<String>,
}

} // verus!
