//! The token alphabet shared by every pass of the transpiler.
//!
//! Token sequences are the sole intermediate representation between the
//! lexer, the lowering pass, the emitter and the printer.

use vstd::prelude::*;

verus! {

/// A lexical token. Each textual kind carries the exact matched text,
/// including delimiters for string and character literals and the comment
/// markers for comments.
#[derive(Debug, PartialEq)]
pub enum Token {
    Identifier(String),
    Number(String),
    StringLit(String),
    CharLit(String),
    Symbol(String),
    Comment(String),
    Newline,
    Eof,
}

/// The mathematical model of a token: the same eight kinds over `Seq<char>`.
pub enum Tok {
    Identifier(Seq<char>),
    Number(Seq<char>),
    StringLit(Seq<char>),
    CharLit(Seq<char>),
    Symbol(Seq<char>),
    Comment(Seq<char>),
    Newline,
    Eof,
}

impl DeepView for Token {
    type V = Tok;

    open spec fn deep_view(&self) -> Tok {
        match self {
            Token::Identifier(s) => Tok::Identifier(s@),
            Token::Number(s) => Tok::Number(s@),
            Token::StringLit(s) => Tok::StringLit(s@),
            Token::CharLit(s) => Tok::CharLit(s@),
            Token::Symbol(s) => Tok::Symbol(s@),
            Token::Comment(s) => Tok::Comment(s@),
            Token::Newline => Tok::Newline,
            Token::Eof => Tok::Eof,
        }
    }
}

impl Clone for Token {
    /// A clone is the same token, so views carry over unchanged.
    fn clone(&self) -> (r: Token)
        ensures
            r == *self,
    {
        match self {
            Token::Identifier(s) => Token::Identifier(s.clone()),
            Token::Number(s) => Token::Number(s.clone()),
            Token::StringLit(s) => Token::StringLit(s.clone()),
            Token::CharLit(s) => Token::CharLit(s.clone()),
            Token::Symbol(s) => Token::Symbol(s.clone()),
            Token::Comment(s) => Token::Comment(s.clone()),
            Token::Newline => Token::Newline,
            Token::Eof => Token::Eof,
        }
    }
}

/// The model of a token sequence: each token replaced by its view.
pub open spec fn deep(ts: Seq<Token>) -> Seq<Tok> {
    ts.map_values(|t: Token| t.deep_view())
}

pub proof fn lemma_deep_push(ts: Seq<Token>, t: Token)
    ensures
        deep(ts.push(t)) == deep(ts).push(t.deep_view()),
{
    assert(deep(ts.push(t)) =~= deep(ts).push(t.deep_view()));
}

/// One scanning step: the tokens recognised so far, extended by the token
/// just produced, still split the target stream at the new position.
pub proof fn lemma_scan_extend(
    whole: Seq<Tok>,
    done: Seq<Token>,
    t: Token,
    rest_old: Seq<Tok>,
    rest_new: Seq<Tok>,
)
    requires
        whole == deep(done) + rest_old,
        rest_old == seq![t.deep_view()] + rest_new,
    ensures
        whole == deep(done.push(t)) + rest_new,
{
    lemma_deep_push(done, t);
    assert(whole =~= deep(done.push(t)) + rest_new);
}

/// The text a token contributes to printed output: its carried text,
/// a line break for `Newline`, nothing for `Eof`.
pub open spec fn tok_text(t: Tok) -> Seq<char> {
    match t {
        Tok::Identifier(s) => s,
        Tok::Number(s) => s,
        Tok::StringLit(s) => s,
        Tok::CharLit(s) => s,
        Tok::Symbol(s) => s,
        Tok::Comment(s) => s,
        Tok::Newline => seq!['\n'],
        Tok::Eof => Seq::empty(),
    }
}

} // verus!
