//! The detokenizer: token sequence back to text.
//!
//! Newline tokens become literal line breaks; for every other adjacent
//! pair a fixed spacing table decides whether a single space is inserted.
//! Generated snippets are re-lexed and spliced back through this same
//! printer, so the table below is part of the output format itself.

use vstd::prelude::*;

use crate::text::{push_char, str_eq};
use vstd::string::StringExecFns;
use crate::token::{deep, tok_text, Tok, Token};

verus! {

/// Symbols that bind tightly between two symbol tokens: no space is
/// printed when the left one opens a group or the right one closes,
/// around member access, angle brackets, semicolons and commas.
pub open spec fn sym_sym_tight(a: Seq<char>, b: Seq<char>) -> bool {
    ||| a == seq!['(']
    ||| b == seq![')']
    ||| a == seq!['[']
    ||| b == seq![']']
    ||| a == seq!['.']
    ||| b == seq!['.']
    ||| a == seq!['-', '>']
    ||| b == seq!['-', '>']
    ||| a == seq!['<']
    ||| b == seq!['>']
    ||| a == seq![';']
    ||| b == seq![';']
    ||| a == seq![',']
    ||| b == seq![',']
}

/// Symbols that an identifier abuts from the left: `f(`, `a[`, `a.`,
/// `a->`, `a;`, `a,`, `a>`.
pub open spec fn ident_then_sym_tight(s: Seq<char>) -> bool {
    ||| s == seq!['(']
    ||| s == seq!['[']
    ||| s == seq!['.']
    ||| s == seq!['-', '>']
    ||| s == seq![';']
    ||| s == seq![',']
    ||| s == seq!['>']
}

/// Opening or prefix-like symbols that abut a following identifier or
/// number: `(a`, `[a`, `.a`, `->a`, `!a`, `~a`, `*a`, `&a`, `+a`, `-a`, `<a`.
pub open spec fn sym_then_operand_tight(s: Seq<char>) -> bool {
    ||| s == seq!['(']
    ||| s == seq!['[']
    ||| s == seq!['.']
    ||| s == seq!['-', '>']
    ||| s == seq!['!']
    ||| s == seq!['~']
    ||| s == seq!['*']
    ||| s == seq!['&']
    ||| s == seq!['+']
    ||| s == seq!['-']
    ||| s == seq!['<']
}

/// Symbols that a number abuts from the left: as for identifiers, plus
/// closing parentheses and brackets.
pub open spec fn num_then_sym_tight(s: Seq<char>) -> bool {
    ||| s == seq!['(']
    ||| s == seq!['[']
    ||| s == seq!['.']
    ||| s == seq!['-', '>']
    ||| s == seq![';']
    ||| s == seq![',']
    ||| s == seq!['>']
    ||| s == seq![')']
    ||| s == seq![']']
}

/// The spacing table: whether a single space is printed between the
/// token `prev` and the token `cur`.
pub open spec fn spec_needs_space(prev: Tok, cur: Tok) -> bool {
    match (prev, cur) {
        (Tok::Newline, _) => false,
        (_, Tok::Newline) => false,
        (Tok::Comment(_), _) => false,
        (Tok::Symbol(a), Tok::Symbol(b)) => !sym_sym_tight(a, b),
        (Tok::Identifier(_), Tok::Symbol(s)) => !ident_then_sym_tight(s),
        (Tok::Symbol(s), Tok::Identifier(_)) => !sym_then_operand_tight(s),
        (Tok::Symbol(s), Tok::Number(_)) => !sym_then_operand_tight(s),
        (Tok::Number(_), Tok::Symbol(s)) => !num_then_sym_tight(s),
        (Tok::Identifier(_), Tok::Identifier(_)) => true,
        (Tok::Identifier(_), Tok::Number(_)) => true,
        (Tok::Number(_), Tok::Identifier(_)) => true,
        (Tok::Number(_), Tok::Number(_)) => true,
        (Tok::StringLit(_), _) => true,
        (_, Tok::StringLit(_)) => true,
        (Tok::CharLit(_), _) => true,
        (_, Tok::CharLit(_)) => true,
        _ => true,
    }
}

/// The printed text of the tokens from position `i` on, given the last
/// non-`Eof` token already printed. `Eof` tokens are skipped and do not
/// affect spacing around them.
pub open spec fn spec_detok_from(ts: Seq<Tok>, i: int, prev: Option<Tok>) -> Seq<char>
    decreases ts.len() - i,
        when 0 <= i
{
    if i >= ts.len() {
        Seq::empty()
    } else if ts[i] is Eof {
        spec_detok_from(ts, i + 1, prev)
    } else {
        let space: Seq<char> = match prev {
            Some(p) => if spec_needs_space(p, ts[i]) {
                seq![' ']
            } else {
                Seq::empty()
            },
            None => Seq::empty(),
        };
        space + tok_text(ts[i]) + spec_detok_from(ts, i + 1, Some(ts[i]))
    }
}

/// The printed text of a whole token sequence.
pub open spec fn spec_detokenize(ts: Seq<Tok>) -> Seq<char> {
    spec_detok_from(ts, 0, None)
}

/// Decides the spacing table for one adjacent pair.
fn needs_space(prev: &Token, cur: &Token) -> (r: bool)
    ensures
        r == spec_needs_space(prev.deep_view(), cur.deep_view()),
{
    proof {
        reveal_strlit("(");
        reveal_strlit(")");
        reveal_strlit("[");
        reveal_strlit("]");
        reveal_strlit(".");
        reveal_strlit("->");
        reveal_strlit("<");
        reveal_strlit(">");
        reveal_strlit(";");
        reveal_strlit(",");
        reveal_strlit("!");
        reveal_strlit("~");
        reveal_strlit("*");
        reveal_strlit("&");
        reveal_strlit("+");
        reveal_strlit("-");
        assert("("@ =~= seq!['(']);
        assert(")"@ =~= seq![')']);
        assert("["@ =~= seq!['[']);
        assert("]"@ =~= seq![']']);
        assert("."@ =~= seq!['.']);
        assert("->"@ =~= seq!['-', '>']);
        assert("<"@ =~= seq!['<']);
        assert(">"@ =~= seq!['>']);
        assert(";"@ =~= seq![';']);
        assert(","@ =~= seq![',']);
        assert("!"@ =~= seq!['!']);
        assert("~"@ =~= seq!['~']);
        assert("*"@ =~= seq!['*']);
        assert("&"@ =~= seq!['&']);
        assert("+"@ =~= seq!['+']);
        assert("-"@ =~= seq!['-']);
    }
    match (prev, cur) {
        (Token::Newline, _) => false,
        (_, Token::Newline) => false,
        (Token::Comment(_), _) => false,
        (Token::Symbol(a), Token::Symbol(b)) => {
            let tight = str_eq(a, "(") || str_eq(b, ")") || str_eq(a, "[") || str_eq(b, "]")
                || str_eq(a, ".") || str_eq(b, ".") || str_eq(a, "->") || str_eq(b, "->")
                || str_eq(a, "<") || str_eq(b, ">") || str_eq(a, ";") || str_eq(b, ";")
                || str_eq(a, ",") || str_eq(b, ",");
            !tight
        },
        (Token::Identifier(_), Token::Symbol(s)) => {
            let tight = str_eq(s, "(") || str_eq(s, "[") || str_eq(s, ".") || str_eq(s, "->")
                || str_eq(s, ";") || str_eq(s, ",") || str_eq(s, ">");
            !tight
        },
        (Token::Symbol(s), Token::Identifier(_)) => !sym_operand_tight_exec(s),
        (Token::Symbol(s), Token::Number(_)) => !sym_operand_tight_exec(s),
        (Token::Number(_), Token::Symbol(s)) => {
            let tight = str_eq(s, "(") || str_eq(s, "[") || str_eq(s, ".") || str_eq(s, "->")
                || str_eq(s, ";") || str_eq(s, ",") || str_eq(s, ">") || str_eq(s, ")")
                || str_eq(s, "]");
            !tight
        },
        (Token::Identifier(_), Token::Identifier(_)) => true,
        (Token::Identifier(_), Token::Number(_)) => true,
        (Token::Number(_), Token::Identifier(_)) => true,
        (Token::Number(_), Token::Number(_)) => true,
        (Token::StringLit(_), _) => true,
        (_, Token::StringLit(_)) => true,
        (Token::CharLit(_), _) => true,
        (_, Token::CharLit(_)) => true,
        _ => true,
    }
}

/// Decides membership in the opening/prefix-like symbol set.
fn sym_operand_tight_exec(s: &String) -> (r: bool)
    ensures
        r == sym_then_operand_tight(s@),
{
    proof {
        reveal_strlit("(");
        reveal_strlit("[");
        reveal_strlit(".");
        reveal_strlit("->");
        reveal_strlit("!");
        reveal_strlit("~");
        reveal_strlit("*");
        reveal_strlit("&");
        reveal_strlit("+");
        reveal_strlit("-");
        reveal_strlit("<");
        assert("("@ =~= seq!['(']);
        assert("["@ =~= seq!['[']);
        assert("."@ =~= seq!['.']);
        assert("->"@ =~= seq!['-', '>']);
        assert("!"@ =~= seq!['!']);
        assert("~"@ =~= seq!['~']);
        assert("*"@ =~= seq!['*']);
        assert("&"@ =~= seq!['&']);
        assert("+"@ =~= seq!['+']);
        assert("-"@ =~= seq!['-']);
        assert("<"@ =~= seq!['<']);
    }
    str_eq(s, "(") || str_eq(s, "[") || str_eq(s, ".") || str_eq(s, "->") || str_eq(s, "!")
        || str_eq(s, "~") || str_eq(s, "*") || str_eq(s, "&") || str_eq(s, "+")
        || str_eq(s, "-") || str_eq(s, "<")
}

/// Prints a token sequence: `Eof` tokens are dropped, `Newline` becomes a
/// line break, and the spacing table decides where a single space goes.
#[verifier::rlimit(80)]
pub fn detokenize(tokens: &[Token]) -> (r: String)
    ensures
        r@ == spec_detokenize(deep(tokens@)),
{
    let ghost ts = deep(tokens@);
    let mut output = String::new();
    // Index of the last non-Eof token printed, if any.
    let mut prev: Option<usize> = None;
    let mut i: usize = 0;
    while i < tokens.len()
        invariant
            ts == deep(tokens@),
            ts.len() == tokens@.len(),
            i <= tokens@.len(),
            match prev {
                Some(j) => j < i && !(ts[j as int] is Eof) && spec_detok_from(ts, 0, None)
                    == output@ + spec_detok_from(ts, i as int, Some(ts[j as int])),
                None => spec_detok_from(ts, 0, None) == output@ + spec_detok_from(
                    ts,
                    i as int,
                    None,
                ),
            },
        decreases tokens@.len() - i,
    {
        let is_eof = match &tokens[i] {
            Token::Eof => true,
            _ => false,
        };
        if !is_eof {
            match prev {
                Some(j) => {
                    if needs_space(&tokens[j], &tokens[i]) {
                        push_char(&mut output, ' ');
                    }
                },
                None => {},
            }
            match &tokens[i] {
                Token::Identifier(s) => output.append(s.as_str()),
                Token::Number(s) => output.append(s.as_str()),
                Token::StringLit(s) => output.append(s.as_str()),
                Token::CharLit(s) => output.append(s.as_str()),
                Token::Comment(s) => output.append(s.as_str()),
                Token::Symbol(s) => output.append(s.as_str()),
                Token::Newline => push_char(&mut output, '\n'),
                Token::Eof => {},
            }
            proof {
                assert(output@ =~= output@);
            }
            prev = Some(i);
        }
        i += 1;
    }
    output
}

} // verus!
