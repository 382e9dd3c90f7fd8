//! What printing and re-lexing preserve.
//!
//! The printer only ever inserts single spaces between tokens, and the
//! lexer only ever discards blanks, so printing a lexed text keeps every
//! other character: token text, comments and newlines survive unchanged,
//! and only blank runs are renormalised by the spacing table.

use vstd::prelude::*;

use crate::lexer::{
    is_blank, is_digit, is_ident_start, lemma_number_end_bounds, lemma_scan_string_bounds,
    lemma_skip_block_bounds, lemma_skip_ident_bounds, lemma_skip_line_bounds, number_end,
    op_text, scan_string, skip_block, skip_ident, skip_line, spec_lex, spec_tokenize,
};
use crate::printer::{spec_detok_from, spec_detokenize, spec_needs_space};
use crate::token::{tok_text, Tok};

verus! {

/// The text with every blank (whitespace other than newline) removed.
pub open spec fn strip_blanks(s: Seq<char>) -> Seq<char>
    decreases s.len(),
{
    if s.len() == 0 {
        Seq::empty()
    } else if is_blank(s[0]) {
        strip_blanks(s.drop_first())
    } else {
        seq![s[0]] + strip_blanks(s.drop_first())
    }
}

/// The concatenated text of the tokens from position `i` on.
pub open spec fn texts_from(ts: Seq<Tok>, i: int) -> Seq<char>
    decreases ts.len() - i,
        when 0 <= i
{
    if i >= ts.len() {
        Seq::empty()
    } else {
        tok_text(ts[i]) + texts_from(ts, i + 1)
    }
}

pub proof fn lemma_strip_concat(a: Seq<char>, b: Seq<char>)
    ensures
        strip_blanks(a + b) == strip_blanks(a) + strip_blanks(b),
    decreases a.len(),
{
    if a.len() == 0 {
        assert(a + b =~= b);
        assert(strip_blanks(a) + strip_blanks(b) =~= strip_blanks(b));
    } else {
        lemma_strip_concat(a.drop_first(), b);
        assert((a + b).drop_first() =~= a.drop_first() + b);
        assert((a + b)[0] == a[0]);
        assert((a + b).len() > 0);
        if is_blank(a[0]) {
            assert(strip_blanks(a + b) == strip_blanks(a.drop_first() + b));
            assert(strip_blanks(a + b) =~= strip_blanks(a) + strip_blanks(b));
        } else {
            assert(strip_blanks(a + b) == seq![a[0]] + strip_blanks(a.drop_first() + b));
            assert(strip_blanks(a + b) =~= strip_blanks(a) + strip_blanks(b));
        }
    }
}

/// The printed text and the bare token texts strip to the same thing:
/// the printer adds only blanks.
pub proof fn lemma_detok_strips_to_texts(ts: Seq<Tok>, i: int, prev: Option<Tok>)
    requires
        0 <= i,
    ensures
        strip_blanks(spec_detok_from(ts, i, prev)) == strip_blanks(texts_from(ts, i)),
    decreases ts.len() - i,
{
    if i >= ts.len() {
    } else if ts[i] is Eof {
        lemma_detok_strips_to_texts(ts, i + 1, prev);
        assert(tok_text(ts[i]) =~= Seq::<char>::empty());
        assert(texts_from(ts, i) =~= texts_from(ts, i + 1));
    } else {
        lemma_detok_strips_to_texts(ts, i + 1, Some(ts[i]));
        let space: Seq<char> = match prev {
            Some(p) => if spec_needs_space(p, ts[i]) {
                seq![' ']
            } else {
                Seq::empty()
            },
            None => Seq::empty(),
        };
        let text = tok_text(ts[i]);
        let rest = spec_detok_from(ts, i + 1, Some(ts[i]));
        assert(spec_detok_from(ts, i, prev) == space + text + rest);
        lemma_strip_concat(space + text, rest);
        lemma_strip_concat(space, text);
        assert(seq![' '].drop_first() =~= Seq::<char>::empty());
        assert(seq![' '].len() == 1 && seq![' '][0] == ' ');
        assert(strip_blanks(seq![' ']) == strip_blanks(seq![' '].drop_first()));
        assert(strip_blanks(Seq::<char>::empty()) == Seq::<char>::empty());
        assert(strip_blanks(space) =~= Seq::<char>::empty());
        lemma_strip_concat(text, texts_from(ts, i + 1));
        assert(strip_blanks(spec_detok_from(ts, i, prev)) =~= strip_blanks(
            texts_from(ts, i),
        ));
    }
}

pub proof fn lemma_texts_push(ts: Seq<Tok>, i: int, t: Tok)
    requires
        0 <= i <= ts.len(),
    ensures
        texts_from(ts.push(t), i) == texts_from(ts, i) + tok_text(t),
    decreases ts.len() - i,
{
    if i == ts.len() {
        assert(texts_from(ts.push(t), i) == tok_text(t) + texts_from(ts.push(t), i + 1));
        assert(texts_from(ts.push(t), i) =~= texts_from(ts, i) + tok_text(t));
    } else {
        lemma_texts_push(ts, i + 1, t);
        assert(ts.push(t)[i] == ts[i]);
        assert(texts_from(ts.push(t), i) =~= texts_from(ts, i) + tok_text(t));
    }
}

/// The lexed tokens' texts and the input strip to the same thing: the
/// lexer discards only blanks, and each token's text is exactly the run
/// of characters it consumed.
pub proof fn lemma_lex_strips_to_input(s: Seq<char>, i: int)
    requires
        0 <= i <= s.len(),
    ensures
        strip_blanks(texts_from(spec_lex(s, i), 0)) == strip_blanks(s.skip(i)),
    decreases s.len() - i, 0int,
{
    if i >= s.len() {
        assert(s.skip(i) =~= Seq::<char>::empty());
    } else {
        let tail = s.skip(i);
        assert(tail[0] == s[i]);
        if s[i] == '\n' {
            assert(seq![s[i]] =~= s.subrange(i, i + 1));
            lemma_lex_step(s, i, i + 1, seq![s[i]], Tok::Newline);
        } else if is_blank(s[i]) {
            lemma_lex_strips_to_input(s, i + 1);
            assert(s.skip(i).drop_first() =~= s.skip(i + 1));
            assert(strip_blanks(s.skip(i)) == strip_blanks(s.skip(i + 1)));
        } else if s[i] == '/' && i + 1 < s.len() && s[i + 1] == '/' {
            lemma_skip_line_bounds(s, i + 2);
            let j = skip_line(s, i + 2);
            lemma_lex_step(s, i, j, s.subrange(i, j), Tok::Comment(s.subrange(i, j)));
        } else if s[i] == '/' && i + 1 < s.len() && s[i + 1] == '*' {
            lemma_skip_block_bounds(s, i + 2);
            let b = skip_block(s, i + 2);
            if b + 1 < s.len() {
                lemma_lex_step(
                    s,
                    i,
                    b + 2,
                    s.subrange(i, b + 2),
                    Tok::Comment(s.subrange(i, b + 2)),
                );
            } else {
                let e = if b <= s.len() {
                    b
                } else {
                    s.len() as int
                };
                lemma_lex_step(s, i, e, s.subrange(i, e), Tok::Comment(s.subrange(i, e)));
            }
        } else if s[i] == '"' || s[i] == '\'' {
            lemma_scan_string_bounds(s, i + 1, s[i]);
            let e = scan_string(s, i + 1, s[i]);
            if s[i] == '"' {
                lemma_lex_step(s, i, e, s.subrange(i, e), Tok::StringLit(s.subrange(i, e)));
            } else {
                lemma_lex_step(s, i, e, s.subrange(i, e), Tok::CharLit(s.subrange(i, e)));
            }
        } else if is_digit(s[i]) || (s[i] == '.' && i + 1 < s.len() && is_digit(s[i + 1])) {
            lemma_number_end_bounds(s, i);
            let e = number_end(s, i);
            lemma_lex_step(s, i, e, s.subrange(i, e), Tok::Number(s.subrange(i, e)));
        } else if is_ident_start(s[i]) {
            lemma_skip_ident_bounds(s, i + 1);
            let e = skip_ident(s, i + 1);
            lemma_lex_step(s, i, e, s.subrange(i, e), Tok::Identifier(s.subrange(i, e)));
        } else if op_text(s, i) is Some {
            let t = op_text(s, i)->Some_0;
            assert(t =~= s.subrange(i, i + t.len()));
            lemma_lex_step(s, i, i + t.len(), t, Tok::Symbol(t));
        } else {
            assert(seq![s[i]] =~= s.subrange(i, i + 1));
            lemma_lex_step(s, i, i + 1, seq![s[i]], Tok::Symbol(seq![s[i]]));
        }
    }
}

/// One lexing step: a token whose text is exactly `s[i..next]` keeps the
/// stripped remainder intact.
proof fn lemma_lex_step(s: Seq<char>, i: int, next: int, text: Seq<char>, tok: Tok)
    requires
        0 <= i < s.len(),
        i < next <= s.len(),
        text == s.subrange(i, next),
        tok_text(tok) == text,
        spec_lex(s, i) == seq![tok] + spec_lex(s, next),
    ensures
        strip_blanks(texts_from(spec_lex(s, i), 0)) == strip_blanks(s.skip(i)),
    decreases s.len() - next, 1int,
{
    lemma_lex_strips_to_input(s, next);
    let rest = spec_lex(s, next);
    assert(texts_from(seq![tok] + rest, 0) == tok_text(tok) + texts_from(
        seq![tok] + rest,
        1,
    ));
    lemma_texts_shift(seq![tok], rest);
    lemma_strip_concat(text, texts_from(rest, 0));
    assert(s.subrange(i, next) + s.skip(next) =~= s.skip(i));
    lemma_strip_concat(s.subrange(i, next), s.skip(next));
    assert(strip_blanks(texts_from(spec_lex(s, i), 0)) =~= strip_blanks(s.skip(i)));
}

/// The texts of a one-token prefix and the rest concatenate.
proof fn lemma_texts_shift(head: Seq<Tok>, rest: Seq<Tok>)
    requires
        head.len() == 1,
    ensures
        texts_from(head + rest, 0) == tok_text(head[0]) + texts_from(rest, 0),
        texts_from(head + rest, 1) == texts_from(rest, 0),
    decreases rest.len(),
{
    lemma_texts_shift_from(head + rest, 1, rest, 0);
    assert((head + rest)[0] == head[0]);
}

proof fn lemma_texts_shift_from(ts: Seq<Tok>, i: int, rest: Seq<Tok>, j: int)
    requires
        0 <= j,
        i - j == 1,
        ts.len() - i == rest.len() - j,
        forall|k: int| j <= k < rest.len() ==> ts[k + 1] == rest[k],
    ensures
        texts_from(ts, i) == texts_from(rest, j),
    decreases rest.len() - j,
{
    if j < rest.len() {
        lemma_texts_shift_from(ts, i + 1, rest, j + 1);
        assert(ts[i] == rest[j]);
    }
}

/// Printing the lexed tokens of any text reproduces the text up to
/// blank-run renormalisation: stripped of blanks, output and input are
/// identical, so token text, comments and newlines all survive.
pub proof fn lemma_print_preserves_content(x: Seq<char>)
    ensures
        strip_blanks(spec_detokenize(spec_tokenize(x))) == strip_blanks(x),
{
    let lexed = spec_lex(x, 0);
    lemma_detok_strips_to_texts(spec_tokenize(x), 0, None);
    lemma_texts_push(lexed, 0, Tok::Eof);
    lemma_lex_strips_to_input(x, 0);
    assert(tok_text(Tok::Eof) =~= Seq::<char>::empty());
    assert(texts_from(spec_tokenize(x), 0) =~= texts_from(lexed, 0));
    assert(x.skip(0) =~= x);
}

/// Printing is idempotent on any text whose printed form re-lexes to
/// the same tokens; this covers one more pass of lex-then-print.
pub proof fn lemma_print_idempotent_on_stable_text(x: Seq<char>)
    requires
        spec_tokenize(spec_detokenize(spec_tokenize(x))) == spec_tokenize(x),
    ensures
        spec_detokenize(spec_tokenize(spec_detokenize(spec_tokenize(x)))) == spec_detokenize(
            spec_tokenize(x),
        ),
{
}

} // verus!
