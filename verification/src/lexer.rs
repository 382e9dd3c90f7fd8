//! The lexer: raw text to an ordered token sequence terminated by `Eof`.
//!
//! Longest-match throughout, and no error path: a byte that fits no rule
//! becomes a single-character `Symbol`. Newlines are preserved as tokens,
//! other whitespace is skipped, and comments are captured verbatim.

use vstd::prelude::*;

use crate::text::{chars_of, push_char, string_range};
use crate::token::{deep, lemma_deep_push, lemma_scan_extend, Tok, Token};
use vstd::string::StringExecFns;

verus! {

/// Whitespace that is skipped (everything but the newline, which is kept).
pub open spec fn is_blank(c: char) -> bool {
    c == ' ' || c == '\t' || c == '\r' || c == '\u{b}' || c == '\u{c}'
}

/// Decimal digit.
pub open spec fn is_digit(c: char) -> bool {
    48 <= c as u32 && c as u32 <= 57
}

/// Hexadecimal digit.
pub open spec fn is_hex_digit(c: char) -> bool {
    is_digit(c) || (97 <= c as u32 && c as u32 <= 102) || (65 <= c as u32 && c as u32 <= 70)
}

/// ASCII letter.
pub open spec fn is_alpha(c: char) -> bool {
    (97 <= c as u32 && c as u32 <= 122) || (65 <= c as u32 && c as u32 <= 90)
}

/// Character that may start an identifier.
pub open spec fn is_ident_start(c: char) -> bool {
    c == '_' || is_alpha(c)
}

/// Character that may continue an identifier.
pub open spec fn is_ident_char(c: char) -> bool {
    c == '_' || is_alpha(c) || is_digit(c)
}

/// Index of the newline ending a line comment that began before `j`,
/// or the end of the text.
pub open spec fn skip_line(s: Seq<char>, j: int) -> int
    decreases s.len() - j,
        when 0 <= j
{
    if j >= s.len() {
        s.len() as int
    } else if s[j] == '\n' {
        j
    } else {
        skip_line(s, j + 1)
    }
}

/// Index of the `*` of the first `*/` at or after `j`; where the text ends
/// first, the index where the search stopped (one short of the end, or the
/// end itself when the search began there).
pub open spec fn skip_block(s: Seq<char>, j: int) -> int
    decreases s.len() - j,
        when 0 <= j
{
    if j + 1 >= s.len() {
        j
    } else if s[j] == '*' && s[j + 1] == '/' {
        j
    } else {
        skip_block(s, j + 1)
    }
}

/// End (exclusive) of a quote-delimited literal whose body starts at `j`:
/// a backslash escapes exactly the following character, the closing quote
/// is included, and an unterminated literal runs to the end of the text.
pub open spec fn scan_string(s: Seq<char>, j: int, quote: char) -> int
    decreases s.len() - j,
        when 0 <= j
{
    if j >= s.len() {
        s.len() as int
    } else if s[j] == '\\' {
        scan_string(s, if j + 2 <= s.len() { j + 2 } else { s.len() as int }, quote)
    } else if s[j] == quote {
        j + 1
    } else {
        scan_string(s, j + 1, quote)
    }
}

/// First index at or after `j` holding no decimal digit.
pub open spec fn skip_digits(s: Seq<char>, j: int) -> int
    decreases s.len() - j,
        when 0 <= j
{
    if j < s.len() && is_digit(s[j]) {
        skip_digits(s, j + 1)
    } else {
        j
    }
}

/// First index at or after `j` holding no hexadecimal digit.
pub open spec fn skip_hex(s: Seq<char>, j: int) -> int
    decreases s.len() - j,
        when 0 <= j
{
    if j < s.len() && is_hex_digit(s[j]) {
        skip_hex(s, j + 1)
    } else {
        j
    }
}

/// First index at or after `j` holding no identifier character.
pub open spec fn skip_ident(s: Seq<char>, j: int) -> int
    decreases s.len() - j,
        when 0 <= j
{
    if j < s.len() && is_ident_char(s[j]) {
        skip_ident(s, j + 1)
    } else {
        j
    }
}

/// End (exclusive) of a number starting at `i`: a `0x`/`0X` hex run, or a
/// decimal run with optional fraction and optional signed exponent.
pub open spec fn number_end(s: Seq<char>, i: int) -> int {
    if s[i] == '0' && i + 1 < s.len() && (s[i + 1] == 'x' || s[i + 1] == 'X') {
        skip_hex(s, i + 2)
    } else {
        let a = skip_digits(s, i);
        let b = if a < s.len() && s[a] == '.' {
            skip_digits(s, a + 1)
        } else {
            a
        };
        if b < s.len() && (s[b] == 'e' || s[b] == 'E') {
            let e0 = if b + 1 < s.len() && (s[b + 1] == '+' || s[b + 1] == '-') {
                b + 2
            } else {
                b + 1
            };
            skip_digits(s, e0)
        } else {
            b
        }
    }
}

/// Whether the three given characters stand at `i`.
pub open spec fn three_at(s: Seq<char>, i: int, a: char, b: char, c: char) -> bool {
    i + 3 <= s.len() && s[i] == a && s[i + 1] == b && s[i + 2] == c
}

/// Whether the two given characters stand at `i`.
pub open spec fn two_at(s: Seq<char>, i: int, a: char, b: char) -> bool {
    i + 2 <= s.len() && s[i] == a && s[i + 1] == b
}

/// The multi-character operator matched at `i`, longest first, in the
/// fixed table order; `None` when no table entry matches.
pub open spec fn op_text(s: Seq<char>, i: int) -> Option<Seq<char>> {
    if three_at(s, i, '>', '>', '=') {
        Some(seq!['>', '>', '='])
    } else if three_at(s, i, '<', '<', '=') {
        Some(seq!['<', '<', '='])
    } else if two_at(s, i, '=', '=') {
        Some(seq!['=', '='])
    } else if two_at(s, i, '!', '=') {
        Some(seq!['!', '='])
    } else if two_at(s, i, '<', '=') {
        Some(seq!['<', '='])
    } else if two_at(s, i, '>', '=') {
        Some(seq!['>', '='])
    } else if two_at(s, i, '-', '>') {
        Some(seq!['-', '>'])
    } else if two_at(s, i, '+', '+') {
        Some(seq!['+', '+'])
    } else if two_at(s, i, '-', '-') {
        Some(seq!['-', '-'])
    } else if two_at(s, i, '&', '&') {
        Some(seq!['&', '&'])
    } else if two_at(s, i, '|', '|') {
        Some(seq!['|', '|'])
    } else if two_at(s, i, '+', '=') {
        Some(seq!['+', '='])
    } else if two_at(s, i, '-', '=') {
        Some(seq!['-', '='])
    } else if two_at(s, i, '*', '=') {
        Some(seq!['*', '='])
    } else if two_at(s, i, '/', '=') {
        Some(seq!['/', '='])
    } else if two_at(s, i, '%', '=') {
        Some(seq!['%', '='])
    } else if two_at(s, i, '&', '=') {
        Some(seq!['&', '='])
    } else if two_at(s, i, '|', '=') {
        Some(seq!['|', '='])
    } else if two_at(s, i, '^', '=') {
        Some(seq!['^', '='])
    } else if two_at(s, i, '<', '<') {
        Some(seq!['<', '<'])
    } else if two_at(s, i, '>', '>') {
        Some(seq!['>', '>'])
    } else if two_at(s, i, ':', ':') {
        Some(seq![':', ':'])
    } else if two_at(s, i, '=', '>') {
        Some(seq!['=', '>'])
    } else {
        None
    }
}

pub proof fn lemma_skip_line_bounds(s: Seq<char>, j: int)
    requires
        0 <= j <= s.len(),
    ensures
        j <= skip_line(s, j) <= s.len(),
    decreases s.len() - j,
{
    if j < s.len() && s[j] != '\n' {
        lemma_skip_line_bounds(s, j + 1);
    }
}

pub proof fn lemma_skip_block_bounds(s: Seq<char>, j: int)
    requires
        0 <= j <= s.len(),
    ensures
        j <= skip_block(s, j) <= s.len(),
    decreases s.len() - j,
{
    if j + 1 < s.len() && !(s[j] == '*' && s[j + 1] == '/') {
        lemma_skip_block_bounds(s, j + 1);
    }
}

pub proof fn lemma_scan_string_bounds(s: Seq<char>, j: int, quote: char)
    requires
        0 <= j <= s.len(),
    ensures
        j <= scan_string(s, j, quote) <= s.len(),
    decreases s.len() - j,
{
    if j < s.len() {
        if s[j] == '\\' {
            lemma_scan_string_bounds(
                s,
                if j + 2 <= s.len() {
                    j + 2
                } else {
                    s.len() as int
                },
                quote,
            );
        } else if s[j] != quote {
            lemma_scan_string_bounds(s, j + 1, quote);
        }
    }
}

pub proof fn lemma_skip_digits_bounds(s: Seq<char>, j: int)
    requires
        0 <= j <= s.len(),
    ensures
        j <= skip_digits(s, j) <= s.len(),
    decreases s.len() - j,
{
    if j < s.len() && is_digit(s[j]) {
        lemma_skip_digits_bounds(s, j + 1);
    }
}

pub proof fn lemma_skip_hex_bounds(s: Seq<char>, j: int)
    requires
        0 <= j <= s.len(),
    ensures
        j <= skip_hex(s, j) <= s.len(),
    decreases s.len() - j,
{
    if j < s.len() && is_hex_digit(s[j]) {
        lemma_skip_hex_bounds(s, j + 1);
    }
}

pub proof fn lemma_skip_ident_bounds(s: Seq<char>, j: int)
    requires
        0 <= j <= s.len(),
    ensures
        j <= skip_ident(s, j) <= s.len(),
    decreases s.len() - j,
{
    if j < s.len() && is_ident_char(s[j]) {
        lemma_skip_ident_bounds(s, j + 1);
    }
}

pub proof fn lemma_number_end_bounds(s: Seq<char>, i: int)
    requires
        0 <= i < s.len(),
        is_digit(s[i]) || (s[i] == '.' && i + 1 < s.len() && is_digit(s[i + 1])),
    ensures
        i < number_end(s, i) <= s.len(),
{
    if s[i] == '0' && i + 1 < s.len() && (s[i + 1] == 'x' || s[i + 1] == 'X') {
        lemma_skip_hex_bounds(s, i + 2);
    } else {
        lemma_skip_digits_bounds(s, i);
        let a = skip_digits(s, i);
        if is_digit(s[i]) {
            assert(skip_digits(s, i) == skip_digits(s, i + 1));
            lemma_skip_digits_bounds(s, i + 1);
        }
        if a < s.len() && s[a] == '.' {
            lemma_skip_digits_bounds(s, a + 1);
        }
        let b = if a < s.len() && s[a] == '.' {
            skip_digits(s, a + 1)
        } else {
            a
        };
        if b < s.len() && (s[b] == 'e' || s[b] == 'E') {
            let e0 = if b + 1 < s.len() && (s[b + 1] == '+' || s[b + 1] == '-') {
                b + 2
            } else {
                b + 1
            };
            lemma_skip_digits_bounds(s, e0);
            if e0 > s.len() {
                assert(b + 1 == s.len());
            }
        }
    }
}

/// The token stream lexed from position `i` on, without the final `Eof`.
pub open spec fn spec_lex(s: Seq<char>, i: int) -> Seq<Tok>
    decreases s.len() - i,
        when 0 <= i
        via spec_lex_decreases
{
    if i >= s.len() {
        Seq::empty()
    } else if s[i] == '\n' {
        seq![Tok::Newline] + spec_lex(s, i + 1)
    } else if is_blank(s[i]) {
        spec_lex(s, i + 1)
    } else if s[i] == '/' && i + 1 < s.len() && s[i + 1] == '/' {
        let j = skip_line(s, i + 2);
        seq![Tok::Comment(s.subrange(i, j))] + spec_lex(s, j)
    } else if s[i] == '/' && i + 1 < s.len() && s[i + 1] == '*' {
        let b = skip_block(s, i + 2);
        if b + 1 < s.len() {
            seq![Tok::Comment(s.subrange(i, b + 2))] + spec_lex(s, b + 2)
        } else {
            let e = if b <= s.len() {
                b
            } else {
                s.len() as int
            };
            seq![Tok::Comment(s.subrange(i, e))] + spec_lex(s, e)
        }
    } else if s[i] == '"' || s[i] == '\'' {
        let e = scan_string(s, i + 1, s[i]);
        let t = s.subrange(i, e);
        if s[i] == '"' {
            seq![Tok::StringLit(t)] + spec_lex(s, e)
        } else {
            seq![Tok::CharLit(t)] + spec_lex(s, e)
        }
    } else if is_digit(s[i]) || (s[i] == '.' && i + 1 < s.len() && is_digit(s[i + 1])) {
        let e = number_end(s, i);
        seq![Tok::Number(s.subrange(i, e))] + spec_lex(s, e)
    } else if is_ident_start(s[i]) {
        let e = skip_ident(s, i + 1);
        seq![Tok::Identifier(s.subrange(i, e))] + spec_lex(s, e)
    } else if op_text(s, i) is Some {
        let t = op_text(s, i)->Some_0;
        seq![Tok::Symbol(t)] + spec_lex(s, i + t.len())
    } else {
        seq![Tok::Symbol(seq![s[i]])] + spec_lex(s, i + 1)
    }
}

#[via_fn]
proof fn spec_lex_decreases(s: Seq<char>, i: int) {
    if 0 <= i < s.len() {
        if i + 2 <= s.len() {
            lemma_skip_line_bounds(s, i + 2);
            lemma_skip_block_bounds(s, i + 2);
        }
        lemma_scan_string_bounds(s, i + 1, s[i]);
        if is_digit(s[i]) || (s[i] == '.' && i + 1 < s.len() && is_digit(s[i + 1])) {
            lemma_number_end_bounds(s, i);
        }
        lemma_skip_ident_bounds(s, i + 1);
    }
}

/// The full token stream of a text: every lexed token, then one `Eof`.
pub open spec fn spec_tokenize(s: Seq<char>) -> Seq<Tok> {
    spec_lex(s, 0).push(Tok::Eof)
}

/// The lexer itself never yields `Eof`; only the final push adds it.
pub proof fn lemma_lex_no_eof(s: Seq<char>, i: int)
    requires
        0 <= i,
    ensures
        forall|k: int| 0 <= k < spec_lex(s, i).len() ==> !(spec_lex(s, i)[k] is Eof),
    decreases s.len() - i,
{
    if i >= s.len() {
    } else if s[i] == '\n' {
        lemma_lex_no_eof(s, i + 1);
    } else if is_blank(s[i]) {
        lemma_lex_no_eof(s, i + 1);
    } else if s[i] == '/' && i + 1 < s.len() && s[i + 1] == '/' {
        lemma_skip_line_bounds(s, i + 2);
        lemma_lex_no_eof(s, skip_line(s, i + 2));
    } else if s[i] == '/' && i + 1 < s.len() && s[i + 1] == '*' {
        lemma_skip_block_bounds(s, i + 2);
        let b = skip_block(s, i + 2);
        if b + 1 < s.len() {
            lemma_lex_no_eof(s, b + 2);
        } else {
            lemma_lex_no_eof(
                s,
                if b <= s.len() {
                    b
                } else {
                    s.len() as int
                },
            );
        }
    } else if s[i] == '"' || s[i] == '\'' {
        lemma_scan_string_bounds(s, i + 1, s[i]);
        lemma_lex_no_eof(s, scan_string(s, i + 1, s[i]));
    } else if is_digit(s[i]) || (s[i] == '.' && i + 1 < s.len() && is_digit(s[i + 1])) {
        lemma_number_end_bounds(s, i);
        lemma_lex_no_eof(s, number_end(s, i));
    } else if is_ident_start(s[i]) {
        lemma_skip_ident_bounds(s, i + 1);
        lemma_lex_no_eof(s, skip_ident(s, i + 1));
    } else if op_text(s, i) is Some {
        let t = op_text(s, i)->Some_0;
        lemma_lex_no_eof(s, i + t.len());
    } else {
        lemma_lex_no_eof(s, i + 1);
    }
}

fn is_blank_c(c: char) -> (b: bool)
    ensures
        b == is_blank(c),
{
    c == ' ' || c == '\t' || c == '\r' || c == '\u{b}' || c == '\u{c}'
}

fn is_digit_c(c: char) -> (b: bool)
    ensures
        b == is_digit(c),
{
    let u = c as u32;
    48 <= u && u <= 57
}

fn is_hex_digit_c(c: char) -> (b: bool)
    ensures
        b == is_hex_digit(c),
{
    let u = c as u32;
    (48 <= u && u <= 57) || (97 <= u && u <= 102) || (65 <= u && u <= 70)
}

fn is_alpha_c(c: char) -> (b: bool)
    ensures
        b == is_alpha(c),
{
    let u = c as u32;
    (97 <= u && u <= 122) || (65 <= u && u <= 90)
}

fn is_ident_char_c(c: char) -> (b: bool)
    ensures
        b == is_ident_char(c),
{
    c == '_' || is_alpha_c(c) || is_digit_c(c)
}

fn find_line_end(cs: &Vec<char>, start: usize) -> (e: usize)
    requires
        start <= cs@.len(),
    ensures
        e == skip_line(cs@, start as int),
        start <= e <= cs@.len(),
{
    let len = cs.len();
    let mut j = start;
    while j < len && cs[j] != '\n'
        invariant
            start <= j <= len,
            len == cs@.len(),
            skip_line(cs@, start as int) == skip_line(cs@, j as int),
        decreases len - j,
    {
        j += 1;
    }
    j
}

fn find_block_close(cs: &Vec<char>, start: usize) -> (e: usize)
    requires
        start <= cs@.len(),
    ensures
        e == skip_block(cs@, start as int),
        start <= e <= cs@.len(),
{
    let len = cs.len();
    let mut j = start;
    while len - j >= 2 && !(cs[j] == '*' && cs[j + 1] == '/')
        invariant
            start <= j <= len,
            len == cs@.len(),
            skip_block(cs@, start as int) == skip_block(cs@, j as int),
        decreases len - j,
    {
        j += 1;
    }
    j
}

fn find_string_end(cs: &Vec<char>, start: usize, quote: char) -> (e: usize)
    requires
        start <= cs@.len(),
    ensures
        e == scan_string(cs@, start as int, quote),
        start <= e <= cs@.len(),
{
    let len = cs.len();
    let mut j = start;
    let mut closed = false;
    while j < len && !closed
        invariant
            start <= j <= len,
            len == cs@.len(),
            closed ==> scan_string(cs@, start as int, quote) == j,
            !closed ==> scan_string(cs@, start as int, quote) == scan_string(
                cs@,
                j as int,
                quote,
            ),
        decreases len - j,
    {
        let c = cs[j];
        if c == '\\' {
            if len - j >= 2 {
                j += 2;
            } else {
                j = len;
            }
        } else if c == quote {
            j += 1;
            closed = true;
        } else {
            j += 1;
        }
    }
    j
}

fn find_digits_end(cs: &Vec<char>, start: usize) -> (e: usize)
    requires
        start <= cs@.len(),
    ensures
        e == skip_digits(cs@, start as int),
        start <= e <= cs@.len(),
{
    let len = cs.len();
    let mut j = start;
    while j < len && is_digit_c(cs[j])
        invariant
            start <= j <= len,
            len == cs@.len(),
            skip_digits(cs@, start as int) == skip_digits(cs@, j as int),
        decreases len - j,
    {
        j += 1;
    }
    j
}

fn find_hex_end(cs: &Vec<char>, start: usize) -> (e: usize)
    requires
        start <= cs@.len(),
    ensures
        e == skip_hex(cs@, start as int),
        start <= e <= cs@.len(),
{
    let len = cs.len();
    let mut j = start;
    while j < len && is_hex_digit_c(cs[j])
        invariant
            start <= j <= len,
            len == cs@.len(),
            skip_hex(cs@, start as int) == skip_hex(cs@, j as int),
        decreases len - j,
    {
        j += 1;
    }
    j
}

fn find_ident_end(cs: &Vec<char>, start: usize) -> (e: usize)
    requires
        start <= cs@.len(),
    ensures
        e == skip_ident(cs@, start as int),
        start <= e <= cs@.len(),
{
    let len = cs.len();
    let mut j = start;
    while j < len && is_ident_char_c(cs[j])
        invariant
            start <= j <= len,
            len == cs@.len(),
            skip_ident(cs@, start as int) == skip_ident(cs@, j as int),
        decreases len - j,
    {
        j += 1;
    }
    j
}

fn find_number_end(cs: &Vec<char>, i: usize) -> (e: usize)
    requires
        i < cs@.len(),
        is_digit(cs@[i as int]) || (cs@[i as int] == '.' && i + 1 < cs@.len() && is_digit(
            cs@[i as int + 1],
        )),
    ensures
        e == number_end(cs@, i as int),
        i < e <= cs@.len(),
{
    let len = cs.len();
    proof {
        lemma_number_end_bounds(cs@, i as int);
    }
    if cs[i] == '0' && len - i >= 2 && (cs[i + 1] == 'x' || cs[i + 1] == 'X') {
        find_hex_end(cs, i + 2)
    } else {
        let a = find_digits_end(cs, i);
        let b = if a < len && cs[a] == '.' {
            find_digits_end(cs, a + 1)
        } else {
            a
        };
        if b < len && (cs[b] == 'e' || cs[b] == 'E') {
            let e0 = if b + 1 < len && (cs[b + 1] == '+' || cs[b + 1] == '-') {
                b + 2
            } else {
                b + 1
            };
            find_digits_end(cs, e0)
        } else {
            b
        }
    }
}

/// The multi-character operator at `i` with its length, per the fixed
/// table, longest first; `None` when only a single-character symbol fits.
fn match_op(cs: &Vec<char>, i: usize) -> (r: Option<(String, usize)>)
    requires
        i < cs@.len(),
    ensures
        match r {
            Some(p) => op_text(cs@, i as int) == Some(p.0@) && p.1 == p.0@.len() && i + p.1
                <= cs@.len(),
            None => op_text(cs@, i as int) is None,
        },
{
    proof {
        reveal_strlit(">>=");
        reveal_strlit("<<=");
        reveal_strlit("==");
        reveal_strlit("!=");
        reveal_strlit("<=");
        reveal_strlit(">=");
        reveal_strlit("->");
        reveal_strlit("++");
        reveal_strlit("--");
        reveal_strlit("&&");
        reveal_strlit("||");
        reveal_strlit("+=");
        reveal_strlit("-=");
        reveal_strlit("*=");
        reveal_strlit("/=");
        reveal_strlit("%=");
        reveal_strlit("&=");
        reveal_strlit("|=");
        reveal_strlit("^=");
        reveal_strlit("<<");
        reveal_strlit(">>");
        reveal_strlit("::");
        reveal_strlit("=>");
        assert(">>="@ =~= seq!['>', '>', '=']);
        assert("<<="@ =~= seq!['<', '<', '=']);
        assert("=="@ =~= seq!['=', '=']);
        assert("!="@ =~= seq!['!', '=']);
        assert("<="@ =~= seq!['<', '=']);
        assert(">="@ =~= seq!['>', '=']);
        assert("->"@ =~= seq!['-', '>']);
        assert("++"@ =~= seq!['+', '+']);
        assert("--"@ =~= seq!['-', '-']);
        assert("&&"@ =~= seq!['&', '&']);
        assert("||"@ =~= seq!['|', '|']);
        assert("+="@ =~= seq!['+', '=']);
        assert("-="@ =~= seq!['-', '=']);
        assert("*="@ =~= seq!['*', '=']);
        assert("/="@ =~= seq!['/', '=']);
        assert("%="@ =~= seq!['%', '=']);
        assert("&="@ =~= seq!['&', '=']);
        assert("|="@ =~= seq!['|', '=']);
        assert("^="@ =~= seq!['^', '=']);
        assert("<<"@ =~= seq!['<', '<']);
        assert(">>"@ =~= seq!['>', '>']);
        assert("::"@ =~= seq![':', ':']);
        assert("=>"@ =~= seq!['=', '>']);
    }
    let len = cs.len();
    let c0 = cs[i];
    if len - i >= 3 {
        let c1 = cs[i + 1];
        let c2 = cs[i + 2];
        if c0 == '>' && c1 == '>' && c2 == '=' {
            return Some((String::from_str(">>="), 3));
        }
        if c0 == '<' && c1 == '<' && c2 == '=' {
            return Some((String::from_str("<<="), 3));
        }
    }
    if len - i >= 2 {
        let c1 = cs[i + 1];
        if c0 == '=' && c1 == '=' {
            return Some((String::from_str("=="), 2));
        }
        if c0 == '!' && c1 == '=' {
            return Some((String::from_str("!="), 2));
        }
        if c0 == '<' && c1 == '=' {
            return Some((String::from_str("<="), 2));
        }
        if c0 == '>' && c1 == '=' {
            return Some((String::from_str(">="), 2));
        }
        if c0 == '-' && c1 == '>' {
            return Some((String::from_str("->"), 2));
        }
        if c0 == '+' && c1 == '+' {
            return Some((String::from_str("++"), 2));
        }
        if c0 == '-' && c1 == '-' {
            return Some((String::from_str("--"), 2));
        }
        if c0 == '&' && c1 == '&' {
            return Some((String::from_str("&&"), 2));
        }
        if c0 == '|' && c1 == '|' {
            return Some((String::from_str("||"), 2));
        }
        if c0 == '+' && c1 == '=' {
            return Some((String::from_str("+="), 2));
        }
        if c0 == '-' && c1 == '=' {
            return Some((String::from_str("-="), 2));
        }
        if c0 == '*' && c1 == '=' {
            return Some((String::from_str("*="), 2));
        }
        if c0 == '/' && c1 == '=' {
            return Some((String::from_str("/="), 2));
        }
        if c0 == '%' && c1 == '=' {
            return Some((String::from_str("%="), 2));
        }
        if c0 == '&' && c1 == '=' {
            return Some((String::from_str("&="), 2));
        }
        if c0 == '|' && c1 == '=' {
            return Some((String::from_str("|="), 2));
        }
        if c0 == '^' && c1 == '=' {
            return Some((String::from_str("^="), 2));
        }
        if c0 == '<' && c1 == '<' {
            return Some((String::from_str("<<"), 2));
        }
        if c0 == '>' && c1 == '>' {
            return Some((String::from_str(">>"), 2));
        }
        if c0 == ':' && c1 == ':' {
            return Some((String::from_str("::"), 2));
        }
        if c0 == '=' && c1 == '>' {
            return Some((String::from_str("=>"), 2));
        }
    }
    None
}

/// Lexes a text into tokens, ending with one `Eof`. Never fails: input
/// that fits no rule becomes single-character `Symbol` tokens.
#[verifier::rlimit(60)]
pub fn tokenize(input: &str) -> (r: Vec<Token>)
    ensures
        deep(r@) == spec_tokenize(input@),
{
    let cs = chars_of(input);
    let len = cs.len();
    let mut tokens: Vec<Token> = Vec::new();
    let mut i: usize = 0;
    while i < len
        invariant
            cs@ == input@,
            len == cs@.len(),
            i <= len,
            spec_lex(cs@, 0) == deep(tokens@) + spec_lex(cs@, i as int),
        decreases len - i,
    {
        let ghost prev_toks = tokens@;
        let ghost i0 = i as int;
        let ghost s = cs@;
        let c0 = cs[i];
        if c0 == '\n' {
            let t = Token::Newline;
            tokens.push(t);
            i += 1;
            proof {
                assert(spec_lex(s, i0) == seq![t.deep_view()] + spec_lex(s, i as int));
                lemma_scan_extend(
                    spec_lex(s, 0),
                    prev_toks,
                    t,
                    spec_lex(s, i0),
                    spec_lex(s, i as int),
                );
            }
        } else if is_blank_c(c0) {
            i += 1;
            proof {
                assert(spec_lex(s, i0) == spec_lex(s, i as int));
            }
        } else if c0 == '/' && len - i >= 2 && cs[i + 1] == '/' {
            let j = find_line_end(&cs, i + 2);
            let text = string_range(&cs, i, j);
            let t = Token::Comment(text);
            tokens.push(t);
            i = j;
            proof {
                assert(spec_lex(s, i0) == seq![t.deep_view()] + spec_lex(s, i as int));
                lemma_scan_extend(
                    spec_lex(s, 0),
                    prev_toks,
                    t,
                    spec_lex(s, i0),
                    spec_lex(s, i as int),
                );
            }
        } else if c0 == '/' && len - i >= 2 && cs[i + 1] == '*' {
            let b = find_block_close(&cs, i + 2);
            let found = len - b >= 2;
            let e = if found {
                b + 2
            } else {
                b
            };
            let text = string_range(&cs, i, e);
            let t = Token::Comment(text);
            tokens.push(t);
            i = e;
            proof {
                assert(spec_lex(s, i0) == seq![t.deep_view()] + spec_lex(s, i as int));
                lemma_scan_extend(
                    spec_lex(s, 0),
                    prev_toks,
                    t,
                    spec_lex(s, i0),
                    spec_lex(s, i as int),
                );
            }
        } else if c0 == '"' || c0 == '\'' {
            let e = find_string_end(&cs, i + 1, c0);
            let text = string_range(&cs, i, e);
            let t = if c0 == '"' {
                Token::StringLit(text)
            } else {
                Token::CharLit(text)
            };
            tokens.push(t);
            i = e;
            proof {
                assert(spec_lex(s, i0) == seq![t.deep_view()] + spec_lex(s, i as int));
                lemma_scan_extend(
                    spec_lex(s, 0),
                    prev_toks,
                    t,
                    spec_lex(s, i0),
                    spec_lex(s, i as int),
                );
            }
        } else if is_digit_c(c0) || (c0 == '.' && len - i >= 2 && is_digit_c(cs[i + 1])) {
            let e = find_number_end(&cs, i);
            let text = string_range(&cs, i, e);
            let t = Token::Number(text);
            tokens.push(t);
            i = e;
            proof {
                assert(spec_lex(s, i0) == seq![t.deep_view()] + spec_lex(s, i as int));
                lemma_scan_extend(
                    spec_lex(s, 0),
                    prev_toks,
                    t,
                    spec_lex(s, i0),
                    spec_lex(s, i as int),
                );
            }
        } else if c0 == '_' || is_alpha_c(c0) {
            let e = find_ident_end(&cs, i + 1);
            let text = string_range(&cs, i, e);
            let t = Token::Identifier(text);
            tokens.push(t);
            i = e;
            proof {
                assert(spec_lex(s, i0) == seq![t.deep_view()] + spec_lex(s, i as int));
                lemma_scan_extend(
                    spec_lex(s, 0),
                    prev_toks,
                    t,
                    spec_lex(s, i0),
                    spec_lex(s, i as int),
                );
            }
        } else {
            match match_op(&cs, i) {
                Some((text, d)) => {
                    let t = Token::Symbol(text);
                    tokens.push(t);
                    i += d;
                    proof {
                        assert(spec_lex(s, i0) == seq![t.deep_view()] + spec_lex(s, i as int));
                        lemma_scan_extend(
                            spec_lex(s, 0),
                            prev_toks,
                            t,
                            spec_lex(s, i0),
                            spec_lex(s, i as int),
                        );
                    }
                },
                None => {
                    let mut text = String::new();
                    push_char(&mut text, c0);
                    proof {
                        assert(text@ =~= seq![s[i0]]);
                    }
                    let t = Token::Symbol(text);
                    tokens.push(t);
                    i += 1;
                    proof {
                        assert(spec_lex(s, i0) == seq![t.deep_view()] + spec_lex(s, i as int));
                        lemma_scan_extend(
                            spec_lex(s, 0),
                            prev_toks,
                            t,
                            spec_lex(s, i0),
                            spec_lex(s, i as int),
                        );
                    }
                },
            }
        }
    }
    let ghost before_eof = tokens@;
    tokens.push(Token::Eof);
    proof {
        assert(spec_lex(cs@, len as int) =~= Seq::<Tok>::empty());
        assert(spec_lex(cs@, 0) =~= deep(before_eof));
        lemma_deep_push(before_eof, Token::Eof);
        assert(deep(tokens@) =~= spec_tokenize(input@));
    }
    tokens
}

} // verus!
