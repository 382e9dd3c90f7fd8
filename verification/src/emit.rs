//! The class definition emitter: replaces each `class Name { … }` span
//! whose name matches a parsed `Class` entity with the re-lexed text of
//! its generated C struct and functions. Namespace wrappers are unwrapped
//! and their contents processed recursively; spans that match nothing
//! pass through unchanged.

use vstd::prelude::*;

use crate::ast::{class_text, Class, ClassV};
use crate::classes::{
    brace_scan, find_namespace_end, is_ident, is_sym, parse_namespace_declaration,
    spec_find_ns_end, spec_parse_ns_decl,
};
use crate::lexer::{lemma_lex_no_eof, spec_lex, spec_tokenize, tokenize};
use crate::lower::push_all;
use crate::text::str_eq;
use crate::token::{deep, Tok, Token};

verus! {

/// The first parsed class with the given (short) name, if any.
pub open spec fn class_list_find(classes: Seq<ClassV>, name: Seq<char>) -> Option<ClassV>
    decreases classes.len(),
{
    if classes.len() == 0 {
        None
    } else if classes[0].name == name {
        Some(classes[0])
    } else {
        class_list_find(classes.drop_first(), name)
    }
}

/// Where the scan continues after skipping a matched class span: past
/// the brace closing the class body when an opening brace follows the
/// name, else just past the name.
pub open spec fn class_span_end(ts: Seq<Tok>, i: int) -> int {
    if i + 2 < ts.len() && is_sym(ts[i + 2], "{"@) {
        brace_scan(ts, i + 3, 1)
    } else {
        i + 2
    }
}

/// The emitter's output from position `i` on: namespace wrappers are
/// unwrapped recursively, matched class spans are replaced by the
/// re-lexed generated text, everything else is copied.
pub open spec fn spec_replace_class(ts: Seq<Tok>, classes: Seq<ClassV>, i: int) -> Seq<Tok>
    decreases ts.len(), ts.len() - i,
        when 0 <= i
        via spec_replace_class_decreases
{
    if i >= ts.len() {
        Seq::empty()
    } else {
        match spec_parse_ns_decl(ts, i) {
            Some(ns) => {
                let content_start = ns.1;
                let ns_end = spec_find_ns_end(ts, content_start);
                let content = if ns_end >= content_start + 1 {
                    ts.subrange(content_start, ns_end - 1)
                } else {
                    Seq::empty()
                };
                spec_replace_class(content, classes, 0) + spec_replace_class(ts, classes, ns_end)
            },
            None => {
                if is_ident(ts[i], "class"@) && i + 1 < ts.len() && ts[i + 1] is Identifier
                    && class_list_find(classes, ts[i + 1]->Identifier_0) is Some {
                    let c = class_list_find(classes, ts[i + 1]->Identifier_0)->Some_0;
                    let j = class_span_end(ts, i);
                    spec_lex(class_text(c), 0) + spec_replace_class(ts, classes, j)
                } else {
                    seq![ts[i]] + spec_replace_class(ts, classes, i + 1)
                }
            },
        }
    }
}

#[via_fn]
proof fn spec_replace_class_decreases(ts: Seq<Tok>, classes: Seq<ClassV>, i: int) {
    if 0 <= i < ts.len() {
        if spec_parse_ns_decl(ts, i) is Some {
            let content_start = spec_parse_ns_decl(ts, i)->Some_0.1;
            crate::classes::lemma_brace_scan_bounds(ts, content_start, 1);
        }
        if i + 3 <= ts.len() {
            crate::classes::lemma_brace_scan_bounds(ts, i + 3, 1);
        }
    }
}

/// The first parsed class with the given name, as the list holds it.
fn find_class<'a>(classes: &'a Vec<Class>, name: &str) -> (r: Option<&'a Class>)
    ensures
        match r {
            Some(c) => class_list_find(classes.deep_view(), name@) == Some(c.deep_view()),
            None => class_list_find(classes.deep_view(), name@) is None,
        },
{
    let ghost cs = classes.deep_view();
    let mut k: usize = 0;
    proof {
        assert(cs.skip(0) =~= cs);
    }
    while k < classes.len()
        invariant
            k <= classes@.len(),
            cs == classes.deep_view(),
            cs.len() == classes@.len(),
            class_list_find(cs, name@) == class_list_find(cs.skip(k as int), name@),
        decreases classes@.len() - k,
    {
        proof {
            assert(cs.skip(k as int).drop_first() =~= cs.skip(k + 1));
            assert(cs.skip(k as int)[0] == cs[k as int]);
        }
        if str_eq(classes[k].name.as_str(), name) {
            return Some(&classes[k]);
        }
        k += 1;
    }
    proof {
        assert(cs.skip(cs.len() as int) =~= Seq::<ClassV>::empty());
    }
    None
}

/// A copy of `tokens[from..to]`.
pub(crate) fn slice_vec(tokens: &Vec<Token>, from: usize, to: usize) -> (r: Vec<Token>)
    requires
        from <= to <= tokens@.len(),
    ensures
        deep(r@) == deep(tokens@).subrange(from as int, to as int),
{
    let mut out: Vec<Token> = Vec::new();
    let mut k = from;
    while k < to
        invariant
            from <= k <= to <= tokens@.len(),
            deep(out@) =~= deep(tokens@).subrange(from as int, k as int),
        decreases to - k,
    {
        let ghost old_out = out@;
        out.push(tokens[k].clone());
        proof {
            crate::token::lemma_deep_push(old_out, tokens@[k as int]);
            assert(deep(out@) =~= deep(old_out).push(deep(tokens@)[k as int]));
            assert(deep(out@) =~= deep(tokens@).subrange(from as int, k + 1));
        }
        k += 1;
    }
    out
}

/// The generated text of a class, re-lexed, with the trailing `Eof`
/// dropped so it can be spliced mid-stream.
fn generated_tokens(class: &Class) -> (r: Vec<Token>)
    ensures
        deep(r@) == spec_lex(class_text(class.deep_view()), 0),
{
    let generated_code = class.to_string();
    let gen = tokenize(generated_code.as_str());
    let ghost gv = deep(gen@);
    let ghost lexed = spec_lex(class_text(class.deep_view()), 0);
    proof {
        assert(gv == spec_tokenize(generated_code@));
        lemma_lex_no_eof(generated_code@, 0);
        assert(gv == lexed.push(Tok::Eof));
        assert(gv.len() == lexed.len() + 1);
    }
    let mut out: Vec<Token> = Vec::new();
    let mut k: usize = 0;
    while k < gen.len()
        invariant
            k <= gen@.len(),
            gv == deep(gen@),
            gv.len() == gen@.len(),
            gv == lexed.push(Tok::Eof),
            forall|j: int| 0 <= j < lexed.len() ==> !(lexed[j] is Eof),
            deep(out@) =~= if k as int <= lexed.len() {
                lexed.take(k as int)
            } else {
                lexed
            },
        decreases gen@.len() - k,
    {
        let is_eof = match &gen[k] {
            Token::Eof => true,
            _ => false,
        };
        if !is_eof {
            let ghost old_out = out@;
            out.push(gen[k].clone());
            proof {
                crate::token::lemma_deep_push(old_out, gen@[k as int]);
                assert(deep(out@) =~= deep(old_out).push(gv[k as int]));
                assert(gv[k as int] == lexed[k as int]);
                assert(deep(out@) =~= lexed.take(k + 1));
            }
        } else {
            proof {
                assert(gv[k as int] is Eof);
                assert(k as int == lexed.len());
            }
        }
        k += 1;
    }
    proof {
        assert(deep(out@) =~= lexed);
    }
    out
}

/// Substitutes generated C text for every matched `class Name { … }`
/// span, unwrapping namespace blocks recursively; already-compiled
/// import output no longer matches and passes through untouched.
#[verifier::rlimit(60)]
pub(crate) fn replace_class_tokens(tokens: Vec<Token>, classes: &Vec<Class>) -> (r: Vec<Token>)
    ensures
        deep(r@) == spec_replace_class(deep(tokens@), classes.deep_view(), 0),
    decreases tokens@.len(),
{
    let ghost ts = deep(tokens@);
    let ghost cls = classes.deep_view();
    let mut out_tokens: Vec<Token> = Vec::new();
    let mut i: usize = 0;
    while i < tokens.len()
        invariant
            i <= tokens@.len(),
            ts == deep(tokens@),
            ts.len() == tokens@.len(),
            cls == classes.deep_view(),
            spec_replace_class(ts, cls, 0) == deep(out_tokens@) + spec_replace_class(
                ts,
                cls,
                i as int,
            ),
        decreases tokens@.len() - i,
    {
        let ghost out0 = out_tokens@;
        let ghost i0 = i as int;
        match parse_namespace_declaration(tokens.as_slice(), i) {
            Some((_namespace_name, content_start)) => {
                let namespace_end = find_namespace_end(tokens.as_slice(), content_start);
                let content = if namespace_end > content_start {
                    slice_vec(&tokens, content_start, namespace_end - 1)
                } else {
                    Vec::new()
                };
                proof {
                    assert(content_start as int == i0 + 3);
                    if namespace_end > content_start {
                        assert(deep(content@).len() == namespace_end - 1 - content_start);
                    } else {
                        assert(deep(content@) =~= Seq::<Tok>::empty());
                    }
                    assert(deep(content@).len() == content@.len());
                    assert(content@.len() < tokens@.len());
                }
                let processed = replace_class_tokens(content, classes);
                push_all(&mut out_tokens, &processed);
                i = namespace_end;
                proof {
                    assert(deep(out_tokens@) =~= deep(out0) + deep(processed@));
                    assert(spec_replace_class(ts, cls, 0) =~= deep(out_tokens@)
                        + spec_replace_class(ts, cls, i as int));
                }
            },
            None => {
                let mut matched = false;
                if let Token::Identifier(token_name) = &tokens[i] {
                    if str_eq(token_name.as_str(), "class") && tokens.len() - i > 1 {
                        if let Token::Identifier(class_name) = &tokens[i + 1] {
                            if let Some(class) = find_class(classes, class_name.as_str()) {
                                let mut j = i + 2;
                                let mut started = false;
                                if j < tokens.len() {
                                    if let Token::Symbol(s) = &tokens[j] {
                                        if str_eq(s.as_str(), "{") {
                                            started = true;
                                        }
                                    }
                                }
                                if started {
                                    j = find_namespace_end(tokens.as_slice(), j + 1);
                                }
                                let gen = generated_tokens(class);
                                push_all(&mut out_tokens, &gen);
                                i = j;
                                matched = true;
                                proof {
                                    assert(j as int == class_span_end(ts, i0));
                                    assert(deep(out_tokens@) =~= deep(out0) + deep(gen@));
                                    assert(spec_replace_class(ts, cls, 0) =~= deep(out_tokens@)
                                        + spec_replace_class(ts, cls, i as int));
                                }
                            }
                        }
                    }
                }
                if !matched {
                    out_tokens.push(tokens[i].clone());
                    i += 1;
                    proof {
                        assert(deep(out_tokens@) =~= deep(out0) + seq![ts[i0]]);
                        assert(spec_replace_class(ts, cls, 0) =~= deep(out_tokens@)
                            + spec_replace_class(ts, cls, i as int));
                    }
                }
            },
        }
    }
    proof {
        assert(spec_replace_class(ts, cls, tokens@.len() as int) =~= Seq::<Tok>::empty());
        assert(deep(out_tokens@) + Seq::<Tok>::empty() =~= deep(out_tokens@));
    }
    out_tokens
}

} // verus!
