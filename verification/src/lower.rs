//! The call-site lowering pass: one greedy left-to-right rewrite of the
//! whole token stream, turning method calls, operator usages and
//! namespace-qualified identifiers into flat C calls.
//!
//! Resolution uses the flat, unscoped variable-type table and the shared
//! class-name registry; a type absent from the registry stands for
//! itself, so primitives pass through gracefully.

use vstd::prelude::*;

use crate::ast::{spec_op_suffix, operator_suffix, Variable, VarV};
use crate::classes::{collect_all_variables_with_namespace, is_sym, spec_parse_vars};
use crate::strmap::StrMap;
use crate::text::str_eq;
use crate::token::{deep, Tok, Token};
use vstd::string::StringExecFns;

verus! {

/// The first declaration of `name` in the variable table, if any.
pub open spec fn lookup_var(vars: Seq<VarV>, name: Seq<char>) -> Option<VarV>
    decreases vars.len(),
{
    if vars.len() == 0 {
        None
    } else if vars[0].name == name {
        Some(vars[0])
    } else {
        lookup_var(vars.drop_first(), name)
    }
}

/// A declared type resolved through the registry: its canonical full
/// name when registered, else the type name unchanged.
pub open spec fn resolve(reg: Map<Seq<char>, Seq<char>>, ty: Seq<char>) -> Seq<char> {
    if reg.contains_key(ty) {
        reg[ty]
    } else {
        ty
    }
}

/// The binary operator symbols the lowering pass rewrites.
pub open spec fn is_binary_op(op: Seq<char>) -> bool {
    ||| op == "+"@
    ||| op == "-"@
    ||| op == "*"@
    ||| op == "/"@
    ||| op == "=="@
    ||| op == "!="@
    ||| op == "<"@
    ||| op == ">"@
    ||| op == "<="@
    ||| op == ">="@
    ||| op == "+="@
    ||| op == "-="@
    ||| op == "*="@
    ||| op == "/="@
}

/// Argument capture of a method call from just inside its opening
/// parenthesis: the argument tokens (inner parentheses kept, the closing
/// one dropped) and the index just past the call.
pub open spec fn spec_collect_args(ts: Seq<Tok>, p: int, level: int) -> (Seq<Tok>, int)
    decreases ts.len() - p,
        when 0 <= p
{
    if p >= ts.len() || level <= 0 {
        (Seq::empty(), p)
    } else {
        let next_level = if is_sym(ts[p], "("@) {
            level + 1
        } else if is_sym(ts[p], ")"@) {
            level - 1
        } else {
            level
        };
        let rest = spec_collect_args(ts, p + 1, next_level);
        if next_level > 0 {
            (seq![ts[p]] + rest.0, rest.1)
        } else {
            rest
        }
    }
}

pub proof fn lemma_collect_args_bounds(ts: Seq<Tok>, p: int, level: int)
    requires
        0 <= p <= ts.len(),
    ensures
        p <= spec_collect_args(ts, p, level).1 <= ts.len(),
    decreases ts.len() - p,
{
    if p < ts.len() && level > 0 {
        let next_level = if is_sym(ts[p], "("@) {
            level + 1
        } else if is_sym(ts[p], ")"@) {
            level - 1
        } else {
            level
        };
        lemma_collect_args_bounds(ts, p + 1, next_level);
    }
}

/// The non-default rewrite that fires at `i`, if any: the emitted tokens
/// and the index of the first unconsumed token. Tried in order: binary
/// operator on a typed variable, postfix increment or decrement, method
/// call, prefix increment or decrement, namespace qualification.
pub open spec fn spec_lower_step(
    ts: Seq<Tok>,
    vars: Seq<VarV>,
    reg: Map<Seq<char>, Seq<char>>,
    i: int,
) -> Option<(Seq<Tok>, int)> {
    let var = if ts[i] is Identifier {
        lookup_var(vars, ts[i]->Identifier_0)
    } else {
        None
    };
    if var is Some && i + 2 < ts.len() && ts[i + 1] is Symbol && is_binary_op(
        ts[i + 1]->Symbol_0,
    ) {
        let full = resolve(reg, var->Some_0.type_);
        let name = ts[i]->Identifier_0;
        let op = ts[i + 1]->Symbol_0;
        Some(
            (
                seq![
                    Tok::Identifier(full + "_operator_"@ + spec_op_suffix(op)),
                    Tok::Symbol("("@),
                    Tok::Identifier(name),
                    Tok::Symbol(","@),
                    ts[i + 2],
                    Tok::Symbol(")"@),
                ],
                i + 3,
            ),
        )
    } else if var is Some && i + 2 < ts.len() && ts[i + 1] is Symbol && (ts[i + 1]->Symbol_0
        == "++"@ || ts[i + 1]->Symbol_0 == "--"@) {
        let full = resolve(reg, var->Some_0.type_);
        let name = ts[i]->Identifier_0;
        let op = ts[i + 1]->Symbol_0;
        Some(
            (
                seq![
                    Tok::Identifier(full + "_operator_"@ + spec_op_suffix(op)),
                    Tok::Symbol("("@),
                    Tok::Identifier(name),
                    Tok::Symbol(")"@),
                ],
                i + 2,
            ),
        )
    } else if var is Some && i + 3 < ts.len() && is_sym(ts[i + 1], "."@) && ts[i + 2]
        is Identifier && is_sym(ts[i + 3], "("@) {
        let full = resolve(reg, var->Some_0.type_);
        let name = ts[i]->Identifier_0;
        let method = ts[i + 2]->Identifier_0;
        let ca = spec_collect_args(ts, i + 4, 1);
        let head = seq![
            Tok::Identifier(full + "_"@ + method),
            Tok::Symbol("("@),
            Tok::Identifier(name),
        ];
        let args = if ca.0.len() == 0 {
            Seq::empty()
        } else {
            seq![Tok::Symbol(","@)] + ca.0
        };
        Some((head + args + seq![Tok::Symbol(")"@)], ca.1))
    } else if ts[i] is Symbol && (ts[i]->Symbol_0 == "++"@ || ts[i]->Symbol_0 == "--"@) && i + 1
        < ts.len() && ts[i + 1] is Identifier && lookup_var(vars, ts[i + 1]->Identifier_0)
        is Some {
        let v = lookup_var(vars, ts[i + 1]->Identifier_0)->Some_0;
        let full = resolve(reg, v.type_);
        let op = ts[i]->Symbol_0;
        Some(
            (
                seq![
                    Tok::Identifier(full + "_operator_"@ + spec_op_suffix(op)),
                    Tok::Symbol("("@),
                    Tok::Identifier(ts[i + 1]->Identifier_0),
                    Tok::Symbol(")"@),
                ],
                i + 2,
            ),
        )
    } else if ts[i] is Identifier && i + 2 < ts.len() && is_sym(ts[i + 1], "::"@) && ts[i + 2]
        is Identifier {
        Some(
            (
                seq![Tok::Identifier(ts[i]->Identifier_0 + "_"@ + ts[i + 2]->Identifier_0)],
                i + 3,
            ),
        )
    } else {
        None
    }
}

pub proof fn lemma_lower_step_bounds(
    ts: Seq<Tok>,
    vars: Seq<VarV>,
    reg: Map<Seq<char>, Seq<char>>,
    i: int,
)
    requires
        0 <= i < ts.len(),
    ensures
        spec_lower_step(ts, vars, reg, i) matches Some(r) ==> i < r.1 <= ts.len(),
{
    if i + 4 <= ts.len() {
        lemma_collect_args_bounds(ts, i + 4, 1);
    }
}

/// The lowered token stream from position `i` on: at each position the
/// first applicable rewrite fires, else the token is copied unchanged.
pub open spec fn spec_lower(
    ts: Seq<Tok>,
    vars: Seq<VarV>,
    reg: Map<Seq<char>, Seq<char>>,
    i: int,
) -> Seq<Tok>
    decreases ts.len() - i,
        when 0 <= i
        via spec_lower_decreases
{
    if i >= ts.len() {
        Seq::empty()
    } else {
        match spec_lower_step(ts, vars, reg, i) {
            Some(step) => step.0 + spec_lower(ts, vars, reg, step.1),
            None => seq![ts[i]] + spec_lower(ts, vars, reg, i + 1),
        }
    }
}

#[via_fn]
proof fn spec_lower_decreases(
    ts: Seq<Tok>,
    vars: Seq<VarV>,
    reg: Map<Seq<char>, Seq<char>>,
    i: int,
) {
    if 0 <= i < ts.len() {
        lemma_lower_step_bounds(ts, vars, reg, i);
    }
}

/// The first declaration of `name`, as the table holds it.
fn find_var<'a>(vars: &'a Vec<Variable>, name: &str) -> (r: Option<&'a Variable>)
    ensures
        match r {
            Some(v) => lookup_var(vars.deep_view(), name@) == Some(v.deep_view()),
            None => lookup_var(vars.deep_view(), name@) is None,
        },
{
    let ghost vs = vars.deep_view();
    let mut k: usize = 0;
    proof {
        assert(vs.skip(0) =~= vs);
    }
    while k < vars.len()
        invariant
            k <= vars@.len(),
            vs == vars.deep_view(),
            vs.len() == vars@.len(),
            lookup_var(vs, name@) == lookup_var(vs.skip(k as int), name@),
        decreases vars@.len() - k,
    {
        proof {
            assert(vs.skip(k as int).drop_first() =~= vs.skip(k + 1));
            assert(vs.skip(k as int)[0] == vs[k as int]);
        }
        if str_eq(vars[k].name.as_str(), name) {
            return Some(&vars[k]);
        }
        k += 1;
    }
    proof {
        assert(vs.skip(vs.len() as int) =~= Seq::<VarV>::empty());
    }
    None
}

/// A declared type's canonical name, per the registry.
fn resolve_exec(reg: &StrMap, ty: &String) -> (r: String)
    ensures
        r@ == resolve(reg@, ty@),
{
    match reg.get(ty.as_str()) {
        Some(v) => v.clone(),
        None => ty.clone(),
    }
}

/// A symbol token with the given text.
fn sym_token(s: &str) -> (t: Token)
    ensures
        t.deep_view() == Tok::Symbol(s@),
{
    Token::Symbol(String::from_str(s))
}

/// Decides membership in the rewritten binary operator set.
fn is_binary_op_exec(op: &String) -> (b: bool)
    ensures
        b == is_binary_op(op@),
{
    str_eq(op.as_str(), "+") || str_eq(op.as_str(), "-") || str_eq(op.as_str(), "*")
        || str_eq(op.as_str(), "/") || str_eq(op.as_str(), "==") || str_eq(op.as_str(), "!=")
        || str_eq(op.as_str(), "<") || str_eq(op.as_str(), ">") || str_eq(op.as_str(), "<=")
        || str_eq(op.as_str(), ">=") || str_eq(op.as_str(), "+=") || str_eq(op.as_str(), "-=")
        || str_eq(op.as_str(), "*=") || str_eq(op.as_str(), "/=")
}

/// Appends a copy of every given token.
pub(crate) fn push_all(out: &mut Vec<Token>, args: &Vec<Token>)
    ensures
        final(out)@ == old(out)@ + args@,
{
    let ghost base = out@;
    let mut k: usize = 0;
    while k < args.len()
        invariant
            k <= args@.len(),
            out@ == base + args@.take(k as int),
        decreases args@.len() - k,
    {
        out.push(args[k].clone());
        proof {
            assert(base + args@.take(k + 1) =~= (base + args@.take(k as int)).push(
                args@[k as int],
            ));
        }
        k += 1;
    }
    proof {
        assert(args@.take(args@.len() as int) =~= args@);
    }
}

/// Argument capture of a method call, from just inside its opening
/// parenthesis.
fn collect_args_exec(tokens: &Vec<Token>, start: usize) -> (r: (Vec<Token>, usize))
    requires
        start <= tokens@.len(),
    ensures
        spec_collect_args(deep(tokens@), start as int, 1) == (deep(r.0@), r.1 as int),
        start <= r.1 <= tokens@.len(),
{
    let ghost ts = deep(tokens@);
    proof {
        lemma_collect_args_bounds(ts, start as int, 1);
    }
    let mut args: Vec<Token> = Vec::new();
    let mut p = start;
    let mut level: u128 = 1;
    while p < tokens.len() && level > 0
        invariant
            start <= p <= tokens@.len(),
            ts == deep(tokens@),
            ts.len() == tokens@.len(),
            level as int <= 1 + p - start,
            level > 0 ==> spec_collect_args(ts, start as int, 1).0 == deep(args@)
                + spec_collect_args(ts, p as int, level as int).0 && spec_collect_args(
                ts,
                start as int,
                1,
            ).1 == spec_collect_args(ts, p as int, level as int).1,
            level == 0 ==> spec_collect_args(ts, start as int, 1) == (deep(args@), p as int),
        decreases tokens@.len() - p, level,
    {
        let ghost old_args = args@;
        let ghost p0 = p as int;
        let ghost level0 = level as int;
        let mut is_open = false;
        let mut is_close = false;
        if let Token::Symbol(s) = &tokens[p] {
            if str_eq(s.as_str(), "(") {
                is_open = true;
            } else if str_eq(s.as_str(), ")") {
                is_close = true;
            }
        }
        if is_open {
            level += 1;
        } else if is_close {
            level -= 1;
        }
        if level > 0 {
            args.push(tokens[p].clone());
            proof {
                assert(deep(args@) =~= deep(old_args).push(ts[p0]));
                assert(spec_collect_args(ts, p0, level0).0 =~= seq![ts[p0]]
                    + spec_collect_args(ts, p0 + 1, level as int).0);
                assert(deep(old_args) + spec_collect_args(ts, p0, level0).0 =~= deep(args@)
                    + spec_collect_args(ts, p0 + 1, level as int).0);
            }
        }
        p += 1;
    }
    proof {
        if level > 0 {
            assert(spec_collect_args(ts, p as int, level as int) == (
                Seq::<Tok>::empty(),
                p as int,
            ));
            assert(deep(args@) + Seq::<Tok>::empty() =~= deep(args@));
        }
    }
    (args, p)
}

/// The lowering pass over a whole compilation unit: builds the flat
/// variable-type table, then rewrites the stream left to right.
#[verifier::rlimit(100)]
pub(crate) fn parse_function_calls_with_operators(tokens: Vec<Token>, class_names: &StrMap) -> (r:
    Vec<Token>)
    ensures
        deep(r@) == spec_lower(
            deep(tokens@),
            spec_parse_vars(deep(tokens@), 0),
            class_names@,
            0,
        ),
{
    let ghost ts = deep(tokens@);
    let ghost reg = class_names@;
    let variables = collect_all_variables_with_namespace(tokens.as_slice(), class_names);
    let ghost vs = variables.deep_view();
    let mut out_tokens: Vec<Token> = Vec::new();
    let mut i: usize = 0;
    while i < tokens.len()
        invariant
            i <= tokens@.len(),
            ts == deep(tokens@),
            ts.len() == tokens@.len(),
            reg == class_names@,
            vs == variables.deep_view(),
            vs == spec_parse_vars(ts, 0),
            spec_lower(ts, vs, reg, 0) == deep(out_tokens@) + spec_lower(ts, vs, reg, i as int),
        decreases tokens@.len() - i,
    {
        let ghost out0 = out_tokens@;
        let ghost i0 = i as int;
        proof {
            lemma_lower_step_bounds(ts, vs, reg, i0);
        }
        let mut matched = false;
        if let Token::Identifier(name) = &tokens[i] {
            if let Some(var) = find_var(&variables, name.as_str()) {
                if tokens.len() - i > 2 {
                    if let Token::Symbol(operator) = &tokens[i + 1] {
                        if is_binary_op_exec(operator) {
                            let full = resolve_exec(class_names, &var.type_);
                            let suffix = operator_suffix(operator.as_str());
                            let mut fname = full;
                            fname.append("_operator_");
                            fname.append(suffix.as_str());
                            out_tokens.push(Token::Identifier(fname));
                            out_tokens.push(sym_token("("));
                            out_tokens.push(Token::Identifier(name.clone()));
                            out_tokens.push(sym_token(","));
                            out_tokens.push(tokens[i + 2].clone());
                            out_tokens.push(sym_token(")"));
                            i += 3;
                            matched = true;
                            proof {
                                let step = spec_lower_step(ts, vs, reg, i0)->Some_0;
                                assert(deep(out_tokens@) =~= deep(out0) + step.0);
                                assert(spec_lower(ts, vs, reg, 0) =~= deep(out_tokens@)
                                    + spec_lower(ts, vs, reg, i as int));
                            }
                        } else if str_eq(operator.as_str(), "++") || str_eq(
                            operator.as_str(),
                            "--",
                        ) {
                            let full = resolve_exec(class_names, &var.type_);
                            let suffix = operator_suffix(operator.as_str());
                            let mut fname = full;
                            fname.append("_operator_");
                            fname.append(suffix.as_str());
                            out_tokens.push(Token::Identifier(fname));
                            out_tokens.push(sym_token("("));
                            out_tokens.push(Token::Identifier(name.clone()));
                            out_tokens.push(sym_token(")"));
                            i += 2;
                            matched = true;
                            proof {
                                let step = spec_lower_step(ts, vs, reg, i0)->Some_0;
                                assert(deep(out_tokens@) =~= deep(out0) + step.0);
                                assert(spec_lower(ts, vs, reg, 0) =~= deep(out_tokens@)
                                    + spec_lower(ts, vs, reg, i as int));
                            }
                        }
                    }
                }
                if !matched && tokens.len() - i > 3 {
                    let is_call = match (&tokens[i + 1], &tokens[i + 2], &tokens[i + 3]) {
                        (Token::Symbol(dot), Token::Identifier(_), Token::Symbol(lp)) => str_eq(
                            dot.as_str(),
                            ".",
                        ) && str_eq(lp.as_str(), "("),
                        _ => false,
                    };
                    if is_call {
                        let method_name = match &tokens[i + 2] {
                            Token::Identifier(s) => s.clone(),
                            _ => String::new(),
                        };
                        let (call_params, p) = collect_args_exec(&tokens, i + 4);
                        let full = resolve_exec(class_names, &var.type_);
                        let mut fname = full;
                        fname.append("_");
                        fname.append(method_name.as_str());
                        out_tokens.push(Token::Identifier(fname));
                        out_tokens.push(sym_token("("));
                        out_tokens.push(Token::Identifier(name.clone()));
                        if call_params.len() > 0 {
                            out_tokens.push(sym_token(","));
                            push_all(&mut out_tokens, &call_params);
                        }
                        out_tokens.push(sym_token(")"));
                        i = p;
                        matched = true;
                        proof {
                            let step = spec_lower_step(ts, vs, reg, i0)->Some_0;
                            assert(deep(out_tokens@) =~= deep(out0) + step.0);
                            assert(spec_lower(ts, vs, reg, 0) =~= deep(out_tokens@)
                                + spec_lower(ts, vs, reg, i as int));
                        }
                    }
                }
            }
        }
        if !matched {
            if let Token::Symbol(operator) = &tokens[i] {
                if (str_eq(operator.as_str(), "++") || str_eq(operator.as_str(), "--"))
                    && tokens.len() - i > 1 {
                    if let Token::Identifier(operand) = &tokens[i + 1] {
                        if let Some(var) = find_var(&variables, operand.as_str()) {
                            let full = resolve_exec(class_names, &var.type_);
                            let suffix = operator_suffix(operator.as_str());
                            let mut fname = full;
                            fname.append("_operator_");
                            fname.append(suffix.as_str());
                            out_tokens.push(Token::Identifier(fname));
                            out_tokens.push(sym_token("("));
                            out_tokens.push(Token::Identifier(operand.clone()));
                            out_tokens.push(sym_token(")"));
                            i += 2;
                            matched = true;
                            proof {
                                let step = spec_lower_step(ts, vs, reg, i0)->Some_0;
                                assert(deep(out_tokens@) =~= deep(out0) + step.0);
                                assert(spec_lower(ts, vs, reg, 0) =~= deep(out_tokens@)
                                    + spec_lower(ts, vs, reg, i as int));
                            }
                        }
                    }
                }
            }
        }
        if !matched {
            if let Token::Identifier(first_part) = &tokens[i] {
                if tokens.len() - i > 2 {
                    let is_scope = match (&tokens[i + 1], &tokens[i + 2]) {
                        (Token::Symbol(sc), Token::Identifier(_)) => str_eq(sc.as_str(), "::"),
                        _ => false,
                    };
                    if is_scope {
                        let second_part = match &tokens[i + 2] {
                            Token::Identifier(s) => s.clone(),
                            _ => String::new(),
                        };
                        let mut fname = first_part.clone();
                        fname.append("_");
                        fname.append(second_part.as_str());
                        out_tokens.push(Token::Identifier(fname));
                        i += 3;
                        matched = true;
                        proof {
                            let step = spec_lower_step(ts, vs, reg, i0)->Some_0;
                            assert(deep(out_tokens@) =~= deep(out0) + step.0);
                            assert(spec_lower(ts, vs, reg, 0) =~= deep(out_tokens@)
                                + spec_lower(ts, vs, reg, i as int));
                        }
                    }
                }
            }
        }
        if !matched {
            out_tokens.push(tokens[i].clone());
            i += 1;
            proof {
                assert(spec_lower_step(ts, vs, reg, i0) is None);
                assert(deep(out_tokens@) =~= deep(out0) + seq![ts[i0]]);
                assert(spec_lower(ts, vs, reg, 0) =~= deep(out_tokens@) + spec_lower(
                    ts,
                    vs,
                    reg,
                    i as int,
                ));
            }
        }
    }
    proof {
        assert(spec_lower(ts, vs, reg, tokens@.len() as int) =~= Seq::<Tok>::empty());
        assert(deep(out_tokens@) + Seq::<Tok>::empty() =~= deep(out_tokens@));
    }
    out_tokens
}

} // verus!
