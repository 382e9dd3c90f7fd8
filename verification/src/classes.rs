//! The structural scanner over token sequences: namespace declarations,
//! brace-depth matching, operator overloads, plain methods and variable
//! declarations inside a class body.
//!
//! Everything here is best-effort: a token run that fits no pattern is
//! stepped over, never rejected.

use vstd::prelude::*;

use crate::ast::{FnV, Function, OperatorOverload, OpV, Variable, VarV};
use crate::token::{deep, Tok, Token};
use crate::text::str_eq;
use vstd::string::StringExecFns;

verus! {

/// Whether the token is the symbol with the given text.
pub open spec fn is_sym(t: Tok, text: Seq<char>) -> bool {
    t matches Tok::Symbol(s) && s == text
}

/// Whether the token is the identifier with the given text.
pub open spec fn is_ident(t: Tok, text: Seq<char>) -> bool {
    t matches Tok::Identifier(s) && s == text
}

/// The namespace declaration `namespace Name {` at `i`, if it stands
/// there: the name and the index just past the opening brace.
pub open spec fn spec_parse_ns_decl(ts: Seq<Tok>, i: int) -> Option<(Seq<char>, int)> {
    if is_ident(ts[i], "namespace"@) && i + 1 < ts.len() && ts[i + 1] is Identifier && i + 2
        < ts.len() && is_sym(ts[i + 2], "{"@) {
        Some((ts[i + 1]->Identifier_0, i + 3))
    } else {
        None
    }
}

/// Brace scan: from `i` with the given open depth, the index just past
/// the token that returns the depth to zero (or the end of the stream).
pub open spec fn brace_scan(ts: Seq<Tok>, i: int, level: int) -> int
    decreases ts.len() - i,
        when 0 <= i
{
    if i >= ts.len() || level <= 0 {
        i
    } else {
        let next_level = if is_sym(ts[i], "{"@) {
            level + 1
        } else if is_sym(ts[i], "}"@) {
            level - 1
        } else {
            level
        };
        brace_scan(ts, i + 1, next_level)
    }
}

/// One past the brace closing a namespace whose body starts at `i`.
pub open spec fn spec_find_ns_end(ts: Seq<Tok>, i: int) -> int {
    brace_scan(ts, i, 1)
}

pub proof fn lemma_brace_scan_bounds(ts: Seq<Tok>, i: int, level: int)
    requires
        0 <= i <= ts.len(),
    ensures
        i <= brace_scan(ts, i, level) <= ts.len(),
    decreases ts.len() - i,
{
    if i < ts.len() && level > 0 {
        let next_level = if is_sym(ts[i], "{"@) {
            level + 1
        } else if is_sym(ts[i], "}"@) {
            level - 1
        } else {
            level
        };
        lemma_brace_scan_bounds(ts, i + 1, next_level);
    }
}

/// Parameter scan of `Type name` pairs up to the closing parenthesis:
/// the `"type name"` strings and the index just past the `)` (or where
/// the stream ended).
pub open spec fn spec_parse_params(ts: Seq<Tok>, p: int) -> (Seq<Seq<char>>, int)
    decreases ts.len() - p,
        when 0 <= p
{
    if p >= ts.len() {
        (Seq::empty(), p)
    } else if is_sym(ts[p], ")"@) {
        (Seq::empty(), p + 1)
    } else if is_sym(ts[p], ","@) {
        spec_parse_params(ts, p + 1)
    } else if ts[p] is Identifier && p + 1 < ts.len() && ts[p + 1] is Identifier {
        let pair = ts[p]->Identifier_0 + " "@ + ts[p + 1]->Identifier_0;
        let rest = spec_parse_params(ts, p + 2);
        (seq![pair] + rest.0, rest.1)
    } else {
        spec_parse_params(ts, p + 1)
    }
}

pub proof fn lemma_parse_params_bounds(ts: Seq<Tok>, p: int)
    requires
        0 <= p <= ts.len(),
    ensures
        p <= spec_parse_params(ts, p).1 <= ts.len(),
    decreases ts.len() - p,
{
    if p < ts.len() {
        if is_sym(ts[p], ")"@) {
        } else if is_sym(ts[p], ","@) {
            lemma_parse_params_bounds(ts, p + 1);
        } else if ts[p] is Identifier && p + 1 < ts.len() && ts[p + 1] is Identifier {
            lemma_parse_params_bounds(ts, p + 2);
        } else {
            lemma_parse_params_bounds(ts, p + 1);
        }
    }
}

/// First index at or after `p` holding the symbol `{`, or the end.
pub open spec fn skip_to_brace(ts: Seq<Tok>, p: int) -> int
    decreases ts.len() - p,
        when 0 <= p
{
    if p >= ts.len() {
        p
    } else if is_sym(ts[p], "{"@) {
        p
    } else {
        skip_to_brace(ts, p + 1)
    }
}

pub proof fn lemma_skip_to_brace_bounds(ts: Seq<Tok>, p: int)
    requires
        0 <= p <= ts.len(),
    ensures
        p <= skip_to_brace(ts, p) <= ts.len(),
    decreases ts.len() - p,
{
    if p < ts.len() && !is_sym(ts[p], "{"@) {
        lemma_skip_to_brace_bounds(ts, p + 1);
    }
}

/// Body capture from just inside an opening brace: the tokens up to (and
/// excluding) the brace that closes the body, and the index just past it.
pub open spec fn spec_collect_body(ts: Seq<Tok>, b: int, level: int) -> (Seq<Tok>, int)
    decreases ts.len() - b,
        when 0 <= b
{
    if b >= ts.len() || level <= 0 {
        (Seq::empty(), b)
    } else {
        let next_level = if is_sym(ts[b], "{"@) {
            level + 1
        } else if is_sym(ts[b], "}"@) {
            level - 1
        } else {
            level
        };
        let rest = spec_collect_body(ts, b + 1, next_level);
        if next_level > 0 {
            (seq![ts[b]] + rest.0, rest.1)
        } else {
            rest
        }
    }
}

pub proof fn lemma_collect_body_bounds(ts: Seq<Tok>, b: int, level: int)
    requires
        0 <= b <= ts.len(),
    ensures
        b <= spec_collect_body(ts, b, level).1 <= ts.len(),
    decreases ts.len() - b,
{
    if b < ts.len() && level > 0 {
        let next_level = if is_sym(ts[b], "{"@) {
            level + 1
        } else if is_sym(ts[b], "}"@) {
            level - 1
        } else {
            level
        };
        lemma_collect_body_bounds(ts, b + 1, next_level);
    }
}

/// The operator overload `ReturnType operator <sym> ( params ) { body }`
/// at `i`, if one stands there, and the index just past its body.
pub open spec fn spec_parse_op_overload(
    ts: Seq<Tok>,
    i: int,
    class: Seq<char>,
    ns: Option<Seq<char>>,
) -> Option<(OpV, int)> {
    if i + 4 >= ts.len() {
        None
    } else if ts[i] is Identifier && is_ident(ts[i + 1], "operator"@) && ts[i + 2] is Symbol
        && is_sym(ts[i + 3], "("@) {
        let pp = spec_parse_params(ts, i + 4);
        let p2 = skip_to_brace(ts, pp.1);
        if p2 < ts.len() {
            let cb = spec_collect_body(ts, p2 + 1, 1);
            Some(
                (
                    OpV {
                        class_name: class,
                        namespace: ns,
                        operator: ts[i + 2]->Symbol_0,
                        return_type: ts[i]->Identifier_0,
                        params: pp.0,
                        body: cb.0,
                    },
                    cb.1,
                ),
            )
        } else {
            None
        }
    } else {
        None
    }
}

pub proof fn lemma_parse_op_overload_bounds(
    ts: Seq<Tok>,
    i: int,
    class: Seq<char>,
    ns: Option<Seq<char>>,
)
    requires
        0 <= i,
    ensures
        spec_parse_op_overload(ts, i, class, ns) matches Some(r) ==> i < r.1 <= ts.len(),
{
    if i + 4 < ts.len() {
        lemma_parse_params_bounds(ts, i + 4);
        let pp = spec_parse_params(ts, i + 4);
        lemma_skip_to_brace_bounds(ts, pp.1);
        let p2 = skip_to_brace(ts, pp.1);
        if p2 < ts.len() {
            lemma_collect_body_bounds(ts, p2 + 1, 1);
        }
    }
}

/// The plain method `ReturnType name ( params ) { body }` at `i`, if one
/// stands there with a body; `Some(None)` marks the scan's stop: a
/// method head whose brace search ran off the end of the stream.
pub open spec fn spec_parse_plain_fn(
    ts: Seq<Tok>,
    i: int,
    class: Seq<char>,
    ns: Option<Seq<char>>,
) -> Option<Option<(FnV, int)>> {
    if i + 2 < ts.len() && ts[i] is Identifier && ts[i + 1] is Identifier && is_sym(
        ts[i + 2],
        "("@,
    ) {
        let pp = spec_parse_params(ts, i + 3);
        let p2 = skip_to_brace(ts, pp.1);
        if p2 < ts.len() {
            let cb = spec_collect_body(ts, p2 + 1, 1);
            Some(
                Some(
                    (
                        FnV {
                            class_name: class,
                            namespace: ns,
                            name: ts[i + 1]->Identifier_0,
                            return_type: ts[i]->Identifier_0,
                            params: pp.0,
                            body: cb.0,
                        },
                        cb.1,
                    ),
                ),
            )
        } else {
            Some(None)
        }
    } else {
        None
    }
}

pub proof fn lemma_parse_plain_fn_bounds(
    ts: Seq<Tok>,
    i: int,
    class: Seq<char>,
    ns: Option<Seq<char>>,
)
    requires
        0 <= i,
    ensures
        spec_parse_plain_fn(ts, i, class, ns) matches Some(r) ==> (r matches Some(f) ==> i
            < f.1 <= ts.len()),
{
    if i + 2 < ts.len() {
        lemma_parse_params_bounds(ts, i + 3);
        let pp = spec_parse_params(ts, i + 3);
        lemma_skip_to_brace_bounds(ts, pp.1);
        let p2 = skip_to_brace(ts, pp.1);
        if p2 < ts.len() {
            lemma_collect_body_bounds(ts, p2 + 1, 1);
        }
    }
}

/// The methods and operator overloads of a class body, in scan order.
/// The operator pattern is tried first at every position, so a method
/// named `operator` is never misclassified; a method head with no body
/// stops the scan.
pub open spec fn spec_parse_fns_ops(
    ts: Seq<Tok>,
    i: int,
    class: Seq<char>,
    ns: Option<Seq<char>>,
) -> (Seq<FnV>, Seq<OpV>)
    decreases ts.len() - i,
        when 0 <= i
        via spec_parse_fns_ops_decreases
{
    if i >= ts.len() {
        (Seq::empty(), Seq::empty())
    } else {
        match spec_parse_op_overload(ts, i, class, ns) {
            Some(op) => {
                let rest = spec_parse_fns_ops(ts, op.1, class, ns);
                (rest.0, seq![op.0] + rest.1)
            },
            None => match spec_parse_plain_fn(ts, i, class, ns) {
                Some(Some(f)) => {
                    let rest = spec_parse_fns_ops(ts, f.1, class, ns);
                    (seq![f.0] + rest.0, rest.1)
                },
                Some(None) => (Seq::empty(), Seq::empty()),
                None => {
                    let rest = spec_parse_fns_ops(ts, i + 1, class, ns);
                    (rest.0, rest.1)
                },
            },
        }
    }
}

#[via_fn]
proof fn spec_parse_fns_ops_decreases(ts: Seq<Tok>, i: int, class: Seq<char>, ns: Option<
    Seq<char>,
>) {
    if 0 <= i < ts.len() {
        lemma_parse_op_overload_bounds(ts, i, class, ns);
        lemma_parse_plain_fn_bounds(ts, i, class, ns);
    }
}

/// First index at or after `j` holding the symbol `;`, or the end.
pub open spec fn skip_to_semi(ts: Seq<Tok>, j: int) -> int
    decreases ts.len() - j,
        when 0 <= j
{
    if j >= ts.len() {
        j
    } else if is_sym(ts[j], ";"@) {
        j
    } else {
        skip_to_semi(ts, j + 1)
    }
}

pub proof fn lemma_skip_to_semi_bounds(ts: Seq<Tok>, j: int)
    requires
        0 <= j <= ts.len(),
    ensures
        j <= skip_to_semi(ts, j) <= ts.len(),
    decreases ts.len() - j,
{
    if j < ts.len() && !is_sym(ts[j], ";"@) {
        lemma_skip_to_semi_bounds(ts, j + 1);
    }
}

/// The variable declarations `Type name ;` and `Type name = … ;` found
/// by a linear scan; initializer tokens are discarded.
pub open spec fn spec_parse_vars(ts: Seq<Tok>, i: int) -> Seq<VarV>
    decreases ts.len() + 1 - i,
        when 0 <= i
        via spec_parse_vars_decreases
{
    if i + 2 >= ts.len() {
        Seq::empty()
    } else if ts[i] is Identifier && ts[i + 1] is Identifier && is_sym(ts[i + 2], ";"@) {
        seq![VarV { name: ts[i + 1]->Identifier_0, type_: ts[i]->Identifier_0 }]
            + spec_parse_vars(ts, i + 3)
    } else if ts[i] is Identifier && ts[i + 1] is Identifier && is_sym(ts[i + 2], "="@) {
        seq![VarV { name: ts[i + 1]->Identifier_0, type_: ts[i]->Identifier_0 }]
            + spec_parse_vars(ts, skip_to_semi(ts, i + 3) + 1)
    } else {
        spec_parse_vars(ts, i + 1)
    }
}

#[via_fn]
proof fn spec_parse_vars_decreases(ts: Seq<Tok>, i: int) {
    if i + 2 < ts.len() {
        lemma_skip_to_semi_bounds(ts, i + 3);
    }
}

/// Recognises `namespace Name {` at `start_index`.
pub(crate) fn parse_namespace_declaration(tokens: &[Token], start_index: usize) -> (r: Option<
    (String, usize),
>)
    requires
        start_index < tokens@.len(),
    ensures
        match r {
            Some(p) => spec_parse_ns_decl(deep(tokens@), start_index as int) == Some(
                (p.0@, p.1 as int),
            ),
            None => spec_parse_ns_decl(deep(tokens@), start_index as int) is None,
        },
{
    if let Token::Identifier(keyword) = &tokens[start_index] {
        if str_eq(keyword.as_str(), "namespace") {
            if tokens.len() - start_index > 1 {
                if let Token::Identifier(namespace_name) = &tokens[start_index + 1] {
                    if tokens.len() - start_index > 2 {
                        if let Token::Symbol(brace) = &tokens[start_index + 2] {
                            if str_eq(brace.as_str(), "{") {
                                return Some((namespace_name.clone(), start_index + 3));
                            }
                        }
                    }
                }
            }
        }
    }
    None
}

/// One past the brace closing the namespace body that starts at
/// `start_index`, found by depth counting.
pub(crate) fn find_namespace_end(tokens: &[Token], start_index: usize) -> (e: usize)
    requires
        start_index <= tokens@.len(),
    ensures
        e as int == spec_find_ns_end(deep(tokens@), start_index as int),
        start_index <= e <= tokens@.len(),
{
    let ghost ts = deep(tokens@);
    let mut brace_level: u128 = 1;
    let mut i = start_index;
    while i < tokens.len() && brace_level > 0
        invariant
            start_index <= i <= tokens@.len(),
            ts == deep(tokens@),
            ts.len() == tokens@.len(),
            brace_level as int <= 1 + i - start_index,
            brace_scan(ts, start_index as int, 1) == brace_scan(ts, i as int, brace_level as int),
        decreases tokens@.len() - i,
    {
        if let Token::Symbol(s) = &tokens[i] {
            if str_eq(s.as_str(), "{") {
                brace_level += 1;
            } else if str_eq(s.as_str(), "}") {
                brace_level -= 1;
            }
        }
        i += 1;
    }
    i
}

/// Parameter scan shared by the operator and method patterns.
fn parse_params_exec(tokens: &[Token], start: usize) -> (r: (Vec<String>, usize))
    requires
        start <= tokens@.len(),
    ensures
        spec_parse_params(deep(tokens@), start as int) == (r.0.deep_view(), r.1 as int),
        start <= r.1 <= tokens@.len(),
{
    let ghost ts = deep(tokens@);
    proof {
        lemma_parse_params_bounds(ts, start as int);
    }
    let mut params: Vec<String> = Vec::new();
    let mut p = start;
    let mut done = false;
    while p < tokens.len() && !done
        invariant
            start <= p <= tokens@.len(),
            ts == deep(tokens@),
            ts.len() == tokens@.len(),
            done ==> spec_parse_params(ts, start as int) == (params.deep_view(), p as int),
            !done ==> spec_parse_params(ts, start as int).0 == params.deep_view()
                + spec_parse_params(ts, p as int).0 && spec_parse_params(ts, start as int).1
                == spec_parse_params(ts, p as int).1,
        decreases tokens@.len() - p, (if done { 0int } else { 1int }),
    {
        let ghost old_params = params.deep_view();
        let ghost p0 = p as int;
        let mut stepped = false;
        if let Token::Symbol(sym) = &tokens[p] {
            if str_eq(sym.as_str(), ")") {
                p += 1;
                done = true;
                stepped = true;
            } else if str_eq(sym.as_str(), ",") {
                p += 1;
                stepped = true;
            }
        }
        if !stepped {
            let mut paired = false;
            if let Token::Identifier(param_type) = &tokens[p] {
                if tokens.len() - p > 1 {
                    if let Token::Identifier(param_name) = &tokens[p + 1] {
                        let mut pair = param_type.clone();
                        pair.append(" ");
                        pair.append(param_name.as_str());
                        params.push(pair);
                        p += 2;
                        paired = true;
                        proof {
                            assert(params.deep_view() =~= old_params.push(
                                ts[p0]->Identifier_0 + " "@ + ts[p0 + 1]->Identifier_0,
                            ));
                            assert(spec_parse_params(ts, p0).0 =~= seq![
                                ts[p0]->Identifier_0 + " "@ + ts[p0 + 1]->Identifier_0,
                            ] + spec_parse_params(ts, p as int).0);
                            assert(old_params + spec_parse_params(ts, p0).0
                                =~= params.deep_view() + spec_parse_params(ts, p as int).0);
                        }
                    }
                }
            }
            if !paired {
                p += 1;
            }
        }
    }
    proof {
        if !done {
            assert(spec_parse_params(ts, p as int) == (Seq::<Seq<char>>::empty(), p as int));
            assert(params.deep_view() + Seq::<Seq<char>>::empty() =~= params.deep_view());
        }
    }
    (params, p)
}

/// First `{` at or after `start`.
fn skip_to_brace_exec(tokens: &[Token], start: usize) -> (e: usize)
    requires
        start <= tokens@.len(),
    ensures
        e as int == skip_to_brace(deep(tokens@), start as int),
        start <= e <= tokens@.len(),
{
    let ghost ts = deep(tokens@);
    let mut p = start;
    let mut found = false;
    while p < tokens.len() && !found
        invariant
            start <= p <= tokens@.len(),
            ts == deep(tokens@),
            ts.len() == tokens@.len(),
            found ==> skip_to_brace(ts, start as int) == p as int && p < tokens@.len(),
            !found ==> skip_to_brace(ts, start as int) == skip_to_brace(ts, p as int),
        decreases tokens@.len() - p, (if found { 0int } else { 1int }),
    {
        let mut hit = false;
        if let Token::Symbol(s) = &tokens[p] {
            if str_eq(s.as_str(), "{") {
                hit = true;
            }
        }
        if hit {
            found = true;
        } else {
            p += 1;
        }
    }
    p
}

/// Body capture from just inside an opening brace: the tokens before the
/// matching closing brace, and the index just past it.
pub(crate) fn collect_body_exec(tokens: &[Token], start: usize) -> (r: (Vec<Token>, usize))
    requires
        start <= tokens@.len(),
    ensures
        spec_collect_body(deep(tokens@), start as int, 1) == (deep(r.0@), r.1 as int),
        start <= r.1 <= tokens@.len(),
{
    let ghost ts = deep(tokens@);
    proof {
        lemma_collect_body_bounds(ts, start as int, 1);
    }
    let mut body: Vec<Token> = Vec::new();
    let mut b = start;
    let mut level: u128 = 1;
    while b < tokens.len() && level > 0
        invariant
            start <= b <= tokens@.len(),
            ts == deep(tokens@),
            ts.len() == tokens@.len(),
            level as int <= 1 + b - start,
            level > 0 ==> spec_collect_body(ts, start as int, 1).0 == deep(body@)
                + spec_collect_body(ts, b as int, level as int).0 && spec_collect_body(
                ts,
                start as int,
                1,
            ).1 == spec_collect_body(ts, b as int, level as int).1,
            level == 0 ==> spec_collect_body(ts, start as int, 1) == (deep(body@), b as int),
        decreases tokens@.len() - b, level,
    {
        let ghost old_body = body@;
        let ghost b0 = b as int;
        let ghost level0 = level as int;
        let mut is_open = false;
        let mut is_close = false;
        if let Token::Symbol(s) = &tokens[b] {
            if str_eq(s.as_str(), "{") {
                is_open = true;
            } else if str_eq(s.as_str(), "}") {
                is_close = true;
            }
        }
        if is_open {
            level += 1;
        } else if is_close {
            level -= 1;
        }
        if level > 0 {
            body.push(tokens[b].clone());
            proof {
                assert(deep(body@) =~= deep(old_body).push(ts[b0]));
                assert(spec_collect_body(ts, b0, level0).0 =~= seq![ts[b0]]
                    + spec_collect_body(ts, b0 + 1, level as int).0);
                assert(deep(old_body) + spec_collect_body(ts, b0, level0).0 =~= deep(body@)
                    + spec_collect_body(ts, b0 + 1, level as int).0);
            }
        }
        b += 1;
    }
    proof {
        if level > 0 {
            assert(spec_collect_body(ts, b as int, level as int) == (
                Seq::<Tok>::empty(),
                b as int,
            ));
            assert(deep(body@) + Seq::<Tok>::empty() =~= deep(body@));
        }
    }
    (body, b)
}

/// Recognises `ReturnType operator <sym> ( params ) { body }` at
/// `start_index`; tried before the plain method pattern at every
/// position.
pub(crate) fn parse_operator_overload(
    tokens: &[Token],
    start_index: usize,
    class_name: &String,
    namespace: &Option<String>,
) -> (r: Option<(OperatorOverload, usize)>)
    requires
        start_index < tokens@.len(),
    ensures
        match r {
            Some(p) => spec_parse_op_overload(
                deep(tokens@),
                start_index as int,
                class_name@,
                namespace.deep_view(),
            ) == Some((p.0.deep_view(), p.1 as int)) && start_index < p.1 <= tokens@.len(),
            None => spec_parse_op_overload(
                deep(tokens@),
                start_index as int,
                class_name@,
                namespace.deep_view(),
            ) is None,
        },
{
    let ghost ts = deep(tokens@);
    proof {
        lemma_parse_op_overload_bounds(ts, start_index as int, class_name@, namespace.deep_view());
    }
    if tokens.len() - start_index <= 4 {
        return None;
    }
    if let Token::Identifier(return_type) = &tokens[start_index] {
        if let Token::Identifier(keyword) = &tokens[start_index + 1] {
            if str_eq(keyword.as_str(), "operator") {
                if let Token::Symbol(op_symbol) = &tokens[start_index + 2] {
                    if let Token::Symbol(left_paren) = &tokens[start_index + 3] {
                        if str_eq(left_paren.as_str(), "(") {
                            let (params, p1) = parse_params_exec(tokens, start_index + 4);
                            let p2 = skip_to_brace_exec(tokens, p1);
                            if p2 < tokens.len() {
                                let (body_tokens, b) = collect_body_exec(tokens, p2 + 1);
                                let overload = OperatorOverload {
                                    class_name: class_name.clone(),
                                    namespace: crate::text::clone_opt(namespace),
                                    operator: op_symbol.clone(),
                                    return_type: return_type.clone(),
                                    params,
                                    body_tokens,
                                };
                                return Some((overload, b));
                            } else {
                                return None;
                            }
                        }
                    }
                }
            }
        }
    }
    None
}

/// Scans a class body for operator overloads and plain methods, the
/// operator pattern first at every position.
#[verifier::rlimit(60)]
pub(crate) fn parse_functions_with_operators(
    tokens: &[Token],
    class: String,
    namespace: Option<String>,
) -> (r: (Vec<Function>, Vec<OperatorOverload>))
    ensures
        spec_parse_fns_ops(deep(tokens@), 0, class@, namespace.deep_view()) == (
            r.0.deep_view(),
            r.1.deep_view(),
        ),
{
    let ghost ts = deep(tokens@);
    let ghost cv = class@;
    let ghost nv = namespace.deep_view();
    let mut functions: Vec<Function> = Vec::new();
    let mut operators: Vec<OperatorOverload> = Vec::new();
    let mut i: usize = 0;
    let mut done = false;
    while i < tokens.len() && !done
        invariant
            i <= tokens@.len(),
            ts == deep(tokens@),
            ts.len() == tokens@.len(),
            cv == class@,
            nv == namespace.deep_view(),
            done ==> spec_parse_fns_ops(ts, 0, cv, nv) == (
                functions.deep_view(),
                operators.deep_view(),
            ),
            !done ==> spec_parse_fns_ops(ts, 0, cv, nv).0 == functions.deep_view()
                + spec_parse_fns_ops(ts, i as int, cv, nv).0 && spec_parse_fns_ops(
                ts,
                0,
                cv,
                nv,
            ).1 == operators.deep_view() + spec_parse_fns_ops(ts, i as int, cv, nv).1,
        decreases tokens@.len() - i, (if done { 0int } else { 1int }),
    {
        let ghost old_fns = functions.deep_view();
        let ghost old_ops = operators.deep_view();
        let ghost i0 = i as int;
        match parse_operator_overload(tokens, i, &class, &namespace) {
            Some((op_overload, next_i)) => {
                let ghost opv = op_overload.deep_view();
                operators.push(op_overload);
                i = next_i;
                proof {
                    assert(operators.deep_view() =~= old_ops.push(opv));
                    assert(spec_parse_fns_ops(ts, i0, cv, nv).1 =~= seq![opv]
                        + spec_parse_fns_ops(ts, i as int, cv, nv).1);
                    assert(spec_parse_fns_ops(ts, i0, cv, nv).0 == spec_parse_fns_ops(
                        ts,
                        i as int,
                        cv,
                        nv,
                    ).0);
                    assert(old_ops + spec_parse_fns_ops(ts, i0, cv, nv).1
                        =~= operators.deep_view() + spec_parse_fns_ops(ts, i as int, cv, nv).1);
                }
            },
            None => {
                let mut handled = false;
                if tokens.len() - i > 2 {
                    let matched_head = match (&tokens[i], &tokens[i + 1], &tokens[i + 2]) {
                        (Token::Identifier(_), Token::Identifier(_), Token::Symbol(sym)) => str_eq(
                            sym.as_str(),
                            "(",
                        ),
                        _ => false,
                    };
                    if matched_head {
                        let ret_type = match &tokens[i] {
                            Token::Identifier(s) => s.clone(),
                            _ => String::new(),
                        };
                        let name = match &tokens[i + 1] {
                            Token::Identifier(s) => s.clone(),
                            _ => String::new(),
                        };
                        let (params, p1) = parse_params_exec(tokens, i + 3);
                        let p2 = skip_to_brace_exec(tokens, p1);
                        proof {
                            lemma_parse_plain_fn_bounds(ts, i0, cv, nv);
                        }
                        if p2 < tokens.len() {
                            let (body_tokens, b) = collect_body_exec(tokens, p2 + 1);
                            let f = Function {
                                class_name: class.clone(),
                                namespace: crate::text::clone_opt(&namespace),
                                name,
                                return_type: ret_type,
                                params,
                                body_tokens,
                            };
                            let ghost fv = f.deep_view();
                            functions.push(f);
                            i = b;
                            proof {
                                assert(functions.deep_view() =~= old_fns.push(fv));
                                assert(spec_parse_fns_ops(ts, i0, cv, nv).0 =~= seq![fv]
                                    + spec_parse_fns_ops(ts, i as int, cv, nv).0);
                                assert(old_fns + spec_parse_fns_ops(ts, i0, cv, nv).0
                                    =~= functions.deep_view() + spec_parse_fns_ops(
                                    ts,
                                    i as int,
                                    cv,
                                    nv,
                                ).0);
                            }
                        } else {
                            done = true;
                            proof {
                                assert(spec_parse_fns_ops(ts, i0, cv, nv) == (
                                    Seq::<FnV>::empty(),
                                    Seq::<OpV>::empty(),
                                ));
                                assert(old_fns + Seq::<FnV>::empty() =~= old_fns);
                                assert(old_ops + Seq::<OpV>::empty() =~= old_ops);
                            }
                        }
                        handled = true;
                    }
                }
                if !handled {
                    i += 1;
                }
            },
        }
    }
    proof {
        if !done {
            assert(spec_parse_fns_ops(ts, i as int, cv, nv) == (
                Seq::<FnV>::empty(),
                Seq::<OpV>::empty(),
            ));
            assert(functions.deep_view() + Seq::<FnV>::empty() =~= functions.deep_view());
            assert(operators.deep_view() + Seq::<OpV>::empty() =~= operators.deep_view());
        }
    }
    (functions, operators)
}

/// First `;` at or after `start`.
fn skip_to_semi_exec(tokens: &[Token], start: usize) -> (e: usize)
    requires
        start <= tokens@.len(),
    ensures
        e as int == skip_to_semi(deep(tokens@), start as int),
        start <= e <= tokens@.len(),
{
    let ghost ts = deep(tokens@);
    let mut j = start;
    let mut found = false;
    while j < tokens.len() && !found
        invariant
            start <= j <= tokens@.len(),
            ts == deep(tokens@),
            ts.len() == tokens@.len(),
            found ==> skip_to_semi(ts, start as int) == j as int && j < tokens@.len(),
            !found ==> skip_to_semi(ts, start as int) == skip_to_semi(ts, j as int),
        decreases tokens@.len() - j, (if found { 0int } else { 1int }),
    {
        let mut hit = false;
        if let Token::Symbol(s) = &tokens[j] {
            if str_eq(s.as_str(), ";") {
                hit = true;
            }
        }
        if hit {
            found = true;
        } else {
            j += 1;
        }
    }
    j
}

/// Collects `Type name ;` and `Type name = … ;` declarations by one
/// linear scan; initializers are discarded.
pub(crate) fn parse_variables(tokens: &[Token]) -> (r: Vec<Variable>)
    ensures
        r.deep_view() == spec_parse_vars(deep(tokens@), 0),
{
    let ghost ts = deep(tokens@);
    let mut vars: Vec<Variable> = Vec::new();
    let mut i: usize = 0;
    while i < tokens.len() && tokens.len() - i > 2
        invariant
            i <= tokens@.len(),
            ts == deep(tokens@),
            ts.len() == tokens@.len(),
            spec_parse_vars(ts, 0) == vars.deep_view() + spec_parse_vars(ts, i as int),
        decreases tokens@.len() - i,
    {
        let ghost old_vars = vars.deep_view();
        let ghost i0 = i as int;
        let head = match (&tokens[i], &tokens[i + 1], &tokens[i + 2]) {
            (Token::Identifier(_), Token::Identifier(_), Token::Symbol(sym)) => {
                if str_eq(sym.as_str(), ";") {
                    1u8
                } else if str_eq(sym.as_str(), "=") {
                    2u8
                } else {
                    0u8
                }
            },
            _ => 0u8,
        };
        if head == 0 {
            i += 1;
        } else {
            let type_ = match &tokens[i] {
                Token::Identifier(s) => s.clone(),
                _ => String::new(),
            };
            let name = match &tokens[i + 1] {
                Token::Identifier(s) => s.clone(),
                _ => String::new(),
            };
            let v = Variable { name, type_ };
            let ghost vv = v.deep_view();
            vars.push(v);
            if head == 1 {
                i += 3;
            } else {
                let j = skip_to_semi_exec(tokens, i + 3);
                if j < tokens.len() {
                    i = j + 1;
                } else {
                    i = j;
                    proof {
                        assert(spec_parse_vars(ts, j as int) =~= Seq::<VarV>::empty());
                        assert(spec_parse_vars(ts, j + 1) =~= Seq::<VarV>::empty());
                    }
                }
            }
            proof {
                assert(vars.deep_view() =~= old_vars.push(vv));
                assert(spec_parse_vars(ts, i0) =~= seq![vv] + spec_parse_vars(ts, i as int));
                assert(old_vars + spec_parse_vars(ts, i0) =~= vars.deep_view()
                    + spec_parse_vars(ts, i as int));
            }
        }
    }
    proof {
        assert(spec_parse_vars(ts, i as int) =~= Seq::<VarV>::empty());
        assert(vars.deep_view() + Seq::<VarV>::empty() =~= vars.deep_view());
    }
    vars
}

/// The flat, unscoped variable-type table for the lowering pass: every
/// `Type name` declaration anywhere in the unit, in scan order. The
/// registry parameter is accepted for symmetry with the lowering pass
/// and does not affect the result.
pub(crate) fn collect_all_variables_with_namespace(
    tokens: &[Token],
    _class_names: &crate::strmap::StrMap,
) -> (r: Vec<Variable>)
    ensures
        r.deep_view() == spec_parse_vars(deep(tokens@), 0),
{
    parse_variables(tokens)
}

} // verus!

