//! The compile driver: lex, seed the shared class-name registry, resolve
//! imports recursively, extract class entities, lower call sites, emit
//! generated class text, and print the result.
//!
//! Importable files are supplied as a map from path to contents, and the
//! registry is threaded mutably through the whole recursive import chain,
//! so names declared by one import are visible to the importer and to
//! every import processed after it. An unreadable import (a path missing
//! from the map) aborts the whole compilation. There is no cycle
//! detection and no caching: a file imported twice is compiled twice,
//! and a cyclic import graph runs into the recursion depth limit
//! instead of recursing forever.

use vstd::prelude::*;

use crate::ast::{full_name, full_name_of, Class, ClassV, VarV};
use crate::classes::{
    is_ident, is_sym, parse_functions_with_operators, parse_namespace_declaration,
    parse_variables, spec_collect_body, spec_parse_fns_ops, spec_parse_ns_decl,
    spec_parse_vars,
};
use crate::emit::{replace_class_tokens, slice_vec, spec_replace_class};
use crate::lexer::{spec_tokenize, tokenize};
use crate::lower::{parse_function_calls_with_operators, push_all, spec_lower};
use crate::printer::{detokenize, spec_detokenize};
use crate::strmap::StrMap;
use crate::text::{clone_opt, str_eq};
use crate::token::{deep, Tok, Token};
use vstd::string::StringExecFns;

verus! {

/// How deep one import may stand below the top-level unit. Recursion
/// this deep exhausts a thread's stack, so the limit is the machine's,
/// not the language's; only a cyclic import graph reaches it.
pub const IMPORT_DEPTH_LIMIT: u32 = 1024;

/// How many import directives one compilation unit may resolve. The
/// resolution scan needs some bound to be a total function; this one is
/// past what an addressable process could ever splice, so it is never
/// the limit that fires.
pub const IMPORT_SCAN_LIMIT: u32 = u32::MAX;

/// Why a compilation failed.
#[derive(Debug, PartialEq)]
pub enum CompileError {
    /// An import target is not among the supplied source files; the path
    /// is carried as written.
    MissingImport(String),
    /// The import chain went deeper than the depth limit, as it does on
    /// a cyclic import graph (or one unit resolved more directives than
    /// the scan limit, which no real input reaches).
    ImportLimitExceeded,
}

/// Model of a `CompileError`.
pub enum CErrV {
    MissingImport(Seq<char>),
    ImportLimitExceeded,
}

impl DeepView for CompileError {
    type V = CErrV;

    open spec fn deep_view(&self) -> CErrV {
        match self {
            CompileError::MissingImport(s) => CErrV::MissingImport(s@),
            CompileError::ImportLimitExceeded => CErrV::ImportLimitExceeded,
        }
    }
}

/// The registry after the pre-import seeding scan: every `class Name`
/// maps its short name to its namespace-qualified full name, later
/// declarations overwriting earlier ones. The active namespace is
/// tracked with a brace-depth counter: entered at depth 1 on
/// `namespace Name {`, deepened and shallowed by the braces inside, and
/// left on the brace that returns the depth to zero.
pub open spec fn spec_seed_registry(
    ts: Seq<Tok>,
    i: int,
    cur_ns: Option<Seq<char>>,
    depth: int,
    reg: Map<Seq<char>, Seq<char>>,
) -> Map<Seq<char>, Seq<char>>
    decreases ts.len() - i,
        when 0 <= i
{
    if i >= ts.len() {
        reg
    } else {
        match spec_parse_ns_decl(ts, i) {
            Some(ns) => spec_seed_registry(ts, ns.1, Some(ns.0), 1, reg),
            None => {
                if cur_ns is Some && is_sym(ts[i], "{"@) {
                    spec_seed_registry(ts, i + 1, cur_ns, depth + 1, reg)
                } else if cur_ns is Some && is_sym(ts[i], "}"@) {
                    if depth <= 1 {
                        spec_seed_registry(ts, i + 1, None, 0, reg)
                    } else {
                        spec_seed_registry(ts, i + 1, cur_ns, depth - 1, reg)
                    }
                } else if is_ident(ts[i], "class"@) && i + 1 < ts.len() && ts[i + 1]
                    is Identifier {
                    let cname = ts[i + 1]->Identifier_0;
                    spec_seed_registry(
                        ts,
                        i + 1,
                        cur_ns,
                        depth,
                        reg.insert(cname, full_name(cur_ns, cname)),
                    )
                } else {
                    spec_seed_registry(ts, i + 1, cur_ns, depth, reg)
                }
            },
        }
    }
}

/// The import payload from just past the `<`: the concatenated text of
/// the identifier and symbol tokens up to the closing `>`, and the index
/// of that `>`. Any other token kind, or the end of the stream, makes
/// the whole match fail silently.
pub open spec fn scan_payload(ts: Seq<Tok>, j: int) -> Option<(Seq<char>, int)>
    decreases ts.len() - j,
        when 0 <= j
{
    if j >= ts.len() {
        None
    } else if is_sym(ts[j], ">"@) {
        Some((Seq::empty(), j))
    } else {
        match ts[j] {
            Tok::Identifier(s) => match scan_payload(ts, j + 1) {
                Some(r) => Some((s + r.0, r.1)),
                None => None,
            },
            Tok::Symbol(s) => match scan_payload(ts, j + 1) {
                Some(r) => Some((s + r.0, r.1)),
                None => None,
            },
            _ => None,
        }
    }
}

pub proof fn lemma_scan_payload_bounds(ts: Seq<Tok>, j: int)
    requires
        0 <= j <= ts.len(),
    ensures
        scan_payload(ts, j) matches Some(r) ==> j <= r.1 < ts.len() && is_sym(
            ts[r.1],
            ">"@,
        ),
    decreases ts.len() - j,
{
    if j < ts.len() && !is_sym(ts[j], ">"@) {
        lemma_scan_payload_bounds(ts, j + 1);
    }
}

/// Whether the three-token import head `# import <` stands at `i`.
pub open spec fn import_head(ts: Seq<Tok>, i: int) -> bool {
    is_sym(ts[i], "#"@) && i + 1 < ts.len() && is_ident(ts[i + 1], "import"@) && i + 2 < ts.len()
        && is_sym(ts[i + 2], "<"@)
}

/// The structured class entities of the post-import stream: for each
/// `class Name` under the tracked namespace, the captured body handed to
/// the body parser; a class with no brace after its name is recorded
/// empty. The namespace is tracked by brace depth exactly as in the
/// seeding scan; a matched class span is skipped whole, which leaves
/// the depth unchanged.
pub open spec fn spec_extract_classes(
    ts: Seq<Tok>,
    i: int,
    cur_ns: Option<Seq<char>>,
    depth: int,
) -> Seq<ClassV>
    decreases ts.len() - i,
        when 0 <= i
        via spec_extract_classes_decreases
{
    if i >= ts.len() {
        Seq::empty()
    } else {
        match spec_parse_ns_decl(ts, i) {
            Some(ns) => spec_extract_classes(ts, ns.1, Some(ns.0), 1),
            None => {
                if cur_ns is Some && is_sym(ts[i], "{"@) {
                    spec_extract_classes(ts, i + 1, cur_ns, depth + 1)
                } else if cur_ns is Some && is_sym(ts[i], "}"@) {
                    if depth <= 1 {
                        spec_extract_classes(ts, i + 1, None, 0)
                    } else {
                        spec_extract_classes(ts, i + 1, cur_ns, depth - 1)
                    }
                } else if is_ident(ts[i], "class"@) && i + 1 < ts.len() && ts[i + 1]
                    is Identifier {
                    let cname = ts[i + 1]->Identifier_0;
                    if i + 2 < ts.len() && is_sym(ts[i + 2], "{"@) {
                        let cb = spec_collect_body(ts, i + 3, 1);
                        let fops = spec_parse_fns_ops(cb.0, 0, cname, cur_ns);
                        seq![
                            ClassV {
                                name: cname,
                                namespace: cur_ns,
                                variables: spec_parse_vars(cb.0, 0),
                                functions: fops.0,
                                operators: fops.1,
                            },
                        ] + spec_extract_classes(ts, cb.1, cur_ns, depth)
                    } else {
                        seq![
                            ClassV {
                                name: cname,
                                namespace: cur_ns,
                                variables: Seq::empty(),
                                functions: Seq::empty(),
                                operators: Seq::empty(),
                            },
                        ] + spec_extract_classes(ts, i + 2, cur_ns, depth)
                    }
                } else {
                    spec_extract_classes(ts, i + 1, cur_ns, depth)
                }
            },
        }
    }
}

#[via_fn]
proof fn spec_extract_classes_decreases(
    ts: Seq<Tok>,
    i: int,
    cur_ns: Option<Seq<char>>,
    depth: int,
) {
    if 0 <= i && i + 3 <= ts.len() {
        crate::classes::lemma_collect_body_bounds(ts, i + 3, 1);
    }
}

/// One compilation unit, as a mathematical function of the source text,
/// the inherited registry, the available files and the remaining import
/// depth: the compiled C text (or the error), and the registry as the
/// unit leaves it.
pub open spec fn spec_compile(
    src: Seq<char>,
    reg: Map<Seq<char>, Seq<char>>,
    files: Map<Seq<char>, Seq<char>>,
    depth: nat,
) -> (Result<Seq<char>, CErrV>, Map<Seq<char>, Seq<char>>)
    decreases depth, 1nat, 0nat, 0nat,
{
    let ts0 = spec_tokenize(src);
    let reg1 = spec_seed_registry(ts0, 0, None, 0, reg);
    let imported = spec_imports(ts0, 0, reg1, files, depth, IMPORT_SCAN_LIMIT as nat);
    match imported.0 {
        Err(e) => (Err(e), imported.1),
        Ok(ts) => {
            let classes = spec_extract_classes(ts, 0, None, 0);
            let lowered = spec_lower(ts, spec_parse_vars(ts, 0), imported.1, 0);
            let emitted = spec_replace_class(lowered, classes, 0);
            (Ok(spec_detokenize(emitted)), imported.1)
        },
    }
}

/// The import-resolution scan from position `i` on: each well-formed
/// `# import < path >` span is replaced by the re-lexed output of
/// compiling that file against the shared registry, and the scan resumes
/// at the start of the spliced text; a malformed span is left as
/// ordinary tokens. Each file compiles one level below its importer
/// (`depth`), and each directive resolved in this unit spends one unit
/// of the scan budget.
pub open spec fn spec_imports(
    ts: Seq<Tok>,
    i: int,
    reg: Map<Seq<char>, Seq<char>>,
    files: Map<Seq<char>, Seq<char>>,
    depth: nat,
    scan: nat,
) -> (Result<Seq<Tok>, CErrV>, Map<Seq<char>, Seq<char>>)
    decreases depth, 0nat, scan, ts.len() - i,
        when 0 <= i
        via spec_imports_decreases
{
    if i >= ts.len() {
        (Ok(ts), reg)
    } else if import_head(ts, i) {
        match scan_payload(ts, i + 3) {
            Some(p) => {
                if depth == 0 || scan == 0 {
                    (Err(CErrV::ImportLimitExceeded), reg)
                } else if files.contains_key(p.0) {
                    let sub = spec_compile(files[p.0], reg, files, (depth - 1) as nat);
                    match sub.0 {
                        Err(e) => (Err(e), sub.1),
                        Ok(text) => {
                            let new_ts = ts.take(i) + spec_tokenize(text) + ts.skip(p.1 + 1);
                            spec_imports(new_ts, i, sub.1, files, depth, (scan - 1) as nat)
                        },
                    }
                } else {
                    (Err(CErrV::MissingImport(p.0)), reg)
                }
            },
            None => spec_imports(ts, i + 1, reg, files, depth, scan),
        }
    } else {
        spec_imports(ts, i + 1, reg, files, depth, scan)
    }
}

#[via_fn]
proof fn spec_imports_decreases(
    ts: Seq<Tok>,
    i: int,
    reg: Map<Seq<char>, Seq<char>>,
    files: Map<Seq<char>, Seq<char>>,
    depth: nat,
    scan: nat,
) {
    if 0 <= i && i + 3 <= ts.len() {
        lemma_scan_payload_bounds(ts, i + 3);
    }
}

/// Import resolution never caches and never deduplicates: a well-formed
/// directive is resolved by compiling its file anew, against the
/// registry exactly as it stands at that directive, and the fresh
/// output is spliced in place of the span. Two directives naming the
/// same path therefore trigger two independent compilations, each
/// splicing its own copy of the generated text.
pub proof fn lemma_import_resolves_by_recompiling(
    ts: Seq<Tok>,
    i: int,
    reg: Map<Seq<char>, Seq<char>>,
    files: Map<Seq<char>, Seq<char>>,
    depth: nat,
    scan: nat,
)
    requires
        0 <= i < ts.len(),
        import_head(ts, i),
        scan_payload(ts, i + 3) is Some,
        depth > 0,
        scan > 0,
        files.contains_key(scan_payload(ts, i + 3)->Some_0.0),
        spec_compile(
            files[scan_payload(ts, i + 3)->Some_0.0],
            reg,
            files,
            (depth - 1) as nat,
        ).0 is Ok,
    ensures
        ({
            let p = scan_payload(ts, i + 3)->Some_0;
            let sub = spec_compile(files[p.0], reg, files, (depth - 1) as nat);
            spec_imports(ts, i, reg, files, depth, scan) == spec_imports(
                ts.take(i) + spec_tokenize(sub.0->Ok_0) + ts.skip(p.1 + 1),
                i,
                sub.1,
                files,
                depth,
                (scan - 1) as nat,
            )
        }),
{
}

/// Reads the import payload beginning just past the `<` at `start`.
fn scan_import_payload(tokens: &[Token], start: usize) -> (r: Option<(String, usize)>)
    requires
        start <= tokens@.len(),
    ensures
        match r {
            Some(p) => scan_payload(deep(tokens@), start as int) == Some((p.0@, p.1 as int))
                && start <= p.1 < tokens@.len(),
            None => scan_payload(deep(tokens@), start as int) is None,
        },
{
    let ghost ts = deep(tokens@);
    proof {
        lemma_scan_payload_bounds(ts, start as int);
    }
    let mut filename = String::new();
    let mut e = start;
    loop
        invariant
            start <= e <= tokens@.len(),
            ts == deep(tokens@),
            ts.len() == tokens@.len(),
            match scan_payload(ts, e as int) {
                Some(r) => scan_payload(ts, start as int) == Some((filename@ + r.0, r.1)),
                None => scan_payload(ts, start as int) is None,
            },
        ensures
            match scan_payload(ts, start as int) {
                Some(r) => e < tokens@.len() && filename@ == r.0 && e as int == r.1,
                None => e == tokens@.len() || !(tokens@[e as int].deep_view() is Identifier
                    || tokens@[e as int].deep_view() is Symbol),
            },
        decreases tokens@.len() - e,
    {
        if e >= tokens.len() {
            break ;
        }
        let mut ended = false;
        let mut ok = false;
        match &tokens[e] {
            Token::Symbol(s) => {
                if str_eq(s.as_str(), ">") {
                    ended = true;
                } else {
                    filename.append(s.as_str());
                    ok = true;
                }
            },
            Token::Identifier(s) => {
                filename.append(s.as_str());
                ok = true;
            },
            _ => {},
        }
        if ended {
            proof {
                assert(scan_payload(ts, e as int) == Some((Seq::<char>::empty(), e as int)));
                assert(filename@ + Seq::<char>::empty() =~= filename@);
            }
            break ;
        }
        if !ok {
            break ;
        }
        e += 1;
    }
    if e < tokens.len() {
        let hit = match &tokens[e] {
            Token::Symbol(s) => str_eq(s.as_str(), ">"),
            _ => false,
        };
        if hit {
            return Some((filename, e));
        }
    }
    None
}

/// The stream with `tokens[from..to_excl]` replaced by `mid`.
fn splice_tokens(tokens: &Vec<Token>, from: usize, to_excl: usize, mid: &Vec<Token>) -> (r: Vec<
    Token,
>)
    requires
        from <= to_excl <= tokens@.len(),
    ensures
        deep(r@) == deep(tokens@).take(from as int) + deep(mid@) + deep(tokens@).skip(
            to_excl as int,
        ),
{
    let mut out = slice_vec(tokens, 0, from);
    proof {
        assert(deep(tokens@).subrange(0, from as int) =~= deep(tokens@).take(from as int));
    }
    push_all(&mut out, mid);
    let ghost mid_done = deep(tokens@).take(from as int) + deep(mid@);
    proof {
        assert(deep(out@) =~= mid_done);
    }
    let tail = slice_vec(tokens, to_excl, tokens.len());
    proof {
        assert(deep(tokens@).subrange(to_excl as int, tokens@.len() as int) =~= deep(
            tokens@,
        ).skip(to_excl as int));
    }
    push_all(&mut out, &tail);
    proof {
        assert(deep(out@) =~= mid_done + deep(tokens@).skip(to_excl as int));
    }
    out
}

/// Compiles one unit against an inherited registry: the recursive core
/// of the import chain.
#[verifier::rlimit(100)]
fn compile_with_context(
    src: &str,
    known_classes: &mut StrMap,
    files: &StrMap,
    depth: u32,
) -> (r: Result<String, CompileError>)
    ensures
        ({
            let sc = spec_compile(src@, old(known_classes)@, files@, depth as nat);
            &&& final(known_classes)@ == sc.1
            &&& match (r, sc.0) {
                (Ok(s), Ok(t)) => s@ == t,
                (Err(e), Err(t)) => e.deep_view() == t,
                _ => false,
            }
        }),
    decreases depth,
{
    let tokens = tokenize(src);
    let ghost ts0 = deep(tokens@);
    let ghost reg0 = known_classes@;

    // First pass: seed the registry with this file's own classes before
    // any import is resolved, so references across the import graph see
    // them. The active namespace is left on the brace that returns its
    // depth to zero, so braces inside function or class bodies do not
    // end it early.
    let mut current_namespace: Option<String> = None;
    let mut namespace_depth: u128 = 0;
    let mut i: usize = 0;
    while i < tokens.len()
        invariant
            i <= tokens@.len(),
            ts0 == deep(tokens@),
            ts0.len() == tokens@.len(),
            namespace_depth as int <= 1 + i,
            spec_seed_registry(ts0, 0, None, 0, reg0) == spec_seed_registry(
                ts0,
                i as int,
                current_namespace.deep_view(),
                namespace_depth as int,
                known_classes@,
            ),
        decreases tokens@.len() - i,
    {
        match parse_namespace_declaration(tokens.as_slice(), i) {
            Some((namespace_name, content_start)) => {
                current_namespace = Some(namespace_name);
                namespace_depth = 1;
                i = content_start;
            },
            None => {
                let mut handled = false;
                if current_namespace.is_some() {
                    if let Token::Symbol(brace) = &tokens[i] {
                        if str_eq(brace.as_str(), "{") {
                            namespace_depth += 1;
                            i += 1;
                            handled = true;
                        } else if str_eq(brace.as_str(), "}") {
                            if namespace_depth <= 1 {
                                current_namespace = None;
                                namespace_depth = 0;
                            } else {
                                namespace_depth -= 1;
                            }
                            i += 1;
                            handled = true;
                        }
                    }
                }
                if !handled {
                    if let Token::Identifier(keyword) = &tokens[i] {
                        if str_eq(keyword.as_str(), "class") && tokens.len() - i > 1 {
                            if let Token::Identifier(class_name) = &tokens[i + 1] {
                                let full = full_name_of(&current_namespace, class_name);
                                known_classes.insert(class_name.clone(), full);
                            }
                        }
                    }
                    i += 1;
                }
            },
        }
    }
    let ghost reg1 = known_classes@;
    proof {
        assert(reg1 == spec_seed_registry(ts0, 0, None, 0, reg0));
    }

    // Import resolution: each well-formed `# import < path >` span is
    // replaced by the compiled text of that file, re-lexed; the registry
    // is shared with the sub-compile.
    let mut tokens = tokens;
    let mut scan_left = IMPORT_SCAN_LIMIT;
    let ghost overall = spec_imports(ts0, 0, reg1, files@, depth as nat, IMPORT_SCAN_LIMIT as nat);
    i = 0;
    while i < tokens.len()
        invariant
            i <= tokens@.len(),
            ts0 == spec_tokenize(src@),
            reg1 == spec_seed_registry(ts0, 0, None, 0, old(known_classes)@),
            overall == spec_imports(
                ts0,
                0,
                reg1,
                files@,
                depth as nat,
                IMPORT_SCAN_LIMIT as nat,
            ),
            overall == spec_imports(
                deep(tokens@),
                i as int,
                known_classes@,
                files@,
                depth as nat,
                scan_left as nat,
            ),
        decreases scan_left, tokens@.len() - i,
    {
        let ghost ts_cur = deep(tokens@);
        let ghost i0 = i as int;
        let ghost reg_cur = known_classes@;
        let ghost s0 = scan_left as nat;
        let mut head = false;
        if let Token::Symbol(tag) = &tokens[i] {
            if str_eq(tag.as_str(), "#") && tokens.len() - i > 2 {
                let head2 = match (&tokens[i + 1], &tokens[i + 2]) {
                    (Token::Identifier(im), Token::Symbol(la)) => str_eq(im.as_str(), "import")
                        && str_eq(la.as_str(), "<"),
                    _ => false,
                };
                head = head2;
            }
        }
        if head {
            proof {
                assert(import_head(ts_cur, i0));
            }
            match scan_import_payload(tokens.as_slice(), i + 3) {
                Some((filename, end_of_import)) => {
                    let ghost fname = filename@;
                    if depth == 0 || scan_left == 0 {
                        proof {
                            assert(spec_imports(ts_cur, i0, reg_cur, files@, depth as nat, s0)
                                == (Err::<Seq<Tok>, CErrV>(CErrV::ImportLimitExceeded), reg_cur));
                            assert(spec_compile(src@, old(known_classes)@, files@, depth as nat)
                                == (Err::<Seq<char>, CErrV>(CErrV::ImportLimitExceeded), reg_cur));
                        }
                        return Err(CompileError::ImportLimitExceeded);
                    }
                    match files.get(filename.as_str()) {
                        Some(file_content) => {
                            let content = file_content.clone();
                            scan_left = scan_left - 1;
                            proof {
                                assert(files@.contains_key(fname));
                                assert(content@ == files@[fname]);
                            }
                            let sub = compile_with_context(
                                content.as_str(),
                                known_classes,
                                files,
                                depth - 1,
                            );
                            let ghost sub_spec = spec_compile(
                                content@,
                                reg_cur,
                                files@,
                                (depth - 1) as nat,
                            );
                            match sub {
                                Err(e) => {
                                    proof {
                                        assert(spec_imports(
                                            ts_cur,
                                            i0,
                                            reg_cur,
                                            files@,
                                            depth as nat,
                                            s0,
                                        ) == (Err::<Seq<Tok>, CErrV>(e.deep_view()),
                                        known_classes@));
                                        assert(spec_compile(
                                            src@,
                                            old(known_classes)@,
                                            files@,
                                            depth as nat,
                                        ) == (Err::<Seq<char>, CErrV>(e.deep_view()),
                                        known_classes@));
                                    }
                                    return Err(e);
                                },
                                Ok(text) => {
                                    let sub_tokens = tokenize(text.as_str());
                                    let new_tokens = splice_tokens(
                                        &tokens,
                                        i,
                                        end_of_import + 1,
                                        &sub_tokens,
                                    );
                                    tokens = new_tokens;
                                    proof {
                                        assert(sub_spec.0 == Ok::<Seq<char>, CErrV>(text@));
                                        assert(deep(tokens@) == ts_cur.take(i0) + spec_tokenize(
                                            text@,
                                        ) + ts_cur.skip(end_of_import + 1));
                                        assert(spec_imports(
                                            ts_cur,
                                            i0,
                                            reg_cur,
                                            files@,
                                            depth as nat,
                                            s0,
                                        ) == spec_imports(
                                            deep(tokens@),
                                            i as int,
                                            known_classes@,
                                            files@,
                                            depth as nat,
                                            scan_left as nat,
                                        ));
                                    }
                                },
                            }
                        },
                        None => {
                            proof {
                                assert(!files@.contains_key(fname));
                                assert(spec_imports(ts_cur, i0, reg_cur, files@, depth as nat, s0)
                                    == (Err::<Seq<Tok>, CErrV>(CErrV::MissingImport(fname)),
                                reg_cur));
                                assert(spec_compile(src@, old(known_classes)@, files@, depth as nat)
                                    == (Err::<Seq<char>, CErrV>(CErrV::MissingImport(fname)),
                                reg_cur));
                            }
                            return Err(CompileError::MissingImport(filename));
                        },
                    }
                },
                None => {
                    i += 1;
                },
            }
        } else {
            i += 1;
        }
    }
    proof {
        assert(overall == (Ok::<Seq<Tok>, CErrV>(deep(tokens@)), known_classes@));
    }

    // Second structural pass over the import-expanded stream: build the
    // Class entities of this file, under the same brace-depth namespace
    // tracking as the seeding pass.
    let ghost ts = deep(tokens@);
    let mut classes: Vec<Class> = Vec::new();
    let mut current_namespace: Option<String> = None;
    let mut namespace_depth: u128 = 0;
    i = 0;
    while i < tokens.len()
        invariant
            i <= tokens@.len(),
            ts == deep(tokens@),
            ts.len() == tokens@.len(),
            namespace_depth as int <= 1 + i,
            spec_extract_classes(ts, 0, None, 0) == classes.deep_view()
                + spec_extract_classes(
                ts,
                i as int,
                current_namespace.deep_view(),
                namespace_depth as int,
            ),
        decreases tokens@.len() - i,
    {
        let ghost cls0 = classes.deep_view();
        let ghost i0 = i as int;
        let ghost ns0 = current_namespace.deep_view();
        let ghost d0 = namespace_depth as int;
        match parse_namespace_declaration(tokens.as_slice(), i) {
            Some((namespace_name, content_start)) => {
                current_namespace = Some(namespace_name);
                namespace_depth = 1;
                i = content_start;
            },
            None => {
                let mut handled = false;
                if current_namespace.is_some() {
                    if let Token::Symbol(brace) = &tokens[i] {
                        if str_eq(brace.as_str(), "{") {
                            namespace_depth += 1;
                            i += 1;
                            handled = true;
                        } else if str_eq(brace.as_str(), "}") {
                            if namespace_depth <= 1 {
                                current_namespace = None;
                                namespace_depth = 0;
                            } else {
                                namespace_depth -= 1;
                            }
                            i += 1;
                            handled = true;
                        }
                    }
                }
                if !handled {
                    let mut class_done = false;
                    if let Token::Identifier(token_name) = &tokens[i] {
                        if str_eq(token_name.as_str(), "class") && tokens.len() - i > 1 {
                            if let Token::Identifier(class_name) = &tokens[i + 1] {
                                let mut braced = false;
                                if tokens.len() - i > 2 {
                                    if let Token::Symbol(s) = &tokens[i + 2] {
                                        if str_eq(s.as_str(), "{") {
                                            braced = true;
                                        }
                                    }
                                }
                                if braced {
                                    let (body, b) = crate::classes::collect_body_exec(
                                        tokens.as_slice(),
                                        i + 3,
                                    );
                                    let (functions, operators) = parse_functions_with_operators(
                                        body.as_slice(),
                                        class_name.clone(),
                                        clone_opt(&current_namespace),
                                    );
                                    let variables = parse_variables(body.as_slice());
                                    let c = Class {
                                        name: class_name.clone(),
                                        namespace: clone_opt(&current_namespace),
                                        variables,
                                        functions,
                                        operators,
                                    };
                                    let ghost cv = c.deep_view();
                                    classes.push(c);
                                    i = b;
                                    proof {
                                        assert(classes.deep_view() =~= cls0.push(cv));
                                        assert(spec_extract_classes(ts, i0, ns0, d0) =~= seq![cv]
                                            + spec_extract_classes(ts, i as int, ns0, d0));
                                        assert(cls0 + spec_extract_classes(ts, i0, ns0, d0)
                                            =~= classes.deep_view() + spec_extract_classes(
                                            ts,
                                            i as int,
                                            ns0,
                                            d0,
                                        ));
                                    }
                                } else {
                                    let c = Class {
                                        name: class_name.clone(),
                                        namespace: clone_opt(&current_namespace),
                                        variables: Vec::new(),
                                        functions: Vec::new(),
                                        operators: Vec::new(),
                                    };
                                    let ghost cv = c.deep_view();
                                    classes.push(c);
                                    i = i + 2;
                                    proof {
                                        assert(cv.variables =~= Seq::<VarV>::empty());
                                        assert(cv.functions
                                            =~= Seq::<crate::ast::FnV>::empty());
                                        assert(cv.operators
                                            =~= Seq::<crate::ast::OpV>::empty());
                                        assert(classes.deep_view() =~= cls0.push(cv));
                                        assert(spec_extract_classes(ts, i0, ns0, d0) =~= seq![cv]
                                            + spec_extract_classes(ts, i as int, ns0, d0));
                                        assert(cls0 + spec_extract_classes(ts, i0, ns0, d0)
                                            =~= classes.deep_view() + spec_extract_classes(
                                            ts,
                                            i as int,
                                            ns0,
                                            d0,
                                        ));
                                    }
                                }
                                class_done = true;
                            }
                        }
                    }
                    if !class_done {
                        i += 1;
                    }
                }
            },
        }
    }
    proof {
        assert(spec_extract_classes(
            ts,
            tokens@.len() as int,
            current_namespace.deep_view(),
            namespace_depth as int,
        ) =~= Seq::<ClassV>::empty());
        assert(classes.deep_view() + Seq::<ClassV>::empty() =~= classes.deep_view());
        assert(classes.deep_view() == spec_extract_classes(ts, 0, None, 0));
    }

    // Lower call sites over the whole stream, substitute generated class
    // text, and print.
    let tokens = parse_function_calls_with_operators(tokens, known_classes);
    let tokens = replace_class_tokens(tokens, &classes);
    let final_code = detokenize(tokens.as_slice());
    Ok(final_code)
}

/// Compiles one top-level source text. `files` holds every file an
/// `#import` directive may name, keyed by the path exactly as written
/// between `<` and `>`; a path missing from it is fatal, as an
/// unreadable file is: compilation aborts with no partial output.
pub fn compile(src: &str, files: &StrMap) -> (r: Result<String, CompileError>)
    ensures
        ({
            let sc = spec_compile(
                src@,
                Map::<Seq<char>, Seq<char>>::empty(),
                files@,
                IMPORT_DEPTH_LIMIT as nat,
            );
            match (r, sc.0) {
                (Ok(s), Ok(t)) => s@ == t,
                (Err(e), Err(t)) => e.deep_view() == t,
                _ => false,
            }
        }),
{
    let mut known_classes = StrMap::new();
    compile_with_context(src, &mut known_classes, files, IMPORT_DEPTH_LIMIT)
}

} // verus!
