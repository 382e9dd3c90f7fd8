use z_lang::{compile, detokenize, operator_suffix, tokenize, CompileError, StrMap, Token, Variable};

#[test]
fn test_lexer_kinds() {
    let tokens = tokenize("0x1F 1.5e-3 name_1 \"a b\" 'c' // tail");
    assert_eq!(tokens[0], Token::Number("0x1F".to_string()));
    assert_eq!(tokens[1], Token::Number("1.5e-3".to_string()));
    assert_eq!(tokens[2], Token::Identifier("name_1".to_string()));
    assert_eq!(tokens[3], Token::StringLit("\"a b\"".to_string()));
    assert_eq!(tokens[4], Token::CharLit("'c'".to_string()));
    assert_eq!(tokens[5], Token::Comment("// tail".to_string()));
    assert_eq!(tokens[6], Token::Eof);
}

#[test]
fn test_lexer_longest_match_operators() {
    let tokens = tokenize("a>>=b<<c::d=>e");
    assert_eq!(tokens[1], Token::Symbol(">>=".to_string()));
    assert_eq!(tokens[3], Token::Symbol("<<".to_string()));
    assert_eq!(tokens[5], Token::Symbol("::".to_string()));
    assert_eq!(tokens[7], Token::Symbol("=>".to_string()));
}

#[test]
fn test_lexer_unterminated_block_comment() {
    // The scan for `*/` stops one character short of the end, so the
    // last character is lexed again after the comment.
    let tokens = tokenize("/*ab");
    assert_eq!(tokens[0], Token::Comment("/*a".to_string()));
    assert_eq!(tokens[1], Token::Identifier("b".to_string()));
    assert_eq!(tokens[2], Token::Eof);
}

#[test]
fn test_empty_input() {
    let tokens = tokenize("");
    assert_eq!(tokens, vec![Token::Eof]);
    assert_eq!(detokenize(&tokens), "");
    let files = StrMap::new();
    assert_eq!(compile("", &files), Ok(String::new()));
}

#[test]
fn test_print_preserves_content() {
    // Printing a lexed text keeps everything but blank runs.
    let input = "int  main( )\t{\n  return 0 ;\n}\n";
    let output = detokenize(&tokenize(input));
    let strip = |s: &str| -> String { s.chars().filter(|c| *c != ' ' && *c != '\t').collect() };
    assert_eq!(strip(&output), strip(input));
}

#[test]
fn test_print_idempotent() {
    for input in [
        "int main() { return 0; }",
        "a   =   b+1;",
        "x.y->z // cmt\n/* block */ \"str lit\" 'c' 0x1F 1.5e+3\n",
        "namespace geo { class Point { int x; } }",
    ] {
        let once = detokenize(&tokenize(input));
        let twice = detokenize(&tokenize(&once));
        assert_eq!(twice, once);
    }
}

#[test]
fn test_operator_suffix_table() {
    assert_eq!(operator_suffix("+"), "add");
    assert_eq!(operator_suffix("-"), "sub");
    assert_eq!(operator_suffix("*"), "mul");
    assert_eq!(operator_suffix("/"), "div");
    assert_eq!(operator_suffix("=="), "eq");
    assert_eq!(operator_suffix("!="), "neq");
    assert_eq!(operator_suffix("<"), "lt");
    assert_eq!(operator_suffix(">"), "gt");
    assert_eq!(operator_suffix("<="), "le");
    assert_eq!(operator_suffix(">="), "ge");
    assert_eq!(operator_suffix("+="), "add_assign");
    assert_eq!(operator_suffix("-="), "sub_assign");
    assert_eq!(operator_suffix("*="), "mul_assign");
    assert_eq!(operator_suffix("/="), "div_assign");
    assert_eq!(operator_suffix("++"), "increment");
    assert_eq!(operator_suffix("--"), "decrement");
    assert_eq!(operator_suffix("[]"), "index");
    assert_eq!(operator_suffix("%"), "unknown_op");
}

#[test]
fn test_variable_field_text() {
    let v = Variable { name: "x".to_string(), type_: "int".to_string() };
    assert_eq!(v.to_string(), "int x;");
}

#[test]
fn test_class_emission() {
    let files = StrMap::new();
    let out = compile(
        "class Point { int x; int y; int getX(){ return self.x ; } }",
        &files,
    )
    .unwrap();
    assert_eq!(
        out,
        "typedef struct { int x; int y;} Point;\nint Point_getX(Point self ) { return self.x;}"
    );
}

#[test]
fn test_method_call_lowering() {
    let files = StrMap::new();
    let out = compile(
        "class Point { int getX(){ return 0 ; } }\nPoint p;\np.getX();\n",
        &files,
    )
    .unwrap();
    assert!(out.contains("Point_getX(p"), "got: {}", out);
    assert!(out.contains("Point p;"), "got: {}", out);
}

#[test]
fn test_operator_overload_lowering() {
    let files = StrMap::new();
    let out = compile(
        "class Vec { int v; Vec operator+(Vec other){ return self ; } }\nVec a;\nVec b;\nint c = a + b ;\n",
        &files,
    )
    .unwrap();
    assert!(out.contains("Vec_operator_add(a, b"), "got: {}", out);
    assert!(out.contains("Vec_operator_add(Vec self, Vec other"), "got: {}", out);
}

#[test]
fn test_namespace_flattening() {
    let files = StrMap::new();
    let out = compile(
        "namespace geo { class Point { int x; } }\ngeo::Point p;\n",
        &files,
    )
    .unwrap();
    assert!(out.contains("} geo_Point;"), "got: {}", out);
    assert!(out.contains("geo_Point p;"), "got: {}", out);
    assert!(!out.contains("::"), "got: {}", out);
}

#[test]
fn test_namespace_survives_nested_braces() {
    // The active namespace ends on the brace that returns its depth to
    // zero, so a function body's braces before a class do not end it.
    let files = StrMap::new();
    let out = compile(
        "namespace geo { int f(){ } class Q { int y; } }\nQ z;\nint w = z + 1;\n",
        &files,
    )
    .unwrap();
    assert!(out.contains("} geo_Q;"), "got: {}", out);
    assert!(out.contains("geo_Q_operator_add(z, 1"), "got: {}", out);
}

#[test]
fn test_many_sequential_imports() {
    // Imports at one level are not limited by the recursion depth cap:
    // far more directives than the depth limit resolve in one unit.
    let mut files = StrMap::new();
    files.insert("a.z".to_string(), "class A { int x; }".to_string());
    let mut src = String::new();
    for _ in 0..1200 {
        src.push_str("#import <a.z>\n");
    }
    let out = compile(&src, &files).unwrap();
    assert_eq!(out.matches("} A;").count(), 1200);
}

#[test]
fn test_flat_variable_table() {
    // The variable-type table is deliberately unscoped: a declared name
    // is typed everywhere, and an unregistered type stands for itself.
    let files = StrMap::new();
    let out = compile("int a;\nint b = a + 1;\n", &files).unwrap();
    assert!(out.contains("int_operator_add(a, 1"), "got: {}", out);
}

#[test]
fn test_import_twice_not_deduplicated() {
    let mut files = StrMap::new();
    files.insert("a.z".to_string(), "class A { int x; }".to_string());
    files.insert("b.z".to_string(), "#import <a.z>".to_string());
    let out = compile("#import <a.z>\n#import <b.z>\n", &files).unwrap();
    assert_eq!(out.matches("} A;").count(), 2, "got: {}", out);
}

#[test]
fn test_import_shares_registry() {
    // A class declared in an import resolves in the importer.
    let mut files = StrMap::new();
    files.insert(
        "p.z".to_string(),
        "namespace geo { class Point { int x; } }".to_string(),
    );
    let out = compile("#import <p.z>\nPoint p;\n", &files).unwrap();
    // `Point p;` types p as Point, whose registered full name is geo_Point.
    assert!(out.contains("} geo_Point;"), "got: {}", out);
}

#[test]
fn test_missing_import_is_fatal() {
    let files = StrMap::new();
    let err = compile("#import <missing.z>", &files).unwrap_err();
    assert_eq!(err, CompileError::MissingImport("missing.z".to_string()));
}

#[test]
fn test_malformed_import_passes_through() {
    // A newline inside the payload ends the scan early: the directive is
    // not an import and its tokens are copied out unchanged.
    let files = StrMap::new();
    let out = compile("#import <broken\n", &files).unwrap();
    assert!(out.contains("# import <broken"), "got: {}", out);
}

#[test]
fn test_cyclic_import_exceeds_limit() {
    let mut files = StrMap::new();
    files.insert("self.z".to_string(), "#import <self.z>".to_string());
    let err = compile("#import <self.z>", &files).unwrap_err();
    assert_eq!(err, CompileError::ImportLimitExceeded);
}

#[test]
fn test_increment_and_compound_assign_lowering() {
    let files = StrMap::new();
    let out = compile(
        "class C { int x; }\nC v;\n++v;\nv++;\nv += 3;\n",
        &files,
    )
    .unwrap();
    assert_eq!(out.matches("C_operator_increment(v").count(), 2, "got: {}", out);
    assert!(out.contains("C_operator_add_assign(v, 3"), "got: {}", out);
}

#[test]
fn test_method_call_with_arguments() {
    let files = StrMap::new();
    let out = compile(
        "class M { int f(int a, int b){ return a ; } }\nM m;\nm.f(1, 2);\n",
        &files,
    )
    .unwrap();
    assert!(out.contains("M_f(m, 1, 2"), "got: {}", out);
    assert!(out.contains("M_f(M self, int a, int b"), "got: {}", out);
}

#[test]
fn test_method_named_operator_is_plain_method() {
    // The overload pattern needs a symbol after the keyword, so a method
    // literally named `operator` parses as an ordinary method.
    let files = StrMap::new();
    let out = compile(
        "class A { int operator(int a){ return a ; } }",
        &files,
    )
    .unwrap();
    assert!(out.contains("A_operator(A self, int a"), "got: {}", out);
    assert!(!out.contains("unknown_op"), "got: {}", out);
}

#[test]
fn test_string_escape_spans_one_token() {
    let tokens = tokenize("\"a\\\"b\" rest");
    assert_eq!(tokens[0], Token::StringLit("\"a\\\"b\"".to_string()));
    assert_eq!(tokens[1], Token::Identifier("rest".to_string()));
}

#[test]
fn test_registry_overwrites() {
    let mut m = StrMap::new();
    assert!(m.get("Point").is_none());
    m.insert("Point".to_string(), "Point".to_string());
    m.insert("Point".to_string(), "geo_Point".to_string());
    assert_eq!(m.get("Point").map(|s| s.as_str()), Some("geo_Point"));
    assert!(m.get("Vec").is_none());
}
