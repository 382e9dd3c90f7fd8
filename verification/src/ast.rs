//! The structured entities built once per file by the class body parser,
//! and the C text generated from them by the emitter.
//!
//! A class's canonical (full) name is `namespace + "_" + name` when it is
//! namespaced, else its bare name; every generated C symbol uses it.

use vstd::prelude::*;

use crate::text::str_eq;
use crate::token::{deep, tok_text, Tok, Token};
use vstd::string::StringExecFns;

verus! {

/// A leftover surface node kept for callers; the pipeline itself works on
/// token sequences alone.
#[derive(Debug)]
pub enum Node {
    Var { name: String, value: String },
    Print { expr: String },
}

/// A declared variable: its raw type text and name.
#[derive(Debug, Clone)]
pub struct Variable {
    pub name: String,
    pub type_: String,
}

/// A method of a class: its owner, optional namespace, name, return type,
/// `"type name"` parameter strings, and the captured body tokens, copied
/// verbatim into generated output.
#[derive(Debug)]
pub struct Function {
    pub class_name: String,
    pub namespace: Option<String>,
    pub name: String,
    pub return_type: String,
    pub params: Vec<String>,
    pub body_tokens: Vec<Token>,
}

/// An operator overload: as a method, but keyed by the operator symbol.
#[derive(Debug)]
pub struct OperatorOverload {
    pub class_name: String,
    pub namespace: Option<String>,
    pub operator: String,
    pub return_type: String,
    pub params: Vec<String>,
    pub body_tokens: Vec<Token>,
}

/// A class: name, optional single-level namespace, and its ordered
/// members.
#[derive(Debug)]
pub struct Class {
    pub name: String,
    pub namespace: Option<String>,
    pub variables: Vec<Variable>,
    pub functions: Vec<Function>,
    pub operators: Vec<OperatorOverload>,
}

/// Model of a `Variable`.
pub struct VarV {
    pub name: Seq<char>,
    pub type_: Seq<char>,
}

/// Model of a `Function`.
pub struct FnV {
    pub class_name: Seq<char>,
    pub namespace: Option<Seq<char>>,
    pub name: Seq<char>,
    pub return_type: Seq<char>,
    pub params: Seq<Seq<char>>,
    pub body: Seq<Tok>,
}

/// Model of an `OperatorOverload`.
pub struct OpV {
    pub class_name: Seq<char>,
    pub namespace: Option<Seq<char>>,
    pub operator: Seq<char>,
    pub return_type: Seq<char>,
    pub params: Seq<Seq<char>>,
    pub body: Seq<Tok>,
}

/// Model of a `Class`.
pub struct ClassV {
    pub name: Seq<char>,
    pub namespace: Option<Seq<char>>,
    pub variables: Seq<VarV>,
    pub functions: Seq<FnV>,
    pub operators: Seq<OpV>,
}

impl DeepView for Variable {
    type V = VarV;

    open spec fn deep_view(&self) -> VarV {
        VarV { name: self.name@, type_: self.type_@ }
    }
}

impl DeepView for Function {
    type V = FnV;

    open spec fn deep_view(&self) -> FnV {
        FnV {
            class_name: self.class_name@,
            namespace: self.namespace.deep_view(),
            name: self.name@,
            return_type: self.return_type@,
            params: self.params.deep_view(),
            body: deep(self.body_tokens@),
        }
    }
}

impl DeepView for OperatorOverload {
    type V = OpV;

    open spec fn deep_view(&self) -> OpV {
        OpV {
            class_name: self.class_name@,
            namespace: self.namespace.deep_view(),
            operator: self.operator@,
            return_type: self.return_type@,
            params: self.params.deep_view(),
            body: deep(self.body_tokens@),
        }
    }
}

impl DeepView for Class {
    type V = ClassV;

    open spec fn deep_view(&self) -> ClassV {
        ClassV {
            name: self.name@,
            namespace: self.namespace.deep_view(),
            variables: self.variables.deep_view(),
            functions: self.functions.deep_view(),
            operators: self.operators.deep_view(),
        }
    }
}

/// The canonical name: `namespace + "_" + name` when namespaced.
pub open spec fn full_name(ns: Option<Seq<char>>, name: Seq<char>) -> Seq<char> {
    match ns {
        Some(n) => n + "_"@ + name,
        None => name,
    }
}

/// The struct-field text of one variable: `type name;`.
pub open spec fn var_text(v: VarV) -> Seq<char> {
    v.type_ + " "@ + v.name + ";"@
}

/// The given parts, one after the other.
pub open spec fn concat_texts(parts: Seq<Seq<char>>) -> Seq<char>
    decreases parts.len(),
{
    if parts.len() == 0 {
        Seq::empty()
    } else {
        parts[0] + concat_texts(parts.drop_first())
    }
}

/// The given parts with the separator between each adjacent pair.
pub open spec fn join_with(parts: Seq<Seq<char>>, sep: Seq<char>) -> Seq<char>
    decreases parts.len(),
{
    if parts.len() == 0 {
        Seq::empty()
    } else if parts.len() == 1 {
        parts[0]
    } else {
        parts[0] + sep + join_with(parts.drop_first(), sep)
    }
}

/// The canonical suffix for an overloadable operator symbol; anything
/// outside the fixed table maps to `unknown_op`.
pub open spec fn spec_op_suffix(op: Seq<char>) -> Seq<char> {
    if op == "+"@ {
        "add"@
    } else if op == "-"@ {
        "sub"@
    } else if op == "*"@ {
        "mul"@
    } else if op == "/"@ {
        "div"@
    } else if op == "=="@ {
        "eq"@
    } else if op == "!="@ {
        "neq"@
    } else if op == "<"@ {
        "lt"@
    } else if op == ">"@ {
        "gt"@
    } else if op == "<="@ {
        "le"@
    } else if op == ">="@ {
        "ge"@
    } else if op == "+="@ {
        "add_assign"@
    } else if op == "-="@ {
        "sub_assign"@
    } else if op == "*="@ {
        "mul_assign"@
    } else if op == "/="@ {
        "div_assign"@
    } else if op == "++"@ {
        "increment"@
    } else if op == "--"@ {
        "decrement"@
    } else if op == "[]"@ {
        "index"@
    } else {
        "unknown_op"@
    }
}

/// The parameter-list tail of a generated method: empty for no
/// parameters, else a comma and the `", "`-joined parameter strings.
pub open spec fn params_tail(params: Seq<Seq<char>>) -> Seq<char> {
    if params.len() == 0 {
        Seq::empty()
    } else {
        ","@ + join_with(params, ", "@)
    }
}

/// The generated C function for a method:
/// `ret Full_name(Full self, params){body}`.
pub open spec fn fn_text(f: FnV) -> Seq<char> {
    let full = full_name(f.namespace, f.class_name);
    let joined = join_with(f.body.map_values(|t: Tok| tok_text(t)), " "@);
    f.return_type + " "@ + full + "_"@ + f.name + "("@ + full + " self"@ + params_tail(f.params)
        + ")"@ + "{"@ + joined + "}"@
}

/// The generated C function for an operator overload:
/// `ret Full_operator_suffix(Full self, params){body}`.
pub open spec fn op_over_text(o: OpV) -> Seq<char> {
    let full = full_name(o.namespace, o.class_name);
    let joined = join_with(o.body.map_values(|t: Tok| tok_text(t)), " "@);
    o.return_type + " "@ + full + "_operator_"@ + spec_op_suffix(o.operator) + "("@ + full
        + " self, "@ + join_with(o.params, ", "@) + ")"@ + "{"@ + joined + "}"@
}

/// The whole generated text of a class: the typedef'd struct, then one
/// function per method, then one per operator overload.
pub open spec fn class_text(c: ClassV) -> Seq<char> {
    let full = full_name(c.namespace, c.name);
    "typedef struct { "@ + concat_texts(c.variables.map_values(|v: VarV| var_text(v))) + " } "@
        + full + ";\n"@ + concat_texts(c.functions.map_values(|f: FnV| fn_text(f)))
        + concat_texts(c.operators.map_values(|o: OpV| op_over_text(o)))
}

pub proof fn lemma_concat_texts_take_push(parts: Seq<Seq<char>>, i: int)
    requires
        0 <= i < parts.len(),
    ensures
        concat_texts(parts.take(i + 1)) == concat_texts(parts.take(i)) + parts[i],
    decreases i,
{
    if i == 0 {
        assert(parts.take(1) =~= seq![parts[0]]);
        assert(parts.take(1).drop_first() =~= Seq::<Seq<char>>::empty());
        assert(parts.take(0) =~= Seq::<Seq<char>>::empty());
        assert(concat_texts(parts.take(1)) =~= concat_texts(parts.take(0)) + parts[0]);
    } else {
        let pdf = parts.drop_first();
        lemma_concat_texts_take_push(pdf, i - 1);
        assert(parts.take(i + 1).drop_first() =~= pdf.take(i));
        assert(parts.take(i).drop_first() =~= pdf.take(i - 1));
        assert(parts.take(i + 1)[0] == parts[0]);
        assert(parts.take(i)[0] == parts[0]);
        assert(pdf[i - 1] == parts[i]);
        assert(concat_texts(parts.take(i + 1)) =~= concat_texts(parts.take(i)) + parts[i]);
    }
}

pub proof fn lemma_join_with_take_push(parts: Seq<Seq<char>>, sep: Seq<char>, i: int)
    requires
        1 <= i < parts.len(),
    ensures
        join_with(parts.take(i + 1), sep) == join_with(parts.take(i), sep) + sep + parts[i],
    decreases i,
{
    if i == 1 {
        assert(parts.take(2) =~= seq![parts[0], parts[1]]);
        assert(parts.take(2).drop_first() =~= seq![parts[1]]);
        assert(parts.take(1) =~= seq![parts[0]]);
        assert(join_with(seq![parts[1]], sep) == parts[1]);
        assert(join_with(parts.take(2), sep) == parts.take(2)[0] + sep + join_with(
            parts.take(2).drop_first(),
            sep,
        ));
        assert(join_with(parts.take(2), sep) =~= join_with(parts.take(1), sep) + sep
            + parts[1]);
    } else {
        let pdf = parts.drop_first();
        lemma_join_with_take_push(pdf, sep, i - 1);
        assert(parts.take(i + 1).drop_first() =~= pdf.take(i));
        assert(parts.take(i).drop_first() =~= pdf.take(i - 1));
        assert(parts.take(i + 1)[0] == parts[0]);
        assert(parts.take(i)[0] == parts[0]);
        assert(pdf[i - 1] == parts[i]);
        assert(join_with(parts.take(i + 1), sep) =~= join_with(parts.take(i), sep) + sep
            + parts[i]);
    }
}

/// The canonical suffix used in a generated operator function's name.
pub fn operator_suffix(op: &str) -> (r: String)
    ensures
        r@ == spec_op_suffix(op@),
{
    if str_eq(op, "+") {
        String::from_str("add")
    } else if str_eq(op, "-") {
        String::from_str("sub")
    } else if str_eq(op, "*") {
        String::from_str("mul")
    } else if str_eq(op, "/") {
        String::from_str("div")
    } else if str_eq(op, "==") {
        String::from_str("eq")
    } else if str_eq(op, "!=") {
        String::from_str("neq")
    } else if str_eq(op, "<") {
        String::from_str("lt")
    } else if str_eq(op, ">") {
        String::from_str("gt")
    } else if str_eq(op, "<=") {
        String::from_str("le")
    } else if str_eq(op, ">=") {
        String::from_str("ge")
    } else if str_eq(op, "+=") {
        String::from_str("add_assign")
    } else if str_eq(op, "-=") {
        String::from_str("sub_assign")
    } else if str_eq(op, "*=") {
        String::from_str("mul_assign")
    } else if str_eq(op, "/=") {
        String::from_str("div_assign")
    } else if str_eq(op, "++") {
        String::from_str("increment")
    } else if str_eq(op, "--") {
        String::from_str("decrement")
    } else if str_eq(op, "[]") {
        String::from_str("index")
    } else {
        String::from_str("unknown_op")
    }
}

/// The canonical name of a possibly namespaced entity.
pub(crate) fn full_name_of(ns: &Option<String>, name: &String) -> (r: String)
    ensures
        r@ == full_name(ns.deep_view(), name@),
{
    match ns {
        Some(n) => {
            let mut s = n.clone();
            s.append("_");
            s.append(name.as_str());
            proof {
                assert(s@ =~= full_name(ns.deep_view(), name@));
            }
            s
        },
        None => name.clone(),
    }
}

/// The body tokens of a method, `" "`-joined as the emitter prints them.
fn join_body(body: &Vec<Token>) -> (r: String)
    ensures
        r@ == join_with(deep(body@).map_values(|t: Tok| tok_text(t)), " "@),
{
    let ghost parts = deep(body@).map_values(|t: Tok| tok_text(t));
    let mut joined = String::new();
    let mut k: usize = 0;
    while k < body.len()
        invariant
            k <= body@.len(),
            parts == deep(body@).map_values(|t: Tok| tok_text(t)),
            parts.len() == body@.len(),
            joined@ == join_with(parts.take(k as int), " "@),
        decreases body@.len() - k,
    {
        proof {
            reveal_strlit("\n");
            if k == 0 {
                assert(parts.take(1) =~= seq![parts[0]]);
            } else {
                lemma_join_with_take_push(parts, " "@, k as int);
            }
        }
        if k > 0 {
            joined.append(" ");
        }
        match &body[k] {
            Token::Identifier(s) => joined.append(s.as_str()),
            Token::Number(s) => joined.append(s.as_str()),
            Token::StringLit(s) => joined.append(s.as_str()),
            Token::CharLit(s) => joined.append(s.as_str()),
            Token::Symbol(s) => joined.append(s.as_str()),
            Token::Comment(s) => joined.append(s.as_str()),
            Token::Newline => joined.append("\n"),
            Token::Eof => (),
        }
        proof {
            assert(tok_text(body@[k as int].deep_view()) == parts[k as int]);
            assert("\n"@ =~= seq!['\n']);
            assert(joined@ =~= join_with(parts.take(k + 1), " "@));
        }
        k += 1;
    }
    proof {
        assert(parts.take(parts.len() as int) =~= parts);
    }
    joined
}

/// The `", "`-joined parameter strings of a method.
fn join_params(params: &Vec<String>) -> (r: String)
    ensures
        r@ == join_with(params.deep_view(), ", "@),
{
    let ghost parts = params.deep_view();
    let mut joined = String::new();
    let mut k: usize = 0;
    while k < params.len()
        invariant
            k <= params@.len(),
            parts == params.deep_view(),
            parts.len() == params@.len(),
            forall|j: int| 0 <= j < parts.len() ==> parts[j] == params@[j]@,
            joined@ == join_with(parts.take(k as int), ", "@),
        decreases params@.len() - k,
    {
        proof {
            if k == 0 {
                assert(parts.take(1) =~= seq![parts[0]]);
            } else {
                lemma_join_with_take_push(parts, ", "@, k as int);
            }
        }
        if k > 0 {
            joined.append(", ");
        }
        joined.append(params[k].as_str());
        proof {
            assert(joined@ =~= join_with(parts.take(k + 1), ", "@));
        }
        k += 1;
    }
    proof {
        assert(parts.take(parts.len() as int) =~= parts);
    }
    joined
}

impl Variable {
    /// The struct-field text of this variable: `type name;`.
    pub fn to_string(&self) -> (r: String)
        ensures
            r@ == var_text(self.deep_view()),
    {
        let mut s = String::new();
        s.append(self.type_.as_str());
        s.append(" ");
        s.append(self.name.as_str());
        s.append(";");
        proof {
            assert(s@ =~= var_text(self.deep_view()));
        }
        s
    }
}

impl Function {
    /// The generated C function for this method.
    pub fn to_string(&self) -> (r: String)
        ensures
            r@ == fn_text(self.deep_view()),
    {
        let full = full_name_of(&self.namespace, &self.class_name);
        let joined = join_body(&self.body_tokens);
        let mut s = String::new();
        s.append(self.return_type.as_str());
        s.append(" ");
        s.append(full.as_str());
        s.append("_");
        s.append(self.name.as_str());
        s.append("(");
        s.append(full.as_str());
        s.append(" self");
        if self.params.len() > 0 {
            s.append(",");
            let p = join_params(&self.params);
            s.append(p.as_str());
        }
        s.append(")");
        s.append("{");
        s.append(joined.as_str());
        s.append("}");
        proof {
            assert(s@ =~= fn_text(self.deep_view()));
        }
        s
    }
}

impl OperatorOverload {
    /// The generated C function for this operator overload.
    pub fn to_string(&self) -> (r: String)
        ensures
            r@ == op_over_text(self.deep_view()),
    {
        let full = full_name_of(&self.namespace, &self.class_name);
        let joined = join_body(&self.body_tokens);
        let suffix = operator_suffix(self.operator.as_str());
        let p = join_params(&self.params);
        let mut s = String::new();
        s.append(self.return_type.as_str());
        s.append(" ");
        s.append(full.as_str());
        s.append("_operator_");
        s.append(suffix.as_str());
        s.append("(");
        s.append(full.as_str());
        s.append(" self, ");
        s.append(p.as_str());
        s.append(")");
        s.append("{");
        s.append(joined.as_str());
        s.append("}");
        proof {
            assert(s@ =~= op_over_text(self.deep_view()));
        }
        s
    }
}

impl Class {
    /// The whole generated text of this class: struct, methods, operators.
    pub fn to_string(&self) -> (r: String)
        ensures
            r@ == class_text(self.deep_view()),
    {
        let full = full_name_of(&self.namespace, &self.name);
        let mut s = String::from_str("typedef struct { ");
        let ghost var_parts = self.variables.deep_view().map_values(|v: VarV| var_text(v));
        let mut k: usize = 0;
        while k < self.variables.len()
            invariant
                k <= self.variables@.len(),
                var_parts == self.variables.deep_view().map_values(|v: VarV| var_text(v)),
                var_parts.len() == self.variables@.len(),
                forall|j: int| 0 <= j < var_parts.len() ==> var_parts[j] == var_text(
                    self.variables@[j].deep_view(),
                ),
                s@ == "typedef struct { "@ + concat_texts(var_parts.take(k as int)),
            decreases self.variables@.len() - k,
        {
            proof {
                lemma_concat_texts_take_push(var_parts, k as int);
            }
            let piece = self.variables[k].to_string();
            s.append(piece.as_str());
            proof {
                assert(s@ =~= "typedef struct { "@ + concat_texts(var_parts.take(k + 1)));
            }
            k += 1;
        }
        proof {
            assert(var_parts.take(var_parts.len() as int) =~= var_parts);
        }
        s.append(" } ");
        s.append(full.as_str());
        s.append(";\n");
        let ghost head = "typedef struct { "@ + concat_texts(var_parts) + " } "@ + full@
            + ";\n"@;
        proof {
            assert(s@ =~= head);
        }
        let ghost fn_parts = self.functions.deep_view().map_values(|f: FnV| fn_text(f));
        let mut k2: usize = 0;
        while k2 < self.functions.len()
            invariant
                k2 <= self.functions@.len(),
                fn_parts == self.functions.deep_view().map_values(|f: FnV| fn_text(f)),
                fn_parts.len() == self.functions@.len(),
                forall|j: int| 0 <= j < fn_parts.len() ==> fn_parts[j] == fn_text(
                    self.functions@[j].deep_view(),
                ),
                s@ == head + concat_texts(fn_parts.take(k2 as int)),
            decreases self.functions@.len() - k2,
        {
            proof {
                lemma_concat_texts_take_push(fn_parts, k2 as int);
            }
            let piece = self.functions[k2].to_string();
            s.append(piece.as_str());
            proof {
                assert(s@ =~= head + concat_texts(fn_parts.take(k2 + 1)));
            }
            k2 += 1;
        }
        proof {
            assert(fn_parts.take(fn_parts.len() as int) =~= fn_parts);
        }
        let ghost head2 = head + concat_texts(fn_parts);
        let ghost op_parts = self.operators.deep_view().map_values(|o: OpV| op_over_text(o));
        let mut k3: usize = 0;
        while k3 < self.operators.len()
            invariant
                k3 <= self.operators@.len(),
                op_parts == self.operators.deep_view().map_values(|o: OpV| op_over_text(o)),
                op_parts.len() == self.operators@.len(),
                forall|j: int| 0 <= j < op_parts.len() ==> op_parts[j] == op_over_text(
                    self.operators@[j].deep_view(),
                ),
                s@ == head2 + concat_texts(op_parts.take(k3 as int)),
            decreases self.operators@.len() - k3,
        {
            proof {
                lemma_concat_texts_take_push(op_parts, k3 as int);
            }
            let piece = self.operators[k3].to_string();
            s.append(piece.as_str());
            proof {
                assert(s@ =~= head2 + concat_texts(op_parts.take(k3 + 1)));
            }
            k3 += 1;
        }
        proof {
            assert(op_parts.take(op_parts.len() as int) =~= op_parts);
            assert(s@ =~= class_text(self.deep_view()));
        }
        s
    }
}

} // verus!
