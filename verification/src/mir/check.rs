//! Checking a lowered program: every local is defined before use, values
//! match the types they flow into, calls match their targets, enum variants
//! exist, and a function with a result returns on every path.
use vstd::prelude::*;
use crate::ast::{op_text, BinaryOp, Param, UnaryOp};
use crate::diagnostic::{diags_view, Diagnostic, Span, SpecDiagnostic};
use crate::mir::{
    opt_text, MirEnum, MirEnumVariant, MirExpr, MirFunction, MirMatchArm, MirPattern, MirPlace, MirStmt,
    Program,
};
use crate::text::{concat3, concat5, copy_string, decimal, push_decimal, push_str, str_equal};
use crate::mir::dump::{
    lemma_marms_size_elem, lemma_mexprs_size_elem, lemma_mstmts_size_elem, marms_size, mexpr_size,
    mexprs_size, mstmt_size, mstmts_size,
};

verus! {

/// The type of a MIR value as the checker sees it.
pub enum SpecMirType {
    Named(Seq<char>),
    Array(Box<SpecMirType>),
    Unit,
    Unknown,
}

enum MirType {
    Named(String),
    Array(Box<MirType>),
    Unit,
    Unknown,
}

impl MirType {
    spec fn view(&self) -> SpecMirType
        decreases self,
    {
        match self {
            MirType::Named(n) => SpecMirType::Named(n@),
            MirType::Array(e) => SpecMirType::Array(Box::new(e.view())),
            MirType::Unit => SpecMirType::Unit,
            MirType::Unknown => SpecMirType::Unknown,
        }
    }

    fn named(name: &str) -> (t: MirType)
        ensures
            t.view() == SpecMirType::Named(name@),
    {
        MirType::Named(copy_string(name))
    }

    fn is_unknown(&self) -> (b: bool)
        ensures
            b == (self.view() is Unknown),
    {
        match self {
            MirType::Unknown => true,
            _ => false,
        }
    }

    fn copy(&self) -> (t: MirType)
        ensures
            t.view() == self.view(),
        decreases self,
    {
        match self {
            MirType::Named(n) => MirType::Named(n.clone()),
            MirType::Array(e) => MirType::Array(Box::new(e.copy())),
            MirType::Unit => MirType::Unit,
            MirType::Unknown => MirType::Unknown,
        }
    }

    /// How the type is written in messages.
    fn display(&self) -> (s: String)
        ensures
            s@ == type_text(self.view()),
        decreases self,
    {
        match self {
            MirType::Named(n) => n.clone(),
            MirType::Array(e) => {
                let mut s = e.display();
                push_str(&mut s, "Array");
                s
            },
            MirType::Unit => {
                let s = copy_string("Unit");
                s
            },
            MirType::Unknown => copy_string("<unknown>"),
        }
    }
}

/// How a type is written in messages.
pub open spec fn type_text(t: SpecMirType) -> Seq<char>
    decreases t,
{
    match t {
        SpecMirType::Named(n) => n,
        SpecMirType::Array(e) => type_text(*e) + "Array"@,
        SpecMirType::Unit => "Unit"@,
        SpecMirType::Unknown => "<unknown>"@,
    }
}

/// The type a type annotation names.
pub open spec fn parse_type(name: Seq<char>) -> SpecMirType {
    if name == "IntArray"@ {
        SpecMirType::Array(Box::new(SpecMirType::Named("Int"@)))
    } else if name == "StringArray"@ {
        SpecMirType::Array(Box::new(SpecMirType::Named("String"@)))
    } else if name == "BoolArray"@ {
        SpecMirType::Array(Box::new(SpecMirType::Named("Bool"@)))
    } else if name == "FloatArray"@ {
        SpecMirType::Array(Box::new(SpecMirType::Named("Float"@)))
    } else if name == "Unit"@ {
        SpecMirType::Unit
    } else {
        SpecMirType::Named(name)
    }
}

fn parse_mir_type(name: &str) -> (t: MirType)
    ensures
        t.view() == parse_type(name@),
{
    if str_equal(name, "IntArray") {
        MirType::Array(Box::new(MirType::named("Int")))
    } else if str_equal(name, "StringArray") {
        MirType::Array(Box::new(MirType::named("String")))
    } else if str_equal(name, "BoolArray") {
        MirType::Array(Box::new(MirType::named("Bool")))
    } else if str_equal(name, "FloatArray") {
        MirType::Array(Box::new(MirType::named("Float")))
    } else if str_equal(name, "Unit") {
        MirType::Unit
    } else {
        MirType::Named(copy_string(name))
    }
}

/// Whether a value of type `a` may stand where `b` is expected: an unknown
/// type matches anything; otherwise the types agree.
pub open spec fn compatible(a: SpecMirType, b: SpecMirType) -> bool
    decreases a,
{
    if a is Unknown || b is Unknown {
        true
    } else {
        match (a, b) {
            (SpecMirType::Named(x), SpecMirType::Named(y)) => x == y,
            (SpecMirType::Array(x), SpecMirType::Array(y)) => compatible(*x, *y),
            (SpecMirType::Unit, SpecMirType::Unit) => true,
            _ => false,
        }
    }
}

fn compatible_types(a: &MirType, b: &MirType) -> (r: bool)
    ensures
        r == compatible(a.view(), b.view()),
    decreases a,
{
    if a.is_unknown() || b.is_unknown() {
        return true;
    }
    match (a, b) {
        (MirType::Named(x), MirType::Named(y)) => str_equal(x.as_str(), y.as_str()),
        (MirType::Array(x), MirType::Array(y)) => compatible_types(x, y),
        (MirType::Unit, MirType::Unit) => true,
        _ => false,
    }
}

/// Whether a type name is a built-in type rather than one of the program's
/// own, whose operators could be overloaded.
pub open spec fn is_scalar_type_name(name: Seq<char>) -> bool {
    ||| name == "Int"@
    ||| name == "Float"@
    ||| name == "Bool"@
    ||| name == "String"@
    ||| name == "Unit"@
    ||| name == "IntArray"@
    ||| name == "StringArray"@
    ||| name == "BoolArray"@
    ||| name == "FloatArray"@
    ||| name == "Array"@
    ||| name == "Tuple"@
    ||| name == "Fn"@
}

fn is_scalar_type(name: &str) -> (b: bool)
    ensures
        b == is_scalar_type_name(name@),
{
    str_equal(name, "Int") || str_equal(name, "Float") || str_equal(name, "Bool") || str_equal(
        name,
        "String",
    ) || str_equal(name, "Unit") || str_equal(name, "IntArray") || str_equal(name, "StringArray")
        || str_equal(name, "BoolArray") || str_equal(name, "FloatArray") || str_equal(name, "Array")
        || str_equal(name, "Tuple") || str_equal(name, "Fn")
}

/// Whether `op` is `&&` or `||`, which no type overloads.
pub open spec fn is_logical(op: BinaryOp) -> bool {
    op == BinaryOp::And || op == BinaryOp::Or
}

/// Whether `op` orders two numbers.
pub open spec fn is_ordering(op: BinaryOp) -> bool {
    op == BinaryOp::Lt || op == BinaryOp::Lte || op == BinaryOp::Gt || op == BinaryOp::Gte
}

/// Whether `op` compares two values for equality.
pub open spec fn is_equality(op: BinaryOp) -> bool {
    op == BinaryOp::Eq || op == BinaryOp::NotEq
}

/// The trait method a binary operator overloads to: none for `&&` and `||`,
/// the operator's name for the others.
pub fn operator_trait_method(op: BinaryOp) -> (m: Option<&'static str>)
    ensures
        is_logical(op) ==> m is None,
        !is_logical(op) ==> (m matches Some(t) && t@ == op_text(op)),
{
    match op {
        BinaryOp::And | BinaryOp::Or => None,
        _ => Some(crate::mir::dump::binary_op_text(op)),
    }
}

/// A checker diagnostic; it points at no source text.
pub open spec fn mir_error(code: Seq<char>, message: Seq<char>) -> SpecDiagnostic {
    SpecDiagnostic { code, message, span: Span { start: 0, end: 0 } }
}

/// The diagnostic for a value of type `actual` where `expected` is needed.
pub open spec fn expect(actual: SpecMirType, expected: SpecMirType, code: Seq<char>, message: Seq<
    char,
>) -> Seq<SpecDiagnostic> {
    if compatible(actual, expected) {
        Seq::empty()
    } else {
        seq![mir_error(code, message)]
    }
}

/// `expect` against a named type, with the standard message.
pub open spec fn expect_named(actual: SpecMirType, expected: Seq<char>, code: Seq<char>, label: Seq<
    char,
>) -> Seq<SpecDiagnostic> {
    expect(
        actual,
        SpecMirType::Named(expected),
        code,
        label + " expects `"@ + expected + "`, found `"@ + type_text(actual) + "`"@,
    )
}

/// The type of the latest binding of `name`.
pub open spec fn local_type(locals: Seq<(Seq<char>, SpecMirType)>, name: Seq<char>) -> Option<
    SpecMirType,
>
    decreases locals.len(),
{
    if locals.len() == 0 {
        None
    } else if locals.last().0 == name {
        Some(locals.last().1)
    } else {
        local_type(locals.drop_last(), name)
    }
}

/// The last function called `name`.
pub open spec fn find_function(fs: Seq<MirFunction>, name: Seq<char>) -> Option<MirFunction>
    decreases fs.len(),
{
    if fs.len() == 0 {
        None
    } else if fs.last().name@ == name {
        Some(fs.last())
    } else {
        find_function(fs.drop_last(), name)
    }
}

/// The last enum called `name`.
pub open spec fn find_enum(es: Seq<MirEnum>, name: Seq<char>) -> Option<MirEnum>
    decreases es.len(),
{
    if es.len() == 0 {
        None
    } else if es.last().name@ == name {
        Some(es.last())
    } else {
        find_enum(es.drop_last(), name)
    }
}

/// The last variant called `name`.
pub open spec fn find_variant(vs: Seq<MirEnumVariant>, name: Seq<char>) -> Option<MirEnumVariant>
    decreases vs.len(),
{
    if vs.len() == 0 {
        None
    } else if vs.last().name@ == name {
        Some(vs.last())
    } else {
        find_variant(vs.drop_last(), name)
    }
}

/// The parameter types and the result type of a standard-library function.
pub open spec fn std_signature(name: Seq<char>) -> Option<(Seq<Seq<char>>, Seq<char>)> {
    if name == "string_len"@ {
        Some((seq!["String"@], "Int"@))
    } else if name == "string_byte_at"@ {
        Some((seq!["String"@, "Int"@], "Int"@))
    } else if name == "string_byte_slice"@ {
        Some((seq!["String"@, "Int"@, "Int"@], "String"@))
    } else if name == "string_concat"@ {
        Some((seq!["String"@, "String"@], "String"@))
    } else if name == "int_to_string"@ {
        Some((seq!["Int"@], "String"@))
    } else if name == "int_abs"@ {
        Some((seq!["Int"@], "Int"@))
    } else if name == "int_min"@ || name == "int_max"@ || name == "int_pow"@ {
        Some((seq!["Int"@, "Int"@], "Int"@))
    } else if name == "string_to_int"@ {
        Some((seq!["String"@], "Int"@))
    } else if name == "string_index_of"@ {
        Some((seq!["String"@, "String"@], "Int"@))
    } else if name == "string_contains"@ {
        Some((seq!["String"@, "String"@], "Bool"@))
    } else if name == "string_repeat"@ {
        Some((seq!["String"@, "Int"@], "String"@))
    } else if name == "string_to_upper"@ || name == "string_to_lower"@ || name == "string_trim"@ {
        Some((seq!["String"@], "String"@))
    } else if name == "mmio_write_byte"@ || name == "mmio_write_word"@ || name == "mmio_write_dword"@ {
        Some((seq!["Int"@, "Int"@], "Int"@))
    } else if name == "mmio_read_byte"@ || name == "mmio_read_word"@ || name == "mmio_read_dword"@ {
        Some((seq!["Int"@], "Int"@))
    } else if name == "csr_read"@ {
        Some((seq!["Int"@], "Int"@))
    } else if name == "csr_write"@ || name == "csr_set"@ || name == "csr_clear"@ {
        Some((seq!["Int"@, "Int"@], "Int"@))
    } else if name == "wfi"@ {
        Some((seq![], "Int"@))
    } else if name == "ascii_is_digit"@ || name == "ascii_is_alpha"@ || name == "ascii_is_alnum"@ || name
        == "ascii_is_whitespace"@ {
        Some((seq!["Int"@], "Bool"@))
    } else if name == "int_array_empty"@ {
        Some((seq![], "IntArray"@))
    } else if name == "int_array_push"@ {
        Some((seq!["IntArray"@, "Int"@], "IntArray"@))
    } else if name == "string_array_empty"@ {
        Some((seq![], "StringArray"@))
    } else if name == "string_array_push"@ {
        Some((seq!["StringArray"@, "String"@], "StringArray"@))
    } else if name == "bool_array_empty"@ {
        Some((seq![], "BoolArray"@))
    } else if name == "bool_array_push"@ {
        Some((seq!["BoolArray"@, "Bool"@], "BoolArray"@))
    } else if name == "float_array_empty"@ {
        Some((seq![], "FloatArray"@))
    } else if name == "float_array_push"@ {
        Some((seq!["FloatArray"@, "Float"@], "FloatArray"@))
    } else if name == "print"@ || name == "println"@ {
        Some((seq!["String"@], "Int"@))
    } else if name == "file_read_to_string"@ {
        Some((seq!["String"@], "ResultString"@))
    } else if name == "path_join"@ {
        Some((seq!["String"@, "String"@], "String"@))
    } else if name == "path_basename"@ {
        Some((seq!["String"@], "String"@))
    } else if name == "diagnostic_format"@ {
        Some((seq!["String"@, "Int"@, "Int"@, "String"@], "String"@))
    } else {
        None
    }
}

pub open spec fn strs_view(v: Seq<&'static str>) -> Seq<Seq<char>> {
    v.map_values(|s: &'static str| s@)
}

fn std_call_signature(name: &str) -> (r: Option<(Vec<&'static str>, &'static str)>)
    ensures
        match std_signature(name@) {
            Some((ps, ret)) => r matches Some((v, t)) && strs_view(v@) == ps && t@ == ret,
            None => r is None,
        },
{
    let n = name;
    let r: Option<(Vec<&'static str>, &'static str)> = if str_equal(n, "string_len") {
        Some((vec!["String"], "Int"))
    } else if str_equal(n, "string_byte_at") {
        Some((vec!["String", "Int"], "Int"))
    } else if str_equal(n, "string_byte_slice") {
        Some((vec!["String", "Int", "Int"], "String"))
    } else if str_equal(n, "string_concat") {
        Some((vec!["String", "String"], "String"))
    } else if str_equal(n, "int_to_string") {
        Some((vec!["Int"], "String"))
    } else if str_equal(n, "int_abs") {
        Some((vec!["Int"], "Int"))
    } else if str_equal(n, "int_min") || str_equal(n, "int_max") || str_equal(n, "int_pow") {
        Some((vec!["Int", "Int"], "Int"))
    } else if str_equal(n, "string_to_int") {
        Some((vec!["String"], "Int"))
    } else if str_equal(n, "string_index_of") {
        Some((vec!["String", "String"], "Int"))
    } else if str_equal(n, "string_contains") {
        Some((vec!["String", "String"], "Bool"))
    } else if str_equal(n, "string_repeat") {
        Some((vec!["String", "Int"], "String"))
    } else if str_equal(n, "string_to_upper") || str_equal(n, "string_to_lower") || str_equal(
        n,
        "string_trim",
    ) {
        Some((vec!["String"], "String"))
    } else if str_equal(n, "mmio_write_byte") || str_equal(n, "mmio_write_word") || str_equal(
        n,
        "mmio_write_dword",
    ) {
        Some((vec!["Int", "Int"], "Int"))
    } else if str_equal(n, "mmio_read_byte") || str_equal(n, "mmio_read_word") || str_equal(
        n,
        "mmio_read_dword",
    ) {
        Some((vec!["Int"], "Int"))
    } else if str_equal(n, "csr_read") {
        Some((vec!["Int"], "Int"))
    } else if str_equal(n, "csr_write") || str_equal(n, "csr_set") || str_equal(n, "csr_clear") {
        Some((vec!["Int", "Int"], "Int"))
    } else if str_equal(n, "wfi") {
        Some((vec![], "Int"))
    } else if str_equal(n, "ascii_is_digit") || str_equal(n, "ascii_is_alpha") || str_equal(
        n,
        "ascii_is_alnum",
    ) || str_equal(n, "ascii_is_whitespace") {
        Some((vec!["Int"], "Bool"))
    } else if str_equal(n, "int_array_empty") {
        Some((vec![], "IntArray"))
    } else if str_equal(n, "int_array_push") {
        Some((vec!["IntArray", "Int"], "IntArray"))
    } else if str_equal(n, "string_array_empty") {
        Some((vec![], "StringArray"))
    } else if str_equal(n, "string_array_push") {
        Some((vec!["StringArray", "String"], "StringArray"))
    } else if str_equal(n, "bool_array_empty") {
        Some((vec![], "BoolArray"))
    } else if str_equal(n, "bool_array_push") {
        Some((vec!["BoolArray", "Bool"], "BoolArray"))
    } else if str_equal(n, "float_array_empty") {
        Some((vec![], "FloatArray"))
    } else if str_equal(n, "float_array_push") {
        Some((vec!["FloatArray", "Float"], "FloatArray"))
    } else if str_equal(n, "print") || str_equal(n, "println") {
        Some((vec!["String"], "Int"))
    } else if str_equal(n, "file_read_to_string") {
        Some((vec!["String"], "ResultString"))
    } else if str_equal(n, "path_join") {
        Some((vec!["String", "String"], "String"))
    } else if str_equal(n, "path_basename") {
        Some((vec!["String"], "String"))
    } else if str_equal(n, "diagnostic_format") {
        Some((vec!["String", "Int", "Int", "String"], "String"))
    } else {
        None
    };
    proof {
        match &r {
            Some((v, _)) => {
                assert(strs_view(v@) =~= std_signature(name@).unwrap().0);
            },
            None => {},
        }
    }
    r
}

/// What the program says about the variant `v` of the enum `e`: an error
/// when either is unknown, and otherwise its payload type, if it has one.
pub open spec fn check_enum_variant(p: Program, e: Seq<char>, v: Seq<char>) -> (
    Seq<SpecDiagnostic>,
    Option<Seq<char>>,
) {
    match find_enum(p.enums@, e) {
        None => (seq![mir_error("MIR_UNKNOWN_ENUM"@, "enum `"@ + e + "` is not defined"@)], None),
        Some(en) => match find_variant(en.variants@, v) {
            Some(var) => (Seq::empty(), opt_text(var.payload_type)),
            None => (
                seq![mir_error("MIR_UNKNOWN_VARIANT"@, "enum `"@ + e + "` has no variant `"@ + v + "`"@)],
                None,
            ),
        },
    }
}

/// The result type of a binary operation on operands of types `lt` and `rt`
/// (whose own diagnostics are `d`), with the diagnostics of the operation.
pub open spec fn binary_result(
    op: BinaryOp,
    d: Seq<SpecDiagnostic>,
    lt: SpecMirType,
    rt: SpecMirType,
    p: Program,
) -> (Seq<SpecDiagnostic>, SpecMirType) {
    if overload_base(lt) is Some && !is_logical(op) {
        (d, match find_function(p.functions@, op_text(op) + "$"@ + overload_base(lt).unwrap()) {
            Some(f) => match f.return_type {
                Some(t) => parse_type(t@),
                None => SpecMirType::Unknown,
            },
            None => SpecMirType::Unknown,
        })
    } else if is_logical(op) {
        (d + expect_named(lt, "Bool"@, "MIR_BINARY_TYPE"@, "left operand"@) + expect_named(
            rt,
            "Bool"@,
            "MIR_BINARY_TYPE"@,
            "right operand"@,
        ), SpecMirType::Named("Bool"@))
    } else if is_equality(op) {
        (d + expect(
            lt,
            rt,
            "MIR_BINARY_TYPE"@,
            "equality operands must match, found `"@ + type_text(lt) + "` and `"@ + type_text(rt) + "`"@,
        ), SpecMirType::Named("Bool"@))
    } else {
        let numeric = if lt == SpecMirType::Named("Float"@) { "Float"@ } else { "Int"@ };
        (d + expect_named(lt, numeric, "MIR_BINARY_TYPE"@, "left operand"@) + expect_named(
            rt,
            numeric,
            "MIR_BINARY_TYPE"@,
            "right operand"@,
        ), if is_ordering(op) { SpecMirType::Named("Bool"@) } else { SpecMirType::Named(numeric) })
    }
}

/// The type whose operator method a binary operation on a left operand of
/// type `t` calls: a named type of the program's own.
pub open spec fn overload_base(t: SpecMirType) -> Option<Seq<char>> {
    match t {
        SpecMirType::Named(b) => if is_scalar_type_name(b) { None } else { Some(b) },
        _ => None,
    }
}

/// The arity error of a call to `callee` with `found` arguments, when it
/// expects `expected`.
pub open spec fn arity_diags(callee: Seq<char>, expected: nat, found: nat) -> Seq<SpecDiagnostic> {
    if expected != found {
        seq![
            mir_error(
                "MIR_CALL_ARITY"@,
                "function `"@ + callee + "` expects "@ + decimal(expected) + " arguments, found "@
                    + decimal(found),
            ),
        ]
    } else {
        Seq::empty()
    }
}

/// The diagnostics of an expression and its type, in a scope where `locals`
/// are bound.
pub open spec fn check_expr(e: MirExpr, locals: Seq<(Seq<char>, SpecMirType)>, p: Program) -> (
    Seq<SpecDiagnostic>,
    SpecMirType,
)
    decreases e, 0nat,
{
    match e {
        MirExpr::Load(name) => match local_type(locals, name@) {
            Some(t) => (Seq::empty(), t),
            None => (
                seq![mir_error("MIR_UNKNOWN_LOCAL"@, "load source `"@ + name@ + "` is not defined"@)],
                SpecMirType::Unknown,
            ),
        },
        MirExpr::Int(_) => (Seq::empty(), SpecMirType::Named("Int"@)),
        MirExpr::String(_) => (Seq::empty(), SpecMirType::Named("String"@)),
        MirExpr::Bool(_) => (Seq::empty(), SpecMirType::Named("Bool"@)),
        MirExpr::Unary { op, expr } => {
            let (d, t) = check_expr(*expr, locals, p);
            match op {
                UnaryOp::Not => (
                    d + expect_named(t, "Bool"@, "MIR_UNARY_TYPE"@, "not operand"@),
                    SpecMirType::Named("Bool"@),
                ),
                UnaryOp::Neg => {
                    let numeric = if t == SpecMirType::Named("Float"@) { "Float"@ } else { "Int"@ };
                    (
                        d + expect_named(t, numeric, "MIR_UNARY_TYPE"@, "neg operand"@),
                        SpecMirType::Named(numeric),
                    )
                },
            }
        },
        MirExpr::Binary { op, left, right } => {
            let (dl, lt) = check_expr(*left, locals, p);
            let (dr, rt) = check_expr(*right, locals, p);
            binary_result(op, dl + dr, lt, rt, p)
        },
        MirExpr::Call { callee, args } => call_result(callee@, args@, locals, p),
        MirExpr::EnumVariant { enum_name, variant, payload } => {
            let (d1, pt) = check_enum_variant(p, enum_name@, variant@);
            let label = enum_name@ + "."@ + variant@;
            (match pt {
                Some(exp) => match payload {
                    Some(x) => {
                        let (dp, xt) = check_expr(*x, locals, p);
                        d1 + dp + expect(
                            xt,
                            parse_type(exp),
                            "MIR_ENUM_PAYLOAD_TYPE"@,
                            "variant `"@ + label + "` expects payload `"@ + exp + "`, found `"@
                                + type_text(xt) + "`"@,
                        )
                    },
                    None => d1 + seq![
                        mir_error(
                            "MIR_ENUM_PAYLOAD_ARITY"@,
                            "variant `"@ + label + "` requires a payload"@,
                        ),
                    ],
                },
                None => match payload {
                    Some(x) => d1 + check_expr(*x, locals, p).0 + seq![
                        mir_error(
                            "MIR_ENUM_PAYLOAD_ARITY"@,
                            "variant `"@ + label + "` does not accept a payload"@,
                        ),
                    ],
                    None => d1,
                },
            }, SpecMirType::Named(enum_name@))
        },
        MirExpr::FieldAccess { base, field } => {
            let (d, bt) = check_expr(*base, locals, p);
            (d, if bt is Array && field@ == "len"@ { SpecMirType::Named("Int"@) } else { SpecMirType::Unknown })
        },
        MirExpr::ArrayLiteral { elements } => array_result(elements@, locals, p),
        MirExpr::Index { base, index } => {
            let (db, bt) = check_expr(*base, locals, p);
            let (di, it) = check_expr(*index, locals, p);
            let d = db + di + expect_named(it, "Int"@, "MIR_INDEX_TYPE"@, "index"@);
            match bt {
                SpecMirType::Array(element) => (d, *element),
                SpecMirType::Unknown => (d, SpecMirType::Unknown),
                _ => (
                    d + seq![
                        mir_error(
                            "MIR_INDEX_BASE"@,
                            "index base expects array, found `"@ + type_text(bt) + "`"@,
                        ),
                    ],
                    SpecMirType::Unknown,
                ),
            }
        },
    }
}

/// The diagnostics and type of an array literal: its first element fixes
/// the element type, which every later element must match.
pub open spec fn array_result(elements: Seq<MirExpr>, locals: Seq<(Seq<char>, SpecMirType)>, p: Program) -> (
    Seq<SpecDiagnostic>,
    SpecMirType,
)
    decreases elements, 1nat,
{
    if elements.len() == 0 {
        (
            seq![mir_error("MIR_ARRAY_EMPTY"@, "empty MIR arrays need an element type"@)],
            SpecMirType::Unknown,
        )
    } else {
        let (d0, et) = check_expr(elements[0], locals, p);
        (d0 + check_elements(elements.drop_first(), et, locals, p), SpecMirType::Array(Box::new(et)))
    }
}

/// The diagnostics of array elements that must each have type `et`.
pub open spec fn check_elements(
    es: Seq<MirExpr>,
    et: SpecMirType,
    locals: Seq<(Seq<char>, SpecMirType)>,
    p: Program,
) -> Seq<SpecDiagnostic>
    decreases es, 0nat,
{
    if es.len() == 0 {
        Seq::empty()
    } else {
        let (d, found) = check_expr(es[0], locals, p);
        d + expect(
            found,
            et,
            "MIR_ARRAY_ELEMENT_TYPE"@,
            "array element expects `"@ + type_text(et) + "`, found `"@ + type_text(found) + "`"@,
        ) + check_elements(es.drop_first(), et, locals, p)
    }
}

/// The diagnostics of each of `args`, in order.
pub open spec fn check_all(args: Seq<MirExpr>, locals: Seq<(Seq<char>, SpecMirType)>, p: Program) -> Seq<
    SpecDiagnostic,
>
    decreases args, 0nat,
{
    if args.len() == 0 {
        Seq::empty()
    } else {
        check_expr(args[0], locals, p).0 + check_all(args.drop_first(), locals, p)
    }
}

/// The diagnostics of the arguments of a call to the function `callee` with
/// parameters `params`, paired in order as far as both go.
pub open spec fn check_params(
    params: Seq<Param>,
    args: Seq<MirExpr>,
    callee: Seq<char>,
    locals: Seq<(Seq<char>, SpecMirType)>,
    p: Program,
) -> Seq<SpecDiagnostic>
    decreases args, 0nat,
{
    if params.len() == 0 || args.len() == 0 {
        Seq::empty()
    } else {
        let (d, t) = check_expr(args[0], locals, p);
        let pt = parse_type(params[0].ty@);
        d + expect(
            t,
            pt,
            "MIR_CALL_TYPE"@,
            "argument `"@ + params[0].name@ + "` for `"@ + callee + "` expects `"@ + type_text(pt)
                + "`, found `"@ + type_text(t) + "`"@,
        ) + check_params(params.drop_first(), args.drop_first(), callee, locals, p)
    }
}

/// The diagnostics of the arguments of a call to the standard function
/// `callee` with parameter types `ps`; `index` counts the arguments before.
pub open spec fn check_std_args(
    ps: Seq<Seq<char>>,
    args: Seq<MirExpr>,
    callee: Seq<char>,
    index: nat,
    locals: Seq<(Seq<char>, SpecMirType)>,
    p: Program,
) -> Seq<SpecDiagnostic>
    decreases args, 0nat,
{
    if ps.len() == 0 || args.len() == 0 {
        Seq::empty()
    } else {
        let (d, t) = check_expr(args[0], locals, p);
        let pt = parse_type(ps[0]);
        d + expect(
            t,
            pt,
            "MIR_CALL_TYPE"@,
            "argument "@ + decimal(index + 1) + " for `"@ + callee + "` expects `"@ + type_text(pt)
                + "`, found `"@ + type_text(t) + "`"@,
        ) + check_std_args(ps.drop_first(), args.drop_first(), callee, index + 1, locals, p)
    }
}

/// Whether `name` is one of the raw-pointer intrinsics.
pub open spec fn is_pointer_intrinsic(name: Seq<char>) -> bool {
    ||| name == "ptr_from_addr"@
    ||| name == "ptr_addr"@
    ||| name == "ptr_read"@
    ||| name == "ptr_write"@
    ||| name == "ptr_offset"@
}

/// The diagnostics and the result type of a call.
pub open spec fn call_result(
    callee: Seq<char>,
    args: Seq<MirExpr>,
    locals: Seq<(Seq<char>, SpecMirType)>,
    p: Program,
) -> (Seq<SpecDiagnostic>, SpecMirType)
    decreases args, 1nat,
{
    match std_signature(callee) {
        Some((ps, ret)) => (
            arity_diags(callee, ps.len(), args.len()) + check_std_args(ps, args, callee, 0, locals, p),
            parse_type(ret),
        ),
        None => if callee == "array_push"@ || callee == "array_repeat"@ {
            let (d, t) = if args.len() == 0 {
                (Seq::empty(), SpecMirType::Unknown)
            } else {
                let (d0, t0) = check_expr(args[0], locals, p);
                (d0 + check_all(args.drop_first(), locals, p), t0)
            };
            (d, if callee == "array_push"@ { t } else { SpecMirType::Array(Box::new(t)) })
        } else if is_pointer_intrinsic(callee) {
            (check_all(args, locals, p), if callee == "ptr_addr"@ || callee == "ptr_write"@ {
                SpecMirType::Named("Int"@)
            } else {
                SpecMirType::Unknown
            })
        } else if callee == "array_data_addr"@ {
            (check_all(args, locals, p), SpecMirType::Named("Int"@))
        } else {
            match find_function(p.functions@, callee) {
                None => (
                    seq![mir_error("MIR_UNKNOWN_FUNCTION"@, "call target `"@ + callee + "` is not defined"@)]
                        + check_all(args, locals, p),
                    SpecMirType::Unknown,
                ),
                Some(f) => (
                    arity_diags(callee, f.params@.len(), args.len()) + check_params(
                        f.params@,
                        args,
                        callee,
                        locals,
                        p,
                    ),
                    match f.return_type {
                        Some(t) => parse_type(t@),
                        None => SpecMirType::Unit,
                    },
                ),
            }
        },
    }
}

// ---------------------------------------------------------------------------
// The checker
// ---------------------------------------------------------------------------

spec fn locals_view(ls: Seq<(String, MirType)>) -> Seq<(Seq<char>, SpecMirType)> {
    ls.map_values(|b: (String, MirType)| (b.0@, b.1.view()))
}

/// The type of the latest binding of `name`.
fn find_local(locals: &Vec<(String, MirType)>, name: &str) -> (r: Option<MirType>)
    ensures
        match local_type(locals_view(locals@), name@) {
            Some(t) => r matches Some(x) && x.view() == t,
            None => r is None,
        },
{
    let ghost lv = locals_view(locals@);
    let mut i = locals.len();
    assert(lv.subrange(0, lv.len() as int) =~= lv);
    while i > 0
        invariant
            i <= lv.len(),
            lv == locals_view(locals@),
            local_type(lv, name@) == local_type(lv.subrange(0, i as int), name@),
        decreases i,
    {
        let ghost sub = lv.subrange(0, i as int);
        assert(sub.drop_last() =~= lv.subrange(0, i as int - 1));
        if str_equal(locals[i - 1].0.as_str(), name) {
            return Some(locals[i - 1].1.copy());
        }
        i = i - 1;
    }
    assert(lv.subrange(0, 0) =~= Seq::<(Seq<char>, SpecMirType)>::empty());
    None
}

/// The position of the last function called `name`.
fn find_function_index(fs: &Vec<MirFunction>, name: &str) -> (r: Option<usize>)
    ensures
        match find_function(fs@, name@) {
            Some(f) => r matches Some(i) && i < fs@.len() && fs@[i as int] == f,
            None => r is None,
        },
{
    let mut i = fs.len();
    assert(fs@.subrange(0, fs@.len() as int) =~= fs@);
    while i > 0
        invariant
            i <= fs@.len(),
            find_function(fs@, name@) == find_function(fs@.subrange(0, i as int), name@),
        decreases i,
    {
        let ghost sub = fs@.subrange(0, i as int);
        assert(sub.drop_last() =~= fs@.subrange(0, i as int - 1));
        if str_equal(fs[i - 1].name.as_str(), name) {
            return Some(i - 1);
        }
        i = i - 1;
    }
    assert(fs@.subrange(0, 0) =~= Seq::<MirFunction>::empty());
    None
}

/// The position of the last enum called `name`.
fn find_enum_index(es: &Vec<MirEnum>, name: &str) -> (r: Option<usize>)
    ensures
        match find_enum(es@, name@) {
            Some(e) => r matches Some(i) && i < es@.len() && es@[i as int] == e,
            None => r is None,
        },
{
    let mut i = es.len();
    assert(es@.subrange(0, es@.len() as int) =~= es@);
    while i > 0
        invariant
            i <= es@.len(),
            find_enum(es@, name@) == find_enum(es@.subrange(0, i as int), name@),
        decreases i,
    {
        let ghost sub = es@.subrange(0, i as int);
        assert(sub.drop_last() =~= es@.subrange(0, i as int - 1));
        if str_equal(es[i - 1].name.as_str(), name) {
            return Some(i - 1);
        }
        i = i - 1;
    }
    assert(es@.subrange(0, 0) =~= Seq::<MirEnum>::empty());
    None
}

/// The position of the last variant called `name`.
fn find_variant_index(vs: &Vec<MirEnumVariant>, name: &str) -> (r: Option<usize>)
    ensures
        match find_variant(vs@, name@) {
            Some(v) => r matches Some(i) && i < vs@.len() && vs@[i as int] == v,
            None => r is None,
        },
{
    let mut i = vs.len();
    assert(vs@.subrange(0, vs@.len() as int) =~= vs@);
    while i > 0
        invariant
            i <= vs@.len(),
            find_variant(vs@, name@) == find_variant(vs@.subrange(0, i as int), name@),
        decreases i,
    {
        let ghost sub = vs@.subrange(0, i as int);
        assert(sub.drop_last() =~= vs@.subrange(0, i as int - 1));
        if str_equal(vs[i - 1].name.as_str(), name) {
            return Some(i - 1);
        }
        i = i - 1;
    }
    assert(vs@.subrange(0, 0) =~= Seq::<MirEnumVariant>::empty());
    None
}

/// `a`, `x`, `b`, `y`, `c`, `z`, `d` one after another.
fn concat7(a: &str, x: &str, b: &str, y: &str, c: &str, z: &str, d: &str) -> (r: String)
    ensures
        r@ == a@ + x@ + b@ + y@ + c@ + z@ + d@,
{
    let mut r = String::new();
    push_str(&mut r, a);
    push_str(&mut r, x);
    push_str(&mut r, b);
    push_str(&mut r, y);
    push_str(&mut r, c);
    push_str(&mut r, z);
    push_str(&mut r, d);
    assert(r@ =~= a@ + x@ + b@ + y@ + c@ + z@ + d@);
    r
}

/// The checker's state: the program and the diagnostics found so far.
struct MirVerifier<'a> {
    program: &'a Program,
    diagnostics: Vec<Diagnostic>,
}

impl<'a> MirVerifier<'a> {
    spec fn diags(&self) -> Seq<SpecDiagnostic> {
        diags_view(self.diagnostics@)
    }

    fn new(program: &'a Program) -> (v: Self)
        ensures
            v.program == program,
            v.diags() == Seq::<SpecDiagnostic>::empty(),
    {
        let v = MirVerifier { program, diagnostics: Vec::new() };
        assert(v.diags() =~= Seq::<SpecDiagnostic>::empty());
        v
    }

    fn error(&mut self, code: &'static str, message: &str)
        ensures
            final(self).program == old(self).program,
            final(self).diags() == old(self).diags().push(mir_error(code@, message@)),
    {
        let d = Diagnostic::new(code, message, Span::new(0, 0));
        self.diagnostics.push(d);
        assert(self.diags() =~= old(self).diags().push(mir_error(code@, message@)));
    }

    fn expect_type(&mut self, actual: &MirType, expected: &MirType, code: &'static str, message: &str)
        ensures
            final(self).program == old(self).program,
            final(self).diags() == old(self).diags() + expect(
                actual.view(),
                expected.view(),
                code@,
                message@,
            ),
    {
        if !compatible_types(actual, expected) {
            self.error(code, message);
        }
        assert(self.diags() =~= old(self).diags() + expect(actual.view(), expected.view(), code@, message@));
    }

    fn expect_named(&mut self, actual: &MirType, expected: &str, code: &'static str, label: &str)
        ensures
            final(self).program == old(self).program,
            final(self).diags() == old(self).diags() + expect_named(actual.view(), expected@, code@, label@),
    {
        let found = actual.display();
        let message = concat5(label, " expects `", expected, "`, found `", found.as_str());
        let mut m = message;
        push_str(&mut m, "`");
        assert(m@ =~= label@ + " expects `"@ + expected@ + "`, found `"@ + type_text(actual.view()) + "`"@);
        self.expect_type(actual, &MirType::named(expected), code, m.as_str());
    }

    fn verify_enum_variant(&mut self, enum_name: &str, variant: &str) -> (r: Option<String>)
        ensures
            final(self).program == old(self).program,
            final(self).diags() == old(self).diags() + check_enum_variant(
                *old(self).program,
                enum_name@,
                variant@,
            ).0,
            opt_text(r) == check_enum_variant(*old(self).program, enum_name@, variant@).1,
    {
        match find_enum_index(&self.program.enums, enum_name) {
            None => {
                let m = concat3("enum `", enum_name, "` is not defined");
                self.error("MIR_UNKNOWN_ENUM", m.as_str());
                None
            },
            Some(i) => {
                let variants = &self.program.enums[i].variants;
                match find_variant_index(variants, variant) {
                    Some(j) => {
                        assert(self.diags() =~= old(self).diags() + Seq::<SpecDiagnostic>::empty());
                        match &variants[j].payload_type {
                            Some(t) => Some(t.clone()),
                            None => None,
                        }
                    },
                    None => {
                        let m = concat5("enum `", enum_name, "` has no variant `", variant, "`");
                        self.error("MIR_UNKNOWN_VARIANT", m.as_str());
                        None
                    },
                }
            },
        }
    }
}

pub proof fn lemma_mexpr_size_positive(e: MirExpr)
    ensures
        mexpr_size(e) >= 1,
{
}

impl<'a> MirVerifier<'a> {
    fn verify_expr(&mut self, expr: &MirExpr, locals: &Vec<(String, MirType)>) -> (t: MirType)
        ensures
            final(self).program == old(self).program,
            final(self).diags() == old(self).diags() + check_expr(
                *expr,
                locals_view(locals@),
                *old(self).program,
            ).0,
            t.view() == check_expr(*expr, locals_view(locals@), *old(self).program).1,
        decreases mexpr_size(*expr), 0nat, 0nat,
    {
        let ghost p = *self.program;
        let ghost lv = locals_view(locals@);
        match expr {
            MirExpr::Load(name) => match find_local(locals, name.as_str()) {
                Some(t) => {
                    assert(self.diags() =~= old(self).diags() + check_expr(*expr, lv, p).0);
                    t
                },
                None => {
                    let m = concat3("load source `", name.as_str(), "` is not defined");
                    self.error("MIR_UNKNOWN_LOCAL", m.as_str());
                    MirType::Unknown
                },
            },
            MirExpr::Int(_) => {
                assert(self.diags() =~= old(self).diags() + check_expr(*expr, lv, p).0);
                MirType::named("Int")
            },
            MirExpr::String(_) => {
                assert(self.diags() =~= old(self).diags() + check_expr(*expr, lv, p).0);
                MirType::named("String")
            },
            MirExpr::Bool(_) => {
                assert(self.diags() =~= old(self).diags() + check_expr(*expr, lv, p).0);
                MirType::named("Bool")
            },
            MirExpr::Binary { op, left, right } => self.verify_binary(*op, left, right, locals),
            MirExpr::Unary { op, expr: operand } => self.verify_unary(*op, operand, locals),
            MirExpr::Call { callee, args } => self.verify_call(callee, args, locals),
            MirExpr::EnumVariant { enum_name, variant, payload } => {
                let pt = self.verify_enum_variant(enum_name.as_str(), variant.as_str());
                let ghost d1 = self.diags();
                match pt {
                    Some(expected) => match payload {
                        Some(x) => {
                            let xt = self.verify_expr(x, locals);
                            let expected_ty = parse_mir_type(expected.as_str());
                            let found = xt.display();
                            let head = concat5("variant `", enum_name.as_str(), ".", variant.as_str(), "` expects payload `");
                            let m = concat5(head.as_str(), expected.as_str(), "`, found `", found.as_str(), "`");
                            assert(m@ =~= "variant `"@ + (enum_name@ + "."@ + variant@) + "` expects payload `"@
                                + expected@ + "`, found `"@ + type_text(xt.view()) + "`"@);
                            self.expect_type(&xt, &expected_ty, "MIR_ENUM_PAYLOAD_TYPE", m.as_str());
                        },
                        None => {
                            let m = concat5("variant `", enum_name.as_str(), ".", variant.as_str(), "` requires a payload");
                            assert(m@ =~= "variant `"@ + (enum_name@ + "."@ + variant@) + "` requires a payload"@);
                            self.error("MIR_ENUM_PAYLOAD_ARITY", m.as_str());
                        },
                    },
                    None => match payload {
                        Some(x) => {
                            self.verify_expr(x, locals);
                            let m = concat5(
                                "variant `",
                                enum_name.as_str(),
                                ".",
                                variant.as_str(),
                                "` does not accept a payload",
                            );
                            assert(m@ =~= "variant `"@ + (enum_name@ + "."@ + variant@)
                                + "` does not accept a payload"@);
                            self.error("MIR_ENUM_PAYLOAD_ARITY", m.as_str());
                        },
                        None => {},
                    },
                }
                assert(self.diags() =~= old(self).diags() + check_expr(*expr, lv, p).0);
                MirType::Named(enum_name.clone())
            },
            MirExpr::FieldAccess { base, field } => self.verify_field(base, field, locals),
            MirExpr::ArrayLiteral { elements } => self.verify_array(elements, locals),
            MirExpr::Index { base, index } => self.verify_index(base, index, locals),
        }
    }

    /// `base.field`: the length of an array is an `Int`; any other field has
    /// an unknown type.
    fn verify_field(&mut self, base: &MirExpr, field: &String, locals: &Vec<(String, MirType)>) -> (t: MirType)
        ensures
            final(self).program == old(self).program,
            ({
                let e = MirExpr::FieldAccess { base: Box::new(*base), field: *field };
                &&& final(self).diags() == old(self).diags() + check_expr(
                    e,
                    locals_view(locals@),
                    *old(self).program,
                ).0
                &&& t.view() == check_expr(e, locals_view(locals@), *old(self).program).1
            }),
        decreases mexpr_size(*base), 1nat, 0nat,
    {
        let ghost p = *self.program;
        let ghost lv = locals_view(locals@);
        let ghost e = MirExpr::FieldAccess { base: Box::new(*base), field: *field };
        let bt = self.verify_expr(base, locals);
        assert(self.diags() =~= old(self).diags() + check_expr(e, lv, p).0);
        let is_array = match &bt {
            MirType::Array(_) => true,
            _ => false,
        };
        proof {
            reveal_strlit("len");
        }
        if is_array && str_equal(field.as_str(), "len") {
            MirType::named("Int")
        } else {
            MirType::Unknown
        }
    }

    /// An array literal: the first element fixes the element type.
    fn verify_array(&mut self, elements: &Vec<MirExpr>, locals: &Vec<(String, MirType)>) -> (t: MirType)
        ensures
            final(self).program == old(self).program,
            final(self).diags() == old(self).diags() + array_result(
                elements@,
                locals_view(locals@),
                *old(self).program,
            ).0,
            t.view() == array_result(elements@, locals_view(locals@), *old(self).program).1,
        decreases mexprs_size(elements@), 1nat, 0nat,
    {
        let ghost p = *self.program;
        let ghost lv = locals_view(locals@);
        if elements.len() == 0 {
            self.error("MIR_ARRAY_EMPTY", "empty MIR arrays need an element type");
            assert(self.diags() =~= old(self).diags() + array_result(elements@, lv, p).0);
            return MirType::Unknown;
        }
        proof {
            lemma_mexprs_size_elem(elements@, 0);
            assert(elements@.skip(1) =~= elements@.drop_first());
        }
        let et = self.verify_expr(&elements[0], locals);
        self.verify_elements_from(elements, 1, &et, locals);
        assert(self.diags() =~= old(self).diags() + array_result(elements@, lv, p).0);
        MirType::Array(Box::new(et))
    }

    /// Checks the array elements from `i` on against the element type `et`.
    fn verify_elements_from(
        &mut self,
        elements: &Vec<MirExpr>,
        i: usize,
        et: &MirType,
        locals: &Vec<(String, MirType)>,
    )
        requires
            i <= elements@.len(),
        ensures
            final(self).program == old(self).program,
            final(self).diags() == old(self).diags() + check_elements(
                elements@.skip(i as int),
                et.view(),
                locals_view(locals@),
                *old(self).program,
            ),
        decreases mexprs_size(elements@), 0nat, elements@.len() - i,
    {
        let ghost p = *self.program;
        let ghost lv = locals_view(locals@);
        if i == elements.len() {
            assert(self.diags() =~= old(self).diags() + check_elements(elements@.skip(i as int), et.view(), lv, p));
            return;
        }
        proof {
            lemma_mexprs_size_elem(elements@, i as int);
            assert(elements@.skip(i as int).drop_first() =~= elements@.skip(i as int + 1));
        }
        let found = self.verify_expr(&elements[i], locals);
        let expected = et.display();
        let shown = found.display();
        let message = concat5("array element expects `", expected.as_str(), "`, found `", shown.as_str(), "`");
        self.expect_type(&found, et, "MIR_ARRAY_ELEMENT_TYPE", message.as_str());
        self.verify_elements_from(elements, i + 1, et, locals);
        assert(self.diags() =~= old(self).diags() + check_elements(elements@.skip(i as int), et.view(), lv, p));
    }

    /// `base[index]`: the index must be an `Int`, and the base an array,
    /// whose element type is the result.
    fn verify_index(&mut self, base: &MirExpr, index: &MirExpr, locals: &Vec<(String, MirType)>) -> (t: MirType)
        ensures
            final(self).program == old(self).program,
            ({
                let e = MirExpr::Index { base: Box::new(*base), index: Box::new(*index) };
                &&& final(self).diags() == old(self).diags() + check_expr(
                    e,
                    locals_view(locals@),
                    *old(self).program,
                ).0
                &&& t.view() == check_expr(e, locals_view(locals@), *old(self).program).1
            }),
        decreases mexpr_size(*base) + mexpr_size(*index), 0nat, 0nat,
    {
        let ghost p = *self.program;
        let ghost lv = locals_view(locals@);
        let ghost e = MirExpr::Index { base: Box::new(*base), index: Box::new(*index) };
        proof {
            lemma_mexpr_size_positive(*base);
            lemma_mexpr_size_positive(*index);
        }
        let bt = self.verify_expr(base, locals);
        let it = self.verify_expr(index, locals);
        self.expect_named(&it, "Int", "MIR_INDEX_TYPE", "index");
        match bt {
            MirType::Array(element) => {
                assert(self.diags() =~= old(self).diags() + check_expr(e, lv, p).0);
                *element
            },
            MirType::Unknown => {
                assert(self.diags() =~= old(self).diags() + check_expr(e, lv, p).0);
                MirType::Unknown
            },
            _ => {
                let shown = bt.display();
                let message = concat3("index base expects array, found `", shown.as_str(), "`");
                self.error("MIR_INDEX_BASE", message.as_str());
                assert(self.diags() =~= old(self).diags() + check_expr(e, lv, p).0);
                MirType::Unknown
            },
        }
    }

    fn verify_unary(&mut self, op: UnaryOp, operand: &MirExpr, locals: &Vec<(String, MirType)>) -> (t: MirType)
        ensures
            final(self).program == old(self).program,
            ({
                let e = MirExpr::Unary { op, expr: Box::new(*operand) };
                &&& final(self).diags() == old(self).diags() + check_expr(
                    e,
                    locals_view(locals@),
                    *old(self).program,
                ).0
                &&& t.view() == check_expr(e, locals_view(locals@), *old(self).program).1
            }),
        decreases mexpr_size(*operand), 1nat, 0nat,
    {
        let ghost p = *self.program;
        let ghost lv = locals_view(locals@);
        let ghost e = MirExpr::Unary { op, expr: Box::new(*operand) };
        proof {
            lemma_mexpr_size_positive(*operand);
        }
        let xt = self.verify_expr(operand, locals);
        match op {
            UnaryOp::Not => {
                self.expect_named(&xt, "Bool", "MIR_UNARY_TYPE", "not operand");
                assert(self.diags() =~= old(self).diags() + check_expr(e, lv, p).0);
                MirType::named("Bool")
            },
            UnaryOp::Neg => {
                let is_float = match &xt {
                    MirType::Named(n) => str_equal(n.as_str(), "Float"),
                    _ => false,
                };
                let numeric = if is_float { "Float" } else { "Int" };
                proof {
                    reveal_strlit("Float");
                    reveal_strlit("Int");
                    assert(is_float == (xt.view() == SpecMirType::Named("Float"@)));
                }
                self.expect_named(&xt, numeric, "MIR_UNARY_TYPE", "neg operand");
                assert(self.diags() =~= old(self).diags() + check_expr(e, lv, p).0);
                MirType::named(numeric)
            },
        }
    }

    fn verify_binary(
        &mut self,
        op: BinaryOp,
        left: &MirExpr,
        right: &MirExpr,
        locals: &Vec<(String, MirType)>,
    ) -> (t: MirType)
        ensures
            final(self).program == old(self).program,
            ({
                let e = MirExpr::Binary { op, left: Box::new(*left), right: Box::new(*right) };
                &&& final(self).diags() == old(self).diags() + check_expr(
                    e,
                    locals_view(locals@),
                    *old(self).program,
                ).0
                &&& t.view() == check_expr(e, locals_view(locals@), *old(self).program).1
            }),
        decreases mexpr_size(*left) + mexpr_size(*right), 0nat, 0nat,
    {
        let ghost p = *self.program;
        let ghost lv = locals_view(locals@);
        let ghost e = MirExpr::Binary { op, left: Box::new(*left), right: Box::new(*right) };
        proof {
            lemma_mexpr_size_positive(*left);
            lemma_mexpr_size_positive(*right);
        }
        let lt = self.verify_expr(left, locals);
        let rt = self.verify_expr(right, locals);
        let ghost d = self.diags();
        let logical = match op {
            BinaryOp::And | BinaryOp::Or => true,
            _ => false,
        };
        match &lt {
            MirType::Named(base) => {
                if !is_scalar_type(base.as_str()) && !logical {
                    let name = concat3(op.as_str(), "$", base.as_str());
                    let r = match find_function_index(&self.program.functions, name.as_str()) {
                        Some(i) => match &self.program.functions[i].return_type {
                            Some(t) => parse_mir_type(t.as_str()),
                            None => MirType::Unknown,
                        },
                        None => MirType::Unknown,
                    };
                    assert(self.diags() =~= old(self).diags() + check_expr(e, lv, p).0);
                    return r;
                }
            },
            _ => {},
        }
        if logical {
            self.expect_named(&lt, "Bool", "MIR_BINARY_TYPE", "left operand");
            self.expect_named(&rt, "Bool", "MIR_BINARY_TYPE", "right operand");
            assert(self.diags() =~= old(self).diags() + check_expr(e, lv, p).0);
            return MirType::named("Bool");
        }
        let equality = match op {
            BinaryOp::Eq | BinaryOp::NotEq => true,
            _ => false,
        };
        if equality {
            let ls = lt.display();
            let rs = rt.display();
            let message = concat5("equality operands must match, found `", ls.as_str(), "` and `", rs.as_str(), "`");
            self.expect_type(&lt, &rt, "MIR_BINARY_TYPE", message.as_str());
            assert(self.diags() =~= old(self).diags() + check_expr(e, lv, p).0);
            return MirType::named("Bool");
        }
        let is_float = match &lt {
            MirType::Named(n) => str_equal(n.as_str(), "Float"),
            _ => false,
        };
        let numeric = if is_float { "Float" } else { "Int" };
        proof {
            reveal_strlit("Float");
            reveal_strlit("Int");
            assert(is_float == (lt.view() == SpecMirType::Named("Float"@)));
        }
        self.expect_named(&lt, numeric, "MIR_BINARY_TYPE", "left operand");
        self.expect_named(&rt, numeric, "MIR_BINARY_TYPE", "right operand");
        assert(self.diags() =~= old(self).diags() + check_expr(e, lv, p).0);
        let ordering = match op {
            BinaryOp::Lt | BinaryOp::Lte | BinaryOp::Gt | BinaryOp::Gte => true,
            _ => false,
        };
        if ordering {
            MirType::named("Bool")
        } else {
            MirType::named(numeric)
        }
    }

    /// Checks the arguments from `i` on, with no expected types.
    fn verify_all_from(&mut self, args: &Vec<MirExpr>, i: usize, locals: &Vec<(String, MirType)>)
        requires
            i <= args@.len(),
        ensures
            final(self).program == old(self).program,
            final(self).diags() == old(self).diags() + check_all(
                args@.skip(i as int),
                locals_view(locals@),
                *old(self).program,
            ),
        decreases mexprs_size(args@), 0nat, args@.len() - i,
    {
        let ghost p = *self.program;
        let ghost lv = locals_view(locals@);
        if i == args.len() {
            assert(self.diags() =~= old(self).diags() + check_all(args@.skip(i as int), lv, p));
            return;
        }
        proof {
            lemma_mexprs_size_elem(args@, i as int);
            assert(args@.skip(i as int).drop_first() =~= args@.skip(i as int + 1));
        }
        self.verify_expr(&args[i], locals);
        self.verify_all_from(args, i + 1, locals);
        assert(self.diags() =~= old(self).diags() + check_all(args@.skip(i as int), lv, p));
    }

    /// Checks the arguments from `i` on against the parameters from `i` on.
    fn verify_params_from(
        &mut self,
        params: &Vec<Param>,
        args: &Vec<MirExpr>,
        i: usize,
        callee: &str,
        locals: &Vec<(String, MirType)>,
    )
        requires
            i <= args@.len(),
            i <= params@.len(),
        ensures
            final(self).program == old(self).program,
            final(self).diags() == old(self).diags() + check_params(
                params@.skip(i as int),
                args@.skip(i as int),
                callee@,
                locals_view(locals@),
                *old(self).program,
            ),
        decreases mexprs_size(args@), 0nat, args@.len() - i,
    {
        let ghost p = *self.program;
        let ghost lv = locals_view(locals@);
        if i == args.len() || i == params.len() {
            assert(self.diags() =~= old(self).diags() + check_params(
                params@.skip(i as int),
                args@.skip(i as int),
                callee@,
                lv,
                p,
            ));
            return;
        }
        proof {
            lemma_mexprs_size_elem(args@, i as int);
            assert(args@.skip(i as int).drop_first() =~= args@.skip(i as int + 1));
            assert(params@.skip(i as int).drop_first() =~= params@.skip(i as int + 1));
        }
        let at = self.verify_expr(&args[i], locals);
        let pt = parse_mir_type(params[i].ty.as_str());
        let ptext = pt.display();
        let atext = at.display();
        let head = concat5("argument `", params[i].name.as_str(), "` for `", callee, "` expects `");
        let m = concat5(head.as_str(), ptext.as_str(), "`, found `", atext.as_str(), "`");
        self.expect_type(&at, &pt, "MIR_CALL_TYPE", m.as_str());
        self.verify_params_from(params, args, i + 1, callee, locals);
        assert(self.diags() =~= old(self).diags() + check_params(
            params@.skip(i as int),
            args@.skip(i as int),
            callee@,
            lv,
            p,
        ));
    }

    /// Checks the arguments from `i` on against the standard parameter types
    /// from `i` on.
    fn verify_std_args_from(
        &mut self,
        ps: &Vec<&'static str>,
        args: &Vec<MirExpr>,
        i: usize,
        callee: &str,
        locals: &Vec<(String, MirType)>,
    )
        requires
            i <= args@.len(),
            i <= ps@.len(),
        ensures
            final(self).program == old(self).program,
            final(self).diags() == old(self).diags() + check_std_args(
                strs_view(ps@).skip(i as int),
                args@.skip(i as int),
                callee@,
                i as nat,
                locals_view(locals@),
                *old(self).program,
            ),
        decreases mexprs_size(args@), 0nat, args@.len() - i,
    {
        let ghost p = *self.program;
        let ghost lv = locals_view(locals@);
        let ghost psv = strs_view(ps@);
        if i == args.len() || i == ps.len() {
            assert(self.diags() =~= old(self).diags() + check_std_args(
                psv.skip(i as int),
                args@.skip(i as int),
                callee@,
                i as nat,
                lv,
                p,
            ));
            return;
        }
        proof {
            lemma_mexprs_size_elem(args@, i as int);
            assert(args@.skip(i as int).drop_first() =~= args@.skip(i as int + 1));
            assert(psv.skip(i as int).drop_first() =~= psv.skip(i as int + 1));
        }
        let at = self.verify_expr(&args[i], locals);
        let pt = parse_mir_type(ps[i]);
        let ptext = pt.display();
        let atext = at.display();
        let mut m = String::new();
        push_str(&mut m, "argument ");
        push_decimal(&mut m, i + 1);
        push_str(&mut m, " for `");
        push_str(&mut m, callee);
        push_str(&mut m, "` expects `");
        push_str(&mut m, ptext.as_str());
        push_str(&mut m, "`, found `");
        push_str(&mut m, atext.as_str());
        push_str(&mut m, "`");
        assert(m@ =~= "argument "@ + decimal(i as nat + 1) + " for `"@ + callee@ + "` expects `"@
            + type_text(pt.view()) + "`, found `"@ + type_text(at.view()) + "`"@);
        self.expect_type(&at, &pt, "MIR_CALL_TYPE", m.as_str());
        self.verify_std_args_from(ps, args, i + 1, callee, locals);
        assert(self.diags() =~= old(self).diags() + check_std_args(
            psv.skip(i as int),
            args@.skip(i as int),
            callee@,
            i as nat,
            lv,
            p,
        ));
    }

    /// The arity error, when `found` differs from `expected`.
    fn check_arity(&mut self, callee: &str, expected: usize, found: usize)
        ensures
            final(self).program == old(self).program,
            final(self).diags() == old(self).diags() + arity_diags(callee@, expected as nat, found as nat),
    {
        if expected != found {
            let mut m = String::new();
            push_str(&mut m, "function `");
            push_str(&mut m, callee);
            push_str(&mut m, "` expects ");
            push_decimal(&mut m, expected);
            push_str(&mut m, " arguments, found ");
            push_decimal(&mut m, found);
            assert(m@ =~= "function `"@ + callee@ + "` expects "@ + decimal(expected as nat)
                + " arguments, found "@ + decimal(found as nat));
            self.error("MIR_CALL_ARITY", m.as_str());
        } else {
            assert(self.diags() =~= old(self).diags() + arity_diags(callee@, expected as nat, found as nat));
        }
    }

    fn verify_call(&mut self, callee: &String, args: &Vec<MirExpr>, locals: &Vec<(String, MirType)>) -> (t:
        MirType)
        ensures
            final(self).program == old(self).program,
            final(self).diags() == old(self).diags() + call_result(
                callee@,
                args@,
                locals_view(locals@),
                *old(self).program,
            ).0,
            t.view() == call_result(callee@, args@, locals_view(locals@), *old(self).program).1,
        decreases mexprs_size(args@), 1nat, 0nat,
    {
        let ghost p = *self.program;
        let ghost lv = locals_view(locals@);
        let c = callee.as_str();
        assert(args@.skip(0) =~= args@);
        match std_call_signature(c) {
            Some((ps, ret)) => {
                assert(strs_view(ps@).skip(0) =~= strs_view(ps@));
                self.check_arity(c, ps.len(), args.len());
                self.verify_std_args_from(&ps, args, 0, c, locals);
                assert(self.diags() =~= old(self).diags() + call_result(callee@, args@, lv, p).0);
                return parse_mir_type(ret);
            },
            None => {},
        }
        if str_equal(c, "array_push") || str_equal(c, "array_repeat") {
            let t = if args.len() == 0 {
                MirType::Unknown
            } else {
                proof {
                    lemma_mexprs_size_elem(args@, 0);
                    assert(args@.drop_first() =~= args@.skip(1));
                }
                let t0 = self.verify_expr(&args[0], locals);
                self.verify_all_from(args, 1, locals);
                t0
            };
            assert(self.diags() =~= old(self).diags() + call_result(callee@, args@, lv, p).0);
            if str_equal(c, "array_push") {
                return t;
            } else {
                let ghost tv = t.view();
                let r = MirType::Array(Box::new(t));
                assert(r.view() == SpecMirType::Array(Box::new(tv)));
                return r;
            }
        }
        if str_equal(c, "ptr_from_addr") || str_equal(c, "ptr_addr") || str_equal(c, "ptr_read")
            || str_equal(c, "ptr_write") || str_equal(c, "ptr_offset") {
            self.verify_all_from(args, 0, locals);
            if str_equal(c, "ptr_addr") || str_equal(c, "ptr_write") {
                return MirType::named("Int");
            } else {
                return MirType::Unknown;
            }
        }
        if str_equal(c, "array_data_addr") {
            self.verify_all_from(args, 0, locals);
            return MirType::named("Int");
        }
        match find_function_index(&self.program.functions, c) {
            None => {
                let m = concat3("call target `", c, "` is not defined");
                self.error("MIR_UNKNOWN_FUNCTION", m.as_str());
                self.verify_all_from(args, 0, locals);
                assert(self.diags() =~= old(self).diags() + call_result(callee@, args@, lv, p).0);
                MirType::Unknown
            },
            Some(i) => {
                let f = &self.program.functions[i];
                let params = &f.params;
                self.check_arity(c, params.len(), args.len());
                assert(params@.skip(0) =~= params@);
                self.verify_params_from(params, args, 0, c, locals);
                assert(self.diags() =~= old(self).diags() + call_result(callee@, args@, lv, p).0);
                match &f.return_type {
                    Some(t) => parse_mir_type(t.as_str()),
                    None => MirType::Unit,
                }
            },
        }
    }
}

// ---------------------------------------------------------------------------
// Statements and functions
// ---------------------------------------------------------------------------

/// The diagnostics of a condition that must be a `Bool`.
pub open spec fn check_bool(
    e: MirExpr,
    locals: Seq<(Seq<char>, SpecMirType)>,
    p: Program,
    code: Seq<char>,
    label: Seq<char>,
) -> Seq<SpecDiagnostic> {
    let (d, t) = check_expr(e, locals, p);
    d + expect_named(t, "Bool"@, code, label)
}

/// The diagnostics of matching a value of type `vt` against a pattern, and
/// the bindings the pattern introduces.
pub open spec fn check_pattern(pat: MirPattern, vt: SpecMirType, p: Program) -> (
    Seq<SpecDiagnostic>,
    Seq<(Seq<char>, SpecMirType)>,
) {
    match pat {
        MirPattern::Name(n) => (Seq::empty(), seq![(n@, vt)]),
        MirPattern::Wildcard => (Seq::empty(), Seq::empty()),
        MirPattern::Variant { enum_name, variant, binding } => {
            let (d1, pt) = check_enum_variant(p, enum_name@, variant@);
            let label = enum_name@ + "."@ + variant@;
            let d2 = d1 + expect(
                SpecMirType::Named(enum_name@),
                vt,
                "MIR_MATCH_PATTERN"@,
                "match pattern `"@ + label + "` expects value type `"@ + enum_name@ + "`, found `"@
                    + type_text(vt) + "`"@,
            );
            match pt {
                Some(t) => match binding {
                    Some(b) => (d2, seq![(b@, parse_type(t))]),
                    None => (
                        d2 + seq![
                            mir_error(
                                "MIR_ENUM_PATTERN_ARITY"@,
                                "variant `"@ + label + "` requires a payload binding"@,
                            ),
                        ],
                        Seq::empty(),
                    ),
                },
                None => match binding {
                    Some(_) => (
                        d2 + seq![
                            mir_error(
                                "MIR_ENUM_PATTERN_ARITY"@,
                                "variant `"@ + label + "` does not carry a payload"@,
                            ),
                        ],
                        Seq::empty(),
                    ),
                    None => (d2, Seq::empty()),
                },
            }
        },
        MirPattern::Int(_) => (expect_named(vt, "Int"@, "MIR_MATCH_PATTERN"@, "match pattern"@), Seq::empty()),
        MirPattern::String(_) => (
            expect_named(vt, "String"@, "MIR_MATCH_PATTERN"@, "match pattern"@),
            Seq::empty(),
        ),
        MirPattern::Bool(_) => (expect_named(vt, "Bool"@, "MIR_MATCH_PATTERN"@, "match pattern"@), Seq::empty()),
    }
}

/// Adds the pattern bindings to the arm's scope, one after another; a name
/// already bound there is a duplicate.
pub open spec fn bind_all(bs: Seq<(Seq<char>, SpecMirType)>, locals: Seq<(Seq<char>, SpecMirType)>) -> (
    Seq<SpecDiagnostic>,
    Seq<(Seq<char>, SpecMirType)>,
)
    decreases bs.len(),
{
    if bs.len() == 0 {
        (Seq::empty(), locals)
    } else {
        let d = if local_type(locals, bs[0].0) is Some {
            seq![mir_error("MIR_DUPLICATE_LOCAL"@, "duplicate MIR match binding `"@ + bs[0].0 + "`"@)]
        } else {
            Seq::empty()
        };
        let (d2, l2) = bind_all(bs.drop_first(), locals.push(bs[0]));
        (d + d2, l2)
    }
}

/// What checking the arms of a `match` found.
pub struct ArmsSummary {
    pub diags: Seq<SpecDiagnostic>,
    /// Every arm's body returns on all its paths.
    pub all_return: bool,
    /// Some arm matches every value.
    pub wildcard: bool,
    pub has_true: bool,
    pub has_false: bool,
    /// The enum variants the arms name.
    pub covered: Seq<(Seq<char>, Seq<char>)>,
}

/// Whether the arms cover both booleans.
pub open spec fn bool_exhaustive(vt: SpecMirType, a: ArmsSummary) -> bool {
    vt == SpecMirType::Named("Bool"@) && a.has_true && a.has_false
}

/// Whether the arms name every variant of the enum `vt` names.
pub open spec fn enum_exhaustive(vt: SpecMirType, covered: Seq<(Seq<char>, Seq<char>)>, p: Program) -> bool {
    match vt {
        SpecMirType::Named(e) => match find_enum(p.enums@, e) {
            Some(en) => (exists|k: int| 0 <= k < covered.len() && #[trigger] covered[k].0 == e) && forall|
                i: int,
            |
                0 <= i < en.variants@.len() ==> covered.contains((e, #[trigger] en.variants@[i].name@)),
            None => false,
        },
        _ => false,
    }
}

/// The diagnostics of a statement, whether it returns on every path, and the
/// scope after it.
pub open spec fn check_stmt(
    s: MirStmt,
    locals: Seq<(Seq<char>, SpecMirType)>,
    expected: SpecMirType,
    p: Program,
) -> (Seq<SpecDiagnostic>, bool, Seq<(Seq<char>, SpecMirType)>)
    decreases s,
{
    match s {
        MirStmt::Local { name, ty, value, .. } => {
            let dup = if local_type(locals, name@) is Some {
                seq![mir_error("MIR_DUPLICATE_LOCAL"@, "duplicate MIR local `"@ + name@ + "`"@)]
            } else {
                Seq::empty()
            };
            let (dv, vt) = check_expr(value, locals, p);
            let lt = match ty {
                Some(t) => parse_type(t@),
                None => vt,
            };
            (dup + dv + expect(
                vt,
                lt,
                "MIR_LOCAL_TYPE"@,
                "local `"@ + name@ + "` expects `"@ + type_text(lt) + "`, found `"@ + type_text(vt) + "`"@,
            ), false, locals.push((name@, lt)))
        },
        MirStmt::Store { place: MirPlace::Local(name), value } => {
            let (dv, vt) = check_expr(value, locals, p);
            let (dp, pt) = match local_type(locals, name@) {
                Some(t) => (Seq::empty(), t),
                None => (
                    seq![mir_error("MIR_UNKNOWN_LOCAL"@, "store target `"@ + name@ + "` is not defined"@)],
                    SpecMirType::Unknown,
                ),
            };
            (dv + dp + expect(
                vt,
                pt,
                "MIR_STORE_TYPE"@,
                "store target expects `"@ + type_text(pt) + "`, found `"@ + type_text(vt) + "`"@,
            ), false, locals)
        },
        MirStmt::If { condition, then_body, else_body } => {
            let dc = check_bool(condition, locals, p, "MIR_IF_CONDITION"@, "if condition"@);
            let (dt, rt, _) = check_stmts(then_body@, locals, expected, p);
            let (de, re, _) = check_stmts(else_body@, locals, expected, p);
            (dc + dt + de, rt && re, locals)
        },
        MirStmt::While { condition, body } => {
            let dc = check_bool(condition, locals, p, "MIR_WHILE_CONDITION"@, "while condition"@);
            let (db, _, _) = check_stmts(body@, locals, expected, p);
            (dc + db, false, locals)
        },
        MirStmt::Match { value, arms } => {
            let (dv, vt) = check_expr(value, locals, p);
            let a = check_arms(arms@, vt, locals, expected, p);
            (dv + a.diags, arms@.len() > 0 && a.all_return && (a.wildcard || bool_exhaustive(vt, a)
                || enum_exhaustive(vt, a.covered, p)), locals)
        },
        MirStmt::Return(Some(value)) => {
            let (dv, vt) = check_expr(value, locals, p);
            (dv + expect(
                vt,
                expected,
                "MIR_RETURN_TYPE"@,
                "return expects `"@ + type_text(expected) + "`, found `"@ + type_text(vt) + "`"@,
            ), true, locals)
        },
        MirStmt::Return(None) => (expect(
            SpecMirType::Unit,
            expected,
            "MIR_RETURN_TYPE"@,
            "return expects `"@ + type_text(expected) + "`, found `Unit`"@,
        ), true, locals),
        MirStmt::Drop(value) => (check_expr(value, locals, p).0, false, locals),
    }
}

/// The statements checked in order until one returns on every path; the
/// statements after it are not checked.
pub open spec fn check_stmts(
    ss: Seq<MirStmt>,
    locals: Seq<(Seq<char>, SpecMirType)>,
    expected: SpecMirType,
    p: Program,
) -> (Seq<SpecDiagnostic>, bool, Seq<(Seq<char>, SpecMirType)>)
    decreases ss,
{
    if ss.len() == 0 {
        (Seq::empty(), false, locals)
    } else {
        let (d, r, l1) = check_stmt(ss[0], locals, expected, p);
        if r {
            (d, true, l1)
        } else {
            let (d2, r2, l2) = check_stmts(ss.drop_first(), l1, expected, p);
            (d + d2, r2, l2)
        }
    }
}

/// The arms of a `match` on a value of type `vt`, each checked in its own
/// copy of the scope.
pub open spec fn check_arms(
    arms: Seq<MirMatchArm>,
    vt: SpecMirType,
    locals: Seq<(Seq<char>, SpecMirType)>,
    expected: SpecMirType,
    p: Program,
) -> ArmsSummary
    decreases arms,
{
    if arms.len() == 0 {
        ArmsSummary {
            diags: Seq::empty(),
            all_return: true,
            wildcard: false,
            has_true: false,
            has_false: false,
            covered: Seq::empty(),
        }
    } else {
        let arm = arms[0];
        let (dp, bs) = check_pattern(arm.pattern, vt, p);
        let (db, al) = bind_all(bs, locals);
        let (dbody, ret, _) = check_stmts(arm.body@, al, expected, p);
        let rest = check_arms(arms.drop_first(), vt, locals, expected, p);
        ArmsSummary {
            diags: dp + db + dbody + rest.diags,
            all_return: ret && rest.all_return,
            wildcard: (arm.pattern is Wildcard || arm.pattern is Name) || rest.wildcard,
            has_true: arm.pattern == MirPattern::Bool(true) || rest.has_true,
            has_false: arm.pattern == MirPattern::Bool(false) || rest.has_false,
            covered: match arm.pattern {
                MirPattern::Variant { enum_name, variant, .. } => seq![(enum_name@, variant@)]
                    + rest.covered,
                _ => rest.covered,
            },
        }
    }
}

/// The parameters bound in order; a name bound twice is a duplicate.
pub open spec fn check_param_locals(params: Seq<Param>, locals: Seq<(Seq<char>, SpecMirType)>) -> (
    Seq<SpecDiagnostic>,
    Seq<(Seq<char>, SpecMirType)>,
)
    decreases params.len(),
{
    if params.len() == 0 {
        (Seq::empty(), locals)
    } else {
        let name = params[0].name@;
        let d = if local_type(locals, name) is Some {
            seq![mir_error("MIR_DUPLICATE_LOCAL"@, "duplicate MIR parameter `"@ + name + "`"@)]
        } else {
            Seq::empty()
        };
        let (d2, l2) = check_param_locals(
            params.drop_first(),
            locals.push((name, parse_type(params[0].ty@))),
        );
        (d + d2, l2)
    }
}

/// The type a function returns.
pub open spec fn return_type_of(f: MirFunction) -> SpecMirType {
    match f.return_type {
        Some(t) => parse_type(t@),
        None => SpecMirType::Unit,
    }
}

/// The diagnostics of a function.
pub open spec fn check_function(f: MirFunction, p: Program) -> Seq<SpecDiagnostic> {
    let (dp, ls) = check_param_locals(f.params@, Seq::empty());
    let expected = return_type_of(f);
    let (db, guaranteed, _) = check_stmts(f.body@, ls, expected, p);
    dp + db + if expected != SpecMirType::Unit && !guaranteed {
        seq![
            mir_error(
                "MIR_MISSING_RETURN"@,
                "function `"@ + f.name@ + "` must return `"@ + type_text(expected) + "` on all paths"@,
            ),
        ]
    } else {
        Seq::empty()
    }
}

/// The diagnostics of the functions in order, given the names of those
/// before them.
pub open spec fn check_functions(fs: Seq<MirFunction>, seen: Seq<Seq<char>>, p: Program) -> Seq<
    SpecDiagnostic,
>
    decreases fs.len(),
{
    if fs.len() == 0 {
        Seq::empty()
    } else {
        let name = fs[0].name@;
        (if seen.contains(name) {
            seq![mir_error("MIR_DUPLICATE_FUNCTION"@, "duplicate MIR function `"@ + name + "`"@)]
        } else {
            Seq::empty()
        }) + check_function(fs[0], p) + check_functions(fs.drop_first(), seen.push(name), p)
    }
}

/// Every diagnostic the checker reports for a program, in order.
pub open spec fn program_diags(p: Program) -> Seq<SpecDiagnostic> {
    check_functions(p.functions@, Seq::empty(), p)
}

fn clone_locals(locals: &Vec<(String, MirType)>) -> (r: Vec<(String, MirType)>)
    ensures
        locals_view(r@) == locals_view(locals@),
{
    let mut r: Vec<(String, MirType)> = Vec::new();
    let mut i: usize = 0;
    while i < locals.len()
        invariant
            i <= locals@.len(),
            r@.len() == i,
            forall|k: int|
                0 <= k < i ==> (#[trigger] r@[k]).0@ == locals@[k].0@ && r@[k].1.view()
                    == locals@[k].1.view(),
        decreases locals.len() - i,
    {
        r.push((locals[i].0.clone(), locals[i].1.copy()));
        i = i + 1;
    }
    assert(locals_view(r@) =~= locals_view(locals@));
    r
}

fn bind_local(locals: &mut Vec<(String, MirType)>, name: &str, ty: MirType)
    ensures
        locals_view(final(locals)@) == locals_view(old(locals)@).push((name@, ty.view())),
{
    let ghost tv = ty.view();
    locals.push((copy_string(name), ty));
    assert(locals_view(locals@) =~= locals_view(old(locals)@).push((name@, tv)));
}

pub open spec fn pairs_view(v: Seq<(String, String)>) -> Seq<(Seq<char>, Seq<char>)> {
    v.map_values(|x: (String, String)| (x.0@, x.1@))
}

/// What checking the arms of a `match` found, besides diagnostics.
struct ArmsOutcome {
    all_return: bool,
    wildcard: bool,
    has_true: bool,
    has_false: bool,
    covered: Vec<(String, String)>,
}

impl ArmsOutcome {
    spec fn agrees(&self, a: ArmsSummary) -> bool {
        &&& self.all_return == a.all_return
        &&& self.wildcard == a.wildcard
        &&& self.has_true == a.has_true
        &&& self.has_false == a.has_false
        &&& pairs_view(self.covered@) == a.covered
    }
}

impl<'a> MirVerifier<'a> {
    fn verify_pattern(&mut self, pattern: &MirPattern, vt: &MirType) -> (bs: Vec<(String, MirType)>)
        ensures
            final(self).program == old(self).program,
            final(self).diags() == old(self).diags() + check_pattern(*pattern, vt.view(), *old(self).program).0,
            locals_view(bs@) == check_pattern(*pattern, vt.view(), *old(self).program).1,
    {
        let ghost p = *self.program;
        let mut bs: Vec<(String, MirType)> = Vec::new();
        match pattern {
            MirPattern::Name(n) => {
                bs.push((n.clone(), vt.copy()));
                assert(locals_view(bs@) =~= seq![(n@, vt.view())]);
                assert(self.diags() =~= old(self).diags() + Seq::<SpecDiagnostic>::empty());
            },
            MirPattern::Wildcard => {
                assert(locals_view(bs@) =~= Seq::<(Seq<char>, SpecMirType)>::empty());
                assert(self.diags() =~= old(self).diags() + Seq::<SpecDiagnostic>::empty());
            },
            MirPattern::Variant { enum_name, variant, binding } => {
                let pt = self.verify_enum_variant(enum_name.as_str(), variant.as_str());
                let found = vt.display();
                let head = concat5("match pattern `", enum_name.as_str(), ".", variant.as_str(), "` expects value type `");
                let m = concat5(head.as_str(), enum_name.as_str(), "`, found `", found.as_str(), "`");
                assert(m@ =~= "match pattern `"@ + (enum_name@ + "."@ + variant@) + "` expects value type `"@
                    + enum_name@ + "`, found `"@ + type_text(vt.view()) + "`"@);
                self.expect_type(&MirType::Named(enum_name.clone()), vt, "MIR_MATCH_PATTERN", m.as_str());
                match pt {
                    Some(t) => match binding {
                        Some(b) => {
                            bs.push((b.clone(), parse_mir_type(t.as_str())));
                            assert(locals_view(bs@) =~= seq![(b@, parse_type(t@))]);
                        },
                        None => {
                            let m2 = concat5("variant `", enum_name.as_str(), ".", variant.as_str(), "` requires a payload binding");
                            assert(m2@ =~= "variant `"@ + (enum_name@ + "."@ + variant@)
                                + "` requires a payload binding"@);
                            self.error("MIR_ENUM_PATTERN_ARITY", m2.as_str());
                            assert(locals_view(bs@) =~= Seq::<(Seq<char>, SpecMirType)>::empty());
                        },
                    },
                    None => match binding {
                        Some(_) => {
                            let m2 = concat5("variant `", enum_name.as_str(), ".", variant.as_str(), "` does not carry a payload");
                            assert(m2@ =~= "variant `"@ + (enum_name@ + "."@ + variant@)
                                + "` does not carry a payload"@);
                            self.error("MIR_ENUM_PATTERN_ARITY", m2.as_str());
                            assert(locals_view(bs@) =~= Seq::<(Seq<char>, SpecMirType)>::empty());
                        },
                        None => {
                            assert(locals_view(bs@) =~= Seq::<(Seq<char>, SpecMirType)>::empty());
                        },
                    },
                }
                assert(self.diags() =~= old(self).diags() + check_pattern(*pattern, vt.view(), p).0);
            },
            MirPattern::Int(_) => {
                self.expect_named(vt, "Int", "MIR_MATCH_PATTERN", "match pattern");
                assert(locals_view(bs@) =~= Seq::<(Seq<char>, SpecMirType)>::empty());
            },
            MirPattern::String(_) => {
                self.expect_named(vt, "String", "MIR_MATCH_PATTERN", "match pattern");
                assert(locals_view(bs@) =~= Seq::<(Seq<char>, SpecMirType)>::empty());
            },
            MirPattern::Bool(_) => {
                self.expect_named(vt, "Bool", "MIR_MATCH_PATTERN", "match pattern");
                assert(locals_view(bs@) =~= Seq::<(Seq<char>, SpecMirType)>::empty());
            },
        }
        bs
    }

    /// Binds the bindings from `i` on into `locals`.
    fn bind_from(&mut self, bs: &Vec<(String, MirType)>, i: usize, locals: &mut Vec<(String, MirType)>)
        requires
            i <= bs@.len(),
        ensures
            final(self).program == old(self).program,
            ({
                let (d, l) = bind_all(locals_view(bs@).skip(i as int), locals_view(old(locals)@));
                &&& final(self).diags() == old(self).diags() + d
                &&& locals_view(final(locals)@) == l
            }),
        decreases bs@.len() - i,
    {
        let ghost bv = locals_view(bs@);
        if i == bs.len() {
            assert(bv.skip(i as int) =~= Seq::<(Seq<char>, SpecMirType)>::empty());
            assert(self.diags() =~= old(self).diags() + Seq::<SpecDiagnostic>::empty());
            return;
        }
        assert(bv.skip(i as int).drop_first() =~= bv.skip(i as int + 1));
        assert(bv.skip(i as int)[0] == (bs@[i as int].0@, bs@[i as int].1.view()));
        let name = bs[i].0.as_str();
        if find_local(locals, name).is_some() {
            let m = concat3("duplicate MIR match binding `", name, "`");
            self.error("MIR_DUPLICATE_LOCAL", m.as_str());
        }
        let ghost mid = self.diags();
        bind_local(locals, name, bs[i].1.copy());
        self.bind_from(bs, i + 1, locals);
        assert(self.diags() =~= old(self).diags() + bind_all(bv.skip(i as int), locals_view(old(locals)@)).0);
    }

    /// Whether the arms name every variant of the enum `vt` names.
    fn enum_covered(&self, vt: &MirType, covered: &Vec<(String, String)>) -> (b: bool)
        ensures
            b == enum_exhaustive(vt.view(), pairs_view(covered@), *self.program),
    {
        let ghost cv = pairs_view(covered@);
        let e = match vt {
            MirType::Named(e) => e,
            _ => {
                return false;
            },
        };
        let i = match find_enum_index(&self.program.enums, e.as_str()) {
            Some(i) => i,
            None => {
                return false;
            },
        };
        let mut any = false;
        let mut k: usize = 0;
        while k < covered.len()
            invariant
                k <= covered@.len(),
                cv == pairs_view(covered@),
                any == exists|j: int| 0 <= j < k && #[trigger] cv[j].0 == e@,
            decreases covered.len() - k,
        {
            if str_equal(covered[k].0.as_str(), e.as_str()) {
                assert(cv[k as int].0 == e@);
                any = true;
            }
            k = k + 1;
        }
        if !any {
            return false;
        }
        let variants = &self.program.enums[i].variants;
        let mut j: usize = 0;
        while j < variants.len()
            invariant
                j <= variants@.len(),
                i < self.program.enums@.len(),
                find_enum(self.program.enums@, e@) == Some(self.program.enums@[i as int]),
                vt.view() == SpecMirType::Named(e@),
                exists|q: int| 0 <= q < cv.len() && #[trigger] cv[q].0 == e@,
                cv == pairs_view(covered@),
                variants == &self.program.enums@[i as int].variants,
                forall|m: int| 0 <= m < j ==> cv.contains((e@, #[trigger] variants@[m].name@)),
            decreases variants.len() - j,
        {
            let mut found = false;
            let mut k2: usize = 0;
            while k2 < covered.len()
                invariant
                    k2 <= covered@.len(),
                    j < variants@.len(),
                    i < self.program.enums@.len(),
                    variants == &self.program.enums@[i as int].variants,
                    find_enum(self.program.enums@, e@) == Some(self.program.enums@[i as int]),
                    vt.view() == SpecMirType::Named(e@),
                    cv == pairs_view(covered@),
                    found ==> cv.contains((e@, variants@[j as int].name@)),
                    !found ==> forall|q: int| 0 <= q < k2 ==> #[trigger] cv[q] != (e@, variants@[j as int].name@),
                decreases covered.len() - k2,
            {
                if !found && str_equal(covered[k2].0.as_str(), e.as_str()) && str_equal(
                    covered[k2].1.as_str(),
                    variants[j].name.as_str(),
                ) {
                    assert(cv[k2 as int] == (e@, variants@[j as int].name@));
                    found = true;
                }
                k2 = k2 + 1;
            }
            if !found {
                assert(!cv.contains((e@, variants@[j as int].name@)));
                proof {
                    let en = find_enum(self.program.enums@, e@).unwrap();
                    assert(en.variants@ == variants@);
                    assert(vt.view() == SpecMirType::Named(e@));
                    assert(!cv.contains((e@, en.variants@[j as int].name@)));
                }
                return false;
            }
            j = j + 1;
        }
        true
    }
}

impl<'a> MirVerifier<'a> {
    fn expect_bool(&mut self, e: &MirExpr, locals: &Vec<(String, MirType)>, code: &'static str, label: &str)
        ensures
            final(self).program == old(self).program,
            final(self).diags() == old(self).diags() + check_bool(
                *e,
                locals_view(locals@),
                *old(self).program,
                code@,
                label@,
            ),
    {
        let t = self.verify_expr(e, locals);
        self.expect_named(&t, "Bool", code, label);
        assert(self.diags() =~= old(self).diags() + check_bool(
            *e,
            locals_view(locals@),
            *self.program,
            code@,
            label@,
        ));
    }

    fn verify_stmts_from(
        &mut self,
        stmts: &Vec<MirStmt>,
        i: usize,
        locals: &mut Vec<(String, MirType)>,
        expected: &MirType,
    ) -> (r: bool)
        requires
            i <= stmts@.len(),
        ensures
            final(self).program == old(self).program,
            ({
                let (d, ret, l) = check_stmts(
                    stmts@.skip(i as int),
                    locals_view(old(locals)@),
                    expected.view(),
                    *old(self).program,
                );
                &&& final(self).diags() == old(self).diags() + d
                &&& r == ret
                &&& locals_view(final(locals)@) == l
            }),
        decreases mstmts_size(stmts@), 1nat, stmts@.len() - i,
    {
        let ghost p = *self.program;
        let ghost ss = stmts@.skip(i as int);
        if i == stmts.len() {
            assert(ss =~= Seq::<MirStmt>::empty());
            assert(self.diags() =~= old(self).diags() + Seq::<SpecDiagnostic>::empty());
            return false;
        }
        proof {
            lemma_mstmts_size_elem(stmts@, i as int);
            assert(ss.drop_first() =~= stmts@.skip(i as int + 1));
            assert(ss[0] == stmts@[i as int]);
        }
        if self.verify_stmt(&stmts[i], locals, expected) {
            return true;
        }
        let r = self.verify_stmts_from(stmts, i + 1, locals, expected);
        assert(self.diags() =~= old(self).diags() + check_stmts(ss, locals_view(old(locals)@), expected.view(), p).0);
        r
    }

    fn verify_arms_from(
        &mut self,
        arms: &Vec<MirMatchArm>,
        i: usize,
        vt: &MirType,
        locals: &Vec<(String, MirType)>,
        expected: &MirType,
    ) -> (o: ArmsOutcome)
        requires
            i <= arms@.len(),
        ensures
            final(self).program == old(self).program,
            ({
                let a = check_arms(
                    arms@.skip(i as int),
                    vt.view(),
                    locals_view(locals@),
                    expected.view(),
                    *old(self).program,
                );
                &&& final(self).diags() == old(self).diags() + a.diags
                &&& o.agrees(a)
            }),
        decreases marms_size(arms@), 1nat, arms@.len() - i,
    {
        let ghost p = *self.program;
        let ghost rest_arms = arms@.skip(i as int);
        if i == arms.len() {
            assert(rest_arms =~= Seq::<MirMatchArm>::empty());
            assert(self.diags() =~= old(self).diags() + Seq::<SpecDiagnostic>::empty());
            let o = ArmsOutcome {
                all_return: true,
                wildcard: false,
                has_true: false,
                has_false: false,
                covered: Vec::new(),
            };
            assert(pairs_view(o.covered@) =~= Seq::<(Seq<char>, Seq<char>)>::empty());
            return o;
        }
        proof {
            lemma_marms_size_elem(arms@, i as int);
            assert(rest_arms.drop_first() =~= arms@.skip(i as int + 1));
            assert(rest_arms[0] == arms@[i as int]);
        }
        let arm = &arms[i];
        let bs = self.verify_pattern(&arm.pattern, vt);
        let mut arm_locals = clone_locals(locals);
        assert(locals_view(bs@).skip(0) =~= locals_view(bs@));
        self.bind_from(&bs, 0, &mut arm_locals);
        let ret = self.verify_stmts_from(&arm.body, 0, &mut arm_locals, expected);
        let mut rest = self.verify_arms_from(arms, i + 1, vt, locals, expected);
        let wildcard = match &arm.pattern {
            MirPattern::Wildcard => true,
            MirPattern::Name(_) => true,
            _ => false,
        };
        let is_true = match &arm.pattern {
            MirPattern::Bool(b) => *b,
            _ => false,
        };
        let is_false = match &arm.pattern {
            MirPattern::Bool(b) => !*b,
            _ => false,
        };
        let ghost rest_cov = pairs_view(rest.covered@);
        match &arm.pattern {
            MirPattern::Variant { enum_name, variant, .. } => {
                rest.covered.insert(0, (enum_name.clone(), variant.clone()));
                assert(pairs_view(rest.covered@) =~= seq![(enum_name@, variant@)] + rest_cov);
            },
            _ => {},
        }
        proof {
            assert(arm.body@.skip(0) =~= arm.body@);
        }
        let o = ArmsOutcome {
            all_return: ret && rest.all_return,
            wildcard: wildcard || rest.wildcard,
            has_true: is_true || rest.has_true,
            has_false: is_false || rest.has_false,
            covered: rest.covered,
        };
        assert(self.diags() =~= old(self).diags() + check_arms(
            rest_arms,
            vt.view(),
            locals_view(locals@),
            expected.view(),
            p,
        ).diags);
        o
    }

    fn verify_match(
        &mut self,
        value: &MirExpr,
        arms: &Vec<MirMatchArm>,
        locals: &Vec<(String, MirType)>,
        expected: &MirType,
    ) -> (r: bool)
        ensures
            final(self).program == old(self).program,
            ({
                let s = MirStmt::Match { value: *value, arms: *arms };
                let (d, ret, _) = check_stmt(s, locals_view(locals@), expected.view(), *old(self).program);
                &&& final(self).diags() == old(self).diags() + d
                &&& r == ret
            }),
        decreases marms_size(arms@), 2nat, 0nat,
    {
        let ghost p = *self.program;
        let ghost s = MirStmt::Match { value: *value, arms: *arms };
        proof {
            lemma_mexpr_size_positive(*value);
        }
        let vt = self.verify_expr(value, locals);
        assert(arms@.skip(0) =~= arms@);
        let o = self.verify_arms_from(arms, 0, &vt, locals, expected);
        let is_bool = match &vt {
            MirType::Named(n) => str_equal(n.as_str(), "Bool"),
            _ => false,
        };
        proof {
            reveal_strlit("Bool");
            assert(is_bool == (vt.view() == SpecMirType::Named("Bool"@)));
        }
        let exhaustive = o.wildcard || (is_bool && o.has_true && o.has_false) || self.enum_covered(&vt, &o.covered);
        assert(self.diags() =~= old(self).diags() + check_stmt(s, locals_view(locals@), expected.view(), p).0);
        arms.len() > 0 && o.all_return && exhaustive
    }

    fn verify_stmt(&mut self, stmt: &MirStmt, locals: &mut Vec<(String, MirType)>, expected: &MirType) -> (r:
        bool)
        ensures
            final(self).program == old(self).program,
            ({
                let (d, ret, l) = check_stmt(
                    *stmt,
                    locals_view(old(locals)@),
                    expected.view(),
                    *old(self).program,
                );
                &&& final(self).diags() == old(self).diags() + d
                &&& r == ret
                &&& locals_view(final(locals)@) == l
            }),
        decreases mstmt_size(*stmt), 0nat, 0nat,
    {
        let ghost p = *self.program;
        let ghost lv = locals_view(locals@);
        match stmt {
            MirStmt::Local { name, ty, value, .. } => {
                if find_local(locals, name.as_str()).is_some() {
                    let m = concat3("duplicate MIR local `", name.as_str(), "`");
                    self.error("MIR_DUPLICATE_LOCAL", m.as_str());
                }
                let vt = self.verify_expr(value, locals);
                let lt = match ty {
                    Some(t) => parse_mir_type(t.as_str()),
                    None => vt.copy(),
                };
                let lt_text = lt.display();
                let vt_text = vt.display();
                let m = concat7("local `", name.as_str(), "` expects `", lt_text.as_str(), "`, found `", vt_text.as_str(), "`");
                self.expect_type(&vt, &lt, "MIR_LOCAL_TYPE", m.as_str());
                bind_local(locals, name.as_str(), lt);
                assert(self.diags() =~= old(self).diags() + check_stmt(*stmt, lv, expected.view(), p).0);
                false
            },
            MirStmt::Store { place: MirPlace::Local(name), value } => {
                let vt = self.verify_expr(value, locals);
                let pt = match find_local(locals, name.as_str()) {
                    Some(t) => t,
                    None => {
                        let m = concat3("store target `", name.as_str(), "` is not defined");
                        self.error("MIR_UNKNOWN_LOCAL", m.as_str());
                        MirType::Unknown
                    },
                };
                let pt_text = pt.display();
                let vt_text = vt.display();
                let m = concat5("store target expects `", pt_text.as_str(), "`, found `", vt_text.as_str(), "`");
                self.expect_type(&vt, &pt, "MIR_STORE_TYPE", m.as_str());
                assert(self.diags() =~= old(self).diags() + check_stmt(*stmt, lv, expected.view(), p).0);
                false
            },
            MirStmt::If { condition, then_body, else_body } => {
                proof {
                    lemma_mexpr_size_positive(*condition);
                }
                self.expect_bool(condition, locals, "MIR_IF_CONDITION", "if condition");
                let mut then_locals = clone_locals(locals);
                assert(then_body@.skip(0) =~= then_body@);
                let rt = self.verify_stmts_from(then_body, 0, &mut then_locals, expected);
                let mut else_locals = clone_locals(locals);
                assert(else_body@.skip(0) =~= else_body@);
                let re = self.verify_stmts_from(else_body, 0, &mut else_locals, expected);
                assert(self.diags() =~= old(self).diags() + check_stmt(*stmt, lv, expected.view(), p).0);
                rt && re
            },
            MirStmt::While { condition, body } => {
                self.expect_bool(condition, locals, "MIR_WHILE_CONDITION", "while condition");
                let mut body_locals = clone_locals(locals);
                assert(body@.skip(0) =~= body@);
                self.verify_stmts_from(body, 0, &mut body_locals, expected);
                assert(self.diags() =~= old(self).diags() + check_stmt(*stmt, lv, expected.view(), p).0);
                false
            },
            MirStmt::Match { value, arms } => self.verify_match(value, arms, locals, expected),
            MirStmt::Return(Some(value)) => {
                let vt = self.verify_expr(value, locals);
                let et = expected.display();
                let vtt = vt.display();
                let m = concat5("return expects `", et.as_str(), "`, found `", vtt.as_str(), "`");
                self.expect_type(&vt, expected, "MIR_RETURN_TYPE", m.as_str());
                assert(self.diags() =~= old(self).diags() + check_stmt(*stmt, lv, expected.view(), p).0);
                true
            },
            MirStmt::Return(None) => {
                let et = expected.display();
                let m = concat3("return expects `", et.as_str(), "`, found `Unit`");
                self.expect_type(&MirType::Unit, expected, "MIR_RETURN_TYPE", m.as_str());
                true
            },
            MirStmt::Drop(value) => {
                self.verify_expr(value, locals);
                false
            },
        }
    }
}

impl<'a> MirVerifier<'a> {
    /// Binds the parameters from `i` on into `locals`.
    fn bind_params_from(&mut self, params: &Vec<Param>, i: usize, locals: &mut Vec<(String, MirType)>)
        requires
            i <= params@.len(),
        ensures
            final(self).program == old(self).program,
            ({
                let (d, l) = check_param_locals(params@.skip(i as int), locals_view(old(locals)@));
                &&& final(self).diags() == old(self).diags() + d
                &&& locals_view(final(locals)@) == l
            }),
        decreases params@.len() - i,
    {
        if i == params.len() {
            assert(params@.skip(i as int) =~= Seq::<Param>::empty());
            assert(self.diags() =~= old(self).diags() + Seq::<SpecDiagnostic>::empty());
            return;
        }
        assert(params@.skip(i as int).drop_first() =~= params@.skip(i as int + 1));
        assert(params@.skip(i as int)[0] == params@[i as int]);
        let name = params[i].name.as_str();
        if find_local(locals, name).is_some() {
            let m = concat3("duplicate MIR parameter `", name, "`");
            self.error("MIR_DUPLICATE_LOCAL", m.as_str());
        }
        bind_local(locals, name, parse_mir_type(params[i].ty.as_str()));
        self.bind_params_from(params, i + 1, locals);
        assert(self.diags() =~= old(self).diags() + check_param_locals(
            params@.skip(i as int),
            locals_view(old(locals)@),
        ).0);
    }

    fn verify_function(&mut self, function: &MirFunction)
        ensures
            final(self).program == old(self).program,
            final(self).diags() == old(self).diags() + check_function(*function, *old(self).program),
    {
        let ghost p = *self.program;
        let mut locals: Vec<(String, MirType)> = Vec::new();
        assert(locals_view(locals@) =~= Seq::<(Seq<char>, SpecMirType)>::empty());
        assert(function.params@.skip(0) =~= function.params@);
        self.bind_params_from(&function.params, 0, &mut locals);
        let expected = match &function.return_type {
            Some(t) => parse_mir_type(t.as_str()),
            None => MirType::Unit,
        };
        assert(function.body@.skip(0) =~= function.body@);
        let guaranteed = self.verify_stmts_from(&function.body, 0, &mut locals, &expected);
        let is_unit = match &expected {
            MirType::Unit => true,
            _ => false,
        };
        if !is_unit && !guaranteed {
            let shown = expected.display();
            let m = concat5("function `", function.name.as_str(), "` must return `", shown.as_str(), "` on all paths");
            self.error("MIR_MISSING_RETURN", m.as_str());
        }
        assert(self.diags() =~= old(self).diags() + check_function(*function, p));
    }

    fn verify_program(&mut self)
        ensures
            final(self).program == old(self).program,
            final(self).diags() == old(self).diags() + program_diags(*old(self).program),
    {
        let ghost p = *self.program;
        let mut names: Vec<String> = Vec::new();
        let mut i: usize = 0;
        assert(crate::text::strings_view(names@) =~= Seq::<Seq<char>>::empty());
        assert(p.functions@.skip(0) =~= p.functions@);
        assert(self.diags() + check_functions(p.functions@, Seq::empty(), p) =~= old(self).diags()
            + program_diags(p));
        while i < self.program.functions.len()
            invariant
                self.program == old(self).program,
                p == *self.program,
                i <= p.functions@.len(),
                crate::text::strings_view(names@) == p.functions@.subrange(0, i as int).map_values(
                    |f: MirFunction| f.name@,
                ),
                self.diags() + check_functions(
                    p.functions@.skip(i as int),
                    crate::text::strings_view(names@),
                    p,
                ) == old(self).diags() + program_diags(p),
            decreases p.functions@.len() - i,
        {
            let ghost before = self.diags();
            let ghost seen = crate::text::strings_view(names@);
            let ghost rest = p.functions@.skip(i as int);
            proof {
                assert(rest.drop_first() =~= p.functions@.skip(i as int + 1));
                assert(rest[0] == p.functions@[i as int]);
            }
            let f = &self.program.functions[i];
            if crate::text::contains_str(&names, f.name.as_str()) {
                let m = concat3("duplicate MIR function `", f.name.as_str(), "`");
                self.error("MIR_DUPLICATE_FUNCTION", m.as_str());
            }
            self.verify_function(f);
            names.push(f.name.clone());
            proof {
                assert(crate::text::strings_view(names@) =~= seen.push(f.name@));
                assert(crate::text::strings_view(names@) =~= p.functions@.subrange(0, i as int + 1).map_values(
                    |f: MirFunction| f.name@,
                ));
                let d0 = if seen.contains(f.name@) {
                    seq![mir_error("MIR_DUPLICATE_FUNCTION"@, "duplicate MIR function `"@ + f.name@ + "`"@)]
                } else {
                    Seq::<SpecDiagnostic>::empty()
                };
                assert(self.diags() =~= before + d0 + check_function(*f, p));
                assert(check_functions(rest, seen, p) == d0 + check_function(*f, p) + check_functions(
                    p.functions@.skip(i as int + 1),
                    seen.push(f.name@),
                    p,
                ));
                assert(before + (d0 + check_function(*f, p) + check_functions(
                    p.functions@.skip(i as int + 1),
                    seen.push(f.name@),
                    p,
                )) =~= self.diags() + check_functions(
                    p.functions@.skip(i as int + 1),
                    seen.push(f.name@),
                    p,
                ));
            }
            i = i + 1;
        }
        assert(p.functions@.skip(i as int) =~= Seq::<MirFunction>::empty());
        assert(self.diags() =~= old(self).diags() + program_diags(p));
    }
}

/// Checks a lowered program: `Ok` exactly when the checker finds nothing,
/// and otherwise every diagnostic it finds, in order.
pub fn verify(program: &Program) -> (r: Result<(), Vec<Diagnostic>>)
    ensures
        r is Ok <==> program_diags(*program).len() == 0,
        r matches Err(d) ==> diags_view(d@) == program_diags(*program),
{
    let mut verifier = MirVerifier::new(program);
    verifier.verify_program();
    if verifier.diagnostics.len() == 0 {
        assert(program_diags(*program) =~= Seq::<SpecDiagnostic>::empty());
        Ok(())
    } else {
        assert(verifier.diags() =~= program_diags(*program));
        Err(verifier.diagnostics)
    }
}

} // verus!
