//! The text form of a lowered program: each expression is computed into a
//! numbered temporary (`_t0`, `_t1`, ... per function) before it is used.
use vstd::prelude::*;
use crate::ast::{
    BinaryOp, UnaryOp, unary_text, bool_text, debug_quoted, debug_string, indent_more, indented, op_text, push_bool, Module,
};
use crate::mir::{
    lower, MirEnum, MirEnumVariant, MirExpr, MirFunction, MirMatchArm, MirPattern, MirPlace, MirStmt,
    Program,
};
use crate::text::{
    decimal, increment_digits, lemma_concat_assoc, lemma_inc_decimal, push_chars, push_str, strings_view,
};

verus! {

/// The name a binary operator has in dumps.
pub fn binary_op_text(op: BinaryOp) -> (s: &'static str)
    ensures
        s@ == op_text(op),
{
    op.as_str()
}

/// The name a unary operator has in dumps.
pub fn unary_op_text(op: UnaryOp) -> (s: &'static str)
    ensures
        s@ == unary_text(op),
{
    op.as_str()
}

/// The name of the temporary numbered `n`.
pub open spec fn temp_name(n: nat) -> Seq<char> {
    "_t"@ + decimal(n)
}

/// The texts joined with `, ` between them.
pub open spec fn comma_joined(ts: Seq<Seq<char>>) -> Seq<char>
    decreases ts.len(),
{
    if ts.len() == 0 {
        Seq::empty()
    } else if ts.len() == 1 {
        ts[0]
    } else {
        comma_joined(ts.drop_last()) + ", "@ + ts.last()
    }
}

/// The dump of computing `e` at `pad` when the next free temporary is `n`,
/// and the next free temporary after it; the value ends up in the last
/// temporary used.
pub open spec fn mexpr_dump(e: MirExpr, pad: Seq<char>, n: nat) -> (Seq<char>, nat)
    decreases e,
{
    match e {
        MirExpr::Load(name) => (pad + temp_name(n) + " = load "@ + name@ + "\n"@, n + 1),
        MirExpr::Int(v) => (pad + temp_name(n) + " = const Int "@ + v@ + "\n"@, n + 1),
        MirExpr::String(v) => (pad + temp_name(n) + " = const String "@ + debug_quoted(v@) + "\n"@, n
            + 1),
        MirExpr::Bool(b) => (pad + temp_name(n) + " = const Bool "@ + bool_text(b) + "\n"@, n + 1),
        MirExpr::Binary { op, left, right } => {
            let (lt, n1) = mexpr_dump(*left, pad, n);
            let (rt, n2) = mexpr_dump(*right, pad, n1);
            (lt + rt + pad + temp_name(n2) + " = binary "@ + op_text(op) + " "@ + temp_name(
                (n1 - 1) as nat,
            ) + ", "@ + temp_name((n2 - 1) as nat) + "\n"@, n2 + 1)
        },
        MirExpr::Unary { op, expr } => {
            let (xt, n1) = mexpr_dump(*expr, pad, n);
            (xt + pad + temp_name(n1) + " = unary "@ + unary_text(op) + " "@ + temp_name((n1 - 1) as nat)
                + "\n"@, n1 + 1)
        },
        MirExpr::Call { callee, args } => {
            let (at, n1, temps) = mexprs_dump(args@, pad, n);
            (at + pad + temp_name(n1) + " = call "@ + callee@ + "("@ + comma_joined(temps) + ")\n"@, n1
                + 1)
        },
        MirExpr::EnumVariant { enum_name, variant, payload } => match payload {
            Some(p) => {
                let (pt, n1) = mexpr_dump(*p, pad, n);
                (pt + pad + temp_name(n1) + " = enum "@ + enum_name@ + "."@ + variant@ + "("@
                    + temp_name((n1 - 1) as nat) + ")\n"@, n1 + 1)
            },
            None => (pad + temp_name(n) + " = enum "@ + enum_name@ + "."@ + variant@ + "\n"@, n + 1),
        },
        MirExpr::FieldAccess { base, field } => {
            let (bt, n1) = mexpr_dump(*base, pad, n);
            (bt + pad + temp_name(n1) + " = field "@ + temp_name((n1 - 1) as nat) + "."@ + field@ + "\n"@, n1
                + 1)
        },
        MirExpr::ArrayLiteral { elements } => {
            let (at, n1, temps) = mexprs_dump(elements@, pad, n);
            (at + pad + temp_name(n1) + " = array ["@ + comma_joined(temps) + "]\n"@, n1 + 1)
        },
        MirExpr::Index { base, index } => {
            let (bt, n1) = mexpr_dump(*base, pad, n);
            let (it, n2) = mexpr_dump(*index, pad, n1);
            (bt + it + pad + temp_name(n2) + " = index "@ + temp_name((n1 - 1) as nat) + "["@ + temp_name(
                (n2 - 1) as nat,
            ) + "]\n"@, n2 + 1)
        },
    }
}

/// The dumps of `es` one after another, the next free temporary after them,
/// and the temporary each value ends up in.
pub open spec fn mexprs_dump(es: Seq<MirExpr>, pad: Seq<char>, n: nat) -> (
    Seq<char>,
    nat,
    Seq<Seq<char>>,
)
    decreases es,
{
    if es.len() == 0 {
        (Seq::empty(), n, Seq::empty())
    } else {
        let (t, n1, ts) = mexprs_dump(es.drop_last(), pad, n);
        let (t2, n2) = mexpr_dump(es.last(), pad, n1);
        (t + t2, n2, ts.push(temp_name((n2 - 1) as nat)))
    }
}

/// The text of a MIR pattern.
pub open spec fn mpattern_text(p: MirPattern) -> Seq<char> {
    match p {
        MirPattern::Name(n) => "name:"@ + n@,
        MirPattern::Variant { enum_name, variant, binding } => match binding {
            Some(b) => "variant:"@ + enum_name@ + "."@ + variant@ + "("@ + b@ + ")"@,
            None => "variant:"@ + enum_name@ + "."@ + variant@,
        },
        MirPattern::Int(v) => "int:"@ + v@,
        MirPattern::String(v) => "string:"@ + debug_quoted(v@),
        MirPattern::Bool(b) => "bool:"@ + bool_text(b),
        MirPattern::Wildcard => "_"@,
    }
}

/// The first line of a local's declaration, after its indentation.
pub open spec fn local_header(name: Seq<char>, ty: Option<String>, mutable: bool) -> Seq<char> {
    "local "@ + name + ": "@ + match ty {
        Some(t) => t@,
        None => "<inferred>"@,
    } + " mutability="@ + if mutable { "mutable"@ } else { "immutable"@ } + "\n"@
}

/// The `else` branch of an `if` dump, when there is one.
pub open spec fn else_part(pad: Seq<char>, present: bool, body: Seq<char>) -> Seq<char> {
    if present { pad + "  else\n"@ + body } else { Seq::empty() }
}

/// The dump of the statement `s` at `pad` when the next free temporary is
/// `n`, and the next free temporary after it.
pub open spec fn mstmt_dump(s: MirStmt, pad: Seq<char>, n: nat) -> (Seq<char>, nat)
    decreases s,
{
    let p1 = indented(pad);
    let p2 = indented(p1);
    match s {
        MirStmt::Local { mutable, name, ty, value } => {
            let (vt, n1) = mexpr_dump(value, pad, n);
            (pad + local_header(name@, ty, mutable) + vt + pad + "store "@ + name@ + ", "@ + temp_name(
                (n1 - 1) as nat,
            ) + "\n"@, n1)
        },
        MirStmt::Store { place: MirPlace::Local(name), value } => {
            let (vt, n1) = mexpr_dump(value, pad, n);
            (vt + pad + "store "@ + name@ + ", "@ + temp_name((n1 - 1) as nat) + "\n"@, n1)
        },
        MirStmt::If { condition, then_body, else_body } => {
            let (ct, n1) = mexpr_dump(condition, pad, n);
            let (tt, n2) = mstmts_dump(then_body@, p2, n1);
            let (et, n3) = mstmts_dump(else_body@, p2, n2);
            (ct + pad + "if "@ + temp_name((n1 - 1) as nat) + "\n"@ + pad + "  then\n"@ + tt + else_part(
                pad,
                else_body@.len() > 0,
                et,
            ) + pad + "end_if\n"@, n3)
        },
        MirStmt::While { condition, body } => {
            let (ct, n1) = mexpr_dump(condition, p1, n);
            let (bt, n2) = mstmts_dump(body@, p1, n1);
            (pad + "loop\n"@ + ct + pad + "  break_unless "@ + temp_name((n1 - 1) as nat) + "\n"@ + bt + pad
                + "end_loop\n"@, n2)
        },
        MirStmt::Match { value, arms } => {
            let (vt, n1) = mexpr_dump(value, pad, n);
            let (at, n2) = marms_dump(arms@, pad, n1);
            (vt + pad + "match "@ + temp_name((n1 - 1) as nat) + "\n"@ + at + pad + "end_match\n"@, n2)
        },
        MirStmt::Return(Some(value)) => {
            let (vt, n1) = mexpr_dump(value, pad, n);
            (vt + pad + "return "@ + temp_name((n1 - 1) as nat) + "\n"@, n1)
        },
        MirStmt::Return(None) => (pad + "return Unit\n"@, n),
        MirStmt::Drop(value) => {
            let (vt, n1) = mexpr_dump(value, pad, n);
            (vt + pad + "drop "@ + temp_name((n1 - 1) as nat) + "\n"@, n1)
        },
    }
}

pub open spec fn mstmts_dump(ss: Seq<MirStmt>, pad: Seq<char>, n: nat) -> (Seq<char>, nat)
    decreases ss,
{
    if ss.len() == 0 {
        (Seq::empty(), n)
    } else {
        let (t, n1) = mstmts_dump(ss.drop_last(), pad, n);
        let (t2, n2) = mstmt_dump(ss.last(), pad, n1);
        (t + t2, n2)
    }
}

/// The dumps of the arms of a `match` whose statement is at `pad`.
pub open spec fn marms_dump(arms: Seq<MirMatchArm>, pad: Seq<char>, n: nat) -> (Seq<char>, nat)
    decreases arms,
{
    if arms.len() == 0 {
        (Seq::empty(), n)
    } else {
        let (t, n1) = marms_dump(arms.drop_last(), pad, n);
        let arm = arms.last();
        let (bt, n2) = mstmts_dump(arm.body@, indented(indented(pad)), n1);
        (t + pad + "  arm "@ + mpattern_text(arm.pattern) + "\n"@ + bt, n2)
    }
}

/// The parameter lines of a function dumped at `pad`.
pub open spec fn mparams_text(params: Seq<crate::ast::Param>, pad: Seq<char>) -> Seq<char>
    decreases params.len(),
{
    if params.len() == 0 {
        Seq::empty()
    } else {
        mparams_text(params.drop_last(), pad) + pad + "  param "@ + params.last().name@ + ": "@
            + params.last().ty@ + "\n"@
    }
}

/// The dump of a function at `pad`; its temporaries are numbered from zero.
pub open spec fn mfunction_text(f: MirFunction, pad: Seq<char>) -> Seq<char> {
    pad + "fn "@ + f.name@ + " -> "@ + match f.return_type {
        Some(t) => t@,
        None => "Unit"@,
    } + "\n"@ + mparams_text(f.params@, pad) + pad + "  block entry\n"@ + mstmts_dump(
        f.body@,
        indented(indented(pad)),
        0,
    ).0
}

pub open spec fn mfunctions_text(fs: Seq<MirFunction>) -> Seq<char>
    decreases fs.len(),
{
    if fs.len() == 0 {
        Seq::empty()
    } else {
        mfunctions_text(fs.drop_last()) + mfunction_text(fs.last(), "  "@)
    }
}

/// A variant in an enum line: its name, and its payload type in brackets.
pub open spec fn mvariant_text(v: MirEnumVariant) -> Seq<char> {
    match v.payload_type {
        Some(t) => v.name@ + "("@ + t@ + ")"@,
        None => v.name@,
    }
}

/// The variants of an enum line, separated by commas.
pub open spec fn mvariants_text(vs: Seq<MirEnumVariant>) -> Seq<char>
    decreases vs.len(),
{
    if vs.len() == 0 {
        Seq::empty()
    } else if vs.len() == 1 {
        mvariant_text(vs[0])
    } else {
        mvariants_text(vs.drop_last()) + ","@ + mvariant_text(vs.last())
    }
}

pub open spec fn menums_text(es: Seq<MirEnum>) -> Seq<char>
    decreases es.len(),
{
    if es.len() == 0 {
        Seq::empty()
    } else {
        menums_text(es.drop_last()) + "  enum "@ + es.last().name@ + " variants="@ + mvariants_text(
            es.last().variants@,
        ) + "\n"@
    }
}

/// The dump of a lowered program.
pub open spec fn program_text(p: Program) -> Seq<char> {
    "MirModule\n"@ + menums_text(p.enums@) + mfunctions_text(p.functions@)
}

// ---------------------------------------------------------------------------

pub open spec fn mexpr_size(e: MirExpr) -> nat
    decreases e,
{
    match e {
        MirExpr::Binary { left, right, .. } => 1 + mexpr_size(*left) + mexpr_size(*right),
        MirExpr::Unary { expr, .. } => 1 + mexpr_size(*expr),
        MirExpr::Call { args, .. } => 1 + mexprs_size(args@),
        MirExpr::EnumVariant { payload: Some(p), .. } => 1 + mexpr_size(*p),
        MirExpr::FieldAccess { base, .. } => 1 + mexpr_size(*base),
        MirExpr::ArrayLiteral { elements } => 1 + mexprs_size(elements@),
        MirExpr::Index { base, index } => 1 + mexpr_size(*base) + mexpr_size(*index),
        _ => 1,
    }
}

pub open spec fn mexprs_size(es: Seq<MirExpr>) -> nat
    decreases es,
{
    if es.len() == 0 {
        0
    } else {
        mexprs_size(es.drop_last()) + mexpr_size(es.last())
    }
}

pub proof fn lemma_mexprs_size_elem(es: Seq<MirExpr>, i: int)
    requires
        0 <= i < es.len(),
    ensures
        mexpr_size(es[i]) <= mexprs_size(es),
    decreases es.len(),
{
    if i < es.len() - 1 {
        lemma_mexprs_size_elem(es.drop_last(), i);
    }
}

pub open spec fn mstmt_size(s: MirStmt) -> nat
    decreases s,
{
    match s {
        MirStmt::If { then_body, else_body, .. } => 1 + mstmts_size(then_body@) + mstmts_size(
            else_body@,
        ),
        MirStmt::While { body, .. } => 1 + mstmts_size(body@),
        MirStmt::Match { arms, .. } => 1 + marms_size(arms@),
        _ => 1,
    }
}

pub open spec fn mstmts_size(ss: Seq<MirStmt>) -> nat
    decreases ss,
{
    if ss.len() == 0 {
        0
    } else {
        mstmts_size(ss.drop_last()) + mstmt_size(ss.last())
    }
}

pub open spec fn marms_size(arms: Seq<MirMatchArm>) -> nat
    decreases arms,
{
    if arms.len() == 0 {
        0
    } else {
        marms_size(arms.drop_last()) + 1 + mstmts_size(arms.last().body@)
    }
}

pub proof fn lemma_mstmts_size_elem(ss: Seq<MirStmt>, i: int)
    requires
        0 <= i < ss.len(),
    ensures
        mstmt_size(ss[i]) <= mstmts_size(ss),
    decreases ss.len(),
{
    if i < ss.len() - 1 {
        lemma_mstmts_size_elem(ss.drop_last(), i);
    }
}

pub proof fn lemma_marms_size_elem(arms: Seq<MirMatchArm>, i: int)
    requires
        0 <= i < arms.len(),
    ensures
        mstmts_size(arms[i].body@) < marms_size(arms),
    decreases arms.len(),
{
    if i < arms.len() - 1 {
        lemma_marms_size_elem(arms.drop_last(), i);
    }
}

/// Each expression's value gets a temporary numbered after those before it.
pub proof fn lemma_mexpr_dump_allocates(e: MirExpr, pad: Seq<char>, n: nat)
    ensures
        mexpr_dump(e, pad, n).1 > n,
    decreases e,
{
    match e {
        MirExpr::Binary { left, right, .. } => {
            lemma_mexpr_dump_allocates(*left, pad, n);
            lemma_mexpr_dump_allocates(*right, pad, mexpr_dump(*left, pad, n).1);
        },
        MirExpr::Unary { expr, .. } => {
            lemma_mexpr_dump_allocates(*expr, pad, n);
        },
        MirExpr::Call { args, .. } => {
            lemma_mexprs_dump_allocates(args@, pad, n);
        },
        MirExpr::EnumVariant { payload: Some(p), .. } => {
            lemma_mexpr_dump_allocates(*p, pad, n);
        },
        MirExpr::FieldAccess { base, .. } => {
            lemma_mexpr_dump_allocates(*base, pad, n);
        },
        MirExpr::ArrayLiteral { elements } => {
            lemma_mexprs_dump_allocates(elements@, pad, n);
        },
        MirExpr::Index { base, index } => {
            lemma_mexpr_dump_allocates(*base, pad, n);
            lemma_mexpr_dump_allocates(*index, pad, mexpr_dump(*base, pad, n).1);
        },
        _ => {},
    }
}

pub proof fn lemma_mexprs_dump_allocates(es: Seq<MirExpr>, pad: Seq<char>, n: nat)
    ensures
        mexprs_dump(es, pad, n).1 >= n,
    decreases es,
{
    if es.len() > 0 {
        lemma_mexprs_dump_allocates(es.drop_last(), pad, n);
        lemma_mexpr_dump_allocates(es.last(), pad, mexprs_dump(es.drop_last(), pad, n).1);
    }
}

/// The numbering of temporaries within one function.
struct DumpCtx {
    next_digits: Vec<char>,
    next_temp: Ghost<nat>,
}

impl DumpCtx {
    spec fn wf(&self) -> bool {
        self.next_digits@ == decimal(self.next_temp@)
    }

    spec fn count(&self) -> nat {
        self.next_temp@
    }

    fn new() -> (c: Self)
        ensures
            c.wf(),
            c.count() == 0,
    {
        let mut d: Vec<char> = Vec::new();
        d.push('0');
        assert(d@ =~= decimal(0));
        DumpCtx { next_digits: d, next_temp: Ghost(0) }
    }

    /// A fresh temporary.
    fn temp(&mut self) -> (t: String)
        requires
            old(self).wf(),
        ensures
            final(self).wf(),
            final(self).count() == old(self).count() + 1,
            t@ == temp_name(old(self).count()),
    {
        let mut t = String::new();
        push_str(&mut t, "_t");
        push_chars(&mut t, &self.next_digits);
        proof {
            lemma_inc_decimal(self.next_temp@);
        }
        increment_digits(&mut self.next_digits);
        self.next_temp = Ghost(self.next_temp@ + 1);
        assert(t@ =~= temp_name(old(self).count()));
        t
    }

    /// Appends `pad`, a fresh temporary, `kind`, `value` and a newline.
    fn dump_leaf(&mut self, pad: &str, kind: &str, value: &str, out: &mut String) -> (t: String)
        requires
            old(self).wf(),
        ensures
            final(self).wf(),
            final(self).count() == old(self).count() + 1,
            final(out)@ == old(out)@ + (pad@ + temp_name(old(self).count()) + kind@ + value@ + "\n"@),
            t@ == temp_name(old(self).count()),
    {
        let t = self.temp();
        push_str(out, pad);
        push_str(out, t.as_str());
        push_str(out, kind);
        push_str(out, value);
        push_str(out, "\n");
        assert(final(out)@ =~= old(out)@ + (pad@ + t@ + kind@ + value@ + "\n"@));
        t
    }

    fn dump_binary(
        &mut self,
        op: BinaryOp,
        left: &MirExpr,
        right: &MirExpr,
        pad: &str,
        out: &mut String,
    ) -> (t: String)
        requires
            old(self).wf(),
        ensures
            final(self).wf(),
            ({
                let e = MirExpr::Binary { op, left: Box::new(*left), right: Box::new(*right) };
                &&& final(out)@ == old(out)@ + mexpr_dump(e, pad@, old(self).count()).0
                &&& final(self).count() == mexpr_dump(e, pad@, old(self).count()).1
            }),
            t@ == temp_name((final(self).count() - 1) as nat),
        decreases mexpr_size(*left) + mexpr_size(*right) + 1, 0nat,
    {
        let ghost n = self.count();
        let ghost e = MirExpr::Binary { op, left: Box::new(*left), right: Box::new(*right) };
        let lt = self.dump_expr(left, pad, out);
        let rt = self.dump_expr(right, pad, out);
        let t = self.temp();
        let ghost mid = out@;
        push_str(out, pad);
        push_str(out, t.as_str());
        push_str(out, " = binary ");
        push_str(out, op.as_str());
        push_str(out, " ");
        push_str(out, lt.as_str());
        push_str(out, ", ");
        push_str(out, rt.as_str());
        push_str(out, "\n");
        assert(final(out)@ =~= old(out)@ + mexpr_dump(e, pad@, n).0);
        t
    }

    fn dump_unary(&mut self, op: UnaryOp, operand: &MirExpr, pad: &str, out: &mut String) -> (t: String)
        requires
            old(self).wf(),
        ensures
            final(self).wf(),
            ({
                let e = MirExpr::Unary { op, expr: Box::new(*operand) };
                &&& final(out)@ == old(out)@ + mexpr_dump(e, pad@, old(self).count()).0
                &&& final(self).count() == mexpr_dump(e, pad@, old(self).count()).1
            }),
            t@ == temp_name((final(self).count() - 1) as nat),
        decreases mexpr_size(*operand) + 1, 0nat,
    {
        let ghost n = self.count();
        let ghost e = MirExpr::Unary { op, expr: Box::new(*operand) };
        let xt = self.dump_expr(operand, pad, out);
        let t = self.temp();
        push_str(out, pad);
        push_str(out, t.as_str());
        push_str(out, " = unary ");
        push_str(out, op.as_str());
        push_str(out, " ");
        push_str(out, xt.as_str());
        push_str(out, "\n");
        assert(final(out)@ =~= old(out)@ + mexpr_dump(e, pad@, n).0);
        t
    }

    fn dump_call(&mut self, callee: &String, args: &Vec<MirExpr>, pad: &str, out: &mut String) -> (t:
        String)
        requires
            old(self).wf(),
        ensures
            final(self).wf(),
            ({
                let e = MirExpr::Call { callee: *callee, args: *args };
                &&& final(out)@ == old(out)@ + mexpr_dump(e, pad@, old(self).count()).0
                &&& final(self).count() == mexpr_dump(e, pad@, old(self).count()).1
            }),
            t@ == temp_name((final(self).count() - 1) as nat),
        decreases mexprs_size(args@) + 1, 0nat,
    {
        let ghost n = self.count();
        let ghost e = MirExpr::Call { callee: *callee, args: *args };
        let temps = self.dump_args(args, pad, out);
        let t = self.temp();
        push_str(out, pad);
        push_str(out, t.as_str());
        push_str(out, " = call ");
        push_str(out, callee.as_str());
        push_str(out, "(");
        push_comma_joined(out, &temps);
        push_str(out, ")\n");
        assert(final(out)@ =~= old(out)@ + mexpr_dump(e, pad@, n).0);
        t
    }

    fn dump_enum_variant(
        &mut self,
        enum_name: &String,
        variant: &String,
        payload: &MirExpr,
        pad: &str,
        out: &mut String,
    ) -> (t: String)
        requires
            old(self).wf(),
        ensures
            final(self).wf(),
            ({
                let e = MirExpr::EnumVariant {
                    enum_name: *enum_name,
                    variant: *variant,
                    payload: Some(Box::new(*payload)),
                };
                &&& final(out)@ == old(out)@ + mexpr_dump(e, pad@, old(self).count()).0
                &&& final(self).count() == mexpr_dump(e, pad@, old(self).count()).1
            }),
            t@ == temp_name((final(self).count() - 1) as nat),
        decreases mexpr_size(*payload) + 1, 0nat,
    {
        let ghost n = self.count();
        let ghost e = MirExpr::EnumVariant {
            enum_name: *enum_name,
            variant: *variant,
            payload: Some(Box::new(*payload)),
        };
        let pt = self.dump_expr(payload, pad, out);
        let t = self.temp();
        push_str(out, pad);
        push_str(out, t.as_str());
        push_str(out, " = enum ");
        push_str(out, enum_name.as_str());
        push_str(out, ".");
        push_str(out, variant.as_str());
        push_str(out, "(");
        push_str(out, pt.as_str());
        push_str(out, ")\n");
        assert(final(out)@ =~= old(out)@ + mexpr_dump(e, pad@, n).0);
        t
    }

    fn dump_expr(&mut self, expr: &MirExpr, pad: &str, out: &mut String) -> (t: String)
        requires
            old(self).wf(),
        ensures
            final(self).wf(),
            final(out)@ == old(out)@ + mexpr_dump(*expr, pad@, old(self).count()).0,
            final(self).count() == mexpr_dump(*expr, pad@, old(self).count()).1,
            final(self).count() > 0,
            t@ == temp_name((final(self).count() - 1) as nat),
        decreases mexpr_size(*expr), 1nat,
    {
        proof {
            lemma_mexpr_dump_allocates(*expr, pad@, self.count());
        }
        match expr {
            MirExpr::Load(name) => self.dump_leaf(pad, " = load ", name.as_str(), out),
            MirExpr::Int(v) => self.dump_leaf(pad, " = const Int ", v.as_str(), out),
            MirExpr::String(v) => {
                let q = debug_string(v.as_str());
                self.dump_leaf(pad, " = const String ", q.as_str(), out)
            },
            MirExpr::Bool(b) => {
                let text = if *b { "true" } else { "false" };
                proof {
                    reveal_strlit("true");
                    reveal_strlit("false");
                }
                assert(text@ == bool_text(*b));
                self.dump_leaf(pad, " = const Bool ", text, out)
            },
            MirExpr::Binary { op, left, right } => self.dump_binary(*op, left, right, pad, out),
            MirExpr::Unary { op, expr: operand } => self.dump_unary(*op, operand, pad, out),
            MirExpr::Call { callee, args } => self.dump_call(callee, args, pad, out),
            MirExpr::EnumVariant { enum_name, variant, payload } => match payload {
                Some(p) => self.dump_enum_variant(enum_name, variant, p, pad, out),
                None => {
                    let ghost n = self.count();
                    let text = crate::text::concat3(enum_name.as_str(), ".", variant.as_str());
                    let t = self.dump_leaf(pad, " = enum ", text.as_str(), out);
                    assert(final(out)@ =~= old(out)@ + mexpr_dump(*expr, pad@, n).0);
                    t
                },
            },
            MirExpr::FieldAccess { base, field } => self.dump_field(base, field, pad, out),
            MirExpr::ArrayLiteral { elements } => self.dump_array(elements, pad, out),
            MirExpr::Index { base, index } => self.dump_index(base, index, pad, out),
        }
    }

    fn dump_field(&mut self, base: &MirExpr, field: &String, pad: &str, out: &mut String) -> (t: String)
        requires
            old(self).wf(),
        ensures
            final(self).wf(),
            ({
                let e = MirExpr::FieldAccess { base: Box::new(*base), field: *field };
                &&& final(out)@ == old(out)@ + mexpr_dump(e, pad@, old(self).count()).0
                &&& final(self).count() == mexpr_dump(e, pad@, old(self).count()).1
            }),
            t@ == temp_name((final(self).count() - 1) as nat),
        decreases mexpr_size(*base) + 1, 0nat,
    {
        let ghost n = self.count();
        let ghost e = MirExpr::FieldAccess { base: Box::new(*base), field: *field };
        let bt = self.dump_expr(base, pad, out);
        let t = self.temp();
        push_str(out, pad);
        push_str(out, t.as_str());
        push_str(out, " = field ");
        push_str(out, bt.as_str());
        push_str(out, ".");
        push_str(out, field.as_str());
        push_str(out, "\n");
        assert(final(out)@ =~= old(out)@ + mexpr_dump(e, pad@, n).0);
        t
    }

    fn dump_array(&mut self, elements: &Vec<MirExpr>, pad: &str, out: &mut String) -> (t: String)
        requires
            old(self).wf(),
        ensures
            final(self).wf(),
            ({
                let e = MirExpr::ArrayLiteral { elements: *elements };
                &&& final(out)@ == old(out)@ + mexpr_dump(e, pad@, old(self).count()).0
                &&& final(self).count() == mexpr_dump(e, pad@, old(self).count()).1
            }),
            t@ == temp_name((final(self).count() - 1) as nat),
        decreases mexprs_size(elements@) + 1, 0nat,
    {
        let ghost n = self.count();
        let ghost e = MirExpr::ArrayLiteral { elements: *elements };
        let temps = self.dump_args(elements, pad, out);
        let t = self.temp();
        push_str(out, pad);
        push_str(out, t.as_str());
        push_str(out, " = array [");
        push_comma_joined(out, &temps);
        push_str(out, "]\n");
        assert(final(out)@ =~= old(out)@ + mexpr_dump(e, pad@, n).0);
        t
    }

    fn dump_index(&mut self, base: &MirExpr, index: &MirExpr, pad: &str, out: &mut String) -> (t: String)
        requires
            old(self).wf(),
        ensures
            final(self).wf(),
            ({
                let e = MirExpr::Index { base: Box::new(*base), index: Box::new(*index) };
                &&& final(out)@ == old(out)@ + mexpr_dump(e, pad@, old(self).count()).0
                &&& final(self).count() == mexpr_dump(e, pad@, old(self).count()).1
            }),
            t@ == temp_name((final(self).count() - 1) as nat),
        decreases mexpr_size(*base) + mexpr_size(*index) + 1, 0nat,
    {
        let ghost n = self.count();
        let ghost e = MirExpr::Index { base: Box::new(*base), index: Box::new(*index) };
        let bt = self.dump_expr(base, pad, out);
        let it = self.dump_expr(index, pad, out);
        let t = self.temp();
        push_str(out, pad);
        push_str(out, t.as_str());
        push_str(out, " = index ");
        push_str(out, bt.as_str());
        push_str(out, "[");
        push_str(out, it.as_str());
        push_str(out, "]\n");
        assert(final(out)@ =~= old(out)@ + mexpr_dump(e, pad@, n).0);
        t
    }

    /// Computes each argument in turn; the temporaries holding their values.
    fn dump_args(&mut self, args: &Vec<MirExpr>, pad: &str, out: &mut String) -> (temps: Vec<String>)
        requires
            old(self).wf(),
        ensures
            final(self).wf(),
            final(out)@ == old(out)@ + mexprs_dump(args@, pad@, old(self).count()).0,
            final(self).count() == mexprs_dump(args@, pad@, old(self).count()).1,
            strings_view(temps@) == mexprs_dump(args@, pad@, old(self).count()).2,
        decreases mexprs_size(args@), 2nat,
    {
        let ghost n = self.count();
        let mut temps: Vec<String> = Vec::new();
        let mut i: usize = 0;
        while i < args.len()
            invariant
                i <= args@.len(),
                self.wf(),
                ({
                    let (at, n1, ts) = mexprs_dump(args@.subrange(0, i as int), pad@, n);
                    &&& out@ == old(out)@ + at
                    &&& self.count() == n1
                    &&& strings_view(temps@) == ts
                }),
            decreases args.len() - i,
        {
            proof {
                lemma_mexprs_size_elem(args@, i as int);
                let sub = args@.subrange(0, i as int + 1);
                assert(sub.drop_last() =~= args@.subrange(0, i as int));
            }
            let ghost prev = temps@;
            let at = self.dump_expr(&args[i], pad, out);
            temps.push(at);
            assert(strings_view(temps@) =~= strings_view(prev).push(at@));
            i = i + 1;
        }
        assert(args@.subrange(0, args@.len() as int) =~= args@);
        temps
    }
}

/// Appends the texts joined with `, `.
fn push_comma_joined(out: &mut String, ts: &Vec<String>)
    ensures
        final(out)@ == old(out)@ + comma_joined(strings_view(ts@)),
{
    let ghost tv = strings_view(ts@);
    let mut j: usize = 0;
    while j < ts.len()
        invariant
            j <= ts@.len(),
            tv == strings_view(ts@),
            out@ == old(out)@ + comma_joined(tv.subrange(0, j as int)),
        decreases ts.len() - j,
    {
        if j > 0 {
            push_str(out, ", ");
        }
        push_str(out, ts[j].as_str());
        proof {
            let sub = tv.subrange(0, j as int + 1);
            assert(sub.drop_last() =~= tv.subrange(0, j as int));
            if j == 0 {
                assert(out@ =~= old(out)@ + comma_joined(sub));
            } else {
                assert(out@ =~= old(out)@ + comma_joined(sub));
            }
        }
        j = j + 1;
    }
    assert(tv.subrange(0, tv.len() as int) =~= tv);
}

/// The text of a MIR pattern.
fn pattern_text(pattern: &MirPattern) -> (t: String)
    ensures
        t@ == mpattern_text(*pattern),
{
    let mut t = String::new();
    match pattern {
        MirPattern::Name(n) => {
            push_str(&mut t, "name:");
            push_str(&mut t, n.as_str());
        },
        MirPattern::Variant { enum_name, variant, binding } => {
            push_str(&mut t, "variant:");
            push_str(&mut t, enum_name.as_str());
            push_str(&mut t, ".");
            push_str(&mut t, variant.as_str());
            match binding {
                Some(b) => {
                    push_str(&mut t, "(");
                    push_str(&mut t, b.as_str());
                    push_str(&mut t, ")");
                },
                None => {},
            }
        },
        MirPattern::Int(v) => {
            push_str(&mut t, "int:");
            push_str(&mut t, v.as_str());
        },
        MirPattern::String(v) => {
            push_str(&mut t, "string:");
            let q = debug_string(v.as_str());
            push_str(&mut t, q.as_str());
        },
        MirPattern::Bool(b) => {
            push_str(&mut t, "bool:");
            push_bool(&mut t, *b);
        },
        MirPattern::Wildcard => {
            push_str(&mut t, "_");
        },
    }
    assert(t@ =~= mpattern_text(*pattern));
    t
}

/// The first line of a local's declaration, after its indentation.
fn local_header_text(mutable: bool, name: &String, ty: &Option<String>) -> (h: String)
    ensures
        h@ == local_header(name@, *ty, mutable),
{
    let mut h = String::new();
    push_str(&mut h, "local ");
    push_str(&mut h, name.as_str());
    push_str(&mut h, ": ");
    match ty {
        Some(t) => push_str(&mut h, t.as_str()),
        None => push_str(&mut h, "<inferred>"),
    }
    push_str(&mut h, " mutability=");
    if mutable {
        push_str(&mut h, "mutable");
    } else {
        push_str(&mut h, "immutable");
    }
    push_str(&mut h, "\n");
    assert(h@ =~= local_header(name@, *ty, mutable));
    h
}

impl DumpCtx {
    fn dump_stmts(&mut self, stmts: &Vec<MirStmt>, pad: &str, out: &mut String)
        requires
            old(self).wf(),
        ensures
            final(self).wf(),
            final(out)@ == old(out)@ + mstmts_dump(stmts@, pad@, old(self).count()).0,
            final(self).count() == mstmts_dump(stmts@, pad@, old(self).count()).1,
        decreases mstmts_size(stmts@), 2nat,
    {
        let ghost n = self.count();
        let mut i: usize = 0;
        while i < stmts.len()
            invariant
                i <= stmts@.len(),
                self.wf(),
                out@ == old(out)@ + mstmts_dump(stmts@.subrange(0, i as int), pad@, n).0,
                self.count() == mstmts_dump(stmts@.subrange(0, i as int), pad@, n).1,
            decreases stmts.len() - i,
        {
            proof {
                lemma_mstmts_size_elem(stmts@, i as int);
                let sub = stmts@.subrange(0, i as int + 1);
                assert(sub.drop_last() =~= stmts@.subrange(0, i as int));
            }
            self.dump_stmt(&stmts[i], pad, out);
            i = i + 1;
        }
        assert(stmts@.subrange(0, stmts@.len() as int) =~= stmts@);
    }

    fn dump_arms(&mut self, arms: &Vec<MirMatchArm>, pad: &str, inner2: &str, out: &mut String)
        requires
            old(self).wf(),
            inner2@ == indented(indented(pad@)),
        ensures
            final(self).wf(),
            final(out)@ == old(out)@ + marms_dump(arms@, pad@, old(self).count()).0,
            final(self).count() == marms_dump(arms@, pad@, old(self).count()).1,
        decreases marms_size(arms@), 3nat,
    {
        let ghost n = self.count();
        let mut i: usize = 0;
        while i < arms.len()
            invariant
                i <= arms@.len(),
                self.wf(),
                inner2@ == indented(indented(pad@)),
                out@ == old(out)@ + marms_dump(arms@.subrange(0, i as int), pad@, n).0,
                self.count() == marms_dump(arms@.subrange(0, i as int), pad@, n).1,
            decreases arms.len() - i,
        {
            proof {
                lemma_marms_size_elem(arms@, i as int);
                let sub = arms@.subrange(0, i as int + 1);
                assert(sub.drop_last() =~= arms@.subrange(0, i as int));
            }
            let ghost before = out@;
            push_str(out, pad);
            push_str(out, "  arm ");
            let pt = pattern_text(&arms[i].pattern);
            push_str(out, pt.as_str());
            push_str(out, "\n");
            self.dump_stmts(&arms[i].body, inner2, out);
            proof {
                let sub = arms@.subrange(0, i as int + 1);
                assert(out@ =~= old(out)@ + marms_dump(sub, pad@, n).0);
            }
            i = i + 1;
        }
        assert(arms@.subrange(0, arms@.len() as int) =~= arms@);
    }

    fn dump_local(
        &mut self,
        mutable: bool,
        name: &String,
        ty: &Option<String>,
        value: &MirExpr,
        pad: &str,
        out: &mut String,
    )
        requires
            old(self).wf(),
        ensures
            final(self).wf(),
            ({
                let s = MirStmt::Local { mutable, name: *name, ty: *ty, value: *value };
                &&& final(out)@ == old(out)@ + mstmt_dump(s, pad@, old(self).count()).0
                &&& final(self).count() == mstmt_dump(s, pad@, old(self).count()).1
            }),
    {
        let ghost n = self.count();
        let ghost s = MirStmt::Local { mutable, name: *name, ty: *ty, value: *value };
        push_str(out, pad);
        let header = local_header_text(mutable, name, ty);
        push_str(out, header.as_str());
        let vt = self.dump_expr(value, pad, out);
        push_str(out, pad);
        push_str(out, "store ");
        push_str(out, name.as_str());
        push_str(out, ", ");
        push_str(out, vt.as_str());
        push_str(out, "\n");
        assert(final(out)@ =~= old(out)@ + mstmt_dump(s, pad@, n).0);
    }

    /// Computes `value`, then appends `pad`, `head`, its temporary and a newline.
    fn dump_value_line(&mut self, value: &MirExpr, pad: &str, head: &str, out: &mut String)
        requires
            old(self).wf(),
        ensures
            final(self).wf(),
            ({
                let (vt, n1) = mexpr_dump(*value, pad@, old(self).count());
                &&& final(out)@ == old(out)@ + (vt + pad@ + head@ + temp_name((n1 - 1) as nat) + "\n"@)
                &&& final(self).count() == n1
            }),
    {
        let ghost n = self.count();
        let vt = self.dump_expr(value, pad, out);
        push_str(out, pad);
        push_str(out, head);
        push_str(out, vt.as_str());
        push_str(out, "\n");
        let ghost d = mexpr_dump(*value, pad@, n);
        assert(final(out)@ =~= old(out)@ + (d.0 + pad@ + head@ + temp_name((d.1 - 1) as nat) + "\n"@));
    }

    fn dump_if(
        &mut self,
        condition: &MirExpr,
        then_body: &Vec<MirStmt>,
        else_body: &Vec<MirStmt>,
        pad: &str,
        out: &mut String,
    )
        requires
            old(self).wf(),
        ensures
            final(self).wf(),
            ({
                let s = MirStmt::If { condition: *condition, then_body: *then_body, else_body: *else_body };
                &&& final(out)@ == old(out)@ + mstmt_dump(s, pad@, old(self).count()).0
                &&& final(self).count() == mstmt_dump(s, pad@, old(self).count()).1
            }),
        decreases mstmts_size(then_body@) + mstmts_size(else_body@) + 1, 0nat,
    {
        let ghost n = self.count();
        let ghost s = MirStmt::If { condition: *condition, then_body: *then_body, else_body: *else_body };
        let inner = indent_more(pad);
        let inner2 = indent_more(inner.as_str());
        let ghost a0 = out@;
        let ct = self.dump_expr(condition, pad, out);
        let ghost (ctext, n1) = mexpr_dump(*condition, pad@, n);
        push_str(out, pad);
        push_str(out, "if ");
        push_str(out, ct.as_str());
        push_str(out, "\n");
        push_str(out, pad);
        push_str(out, "  then\n");
        let ghost acc1 = ctext + pad@ + "if "@ + temp_name((n1 - 1) as nat) + "\n"@ + pad@ + "  then\n"@;
        assert(out@ =~= a0 + acc1);
        let ghost before_then = out@;
        self.dump_stmts(then_body, inner2.as_str(), out);
        let ghost (ttext, n2) = mstmts_dump(then_body@, inner2@, n1);
        proof {
            lemma_concat_assoc(a0, acc1, ttext);
        }
        let ghost acc2 = acc1 + ttext;
        let ghost before_else = out@;
        if else_body.len() > 0 {
            push_str(out, pad);
            push_str(out, "  else\n");
            self.dump_stmts(else_body, inner2.as_str(), out);
            assert(out@ =~= before_else + else_part(pad@, true, mstmts_dump(else_body@, inner2@, n2).0));
        } else {
            assert(out@ =~= before_else + else_part(pad@, false, mstmts_dump(else_body@, inner2@, n2).0));
        }
        let ghost ep = else_part(pad@, else_body@.len() > 0, mstmts_dump(else_body@, inner2@, n2).0);
        proof {
            lemma_concat_assoc(a0, acc2, ep);
        }
        let ghost acc3 = acc2 + ep;
        let ghost before_end = out@;
        push_str(out, pad);
        push_str(out, "end_if\n");
        proof {
            assert(out@ =~= before_end + (pad@ + "end_if\n"@));
            lemma_concat_assoc(a0, acc3, pad@ + "end_if\n"@);
            assert(acc3 + (pad@ + "end_if\n"@) =~= acc3 + pad@ + "end_if\n"@);
        }
    }

    #[verifier::spinoff_prover]
    #[verifier::rlimit(40)]
    fn dump_while(&mut self, condition: &MirExpr, body: &Vec<MirStmt>, pad: &str, out: &mut String)
        requires
            old(self).wf(),
        ensures
            final(self).wf(),
            ({
                let s = MirStmt::While { condition: *condition, body: *body };
                &&& final(out)@ == old(out)@ + mstmt_dump(s, pad@, old(self).count()).0
                &&& final(self).count() == mstmt_dump(s, pad@, old(self).count()).1
            }),
        decreases mstmts_size(body@) + 1, 0nat,
    {
        let ghost n = self.count();
        let ghost s = MirStmt::While { condition: *condition, body: *body };
        let inner = indent_more(pad);
        push_str(out, pad);
        push_str(out, "loop\n");
        let ghost o1 = out@;
        let ct = self.dump_expr(condition, inner.as_str(), out);
        let ghost o2 = out@;
        push_str(out, pad);
        push_str(out, "  break_unless ");
        push_str(out, ct.as_str());
        push_str(out, "\n");
        let ghost o3 = out@;
        self.dump_stmts(body, inner.as_str(), out);
        let ghost o4 = out@;
        push_str(out, pad);
        push_str(out, "end_loop\n");
        proof {
            let (ctx, n1) = mexpr_dump(*condition, inner@, n);
            let (bt, n2) = mstmts_dump(body@, inner@, n1);
            let head = pad@ + "loop\n"@;
            let mid = pad@ + "  break_unless "@ + temp_name((n1 - 1) as nat) + "\n"@;
            let tail = pad@ + "end_loop\n"@;
            assert(o1 =~= old(out)@ + head);
            assert(o2 == o1 + ctx);
            assert(o3 =~= o2 + mid);
            assert(o4 == o3 + bt);
            assert(out@ =~= o4 + tail);
            assert(mstmt_dump(s, pad@, n).0 =~= head + ctx + mid + bt + tail);
            assert(out@ =~= old(out)@ + (head + ctx + mid + bt + tail));
        }
    }

    fn dump_match(&mut self, value: &MirExpr, arms: &Vec<MirMatchArm>, pad: &str, out: &mut String)
        requires
            old(self).wf(),
        ensures
            final(self).wf(),
            ({
                let s = MirStmt::Match { value: *value, arms: *arms };
                &&& final(out)@ == old(out)@ + mstmt_dump(s, pad@, old(self).count()).0
                &&& final(self).count() == mstmt_dump(s, pad@, old(self).count()).1
            }),
        decreases marms_size(arms@) + 1, 0nat,
    {
        let ghost n = self.count();
        let ghost s = MirStmt::Match { value: *value, arms: *arms };
        let inner = indent_more(pad);
        let inner2 = indent_more(inner.as_str());
        let vt = self.dump_expr(value, pad, out);
        push_str(out, pad);
        push_str(out, "match ");
        push_str(out, vt.as_str());
        push_str(out, "\n");
        self.dump_arms(arms, pad, inner2.as_str(), out);
        push_str(out, pad);
        push_str(out, "end_match\n");
        assert(final(out)@ =~= old(out)@ + mstmt_dump(s, pad@, n).0);
    }

    fn dump_stmt(&mut self, stmt: &MirStmt, pad: &str, out: &mut String)
        requires
            old(self).wf(),
        ensures
            final(self).wf(),
            final(out)@ == old(out)@ + mstmt_dump(*stmt, pad@, old(self).count()).0,
            final(self).count() == mstmt_dump(*stmt, pad@, old(self).count()).1,
        decreases mstmt_size(*stmt), 1nat,
    {
        let ghost n = self.count();
        match stmt {
            MirStmt::Local { mutable, name, ty, value } => {
                self.dump_local(*mutable, name, ty, value, pad, out);
            },
            MirStmt::Store { place: MirPlace::Local(name), value } => {
                let head = crate::text::concat3("store ", name.as_str(), ", ");
                self.dump_value_line(value, pad, head.as_str(), out);
                assert(final(out)@ =~= old(out)@ + mstmt_dump(*stmt, pad@, n).0);
            },
            MirStmt::If { condition, then_body, else_body } => {
                self.dump_if(condition, then_body, else_body, pad, out);
            },
            MirStmt::While { condition, body } => {
                self.dump_while(condition, body, pad, out);
            },
            MirStmt::Match { value, arms } => {
                self.dump_match(value, arms, pad, out);
            },
            MirStmt::Return(Some(value)) => {
                self.dump_value_line(value, pad, "return ", out);
            },
            MirStmt::Return(None) => {
                push_str(out, pad);
                push_str(out, "return Unit\n");
                assert(final(out)@ =~= old(out)@ + mstmt_dump(*stmt, pad@, n).0);
            },
            MirStmt::Drop(value) => {
                self.dump_value_line(value, pad, "drop ", out);
            },
        }
    }
}

/// Appends the dump of a function at `pad`.
fn dump_function(function: &MirFunction, pad: &str, out: &mut String)
    ensures
        final(out)@ == old(out)@ + mfunction_text(*function, pad@),
{
    push_str(out, pad);
    push_str(out, "fn ");
    push_str(out, function.name.as_str());
    push_str(out, " -> ");
    match &function.return_type {
        Some(t) => push_str(out, t.as_str()),
        None => push_str(out, "Unit"),
    }
    push_str(out, "\n");
    let ghost head = out@;
    let params = &function.params;
    let mut i: usize = 0;
    while i < params.len()
        invariant
            i <= params@.len(),
            params == &function.params,
            out@ == head + mparams_text(params@.subrange(0, i as int), pad@),
        decreases params.len() - i,
    {
        push_str(out, pad);
        push_str(out, "  param ");
        push_str(out, params[i].name.as_str());
        push_str(out, ": ");
        push_str(out, params[i].ty.as_str());
        push_str(out, "\n");
        proof {
            let sub = params@.subrange(0, i as int + 1);
            assert(sub.drop_last() =~= params@.subrange(0, i as int));
            assert(out@ =~= head + mparams_text(sub, pad@));
        }
        i = i + 1;
    }
    assert(params@.subrange(0, params@.len() as int) =~= params@);
    push_str(out, pad);
    push_str(out, "  block entry\n");
    let inner = indent_more(pad);
    let inner2 = indent_more(inner.as_str());
    let mut ctx = DumpCtx::new();
    ctx.dump_stmts(&function.body, inner2.as_str(), out);
    assert(final(out)@ =~= old(out)@ + mfunction_text(*function, pad@));
}

/// The text of an enum's variants, separated by commas.
fn push_variants(out: &mut String, vs: &Vec<MirEnumVariant>)
    ensures
        final(out)@ == old(out)@ + mvariants_text(vs@),
{
    let mut i: usize = 0;
    while i < vs.len()
        invariant
            i <= vs@.len(),
            out@ == old(out)@ + mvariants_text(vs@.subrange(0, i as int)),
        decreases vs.len() - i,
    {
        if i > 0 {
            push_str(out, ",");
        }
        push_str(out, vs[i].name.as_str());
        match &vs[i].payload_type {
            Some(t) => {
                push_str(out, "(");
                push_str(out, t.as_str());
                push_str(out, ")");
            },
            None => {},
        }
        proof {
            let sub = vs@.subrange(0, i as int + 1);
            assert(sub.drop_last() =~= vs@.subrange(0, i as int));
            assert(out@ =~= old(out)@ + mvariants_text(sub));
        }
        i = i + 1;
    }
    assert(vs@.subrange(0, vs@.len() as int) =~= vs@);
}

/// The text form of a lowered program.
pub fn dump_program(program: &Program) -> (s: String)
    ensures
        s@ == program_text(*program),
{
    let mut out = String::new();
    push_str(&mut out, "MirModule\n");
    let enums = &program.enums;
    let mut i: usize = 0;
    while i < enums.len()
        invariant
            i <= enums@.len(),
            enums == &program.enums,
            out@ == "MirModule\n"@ + menums_text(enums@.subrange(0, i as int)),
        decreases enums.len() - i,
    {
        push_str(&mut out, "  enum ");
        push_str(&mut out, enums[i].name.as_str());
        push_str(&mut out, " variants=");
        push_variants(&mut out, &enums[i].variants);
        push_str(&mut out, "\n");
        proof {
            let sub = enums@.subrange(0, i as int + 1);
            assert(sub.drop_last() =~= enums@.subrange(0, i as int));
            assert(out@ =~= "MirModule\n"@ + menums_text(sub));
        }
        i = i + 1;
    }
    assert(enums@.subrange(0, enums@.len() as int) =~= enums@);
    let ghost head = out@;
    let functions = &program.functions;
    let mut j: usize = 0;
    while j < functions.len()
        invariant
            j <= functions@.len(),
            functions == &program.functions,
            out@ == head + mfunctions_text(functions@.subrange(0, j as int)),
        decreases functions.len() - j,
    {
        dump_function(&functions[j], "  ", &mut out);
        proof {
            let sub = functions@.subrange(0, j as int + 1);
            assert(sub.drop_last() =~= functions@.subrange(0, j as int));
            assert(out@ =~= head + mfunctions_text(sub));
        }
        j = j + 1;
    }
    assert(functions@.subrange(0, functions@.len() as int) =~= functions@);
    assert(out@ =~= program_text(*program));
    out
}

/// The text form of the lowering of `module`.
pub fn dump(module: &Module) -> (s: String)
    ensures
        exists|p: Program| crate::mir::lowered_program(*module, Seq::empty(), p) && s@ == program_text(p),
{
    let p = lower(module);
    dump_program(&p)
}

} // verus!
