//! Expressions and actions in source form.

use vstd::prelude::*;

use crate::logic::{Action, BinOp, Expr, ExprArena, FrozenInterner, HttpMethod, OwnedExpr, Value};
use crate::text::{join2, join3, join_strings, joined, text_views};

verus! {

/// How an operator is written.
pub open spec fn operator_text(op: BinOp) -> Seq<char> {
    match op {
        BinOp::Add => "+"@,
        BinOp::Sub => "-"@,
        BinOp::Mul => "*"@,
        BinOp::Div => "/"@,
        BinOp::Eq => "=="@,
        BinOp::Ne => "!="@,
        BinOp::Lt => "<"@,
        BinOp::Gt => ">"@,
        BinOp::Le => "<="@,
        BinOp::Ge => ">="@,
        BinOp::And => "&&"@,
        BinOp::Or => "||"@,
    }
}

/// How a value is printed on its own.
pub open spec fn value_text(v: Value) -> Seq<char> {
    match v {
        Value::String(s) => s@,
        Value::Bool(b) => if b {
            "true"@
        } else {
            "false"@
        },
        Value::Null => "null"@,
        Value::Other(s) => s@,
    }
}

/// Whether all that `e` is made of is there, within depth `n`.
pub open spec fn complete(e: Expr, a: ExprArena, n: nat) -> bool
    decreases n, 0int,
{
    n > 0 && {
        let m = (n - 1) as nat;
        match e {
            Expr::Literal(_) | Expr::Variable(_) => true,
            Expr::BinaryOp { left, op, right } => part_complete(left, a, m) && part_complete(
                right,
                a,
                m,
            ),
            Expr::FunctionCall { name, args_start, args_len } => args_start + args_len
                <= a.args@.len() && forall|k: int|
                0 <= k < args_len ==> part_complete(#[trigger] a.args@[args_start + k], a, m),
            Expr::Let { name, value, body } => part_complete(value, a, m) && part_complete(
                body,
                a,
                m,
            ),
            Expr::Not(inner) => part_complete(inner, a, m),
            Expr::IfElse { condition, then_expr, else_expr } => part_complete(condition, a, m)
                && part_complete(then_expr, a, m) && part_complete(else_expr, a, m),
            Expr::FieldAccess { base, field } => part_complete(base, a, m),
        }
    }
}

/// Whether node `i` is there, and all that it is made of within depth `n`.
pub open spec fn part_complete(i: usize, a: ExprArena, n: nat) -> bool
    decreases n, 1int,
{
    i < a.nodes@.len() && complete(a.nodes@[i as int], a, n)
}

/// The source form of `e`, written out to depth `n`.
pub open spec fn source(e: Expr, a: ExprArena, names: FrozenInterner, n: nat) -> Seq<char>
    decreases n, 0int,
{
    if n == 0 {
        Seq::empty()
    } else {
        let m = (n - 1) as nat;
        match e {
            Expr::Literal(v) => match v {
                Value::String(s) => "\""@ + s@ + "\""@,
                _ => value_text(v),
            },
            Expr::Variable(sym) => names.name_of(sym),
            Expr::BinaryOp { left, op, right } => source(a.nodes@[left as int], a, names, m) + " "@
                + operator_text(op) + " "@ + source(a.nodes@[right as int], a, names, m),
            Expr::FunctionCall { name, args_start, args_len } => names.name_of(name) + "("@ + joined(
                arg_sources(args_start as int, args_len as nat, a, names, m),
                ", "@,
            ) + ")"@,
            Expr::Let { name, value, body } => names.name_of(name) + " = "@ + source(
                a.nodes@[value as int],
                a,
                names,
                m,
            ) + "; "@ + source(a.nodes@[body as int], a, names, m),
            Expr::Not(inner) => "!"@ + source(a.nodes@[inner as int], a, names, m),
            Expr::IfElse { condition, then_expr, else_expr } => source(
                a.nodes@[condition as int],
                a,
                names,
                m,
            ) + " ? "@ + source(a.nodes@[then_expr as int], a, names, m) + " : "@ + source(
                a.nodes@[else_expr as int],
                a,
                names,
                m,
            ),
            Expr::FieldAccess { base, field } => source(a.nodes@[base as int], a, names, m) + "."@
                + names.name_of(field),
        }
    }
}

/// The source forms of a run of call arguments, written out to depth `n`.
pub open spec fn arg_sources(
    start: int,
    len: nat,
    a: ExprArena,
    names: FrozenInterner,
    n: nat,
) -> Seq<Seq<char>>
    decreases n, 1int,
{
    Seq::new(len, |k: int| source(a.nodes@[a.args@[start + k] as int], a, names, n))
}

/// Whether `e` is a finite expression of the arena.
pub open spec fn finite(e: Expr, a: ExprArena) -> bool {
    exists|n: nat| complete(e, a, n)
}

/// The source form of a finite expression.
pub open spec fn expr_text(e: Expr, a: ExprArena, names: FrozenInterner) -> Seq<char> {
    source(e, a, names, choose|n: nat| complete(e, a, n))
}

/// Whether a stored expression has its root and is finite.
pub open spec fn owned_ok(e: OwnedExpr) -> bool {
    e.root < e.arena.nodes@.len() && finite(e.arena.nodes@[e.root as int], e.arena)
}

/// The source form of a stored expression.
pub open spec fn owned_text(e: OwnedExpr, names: FrozenInterner) -> Seq<char> {
    expr_text(e.arena.nodes@[e.root as int], e.arena, names)
}

/// An expression that is complete within two depths is written the same way
/// to either.
pub proof fn lemma_source_stable(e: Expr, a: ExprArena, names: FrozenInterner, n: nat, m: nat)
    requires
        complete(e, a, n),
        complete(e, a, m),
    ensures
        source(e, a, names, n) == source(e, a, names, m),
    decreases n,
{
    let p = (n - 1) as nat;
    let q = (m - 1) as nat;
    match e {
        Expr::Literal(_) | Expr::Variable(_) => {},
        Expr::BinaryOp { left, op, right } => {
            lemma_source_stable(a.nodes@[left as int], a, names, p, q);
            lemma_source_stable(a.nodes@[right as int], a, names, p, q);
        },
        Expr::FunctionCall { name, args_start, args_len } => {
            assert forall|k: int| 0 <= k < args_len implies source(
                #[trigger] a.nodes@[a.args@[args_start + k] as int],
                a,
                names,
                p,
            ) == source(a.nodes@[a.args@[args_start + k] as int], a, names, q) by {
                assert(part_complete(a.args@[args_start + k], a, p));
                assert(part_complete(a.args@[args_start + k], a, q));
                lemma_source_stable(a.nodes@[a.args@[args_start + k] as int], a, names, p, q);
            }
            assert(arg_sources(args_start as int, args_len as nat, a, names, p) =~= arg_sources(
                args_start as int,
                args_len as nat,
                a,
                names,
                q,
            ));
        },
        Expr::Let { name, value, body } => {
            lemma_source_stable(a.nodes@[value as int], a, names, p, q);
            lemma_source_stable(a.nodes@[body as int], a, names, p, q);
        },
        Expr::Not(inner) => {
            lemma_source_stable(a.nodes@[inner as int], a, names, p, q);
        },
        Expr::IfElse { condition, then_expr, else_expr } => {
            lemma_source_stable(a.nodes@[condition as int], a, names, p, q);
            lemma_source_stable(a.nodes@[then_expr as int], a, names, p, q);
            lemma_source_stable(a.nodes@[else_expr as int], a, names, p, q);
        },
        Expr::FieldAccess { base, field } => {
            lemma_source_stable(a.nodes@[base as int], a, names, p, q);
        },
    }
}

/// How an operator is written.
fn binop_str(op: BinOp) -> (s: &'static str)
    ensures
        s@ == operator_text(op),
{
    match op {
        BinOp::Add => "+",
        BinOp::Sub => "-",
        BinOp::Mul => "*",
        BinOp::Div => "/",
        BinOp::Eq => "==",
        BinOp::Ne => "!=",
        BinOp::Lt => "<",
        BinOp::Gt => ">",
        BinOp::Le => "<=",
        BinOp::Ge => ">=",
        BinOp::And => "&&",
        BinOp::Or => "||",
    }
}

/// How a value is printed on its own.
pub fn value_str(v: &Value) -> (s: &str)
    ensures
        s@ == value_text(*v),
{
    match v {
        Value::String(s) => s.as_str(),
        Value::Bool(b) => if *b {
            "true"
        } else {
            "false"
        },
        Value::Null => "null",
        Value::Other(s) => s.as_str(),
    }
}

/// The source form of `e`, complete within depth `n`.
fn format_to_depth(e: &Expr, arena: &ExprArena, interner: &FrozenInterner, n: Ghost<nat>) -> (s:
    String)
    requires
        complete(*e, *arena, n@),
    ensures
        s@ == source(*e, *arena, *interner, n@),
    decreases n@,
{
    let ghost m = (n@ - 1) as nat;
    match e {
        Expr::Literal(v) => match v {
            Value::String(s) => join3("\"", s.as_str(), "\""),
            _ => value_str(v).to_owned(),
        },
        Expr::Variable(sym) => interner.name(*sym).to_owned(),
        Expr::BinaryOp { left, op, right } => {
            let mut s = format_to_depth(&arena.nodes[*left], arena, interner, Ghost(m));
            s.append(" ");
            s.append(binop_str(*op));
            s.append(" ");
            let r = format_to_depth(&arena.nodes[*right], arena, interner, Ghost(m));
            s.append(r.as_str());
            s
        },
        Expr::FunctionCall { name, args_start, args_len } => {
            let ghost texts = arg_sources(
                *args_start as int,
                *args_len as nat,
                *arena,
                *interner,
                m,
            );
            let total = arena.args.len();
            let mut args: Vec<String> = Vec::new();
            let mut k: usize = 0;
            while k < *args_len
                invariant
                    k <= *args_len,
                    *args_start + *args_len <= total == arena.args@.len(),
                    forall|j: int|
                        0 <= j < *args_len ==> part_complete(
                            #[trigger] arena.args@[*args_start + j],
                            *arena,
                            m,
                        ),
                    n@ > 0,
                    m == n@ - 1,
                    texts == arg_sources(
                        *args_start as int,
                        *args_len as nat,
                        *arena,
                        *interner,
                        m,
                    ),
                    text_views(args@) == texts.take(k as int),
                decreases *args_len - k,
            {
                let i: usize = arena.args[*args_start + k];
                proof {
                    assert(part_complete(arena.args@[*args_start + k], *arena, m));
                }
                let s = format_to_depth(&arena.nodes[i], arena, interner, Ghost(m));
                let ghost before = args@;
                args.push(s);
                k += 1;
                proof {
                    assert(text_views(args@) =~= text_views(before).push(s@));
                    assert(texts.take(k as int) =~= texts.take(k - 1).push(texts[k - 1]));
                }
            }
            proof {
                assert(texts.take(k as int) =~= texts);
            }
            let list = join_strings(&args, ", ");
            let mut s = interner.name(*name).to_owned();
            s.append("(");
            s.append(list.as_str());
            s.append(")");
            s
        },
        Expr::Let { name, value, body } => {
            let mut s = interner.name(*name).to_owned();
            s.append(" = ");
            let v = format_to_depth(&arena.nodes[*value], arena, interner, Ghost(m));
            s.append(v.as_str());
            s.append("; ");
            let b = format_to_depth(&arena.nodes[*body], arena, interner, Ghost(m));
            s.append(b.as_str());
            s
        },
        Expr::Not(inner) => {
            let s = format_to_depth(&arena.nodes[*inner], arena, interner, Ghost(m));
            join2("!", s.as_str())
        },
        Expr::IfElse { condition, then_expr, else_expr } => {
            let mut s = format_to_depth(&arena.nodes[*condition], arena, interner, Ghost(m));
            s.append(" ? ");
            let t = format_to_depth(&arena.nodes[*then_expr], arena, interner, Ghost(m));
            s.append(t.as_str());
            s.append(" : ");
            let f = format_to_depth(&arena.nodes[*else_expr], arena, interner, Ghost(m));
            s.append(f.as_str());
            s
        },
        Expr::FieldAccess { base, field } => {
            let s = format_to_depth(&arena.nodes[*base], arena, interner, Ghost(m));
            join3(s.as_str(), ".", interner.name(*field))
        },
    }
}

/// Writes an expression back as source.
pub fn format_expr(e: &Expr, arena: &ExprArena, interner: &FrozenInterner) -> (s: String)
    requires
        finite(*e, *arena),
    ensures
        s@ == expr_text(*e, *arena, *interner),
{
    let ghost n = choose|n: nat| complete(*e, *arena, n);
    format_to_depth(e, arena, interner, Ghost(n))
}

/// Writes a stored expression back as source.
pub fn format_owned(e: &OwnedExpr, interner: &FrozenInterner) -> (s: String)
    requires
        owned_ok(*e),
    ensures
        s@ == owned_text(*e, *interner),
{
    format_expr(&e.arena.nodes[e.root], &e.arena, interner)
}

/// How a method is written.
pub open spec fn method_text(m: HttpMethod) -> Seq<char> {
    match m {
        HttpMethod::Get => "GET"@,
        HttpMethod::Post => "POST"@,
    }
}

/// Whether the expressions of an action are finite.
pub open spec fn action_ok(a: Action) -> bool {
    match a {
        Action::Assign { target, expr } => owned_ok(expr),
        Action::Eval(e) => owned_ok(e),
        Action::Navigate { url } => owned_ok(url),
        Action::NetworkCall { method, alias_sym, target_var } => true,
    }
}

/// The source form of an action.
pub open spec fn action_text(a: Action, names: FrozenInterner) -> Seq<char> {
    match a {
        Action::Assign { target, expr } => target@ + " = "@ + owned_text(expr, names),
        Action::Eval(e) => owned_text(e, names),
        Action::Navigate { url } => "navigate "@ + owned_text(url, names),
        Action::NetworkCall { method, alias_sym, target_var } => method_text(method) + "("@
            + names.name_of(alias_sym) + ") -> "@ + target_var@,
    }
}

/// Writes an action back as source.
pub fn format_action(a: &Action, interner: &FrozenInterner) -> (s: String)
    requires
        action_ok(*a),
    ensures
        s@ == action_text(*a, *interner),
{
    match a {
        Action::Assign { target, expr } => {
            let e = format_owned(expr, interner);
            join3(target.as_str(), " = ", e.as_str())
        },
        Action::Eval(e) => format_owned(e, interner),
        Action::Navigate { url } => {
            let u = format_owned(url, interner);
            join2("navigate ", u.as_str())
        },
        Action::NetworkCall { method, alias_sym, target_var } => {
            let m: &str = match method {
                HttpMethod::Get => "GET",
                HttpMethod::Post => "POST",
            };
            let mut s = m.to_owned();
            s.append("(");
            s.append(interner.name(*alias_sym));
            s.append(") -> ");
            s.append(target_var.as_str());
            s
        },
    }
}

} // verus!
