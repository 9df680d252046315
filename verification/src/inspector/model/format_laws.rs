//! What holds of expressions and actions that are written back as source.

use vstd::prelude::*;

use crate::inspector::model::format::{
    action_text, complete, expr_text, finite, lemma_source_stable, owned_text, part_complete,
    source, value_text,
};
use crate::logic::{
    Action, BinOp, Expr, ExprArena, FrozenInterner, HttpMethod, OwnedExpr, Symbol, Value,
};

verus! {

/// A part of a finite expression is finite, and is written in it as it is on
/// its own.
proof fn lemma_part(a: ExprArena, names: FrozenInterner, i: usize, m: nat)
    requires
        part_complete(i, a, m),
    ensures
        finite(a.nodes@[i as int], a),
        source(a.nodes@[i as int], a, names, m) == expr_text(a.nodes@[i as int], a, names),
{
    let e = a.nodes@[i as int];
    assert(complete(e, a, m));
    let n = choose|n: nat| complete(e, a, n);
    lemma_source_stable(e, a, names, n, m);
}

/// What node `i` of an arena looks like on its own.
pub open spec fn written(a: ExprArena, names: FrozenInterner, i: usize) -> Seq<char> {
    expr_text(a.nodes@[i as int], a, names)
}

/// A conditional shows its condition, what holds if it is met, and what holds
/// else, in this order.
pub proof fn law_conditionals_keep_their_branches(
    a: ExprArena,
    names: FrozenInterner,
    condition: usize,
    then_expr: usize,
    else_expr: usize,
)
    requires
        finite(Expr::IfElse { condition, then_expr, else_expr }, a),
    ensures
        expr_text(Expr::IfElse { condition, then_expr, else_expr }, a, names) == written(
            a,
            names,
            condition,
        ) + seq![' ', '?', ' '] + written(a, names, then_expr) + seq![' ', ':', ' '] + written(
            a,
            names,
            else_expr,
        ),
{
    let e = Expr::IfElse { condition, then_expr, else_expr };
    let n = choose|n: nat| complete(e, a, n);
    let m = (n - 1) as nat;
    lemma_part(a, names, condition, m);
    lemma_part(a, names, then_expr, m);
    lemma_part(a, names, else_expr, m);
    reveal_strlit(" ? ");
    reveal_strlit(" : ");
    assert(" ? "@ =~= seq![' ', '?', ' ']);
    assert(" : "@ =~= seq![' ', ':', ' ']);
}

/// How an operator looks in source.
pub open spec fn operator(op: BinOp) -> Seq<char> {
    match op {
        BinOp::Add => seq!['+'],
        BinOp::Sub => seq!['-'],
        BinOp::Mul => seq!['*'],
        BinOp::Div => seq!['/'],
        BinOp::Eq => seq!['=', '='],
        BinOp::Ne => seq!['!', '='],
        BinOp::Lt => seq!['<'],
        BinOp::Gt => seq!['>'],
        BinOp::Le => seq!['<', '='],
        BinOp::Ge => seq!['>', '='],
        BinOp::And => seq!['&', '&'],
        BinOp::Or => seq!['|', '|'],
    }
}

/// Two operands keep their sides, with their own operator between them.
pub proof fn law_operands_keep_their_sides(
    a: ExprArena,
    names: FrozenInterner,
    left: usize,
    op: BinOp,
    right: usize,
)
    requires
        finite(Expr::BinaryOp { left, op, right }, a),
    ensures
        expr_text(Expr::BinaryOp { left, op, right }, a, names) == written(a, names, left) + seq![
            ' ',
        ] + operator(op) + seq![' '] + written(a, names, right),
{
    let e = Expr::BinaryOp { left, op, right };
    let n = choose|n: nat| complete(e, a, n);
    let m = (n - 1) as nat;
    lemma_part(a, names, left, m);
    lemma_part(a, names, right, m);
    reveal_strlit(" ");
    reveal_strlit("+");
    reveal_strlit("-");
    reveal_strlit("*");
    reveal_strlit("/");
    reveal_strlit("==");
    reveal_strlit("!=");
    reveal_strlit("<");
    reveal_strlit(">");
    reveal_strlit("<=");
    reveal_strlit(">=");
    reveal_strlit("&&");
    reveal_strlit("||");
    assert(" "@ =~= seq![' ']);
    assert(crate::inspector::model::format::operator_text(op) =~= operator(op));
}

/// A call shows its name, and in brackets its arguments in their order: one is
/// added behind a comma.
pub proof fn law_calls_keep_their_arguments(
    a: ExprArena,
    names: FrozenInterner,
    name: Symbol,
    args_start: usize,
    args_len: usize,
)
    requires
        finite(Expr::FunctionCall { name, args_start, args_len }, a),
    ensures
        ({
            let text = expr_text(Expr::FunctionCall { name, args_start, args_len }, a, names);
            let called = match names.named(name) {
                Some(n) => n,
                None => seq!['?'],
            };
            &&& text.take(called.len() as int + 1) == called + seq!['(']
            &&& text.last() == ')'
            &&& args_len == 0 ==> text == called + seq!['(', ')']
            &&& args_len == 1 ==> text == called + seq!['('] + written(
                a,
                names,
                a.args@[args_start as int],
            ) + seq![')']
            &&& args_len > 1 ==> {
                let fewer = Expr::FunctionCall { name, args_start, args_len: (args_len - 1) as usize };
                &&& finite(fewer, a)
                &&& text == expr_text(fewer, a, names).drop_last() + seq![',', ' '] + written(
                    a,
                    names,
                    a.args@[args_start + args_len - 1],
                ) + seq![')']
            }
        }),
{
    let e = Expr::FunctionCall { name, args_start, args_len };
    let n = choose|n: nat| complete(e, a, n);
    let m = (n - 1) as nat;
    let texts = crate::inspector::model::format::arg_sources(
        args_start as int,
        args_len as nat,
        a,
        names,
        m,
    );
    let text = expr_text(e, a, names);
    let called = names.name_of(name);
    reveal_strlit("(");
    reveal_strlit(")");
    reveal_strlit(", ");
    reveal_strlit("?");
    assert("?"@ =~= seq!['?']);
    assert("("@ =~= seq!['(']);
    assert(")"@ =~= seq![')']);
    assert(", "@ =~= seq![',', ' ']);
    let list = crate::text::joined(texts, ", "@);
    assert(text == called + "("@ + list + ")"@);
    assert(text.take(called.len() as int + 1) =~= called + seq!['(']);
    assert(text.last() == ')');
    if args_len == 0 {
        assert(list =~= Seq::<char>::empty());
        assert(text =~= called + seq!['(', ')']);
    } else {
        let last = a.args@[args_start + args_len - 1];
        assert(part_complete(last, a, m));
        lemma_part(a, names, last, m);
        assert(texts.last() == written(a, names, last));
        if args_len > 1 {
            let less = (args_len - 1) as usize;
            let fewer = Expr::FunctionCall { name, args_start, args_len: less };
            assert(complete(fewer, a, n));
            let k = choose|k: nat| complete(fewer, a, k);
            lemma_source_stable(fewer, a, names, k, n);
            let init = crate::inspector::model::format::arg_sources(
                args_start as int,
                less as nat,
                a,
                names,
                m,
            );
            assert(texts.drop_last() =~= init);
            let short = expr_text(fewer, a, names);
            assert(short == called + "("@ + crate::text::joined(init, ", "@) + ")"@);
            assert(short.drop_last() =~= called + "("@ + crate::text::joined(init, ", "@));
            assert(text =~= short.drop_last() + seq![',', ' '] + written(a, names, last) + seq![
                ')',
            ]);
        }
    }
}

/// A definition shows its name, what it stands for, and what it is used in.
pub proof fn law_definitions_show_name_value_and_use(
    a: ExprArena,
    names: FrozenInterner,
    name: Symbol,
    value: usize,
    body: usize,
)
    requires
        finite(Expr::Let { name, value, body }, a),
    ensures
        expr_text(Expr::Let { name, value, body }, a, names) == (match names.named(name) {
            Some(n) => n,
            None => seq!['?'],
        }) + seq![' ', '=', ' '] + written(a, names, value) + seq![';', ' '] + written(
            a,
            names,
            body,
        ),
{
    let e = Expr::Let { name, value, body };
    let n = choose|n: nat| complete(e, a, n);
    let m = (n - 1) as nat;
    lemma_part(a, names, value, m);
    lemma_part(a, names, body, m);
    reveal_strlit(" = ");
    reveal_strlit("; ");
    reveal_strlit("?");
    assert("?"@ =~= seq!['?']);
    assert(" = "@ =~= seq![' ', '=', ' ']);
    assert("; "@ =~= seq![';', ' ']);
}

/// A negation is marked, and a field follows what it is a field of.
pub proof fn law_negations_and_fields_are_marked(
    a: ExprArena,
    names: FrozenInterner,
    inner: usize,
    field: Symbol,
)
    ensures
        finite(Expr::Not(inner), a) ==> expr_text(Expr::Not(inner), a, names) == seq!['!']
            + written(a, names, inner),
        finite(Expr::FieldAccess { base: inner, field }, a) ==> expr_text(
            Expr::FieldAccess { base: inner, field },
            a,
            names,
        ) == written(a, names, inner) + seq!['.'] + (match names.named(field) {
            Some(n) => n,
            None => seq!['?'],
        }),
{
    reveal_strlit("!");
    reveal_strlit(".");
    reveal_strlit("?");
    assert("?"@ =~= seq!['?']);
    assert("!"@ =~= seq!['!']);
    assert("."@ =~= seq!['.']);
    if finite(Expr::Not(inner), a) {
        let n = choose|n: nat| complete(Expr::Not(inner), a, n);
        lemma_part(a, names, inner, (n - 1) as nat);
    }
    let f = Expr::FieldAccess { base: inner, field };
    if finite(f, a) {
        let n = choose|n: nat| complete(f, a, n);
        lemma_part(a, names, inner, (n - 1) as nat);
    }
}

/// A variable shows its name; texts are quoted, and no other value is.
pub proof fn law_leaves_show_names_and_values(
    a: ExprArena,
    names: FrozenInterner,
    sym: Symbol,
    v: Value,
)
    ensures
        expr_text(Expr::Variable(sym), a, names) == (match names.named(sym) {
            Some(n) => n,
            None => seq!['?'],
        }),
        expr_text(Expr::Literal(v), a, names) == (match v {
            Value::String(s) => seq!['"'] + s@ + seq!['"'],
            Value::Bool(true) => seq!['t', 'r', 'u', 'e'],
            Value::Bool(false) => seq!['f', 'a', 'l', 's', 'e'],
            Value::Null => seq!['n', 'u', 'l', 'l'],
            Value::Other(s) => s@,
        }),
        value_text(v) == (match v {
            Value::String(s) => s@,
            Value::Bool(true) => seq!['t', 'r', 'u', 'e'],
            Value::Bool(false) => seq!['f', 'a', 'l', 's', 'e'],
            Value::Null => seq!['n', 'u', 'l', 'l'],
            Value::Other(s) => s@,
        }),
{
    reveal_strlit("?");
    reveal_strlit("\"");
    reveal_strlit("true");
    reveal_strlit("false");
    reveal_strlit("null");
    assert("?"@ =~= seq!['?']);
    assert("\""@ =~= seq!['"']);
    assert("true"@ =~= seq!['t', 'r', 'u', 'e']);
    assert("false"@ =~= seq!['f', 'a', 'l', 's', 'e']);
    assert("null"@ =~= seq!['n', 'u', 'l', 'l']);
    assert(complete(Expr::Variable(sym), a, 1));
    assert(complete(Expr::Literal(v), a, 1));
    let n = choose|n: nat| complete(Expr::Variable(sym), a, n);
    let m = choose|n: nat| complete(Expr::Literal(v), a, n);
    assert(n > 0 && m > 0);
}

/// What an expression that an action holds looks like on its own.
pub open spec fn own_text(e: OwnedExpr, names: FrozenInterner) -> Seq<char> {
    expr_text(e.arena.nodes@[e.root as int], e.arena, names)
}

/// An assignment shows what is set and to what; a navigation says so and where
/// it goes; a call shows its method, its alias and what takes the answer.
pub proof fn law_actions_show_what_they_do(action: Action, names: FrozenInterner)
    ensures
        match action {
            Action::Assign { target, expr } => action_text(action, names) == target@ + seq![
                ' ',
                '=',
                ' ',
            ] + own_text(expr, names),
            Action::Eval(e) => action_text(action, names) == own_text(e, names),
            Action::Navigate { url } => action_text(action, names) == seq![
                'n',
                'a',
                'v',
                'i',
                'g',
                'a',
                't',
                'e',
                ' ',
            ] + own_text(url, names),
            Action::NetworkCall { method, alias_sym, target_var } => action_text(action, names)
                == (match method {
                HttpMethod::Get => seq!['G', 'E', 'T'],
                HttpMethod::Post => seq!['P', 'O', 'S', 'T'],
            }) + seq!['('] + (match names.named(alias_sym) {
                Some(n) => n,
                None => seq!['?'],
            }) + seq![')', ' ', '-', '>', ' '] + target_var@,
        },
        forall|e: OwnedExpr| #[trigger] owned_text(e, names) == own_text(e, names),
{
    reveal_strlit(" = ");
    reveal_strlit("navigate ");
    reveal_strlit("GET");
    reveal_strlit("POST");
    reveal_strlit("(");
    reveal_strlit(") -> ");
    reveal_strlit("?");
    assert("?"@ =~= seq!['?']);
    assert(" = "@ =~= seq![' ', '=', ' ']);
    assert("navigate "@ =~= seq!['n', 'a', 'v', 'i', 'g', 'a', 't', 'e', ' ']);
    assert("GET"@ =~= seq!['G', 'E', 'T']);
    assert("POST"@ =~= seq!['P', 'O', 'S', 'T']);
    assert("("@ =~= seq!['(']);
    assert(") -> "@ =~= seq![')', ' ', '-', '>', ' ']);
}

proof fn lemma_complete_more(e: Expr, a: ExprArena, n: nat, m: nat)
    requires
        complete(e, a, n),
        n <= m,
    ensures
        complete(e, a, m),
    decreases n,
{
    if n > 0 {
        let p = (n - 1) as nat;
        let q = (m - 1) as nat;
        assert forall|i: usize| #[trigger] part_complete(i, a, p) implies part_complete(i, a, q) by {
            lemma_complete_more(a.nodes@[i as int], a, p, q);
        }
        match e {
            Expr::Literal(_) | Expr::Variable(_) => {},
            Expr::BinaryOp { left, op, right } => {
                assert(part_complete(left, a, p) && part_complete(right, a, p));
                assert(part_complete(left, a, q) && part_complete(right, a, q));
            },
            Expr::FunctionCall { name, args_start, args_len } => {
                assert forall|k: int| 0 <= k < args_len implies part_complete(
                    #[trigger] a.args@[args_start + k],
                    a,
                    q,
                ) by {
                    assert(part_complete(a.args@[args_start + k], a, p));
                }
            },
            Expr::Let { name, value, body } => {
                assert(part_complete(value, a, p) && part_complete(body, a, p));
                assert(part_complete(value, a, q) && part_complete(body, a, q));
            },
            Expr::Not(inner) => {
                assert(part_complete(inner, a, p));
                assert(part_complete(inner, a, q));
            },
            Expr::IfElse { condition, then_expr, else_expr } => {
                assert(part_complete(condition, a, p) && part_complete(then_expr, a, p)
                    && part_complete(else_expr, a, p));
                assert(part_complete(condition, a, q) && part_complete(then_expr, a, q)
                    && part_complete(else_expr, a, q));
            },
            Expr::FieldAccess { base, field } => {
                assert(part_complete(base, a, p));
                assert(part_complete(base, a, q));
            },
        }
    }
}

/// A conditional whose parts are all in the arena and finite is finite, and so
/// can be written.
pub proof fn law_conditionals_of_finite_parts_are_finite(
    a: ExprArena,
    condition: usize,
    then_expr: usize,
    else_expr: usize,
)
    requires
        condition < a.nodes@.len(),
        then_expr < a.nodes@.len(),
        else_expr < a.nodes@.len(),
        finite(a.nodes@[condition as int], a),
        finite(a.nodes@[then_expr as int], a),
        finite(a.nodes@[else_expr as int], a),
    ensures
        finite(Expr::IfElse { condition, then_expr, else_expr }, a),
{
    let n1 = choose|n: nat| complete(a.nodes@[condition as int], a, n);
    let n2 = choose|n: nat| complete(a.nodes@[then_expr as int], a, n);
    let n3 = choose|n: nat| complete(a.nodes@[else_expr as int], a, n);
    let n = n1 + n2 + n3;
    lemma_complete_more(a.nodes@[condition as int], a, n1, n);
    lemma_complete_more(a.nodes@[then_expr as int], a, n2, n);
    lemma_complete_more(a.nodes@[else_expr as int], a, n3, n);
    assert(complete(Expr::IfElse { condition, then_expr, else_expr }, a, n + 1));
}

/// An expression of one or two parts that are in the arena and finite is finite,
/// and so can be written; one without parts always can.
pub proof fn law_expressions_of_finite_parts_are_finite(
    a: ExprArena,
    one: usize,
    two: usize,
    op: BinOp,
    sym: Symbol,
    v: Value,
)
    requires
        one < a.nodes@.len(),
        two < a.nodes@.len(),
        finite(a.nodes@[one as int], a),
        finite(a.nodes@[two as int], a),
    ensures
        finite(Expr::BinaryOp { left: one, op, right: two }, a),
        finite(Expr::Let { name: sym, value: one, body: two }, a),
        finite(Expr::Not(one), a),
        finite(Expr::FieldAccess { base: one, field: sym }, a),
        finite(Expr::Literal(v), a),
        finite(Expr::Variable(sym), a),
{
    let n1 = choose|n: nat| complete(a.nodes@[one as int], a, n);
    let n2 = choose|n: nat| complete(a.nodes@[two as int], a, n);
    let n = n1 + n2;
    lemma_complete_more(a.nodes@[one as int], a, n1, n);
    lemma_complete_more(a.nodes@[two as int], a, n2, n);
    assert(complete(Expr::BinaryOp { left: one, op, right: two }, a, n + 1));
    assert(complete(Expr::Let { name: sym, value: one, body: two }, a, n + 1));
    assert(complete(Expr::Not(one), a, n + 1));
    assert(complete(Expr::FieldAccess { base: one, field: sym }, a, n + 1));
    assert(complete(Expr::Literal(v), a, 1));
    assert(complete(Expr::Variable(sym), a, 1));
}

} // verus!
