//! The document's logic as the inspector shows it: values, expressions and
//! actions.

use vstd::prelude::*;

use crate::text::same_text;

verus! {

/// A name of the document, interned.
#[derive(Debug, Clone, Copy, PartialEq, Eq, Structural)]
pub struct Symbol {
    pub id: u32,
}

/// The interned names.
#[derive(Debug)]
pub struct FrozenInterner {
    names: Vec<String>,
}

impl FrozenInterner {
    /// The names in the order of their symbols.
    pub closed spec fn view(&self) -> Seq<Seq<char>> {
        self.names@.map_values(|s: String| s@)
    }

    /// Whether no two symbols have the same name.
    pub open spec fn valid(&self) -> bool {
        self@.no_duplicates()
    }

    /// What `sym` is called, where it is one of these names.
    pub open spec fn named(&self, sym: Symbol) -> Option<Seq<char>> {
        if sym.id < self@.len() {
            Some(self@[sym.id as int])
        } else {
            None
        }
    }

    /// What `sym` is called, with `?` for a symbol without a name.
    pub open spec fn name_of(&self, sym: Symbol) -> Seq<char> {
        match self.named(sym) {
            Some(n) => n,
            None => "?"@,
        }
    }

    /// No names.
    pub fn new() -> (i: FrozenInterner)
        ensures
            i@ == Seq::<Seq<char>>::empty(),
            i.valid(),
    {
        let i = FrozenInterner { names: Vec::new() };
        proof {
            assert(i@ =~= Seq::<Seq<char>>::empty());
        }
        i
    }

    /// The symbol of a name, which is added where it is new.
    pub fn intern(&mut self, name: &str) -> (s: Symbol)
        requires
            old(self)@.len() < u32::MAX,
        ensures
            final(self)@ == (if old(self)@.contains(name@) {
                old(self)@
            } else {
                old(self)@.push(name@)
            }),
            final(self).named(s) == Some(name@),
            forall|i: int| 0 <= i < s.id ==> #[trigger] final(self)@[i] != name@,
            old(self).valid() ==> final(self).valid(),
    {
        let mut i: usize = 0;
        while i < self.names.len()
            invariant
                i <= self.names@.len() == self@.len(),
                self@ == old(self)@,
                old(self)@.len() < u32::MAX,
                forall|j: int| 0 <= j < i ==> #[trigger] self@[j] != name@,
            decreases self.names.len() - i,
        {
            if same_text(self.names[i].as_str(), name) {
                proof {
                    assert(self@[i as int] == name@);
                }
                return Symbol { id: i as u32 };
            }
            i += 1;
        }
        self.names.push(name.to_owned());
        proof {
            assert(self@ =~= old(self)@.push(name@));
        }
        Symbol { id: i as u32 }
    }

    /// What `sym` is called.
    pub fn resolve(&self, sym: Symbol) -> (r: Option<&str>)
        ensures
            (match r {
                Some(n) => Some(n@),
                None => None,
            }) == self.named(sym),
    {
        if (sym.id as usize) < self.names.len() {
            Some(self.names[sym.id as usize].as_str())
        } else {
            None
        }
    }

    /// What `sym` is called, with `?` for a symbol without a name.
    pub fn name(&self, sym: Symbol) -> (r: &str)
        ensures
            r@ == self.name_of(sym),
    {
        match self.resolve(sym) {
            Some(n) => n,
            None => "?",
        }
    }
}

/// A value of the document.
#[derive(Debug, Clone)]
pub enum Value {
    /// Text.
    String(String),
    /// A truth value.
    Bool(bool),
    /// No value.
    Null,
    /// A number or a composite value, in its printed form.
    Other(String),
}

/// How two values are combined.
#[derive(Debug, Clone, Copy, PartialEq, Eq, Structural)]
pub enum BinOp {
    Add,
    Sub,
    Mul,
    Div,
    Eq,
    Ne,
    Lt,
    Gt,
    Le,
    Ge,
    And,
    Or,
}

/// An expression; its parts are indices into an [`ExprArena`].
#[derive(Debug, Clone)]
pub enum Expr {
    Literal(Value),
    Variable(Symbol),
    BinaryOp { left: usize, op: BinOp, right: usize },
    FunctionCall { name: Symbol, args_start: usize, args_len: usize },
    Let { name: Symbol, value: usize, body: usize },
    Not(usize),
    IfElse { condition: usize, then_expr: usize, else_expr: usize },
    FieldAccess { base: usize, field: Symbol },
}

/// The nodes of an expression, and the arguments of its calls.
#[derive(Debug, Clone)]
pub struct ExprArena {
    /// Nodes.
    pub nodes: Vec<Expr>,
    /// Arguments of all calls; a call has a run of them.
    pub args: Vec<usize>,
}

/// An expression with its nodes.
#[derive(Debug, Clone)]
pub struct OwnedExpr {
    pub arena: ExprArena,
    /// Index of the outermost node.
    pub root: usize,
}

/// How a network call is made.
#[derive(Debug, Clone, Copy, PartialEq, Eq, Structural)]
pub enum HttpMethod {
    Get,
    Post,
}

/// What a reaction does.
#[derive(Debug, Clone)]
pub enum Action {
    /// Sets a variable.
    Assign { target: String, expr: OwnedExpr },
    /// Evaluates an expression.
    Eval(OwnedExpr),
    /// Goes to an address.
    Navigate { url: OwnedExpr },
    /// Calls an endpoint and binds its answer.
    NetworkCall { method: HttpMethod, alias_sym: Symbol, target_var: String },
}

/// A symbol has the name that stands at its number, and none where there is no
/// such number; it is then shown as a question mark.
pub proof fn law_symbols_have_the_name_at_their_number(names: FrozenInterner, sym: Symbol)
    ensures
        sym.id < names@.len() ==> names.named(sym) == Some(names@[sym.id as int])
            && names.name_of(sym) == names@[sym.id as int],
        sym.id >= names@.len() ==> names.named(sym) is None && names.name_of(sym) == seq!['?'],
{
    reveal_strlit("?");
    assert("?"@ =~= seq!['?']);
}

} // verus!
