//! What the inspector's tabs are made from.

use std::collections::HashMap;

use vstd::prelude::*;

use crate::dom::Dom;
use crate::inspector::log::InspectorLog;
use crate::logic::{Action, FrozenInterner, OwnedExpr, Symbol, Value};
use crate::style::StyleSheet;

verus! {

/// The box of a laid-out node, in whole pixels as printed.
#[derive(Debug, Clone)]
pub struct BoxMetrics {
    pub width: String,
    pub height: String,
    pub x: String,
    pub y: String,
}

/// What evaluating an expression came to.
#[derive(Debug, Clone)]
pub enum Evaluated {
    /// A value.
    Value(Value),
    /// An error.
    Failed,
}

/// A function of the document, by its parameters and their types.
#[derive(Debug, Clone)]
pub struct MizuFunction {
    pub params: Vec<(Symbol, String)>,
}

/// A value that the document derives from others.
#[derive(Debug, Clone)]
pub struct ComputedBinding {
    pub name: Symbol,
    pub expr: OwnedExpr,
    pub depends_on: Vec<Symbol>,
}

/// What a declared address is for.
#[derive(Debug, Clone, Copy, PartialEq, Eq, Structural)]
pub enum EndpointKind {
    Api,
    Media,
}

/// A declared address.
#[derive(Debug, Clone)]
pub struct Endpoint {
    pub kind: EndpointKind,
    pub raw_target: String,
}

/// How often a timer fires.
#[derive(Debug, Clone)]
pub enum TimerInterval {
    /// Every so many milliseconds.
    Millis(u64),
    /// As often as a variable says.
    Variable(String),
}

/// A timer of the document.
#[derive(Debug, Clone)]
pub struct RootTimer {
    pub interval: TimerInterval,
    pub action: Action,
}

/// Everything that the rows are made from. Times are nanoseconds since the log
/// was made.
pub struct InspectorSources<'a> {
    /// The document.
    pub dom: &'a Dom<'a>,
    /// The boxes of laid-out nodes.
    pub boxes: &'a HashMap<usize, BoxMetrics>,
    /// The style sheet, by tag or class.
    pub style_rules: &'a StyleSheet,
    /// The document's names.
    pub interner: &'a FrozenInterner,
    /// The document's variables, each once, in any order.
    pub variables: &'a Vec<(Symbol, Value)>,
    /// What the selected node's conditional classes evaluate to, in order.
    pub evaluated: &'a Vec<Evaluated>,
    /// The document's functions, each once, in any order.
    pub logic_fns: &'a Vec<(Symbol, MizuFunction)>,
    /// Derived values, each after those it depends on.
    pub computed_bindings: &'a Vec<ComputedBinding>,
    /// Declared addresses, each once, in any order.
    pub url_registry: &'a Vec<(Symbol, Endpoint)>,
    /// Timers.
    pub root_timers: &'a Vec<RootTimer>,
    /// Pending timers: when they are due, each time once, earliest first, and
    /// which they are.
    pub root_timer_queue: &'a Vec<(u64, Vec<usize>)>,
    /// Bytes that the document has stored.
    pub bytes_stored: usize,
    /// Bytes that it may store.
    pub quota_bytes: usize,
    /// What has happened.
    pub log: &'a InspectorLog,
    /// When variables last changed, each once, in any order.
    pub recent_mutations: &'a Vec<(Symbol, u64)>,
    /// How many children of a list node were left out.
    pub truncated: &'a HashMap<usize, usize>,
}

/// Whether no symbol has two entries.
pub open spec fn each_once<T>(entries: Seq<(Symbol, T)>) -> bool {
    forall|i: int, j: int|
        0 <= i < j < entries.len() ==> (#[trigger] entries[i]).0 != (#[trigger] entries[j]).0
}

/// Whether every entry is due before the next.
pub open spec fn earliest_first(queue: Seq<(u64, Vec<usize>)>) -> bool {
    forall|i: int, j: int|
        0 <= i < j < queue.len() ==> (#[trigger] queue[i]).0 < (#[trigger] queue[j]).0
}

} // verus!
