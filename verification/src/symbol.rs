//! The records that variable resolution produces.

use vstd::prelude::*;

verus! {

/// How a closure reaches one captured variable.
///
/// With `is_local` the variable is the local slot `index` of the function
/// that immediately encloses the closure; otherwise it is entry `index` of
/// that enclosing function's own upvalue list.
#[derive(Clone, Copy, Debug, PartialEq, Eq)]
pub struct ResolvedUpValue {
    pub is_local: bool,
    pub index: usize,
}

/// Where the value of one identifier use lives.
///
/// The two flags say which of three things `offset` is, and are never both
/// set: a global slot if `is_global`, an index into the current function's
/// upvalue list if `is_upvalue`, and a slot relative to the current call
/// frame if neither. `symbol` is the identity of the declaration in the
/// symbol arena.
#[derive(Clone, Copy, Debug, PartialEq, Eq)]
pub struct ResolvedSymbol {
    pub offset: usize,
    pub is_global: bool,
    pub is_upvalue: bool,
    pub symbol: usize,
}

impl ResolvedSymbol {
    /// Whether the resolution names a symbol of an arena of `symbols`
    /// symbols and is of exactly one kind: global, upvalue or local.
    pub open spec fn is_sound(self, symbols: nat) -> bool {
        &&& self.symbol < symbols
        &&& !(self.is_global && self.is_upvalue)
    }
}

/// A declaration: a `let` binding, a parameter, a function or a lambda.
#[derive(Clone, Debug, PartialEq)]
pub struct Symbol {
    pub ident: String,
    /// The scope depth at which the symbol was declared.
    pub scope_depth: u32,
    /// Whether a nested function reads the symbol from an enclosing function.
    pub is_captured: bool,
    /// For a function or lambda, how its closure reaches what it captures.
    pub upvalues: Vec<ResolvedUpValue>,
    /// The declaring statement, absent for a builtin.
    pub stmt: Option<u64>,
}

/// The mathematical content of a [`Symbol`].
pub struct SymbolView {
    pub ident: Seq<char>,
    pub scope_depth: u32,
    pub is_captured: bool,
    pub upvalues: Seq<ResolvedUpValue>,
    pub stmt: Option<u64>,
}

impl View for Symbol {
    type V = SymbolView;

    open spec fn view(&self) -> SymbolView {
        SymbolView {
            ident: self.ident@,
            scope_depth: self.scope_depth,
            is_captured: self.is_captured,
            upvalues: self.upvalues@,
            stmt: self.stmt,
        }
    }
}

impl SymbolView {
    /// A symbol as it is at its declaration: not captured, without upvalues.
    pub open spec fn fresh(ident: Seq<char>, scope_depth: u32, stmt: Option<u64>) -> SymbolView {
        SymbolView {
            ident,
            scope_depth,
            is_captured: false,
            upvalues: Seq::empty(),
            stmt,
        }
    }
}

impl Symbol {
    /// A symbol as it is at its declaration.
    pub fn new(ident: String, scope_depth: u32, stmt: Option<u64>) -> (symbol: Self)
        ensures
            symbol@ == SymbolView::fresh(ident@, scope_depth, stmt),
    {
        Symbol { ident, scope_depth, is_captured: false, upvalues: Vec::new(), stmt }
    }
}

} // verus!
