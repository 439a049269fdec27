//! The mathematical model of variable resolution: the resolver's state as
//! plain sequences and maps, and each step of the pass as a function from
//! state to state.

use vstd::prelude::*;
use crate::ast::{Expr, ExprKind, Stmt, StmtKind};
use crate::source::{Span, SyntaxErrorView};
use crate::symbol::{ResolvedSymbol, ResolvedUpValue, Symbol, SymbolView};

verus! {

/// The function nesting level that a scope depth belongs to: one more than
/// the position of the innermost function whose recorded depth is less than
/// `scope_depth`, or `0`, the global level, if there is none.
pub open spec fn function_level(depths: Seq<u32>, scope_depth: u32) -> nat
    decreases depths.len(),
{
    if depths.len() == 0 {
        0
    } else if depths.last() < scope_depth {
        depths.len()
    } else {
        function_level(depths.drop_last(), scope_depth)
    }
}

/// The position in `accessible` of the most recently declared symbol named
/// `ident`, if there is one.
pub open spec fn lookup(symbols: Seq<SymbolView>, accessible: Seq<int>, ident: Seq<char>) -> Option<
    int,
>
    decreases accessible.len(),
{
    if accessible.len() == 0 {
        None
    } else if symbols[accessible.last()].ident == ident {
        Some(accessible.len() - 1)
    } else {
        lookup(symbols, accessible.drop_last(), ident)
    }
}

/// The diagnostic for an identifier that no visible declaration matches.
pub open spec fn unresolved_symbol_error(ident: Seq<char>, span: Span) -> SyntaxErrorView {
    SyntaxErrorView {
        message: "cannot resolve symbol \""@ + ident + "\""@,
        span,
        help: Some("make sure symbol \""@ + ident + "\" is in scope"@),
    }
}

/// The diagnostic for an assignment whose target is not an identifier.
pub open spec fn invalid_assignment_error(span: Span) -> SyntaxErrorView {
    SyntaxErrorView {
        message: "invalid left-hand side of assignment"@,
        span,
        help: Some("left-hand side of an assignment must be an identifier"@),
    }
}

/// The name under which a lambda's symbol is recorded.
pub open spec fn lambda_ident() -> Seq<char> {
    "lambda"@
}

/// The symbols of an arena as mathematical values.
pub open spec fn symbols_view(symbols: Seq<Symbol>) -> Seq<SymbolView> {
    symbols.map_values(|symbol: Symbol| symbol@)
}

/// Positions in the arena as mathematical integers.
pub open spec fn ids_view(ids: Seq<usize>) -> Seq<int> {
    ids.map_values(|id: usize| id as int)
}

/// A stack of upvalue lists as mathematical sequences.
pub open spec fn upvalue_lists_view(lists: Seq<Vec<ResolvedUpValue>>) -> Seq<Seq<ResolvedUpValue>> {
    lists.map_values(|list: Vec<ResolvedUpValue>| list@)
}

/// What a resolver hands on to the code generator, and to a later resolver
/// that goes on where it stopped.
pub struct ResolveResultView {
    pub symbols: Seq<SymbolView>,
    pub symbol_table: Map<u64, usize>,
    pub resolved_symbol_table: Map<u64, ResolvedSymbol>,
    pub accessible_symbols: Seq<int>,
}

impl ResolveResultView {
    /// The invariant of a result: the arena and the accessible symbols are
    /// no longer than a `usize` counts, the tables and the accessible
    /// symbols name symbols of the arena, every accessible symbol is a
    /// global, and every resolution is of exactly one kind.
    pub open spec fn wf(self) -> bool {
        &&& self.symbols.len() <= usize::MAX
        &&& self.accessible_symbols.len() <= usize::MAX
        &&& forall|i: int|
            0 <= i < self.accessible_symbols.len() ==> {
                &&& 0 <= #[trigger] self.accessible_symbols[i] < self.symbols.len()
                &&& self.symbols[self.accessible_symbols[i]].scope_depth == 0
            }
        &&& forall|key: u64| #[trigger]
            self.symbol_table.contains_key(key) ==> self.symbol_table[key] < self.symbols.len()
        &&& forall|key: u64| #[trigger]
            self.resolved_symbol_table.contains_key(key) ==> self.resolved_symbol_table[key].is_sound(self.symbols.len())
    }

    /// The symbol that the statement with identity `stmt` declared.
    pub open spec fn lookup_declaration(self, stmt: u64) -> Option<SymbolView> {
        if self.symbol_table.contains_key(stmt) {
            Some(self.symbols[self.symbol_table[stmt] as int])
        } else {
            None
        }
    }

    /// Where the value of the identifier expression with identity `expr`
    /// lives.
    pub open spec fn lookup_identifier(self, expr: u64) -> Option<ResolvedSymbol> {
        if self.resolved_symbol_table.contains_key(expr) {
            Some(self.resolved_symbol_table[expr])
        } else {
            None
        }
    }

    /// The most recently declared accessible symbol named `ident`.
    pub open spec fn lookup_in_accessible_symbols(self, ident: Seq<char>) -> Option<SymbolView> {
        match lookup(self.symbols, self.accessible_symbols, ident) {
            Some(i) => Some(self.symbols[self.accessible_symbols[i]]),
            None => None,
        }
    }
}

/// The state of a resolver.
///
/// Symbols live in an arena, `symbols`, and are known everywhere else by
/// their position in it.
pub struct ResolverState {
    /// Every symbol declared so far, in order of declaration.
    pub symbols: Seq<SymbolView>,
    /// For each declaring statement, by its identity, its symbol.
    pub symbol_table: Map<u64, usize>,
    /// For each resolved identifier expression, by its identity, where its
    /// value lives.
    pub resolved_symbol_table: Map<u64, ResolvedSymbol>,
    /// The symbols that are in scope, in order of declaration.
    pub accessible_symbols: Seq<int>,
    /// For each function being resolved, outermost first, its current scope
    /// depth. The first entry is the global level.
    pub function_scope_depths: Seq<u32>,
    /// For each function being resolved, the position in
    /// `accessible_symbols` at which its own locals begin.
    pub function_offsets: Seq<usize>,
    /// For each function being resolved, the upvalues found so far.
    pub function_upvalues: Seq<Seq<ResolvedUpValue>>,
    /// The source text that the diagnostics are about.
    pub content: Seq<char>,
    /// The diagnostics reported so far.
    pub errors: Seq<SyntaxErrorView>,
}

impl ResolverState {
    /// The state of a new resolver for the given source text, on which the
    /// given diagnostics have been reported already.
    pub open spec fn initial(content: Seq<char>, errors: Seq<SyntaxErrorView>) -> ResolverState {
        ResolverState {
            symbols: Seq::empty(),
            symbol_table: Map::empty(),
            resolved_symbol_table: Map::empty(),
            accessible_symbols: Seq::empty(),
            function_scope_depths: seq![0u32],
            function_offsets: seq![0usize],
            function_upvalues: seq![Seq::empty()],
            content,
            errors,
        }
    }

    /// The state of a resolver that goes on from an earlier result.
    pub open spec fn resume(
        result: ResolveResultView,
        content: Seq<char>,
        errors: Seq<SyntaxErrorView>,
    ) -> ResolverState {
        ResolverState {
            symbols: result.symbols,
            symbol_table: result.symbol_table,
            resolved_symbol_table: result.resolved_symbol_table,
            accessible_symbols: result.accessible_symbols,
            ..ResolverState::initial(content, errors)
        }
    }

    /// What the resolver hands on.
    pub open spec fn result(self) -> ResolveResultView {
        ResolveResultView {
            symbols: self.symbols,
            symbol_table: self.symbol_table,
            resolved_symbol_table: self.resolved_symbol_table,
            accessible_symbols: self.accessible_symbols,
        }
    }

    /// The current scope depth.
    pub open spec fn scope_depth(self) -> u32 {
        self.function_scope_depths.last()
    }

    /// The symbol at position `i` of the accessible symbols.
    pub open spec fn symbol_at(self, i: int) -> SymbolView {
        self.symbols[self.accessible_symbols[i]]
    }

    /// The scope depth at which the symbol at position `i` was declared.
    pub open spec fn depth_at(self, i: int) -> u32 {
        self.symbol_at(i).scope_depth
    }

    /// The nesting level of the function that declared the symbol at
    /// position `i`.
    pub open spec fn level_at(self, i: int) -> nat {
        function_level(self.function_scope_depths, self.depth_at(i))
    }

    /// The nesting level of the function being resolved.
    pub open spec fn current_level(self) -> nat {
        function_level(self.function_scope_depths, self.scope_depth())
    }

    /// Whether no function is being resolved: the state between two top
    /// level program units.
    pub open spec fn at_top_level(self) -> bool {
        &&& self.function_scope_depths =~= seq![0u32]
        &&& self.function_offsets =~= seq![0usize]
        &&& self.function_upvalues.len() == 1
    }

    /// Whether the arena, the accessible symbols and each list of upvalues
    /// are no longer than a `usize` counts, so that every position and
    /// every length in the state is the number that stands for it.
    pub open spec fn fits(self) -> bool {
        &&& self.symbols.len() <= usize::MAX
        &&& self.accessible_symbols.len() <= usize::MAX
        &&& forall|level: int|
            0 <= level < self.function_upvalues.len() ==> (#[trigger] self.function_upvalues[level]).len()
                <= usize::MAX
    }

    /// The invariant of a resolver's state: everything fits, and the scopes
    /// are in order.
    pub open spec fn wf(self) -> bool {
        &&& self.fits()
        &&& self.well_scoped()
    }

    /// The part of the invariant that orders the scopes: how the function
    /// stacks, the accessible symbols, the arena and the tables go
    /// together.
    #[verifier::opaque]
    pub open spec fn well_scoped(self) -> bool {
        let depths = self.function_scope_depths;
        let offsets = self.function_offsets;
        let count = self.accessible_symbols.len();
        &&& depths.len() >= 1
        &&& offsets.len() == depths.len()
        &&& self.function_upvalues.len() == depths.len()
        // each nested function is at a deeper scope than the one around it
        &&& forall|j: int, k: int| 0 <= j < k < depths.len() ==> depths[j] < depths[k]
        // the accessible symbols are symbols of the arena
        &&& forall|i: int|
            0 <= i < count ==> 0 <= #[trigger] self.accessible_symbols[i] < self.symbols.len()
        // none was declared deeper than the current scope
        &&& forall|i: int| 0 <= i < count ==> #[trigger] self.depth_at(i) <= self.scope_depth()
        // they are in order of scope depth
        &&& forall|i: int, j: int|
            0 <= i <= j < count ==> #[trigger] self.depth_at(i) <= #[trigger] self.depth_at(j)
        // a symbol declared inside a function lies at or after the position
        // at which that function's locals begin
        &&& forall|i: int, k: int|
            0 <= i < count && 0 <= k < depths.len() - 1 && #[trigger] self.depth_at(i)
                > #[trigger] depths[k] ==> offsets[k + 1] <= i
        &&& forall|k: int| 0 <= k < offsets.len() ==> #[trigger] offsets[k] <= count
        // the tables name symbols of the arena
        &&& forall|key: u64| #[trigger]
            self.symbol_table.contains_key(key) ==> self.symbol_table[key] < self.symbols.len()
        &&& forall|key: u64| #[trigger]
            self.resolved_symbol_table.contains_key(key) ==> self.resolved_symbol_table[key].is_sound(self.symbols.len())
    }

    /// Whether `next` can follow `self` after more code was resolved at the
    /// same place: the function stacks are as they were, every accessible
    /// symbol has kept its position, what became accessible was declared at
    /// the current scope depth, and no symbol of the arena has changed its
    /// name, depth or declaring statement.
    #[verifier::opaque]
    pub open spec fn extends_to(self, next: ResolverState) -> bool {
        &&& next.function_scope_depths == self.function_scope_depths
        &&& next.function_offsets == self.function_offsets
        &&& next.function_upvalues.len() == self.function_upvalues.len()
        &&& self.accessible_symbols.len() <= next.accessible_symbols.len()
        &&& forall|i: int|
            0 <= i < self.accessible_symbols.len() ==> #[trigger] next.accessible_symbols[i]
                == self.accessible_symbols[i]
        &&& forall|i: int|
            self.accessible_symbols.len() <= i < next.accessible_symbols.len()
                ==> #[trigger] next.depth_at(i) == self.scope_depth()
        &&& self.symbols.len() <= next.symbols.len()
        &&& forall|id: int|
            0 <= id < self.symbols.len() ==> {
                &&& (#[trigger] next.symbols[id]).ident == self.symbols[id].ident
                &&& next.symbols[id].scope_depth == self.symbols[id].scope_depth
                &&& next.symbols[id].stmt == self.symbols[id].stmt
            }
        &&& self.errors.len() <= next.errors.len()
        &&& forall|i: int| 0 <= i < self.errors.len() ==> #[trigger] next.errors[i] == self.errors[i]
    }

    /// The test that a symbol of the arena passes if it was declared at
    /// scope depth `depth` or less deep.
    pub open spec fn declared_within(self, depth: u32) -> spec_fn(int) -> bool {
        |id: int| self.symbols[id].scope_depth <= depth
    }

    /// Entering a block: the current scope depth goes up by one.
    pub open spec fn enter_scope(self) -> ResolverState {
        ResolverState {
            function_scope_depths: self.function_scope_depths.update(
                self.function_scope_depths.len() - 1,
                (self.scope_depth() + 1) as u32,
            ),
            ..self
        }
    }

    /// Leaving a block: the current scope depth goes down by one, and the
    /// symbols declared deeper than that are no longer accessible. They stay
    /// in the arena and in the tables.
    pub open spec fn exit_scope(self) -> ResolverState {
        let depth = (self.scope_depth() - 1) as u32;
        ResolverState {
            function_scope_depths: self.function_scope_depths.update(
                self.function_scope_depths.len() - 1,
                depth,
            ),
            accessible_symbols: self.accessible_symbols.filter(self.declared_within(depth)),
            ..self
        }
    }

    /// Declaring a symbol at the current scope depth. It joins the arena and
    /// the accessible symbols, and the declaration table if a statement
    /// declares it.
    pub open spec fn add_symbol(self, ident: Seq<char>, stmt: Option<u64>) -> ResolverState {
        ResolverState {
            symbols: self.symbols.push(SymbolView::fresh(ident, self.scope_depth(), stmt)),
            accessible_symbols: self.accessible_symbols.push(self.symbols.len() as int),
            symbol_table: match stmt {
                Some(id) => self.symbol_table.insert(id, self.symbols.len() as usize),
                None => self.symbol_table,
            },
            ..self
        }
    }

    /// Declaring the named symbols in turn, none with a declaring statement.
    pub open spec fn add_builtins(self, idents: Seq<Seq<char>>) -> ResolverState {
        ResolverState {
            symbols: self.symbols + Seq::new(
                idents.len(),
                |i: int| SymbolView::fresh(idents[i], self.scope_depth(), None),
            ),
            accessible_symbols: self.accessible_symbols + Seq::new(
                idents.len(),
                |i: int| self.symbols.len() + i,
            ),
            ..self
        }
    }

    /// Reporting a diagnostic.
    pub open spec fn report(self, error: SyntaxErrorView) -> ResolverState {
        ResolverState { errors: self.errors.push(error), ..self }
    }

    /// Entering a function body: its locals begin after the symbols that are
    /// accessible now, it has no upvalues yet, and its scope lies one deeper
    /// than the current one.
    pub open spec fn begin_function(self) -> ResolverState {
        ResolverState {
            function_offsets: self.function_offsets.push(self.accessible_symbols.len() as usize),
            function_upvalues: self.function_upvalues.push(Seq::empty()),
            function_scope_depths: self.function_scope_depths.push(
                (self.scope_depth() + 1) as u32,
            ),
            ..self
        }
    }

    /// Leaving a function body: its scope is left, and its entries on the
    /// three stacks are dropped.
    pub open spec fn end_function(self) -> ResolverState {
        let left = self.exit_scope();
        ResolverState {
            function_offsets: left.function_offsets.drop_last(),
            function_upvalues: left.function_upvalues.drop_last(),
            function_scope_depths: left.function_scope_depths.drop_last(),
            ..left
        }
    }

    /// Recording the upvalues of the function whose symbol is `id`.
    pub open spec fn set_upvalues(self, id: int, upvalues: Seq<ResolvedUpValue>) -> ResolverState {
        ResolverState {
            symbols: self.symbols.update(id, SymbolView { upvalues, ..self.symbols[id] }),
            ..self
        }
    }

    /// Declaring the symbol of a lambda whose body has been resolved. It
    /// joins the arena and the declaration table, not the accessible symbols.
    pub open spec fn declare_lambda(self, stmt: u64, upvalues: Seq<ResolvedUpValue>) -> ResolverState {
        ResolverState {
            symbols: self.symbols.push(
                SymbolView {
                    ident: lambda_ident(),
                    scope_depth: self.scope_depth(),
                    is_captured: false,
                    upvalues,
                    stmt: Some(stmt),
                },
            ),
            symbol_table: self.symbol_table.insert(stmt, self.symbols.len() as usize),
            ..self
        }
    }

    /// The upvalue that the function at nesting level `level` gets when the
    /// symbol at position `i` is captured: at the level just inside the
    /// declaring function, the symbol's local slot there; further in, the
    /// entry that the next outer level has just got.
    pub open spec fn threaded_upvalue(self, i: int, level: int) -> ResolvedUpValue {
        if level == self.level_at(i) + 1 {
            ResolvedUpValue {
                is_local: true,
                index: (i - self.function_offsets[self.level_at(i) as int]) as usize,
            }
        } else {
            ResolvedUpValue {
                is_local: false,
                index: self.function_upvalues[level - 1].len() as usize,
            }
        }
    }

    /// Capturing the symbol at position `i` from the function being
    /// resolved: the symbol is marked, and every function from the one just
    /// inside the declaring function to the current one gets an upvalue.
    pub open spec fn capture(self, i: int) -> ResolverState {
        let id = self.accessible_symbols[i];
        ResolverState {
            symbols: self.symbols.update(id, SymbolView { is_captured: true, ..self.symbols[id] }),
            function_upvalues: Seq::new(
                self.function_upvalues.len(),
                |level: int|
                    if self.level_at(i) < level <= self.current_level() {
                        self.function_upvalues[level].push(self.threaded_upvalue(i, level))
                    } else {
                        self.function_upvalues[level]
                    },
            ),
            ..self
        }
    }

    /// Resolving a use of `ident`: the state afterwards and, if a visible
    /// declaration matches, the offset of the use and the symbol.
    ///
    /// The most recent declaration wins. A symbol of the global level has
    /// its position among the accessible symbols as offset; one of the
    /// current function, its position relative to where the function's
    /// locals begin; any other is captured, and the offset is the index of
    /// the current function's new upvalue. Without a match a diagnostic is
    /// reported.
    pub open spec fn resolve_symbol(self, ident: Seq<char>, span: Span) -> (
        ResolverState,
        Option<(usize, int)>,
    ) {
        match lookup(self.symbols, self.accessible_symbols, ident) {
            None => (self.report(unresolved_symbol_error(ident, span)), None),
            Some(i) => {
                let id = self.accessible_symbols[i];
                if self.level_at(i) == 0 {
                    (self, Some((i as usize, id)))
                } else if self.level_at(i) == self.current_level() {
                    (self, Some(((i - self.function_offsets.last()) as usize, id)))
                } else {
                    (
                        self.capture(i),
                        Some((self.function_upvalues[self.current_level() as int].len() as usize, id)),
                    )
                }
            },
        }
    }

    /// Resolving the identifier expression `expr`: if a declaration matches,
    /// the resolution is recorded under the expression's identity.
    pub open spec fn resolve_identifier(self, expr: u64, ident: Seq<char>, span: Span) -> ResolverState {
        let (next, found) = self.resolve_symbol(ident, span);
        match found {
            None => next,
            Some((offset, id)) => {
                let declared = function_level(
                    next.function_scope_depths,
                    next.symbols[id].scope_depth,
                );
                ResolverState {
                    resolved_symbol_table: next.resolved_symbol_table.insert(
                        expr,
                        ResolvedSymbol {
                            offset,
                            is_global: declared == 0,
                            is_upvalue: declared != 0 && next.current_level() > declared,
                            symbol: id as usize,
                        },
                    ),
                    ..next
                }
            },
        }
    }

    /// Resolving an expression.
    pub open spec fn visit_expr(self, expr: Expr) -> ResolverState
        decreases expr, 0nat,
    {
        match expr.kind {
            ExprKind::Identifier(ident) => self.resolve_identifier(expr.id, ident@, expr.span),
            ExprKind::FnCall { callee, args } => self.visit_expr(*callee).visit_exprs(
                args@,
                args@.len(),
            ),
            ExprKind::Binary { lhs, op, rhs } => {
                let walked = self.visit_expr(*lhs).visit_expr(*rhs);
                if op is Equals && !(lhs.kind is Identifier) {
                    walked.report(invalid_assignment_error(lhs.span))
                } else {
                    walked
                }
            },
            ExprKind::Unary { op, arg } => self.visit_expr(*arg),
            ExprKind::Lambda { inner_stmt, params, body } => {
                let inside = self.begin_function().visit_stmts(params@, params@.len()).visit_stmts(
                    body@,
                    body@.len(),
                );
                inside.end_function().declare_lambda(
                    inner_stmt.id,
                    inside.function_upvalues.last(),
                )
            },
            _ => self,
        }
    }

    /// Resolving the first `n` of the expressions, in order.
    pub open spec fn visit_exprs(self, exprs: Seq<Expr>, n: nat) -> ResolverState
        decreases exprs, n,
    {
        if n == 0 || n > exprs.len() {
            self
        } else {
            self.visit_exprs(exprs, (n - 1) as nat).visit_expr(exprs[n - 1])
        }
    }

    /// Resolving a statement.
    pub open spec fn visit_stmt(self, stmt: Stmt) -> ResolverState
        decreases stmt, 0nat,
    {
        match stmt.kind {
            StmtKind::LetDeclaration { ident, initializer, ty } => self.visit_expr(
                initializer,
            ).add_symbol(ident@, Some(stmt.id)),
            StmtKind::FnParam { ident } => self.add_symbol(ident@, Some(stmt.id)),
            StmtKind::FnDeclaration { ident, params, body } => {
                let inside = self.add_symbol(ident@, Some(stmt.id)).begin_function().visit_stmts(
                    params@,
                    params@.len(),
                ).visit_stmts(body@, body@.len());
                inside.end_function().set_upvalues(
                    self.symbols.len() as int,
                    inside.function_upvalues.last(),
                )
            },
            StmtKind::Block(body) => self.visit_block(body@),
            StmtKind::IfElseStmt { condition, if_block, else_block } => {
                let first = self.visit_expr(condition).visit_block(if_block@);
                match else_block {
                    Some(block) => first.visit_block(block@),
                    None => first,
                }
            },
            StmtKind::WhileStmt { condition, body } => self.visit_expr(condition).visit_block(body@),
            StmtKind::ExprStmt(expr) => self.visit_expr(expr),
            StmtKind::ReturnStmt(expr) => self.visit_expr(expr),
            StmtKind::Lambda => self,
            StmtKind::Error => self,
        }
    }

    /// Resolving the statements of a block in a scope of their own.
    pub open spec fn visit_block(self, stmts: Seq<Stmt>) -> ResolverState
        decreases stmts, stmts.len() + 1,
    {
        self.enter_scope().visit_stmts(stmts, stmts.len()).exit_scope()
    }

    /// Resolving the first `n` of the statements, in order.
    pub open spec fn visit_stmts(self, stmts: Seq<Stmt>, n: nat) -> ResolverState
        decreases stmts, n,
    {
        if n == 0 || n > stmts.len() {
            self
        } else {
            self.visit_stmts(stmts, (n - 1) as nat).visit_stmt(stmts[n - 1])
        }
    }
}

} // verus!
