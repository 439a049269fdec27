//! Variable resolution pass.

pub mod laws;
pub mod model;
pub mod proofs;

use std::collections::HashMap;
use vstd::prelude::*;
use vstd::string::StringExecFns;
use crate::ast::{expr_resolvable, stmt_resolvable, stmts_resolvable, Expr, ExprKind, Stmt, StmtKind, Token};
use crate::resolve::model::{
    function_level,
    ids_view,
    invalid_assignment_error,
    lookup,
    symbols_view,
    unresolved_symbol_error,
    upvalue_lists_view,
    ResolveResultView,
    ResolverState,
};
use crate::resolve::proofs::lemma_lookup;
use crate::source::{Source, Span, SyntaxError};
use crate::symbol::{ResolvedSymbol, ResolvedUpValue, Symbol};
use crate::value::BuiltinVars;

verus! {

/// Result of running the [`Resolver`] pass.
/// See [`Resolver::into_resolve_result`].
#[derive(Debug, Clone)]
pub struct ResolveResult {
    symbols: Vec<Symbol>,
    symbol_table: HashMap<u64, usize>,
    resolved_symbol_table: HashMap<u64, ResolvedSymbol>,
    accessible_symbols: Vec<usize>,
}

impl View for ResolveResult {
    type V = ResolveResultView;

    closed spec fn view(&self) -> ResolveResultView {
        ResolveResultView {
            symbols: symbols_view(self.symbols@),
            symbol_table: self.symbol_table@,
            resolved_symbol_table: self.resolved_symbol_table@,
            accessible_symbols: ids_view(self.accessible_symbols@),
        }
    }
}

impl ResolveResult {
    /// The invariant of a result.
    pub open spec fn wf(&self) -> bool {
        self@.wf()
    }

    /// Lookup a [`Stmt`] to get the symbol that it declared.
    pub fn lookup_declaration(&self, stmt: &Stmt) -> (found: Option<&Symbol>)
        requires
            self.wf(),
        ensures
            match found {
                Some(symbol) => self@.lookup_declaration(stmt.id) == Some(symbol@),
                None => self@.lookup_declaration(stmt.id) is None,
            },
    {
        broadcast use vstd::std_specs::hash::group_hash_axioms;

        match self.symbol_table.get(&stmt.id) {
            Some(id) => Some(&self.symbols[*id]),
            None => None,
        }
    }

    /// Lookup a [`Expr`] to get variable resolution metadata.
    pub fn lookup_identifier(&self, expr: &Expr) -> (found: Option<&ResolvedSymbol>)
        ensures
            match found {
                Some(resolved) => self@.lookup_identifier(expr.id) == Some(*resolved),
                None => self@.lookup_identifier(expr.id) is None,
            },
    {
        broadcast use vstd::std_specs::hash::group_hash_axioms;

        self.resolved_symbol_table.get(&expr.id)
    }

    /// Lookup an identifier in the current `accessible_symbols` list.
    pub fn lookup_in_accessible_symbols(&self, ident: &str) -> (found: Option<&Symbol>)
        requires
            self.wf(),
        ensures
            match found {
                Some(symbol) => self@.lookup_in_accessible_symbols(ident@) == Some(symbol@),
                None => self@.lookup_in_accessible_symbols(ident@) is None,
            },
    {
        proof {
            lemma_lookup(self@.symbols, self@.accessible_symbols, ident@);
            assert forall|i: int| 0 <= i < self.accessible_symbols@.len() implies #[trigger] self.accessible_symbols@[i]
                < self.symbols@.len() by {
                assert(0 <= self@.accessible_symbols[i] < self@.symbols.len());
            }
        }
        match find_accessible(&self.symbols, &self.accessible_symbols, ident) {
            Some(i) => Some(&self.symbols[self.accessible_symbols[i]]),
            None => None,
        }
    }

    /// The symbol at place `id` of the arena, as a
    /// [`ResolvedSymbol`] names it.
    pub fn symbol(&self, id: usize) -> (found: Option<&Symbol>)
        ensures
            match found {
                Some(symbol) => id < self@.symbols.len() && symbol@ == self@.symbols[id as int],
                None => id >= self@.symbols.len(),
            },
    {
        if id < self.symbols.len() {
            Some(&self.symbols[id])
        } else {
            None
        }
    }
}

/// Variable resolution pass.
///
/// Walks a program and finds, for every identifier use, where its value
/// lives: in a global slot, in a slot of the current call frame, or in an
/// upvalue of the current closure.
pub struct Resolver {
    /// Every symbol declared so far. The other fields name a symbol by its
    /// position here.
    symbols: Vec<Symbol>,
    /// Maps the identity of each declaring statement to its symbol.
    symbol_table: HashMap<u64, usize>,
    /// Maps the identity of each resolved identifier expression to where its
    /// value lives.
    resolved_symbol_table: HashMap<u64, ResolvedSymbol>,
    /// The symbols that are currently in scope.
    accessible_symbols: Vec<usize>,
    /// A stack of current function scope depths. The first is the global
    /// scope.
    function_scope_depths: Vec<u32>,
    /// A stack of the positions in `accessible_symbols` at which the locals
    /// of each current function begin.
    function_offsets: Vec<usize>,
    /// A stack of current function upvalues.
    function_upvalues: Vec<Vec<ResolvedUpValue>>,
    source: Source,
}

impl View for Resolver {
    type V = ResolverState;

    closed spec fn view(&self) -> ResolverState {
        ResolverState {
            symbols: symbols_view(self.symbols@),
            symbol_table: self.symbol_table@,
            resolved_symbol_table: self.resolved_symbol_table@,
            accessible_symbols: ids_view(self.accessible_symbols@),
            function_scope_depths: self.function_scope_depths@,
            function_offsets: self.function_offsets@,
            function_upvalues: upvalue_lists_view(self.function_upvalues@),
            content: self.source.content@,
            errors: self.source.errors@,
        }
    }
}

impl Resolver {
    /// The invariant of a resolver.
    pub open spec fn wf(&self) -> bool {
        self@.wf()
    }

    /// The lengths in a resolver are lengths of vectors, so they fit.
    proof fn lemma_fits(&self)
        ensures
            self@.fits(),
    {
        assert(self@.symbols.len() == self.symbols.len());
        assert(self@.accessible_symbols.len() == self.accessible_symbols.len());
        assert forall|level: int| 0 <= level < self@.function_upvalues.len() implies (#[trigger] self@.function_upvalues[level]).len()
            <= usize::MAX by {
            let list = self.function_upvalues@[level];
            assert(self@.function_upvalues[level] == list@);
            assert(list@.len() == list.len());
        }
    }

    /// Create a new empty `Resolver`.
    pub fn new(source: Source) -> (resolver: Self)
        ensures
            resolver@ == ResolverState::initial(source.content@, source.errors@),
            resolver.wf(),
            resolver@.at_top_level(),
    {
        let mut function_scope_depths: Vec<u32> = Vec::new();
        function_scope_depths.push(0);
        let mut function_offsets: Vec<usize> = Vec::new();
        function_offsets.push(0);
        let mut function_upvalues: Vec<Vec<ResolvedUpValue>> = Vec::new();
        function_upvalues.push(Vec::new());
        let resolver = Resolver {
            symbols: Vec::new(),
            symbol_table: HashMap::new(),
            resolved_symbol_table: HashMap::new(),
            accessible_symbols: Vec::new(),
            function_scope_depths,
            function_offsets,
            function_upvalues,
            source,
        };
        proof {
            let state = ResolverState::initial(source.content@, source.errors@);
            assert(resolver@.symbols =~= state.symbols);
            assert(resolver@.accessible_symbols =~= state.accessible_symbols);
            assert(resolver@.function_scope_depths =~= state.function_scope_depths);
            assert(resolver@.function_offsets =~= state.function_offsets);
            assert(resolver@.function_upvalues =~= state.function_upvalues);
            reveal(ResolverState::well_scoped);
        }
        resolver
    }

    /// Create a new `Resolver` with existing accessible symbols.
    /// This method is used to implement REPL functionality (for restoring
    /// global variables). See [`Self::into_resolve_result`].
    pub fn new_with_existing_resolve_result(source: Source, resolve_result: ResolveResult) -> (resolver:
        Self)
        requires
            resolve_result.wf(),
        ensures
            resolver@ == ResolverState::resume(resolve_result@, source.content@, source.errors@),
            resolver.wf(),
            resolver@.at_top_level(),
    {
        let fresh = Self::new(source);
        let resolver = Resolver {
            symbols: resolve_result.symbols,
            symbol_table: resolve_result.symbol_table,
            resolved_symbol_table: resolve_result.resolved_symbol_table,
            accessible_symbols: resolve_result.accessible_symbols,
            function_scope_depths: fresh.function_scope_depths,
            function_offsets: fresh.function_offsets,
            function_upvalues: fresh.function_upvalues,
            source: fresh.source,
        };
        proof {
            ResolverState::lemma_resume(resolve_result@, source.content@, source.errors@);
        }
        resolver
    }

    /// Creates a [`ResolveResult`]. This method is used to implement REPL
    /// functionality (for restoring global variables).
    /// See [`Self::new_with_existing_resolve_result`].
    pub fn into_resolve_result(self) -> (resolve_result: ResolveResult)
        requires
            self.wf(),
            self@.at_top_level(),
        ensures
            resolve_result@ == self@.result(),
            resolve_result.wf(),
    {
        proof {
            self@.lemma_result();
        }
        ResolveResult {
            symbols: self.symbols,
            symbol_table: self.symbol_table,
            resolved_symbol_table: self.resolved_symbol_table,
            accessible_symbols: self.accessible_symbols,
        }
    }

    /// Resolve a top-level function [`Stmt`]: the statements of its body
    /// are resolved in order, at the current scope.
    pub fn resolve_top_level(&mut self, func: &Stmt)
        requires
            old(self).wf(),
            func.kind is FnDeclaration,
            stmts_resolvable(func.function_body(), old(self)@.scope_depth() as nat),
        ensures
            final(self)@ == old(self)@.visit_stmts(func.function_body(), func.function_body().len()),
            final(self).wf(),
            old(self)@.extends_to(final(self)@),
            old(self)@.at_top_level() ==> final(self)@.at_top_level(),
    {
        match &func.kind {
            StmtKind::FnDeclaration { ident, params, body } => {
                self.visit_stmts(body);
            },
            _ => {},
        }
        proof {
            old(self)@.lemma_extends_keeps(self@);
        }
    }

    /// Resolve a top-level function [`Stmt`] if it is one whose body can be
    /// resolved. Returns whether it was; if not, nothing has changed.
    pub fn try_resolve_top_level(&mut self, func: &Stmt) -> (resolved: bool)
        requires
            old(self).wf(),
        ensures
            resolved == (func.kind is FnDeclaration && stmts_resolvable(
                func.function_body(),
                old(self)@.scope_depth() as nat,
            )),
            resolved ==> final(self)@ == old(self)@.visit_stmts(
                func.function_body(),
                func.function_body().len(),
            ),
            !resolved ==> final(self)@ == old(self)@,
            final(self).wf(),
            old(self)@.extends_to(final(self)@),
            old(self)@.at_top_level() ==> final(self)@.at_top_level(),
    {
        proof {
            reveal(ResolverState::well_scoped);
        }
        let depth = self.function_scope_depths[self.function_scope_depths.len() - 1];
        if func.is_resolvable_function(depth) {
            self.resolve_top_level(func);
            true
        } else {
            proof {
                self@.lemma_extends_refl();
            }
            false
        }
    }

    /// Resolve builtin variables: each becomes a symbol without a declaring
    /// statement, in order.
    pub fn resolve_builtin_vars(&mut self, builtin_vars: &BuiltinVars)
        requires
            old(self).wf(),
        ensures
            final(self)@ == old(self)@.add_builtins(builtin_vars.idents()),
            final(self).wf(),
            old(self)@.extends_to(final(self)@),
            old(self)@.at_top_level() ==> final(self)@.at_top_level(),
    {
        let ghost state = self@;
        let ghost idents = builtin_vars.idents();
        proof {
            state.lemma_extends_refl();
            let next = state.add_builtins(idents.take(0));
            assert(next.symbols =~= state.symbols);
            assert(next.accessible_symbols =~= state.accessible_symbols);
        }
        let mut i: usize = 0;
        while i < builtin_vars.values.len()
            invariant
                i <= builtin_vars.values.len(),
                state == old(self)@,
                idents == builtin_vars.idents(),
                self.wf(),
                self@ == state.add_builtins(idents.take(i as int)),
                state.extends_to(self@),
            decreases builtin_vars.values.len() - i,
        {
            let ghost before = self@;
            proof {
                before.lemma_add_symbol(idents[i as int], None);
                state.lemma_extends_keeps(before);
            }
            self.add_symbol(builtin_vars.values[i].0.clone(), None);
            proof {
                self.lemma_fits();
                state.lemma_extends_trans(before, self@);
                let next = state.add_builtins(idents.take(i + 1));
                assert(self@.symbols =~= next.symbols);
                assert(self@.accessible_symbols =~= next.accessible_symbols);
            }
            i += 1;
        }
        proof {
            assert(idents.take(i as int) =~= idents);
            state.lemma_extends_keeps(self@);
        }
    }

    /// The source that the resolver reports on.
    pub fn source(&self) -> (source: &Source)
        ensures
            source.content@ == self@.content,
            source.errors@ == self@.errors,
    {
        &self.source
    }

    /// Enter a scope.
    fn enter_scope(&mut self)
        requires
            old(self).wf(),
            old(self)@.scope_depth() < u32::MAX,
        ensures
            final(self)@ == old(self)@.enter_scope(),
    {
        proof {
            reveal(ResolverState::well_scoped);
        }
        let last = self.function_scope_depths.len() - 1;
        let depth = self.function_scope_depths[last];
        self.function_scope_depths.set(last, depth + 1);
    }

    /// Exit a scope. Removes all declarations introduced in previous scope.
    fn exit_scope(&mut self)
        requires
            old(self).wf(),
            old(self)@.scope_depth() >= 1,
        ensures
            final(self)@ == old(self)@.exit_scope(),
    {
        proof {
            reveal(ResolverState::well_scoped);
        }
        let last = self.function_scope_depths.len() - 1;
        let depth = self.function_scope_depths[last] - 1;
        self.function_scope_depths.set(last, depth);

        // Remove all symbols in current scope.
        let ghost all = old(self)@.accessible_symbols;
        let ghost pred = old(self)@.declared_within(depth);
        let mut kept: Vec<usize> = Vec::new();
        let mut i: usize = 0;
        proof {
            reveal(Seq::filter);
            assert(ids_view(kept@) =~= all.take(0).filter(pred));
        }
        while i < self.accessible_symbols.len()
            invariant
                i <= self.accessible_symbols.len(),
                self.accessible_symbols == old(self).accessible_symbols,
                self.symbols == old(self).symbols,
                all == ids_view(self.accessible_symbols@),
                pred == old(self)@.declared_within(depth),
                old(self)@.symbols == symbols_view(self.symbols@),
                forall|j: int|
                    0 <= j < all.len() ==> 0 <= #[trigger] all[j] < self.symbols@.len(),
                ids_view(kept@) == all.take(i as int).filter(pred),
            decreases self.accessible_symbols.len() - i,
        {
            let id = self.accessible_symbols[i];
            assert(all[i as int] == id);
            let ghost before = kept@;
            if self.symbols[id].scope_depth <= depth {
                kept.push(id);
            }
            proof {
                reveal(Seq::filter);
                let next = all.take(i + 1);
                assert(next.drop_last() =~= all.take(i as int));
                assert(next.last() == id as int);
                assert(pred(id as int) == (self.symbols@[id as int].scope_depth <= depth));
                if pred(id as int) {
                    assert(ids_view(kept@) =~= ids_view(before).push(id as int));
                }
            }
            i += 1;
        }
        proof {
            assert(all.take(i as int) =~= all);
        }
        self.accessible_symbols = kept;
    }

    /// Adds a symbol to `self.accessible_symbols` and, if a statement
    /// declares it, to `self.symbol_table`. Returns its place in the arena.
    fn add_symbol(&mut self, ident: String, stmt: Option<&Stmt>) -> (id: usize)
        requires
            old(self).wf(),
        ensures
            final(self)@ == old(self)@.add_symbol(
                ident@,
                match stmt {
                    Some(stmt) => Some(stmt.id),
                    None => None,
                },
            ),
            id == old(self)@.symbols.len(),
    {
        broadcast use vstd::std_specs::hash::group_hash_axioms;

        proof {
            reveal(ResolverState::well_scoped);
        }
        let key = match stmt {
            Some(stmt) => Some(stmt.id),
            None => None,
        };
        let depth = self.function_scope_depths[self.function_scope_depths.len() - 1];
        let id = self.symbols.len();
        let symbol = Symbol::new(ident, depth, key);
        self.symbols.push(symbol);
        self.accessible_symbols.push(id);
        if let Some(key) = key {
            self.symbol_table.insert(key, id);
        }
        proof {
            let next = old(self)@.add_symbol(ident@, key);
            assert(self@.symbols =~= next.symbols);
            assert(self@.accessible_symbols =~= next.accessible_symbols);
            assert(self@.function_upvalues =~= next.function_upvalues);
        }
        id
    }

    /// Returns the function scope depth of the specified `scope_depth`.
    fn find_function_scope_depth(&self, scope_depth: u32) -> (level: usize)
        ensures
            level == function_level(self@.function_scope_depths, scope_depth),
            level <= self@.function_scope_depths.len(),
    {
        let mut i = self.function_scope_depths.len();
        proof {
            assert(self.function_scope_depths@.take(i as int) =~= self.function_scope_depths@);
        }
        while i > 0
            invariant
                i <= self.function_scope_depths.len(),
                function_level(self.function_scope_depths@, scope_depth) == function_level(
                    self.function_scope_depths@.take(i as int),
                    scope_depth,
                ),
            decreases i,
        {
            if self.function_scope_depths[i - 1] < scope_depth {
                return i;
            }
            proof {
                assert(self.function_scope_depths@.take(i as int).drop_last()
                    =~= self.function_scope_depths@.take(i - 1));
            }
            i -= 1;
        }
        0
    }

    /// Returns `true` if both scope depths are in the same function (e.g.
    /// using block statements). Returns `false` otherwise.
    fn in_same_function_scope(&self, first: u32, second: u32) -> (same: bool)
        ensures
            same == (function_level(self@.function_scope_depths, first) == function_level(
                self@.function_scope_depths,
                second,
            )),
    {
        self.find_function_scope_depth(first) == self.find_function_scope_depth(second)
    }

    /// Enters the body of a function or lambda.
    fn begin_function(&mut self)
        requires
            old(self).wf(),
            old(self)@.scope_depth() < u32::MAX,
        ensures
            final(self)@ == old(self)@.begin_function(),
    {
        proof {
            reveal(ResolverState::well_scoped);
        }
        let depth = self.function_scope_depths[self.function_scope_depths.len() - 1];
        self.function_offsets.push(self.accessible_symbols.len());
        self.function_upvalues.push(Vec::new());
        self.function_scope_depths.push(depth + 1);
        proof {
            let next = old(self)@.begin_function();
            assert(self@.function_upvalues =~= next.function_upvalues);
        }
    }

    /// Leaves the body of a function or lambda, and returns the upvalues
    /// that were found for it.
    fn end_function(&mut self) -> (upvalues: Vec<ResolvedUpValue>)
        requires
            old(self).wf(),
            old(self)@.function_scope_depths.len() >= 2,
            old(self)@.scope_depth() >= 1,
        ensures
            final(self)@ == old(self)@.end_function(),
            upvalues@ == old(self)@.function_upvalues.last(),
    {
        proof {
            reveal(ResolverState::well_scoped);
        }
        self.exit_scope();
        let ghost left = self@;
        self.function_scope_depths.pop();
        self.function_offsets.pop();
        let upvalues = self.function_upvalues.pop().unwrap();
        proof {
            let next = old(self)@.end_function();
            assert(self@.function_upvalues =~= next.function_upvalues);
        }
        upvalues
    }

    /// Reports a diagnostic.
    fn report(&mut self, error: SyntaxError)
        ensures
            final(self)@ == old(self)@.report(error@),
    {
        self.source.errors.add_error(error);
    }

    /// Marks the accessible symbol at position `i` as captured and threads
    /// an upvalue for it through every function from the one just inside
    /// its declaring function to the current one. Returns the index of the
    /// current function's new upvalue.
    fn capture(&mut self, i: usize) -> (offset: usize)
        requires
            old(self).wf(),
            i < old(self)@.accessible_symbols.len(),
            0 < old(self)@.level_at(i as int) < old(self)@.current_level(),
        ensures
            final(self)@ == old(self)@.capture(i as int),
            offset == old(self)@.function_upvalues[old(self)@.current_level() as int].len(),
    {
        let ghost state = self@;
        proof {
            state.lemma_symbol_at(i as int);
            state.lemma_current_level();
        }
        let id = self.accessible_symbols[i];
        let declared = self.find_function_scope_depth(self.symbols[id].scope_depth);
        let current = self.function_scope_depths.len() - 1;
        let slot = i - self.function_offsets[declared];
        self.symbols[id].is_captured = true;
        let ghost marked = *self;
        proof {
            assert(symbols_view(self.symbols@) =~= state.capture(i as int).symbols);
        }

        // thread upvalue in enclosing functions
        let mut prev_upvalue_index: usize = 0;
        let mut level = declared + 1;
        while level <= current
            invariant
                declared < level <= current + 1,
                current < usize::MAX,
                declared < state.function_offsets.len(),
                current + 1 == self.function_upvalues@.len(),
                state == old(self)@,
                declared == state.level_at(i as int),
                current == state.current_level(),
                slot == i - state.function_offsets[declared as int],
                state.function_upvalues.len() == current + 1,
                self.symbols == marked.symbols,
                self.symbol_table == marked.symbol_table,
                self.resolved_symbol_table == marked.resolved_symbol_table,
                self.accessible_symbols == marked.accessible_symbols,
                self.function_scope_depths == marked.function_scope_depths,
                self.function_offsets == marked.function_offsets,
                self.source == marked.source,
                forall|l: int|
                    0 <= l <= current ==> (#[trigger] self.function_upvalues@[l])@ == (if declared < l
                        < level {
                        state.function_upvalues[l].push(state.threaded_upvalue(i as int, l))
                    } else {
                        state.function_upvalues[l]
                    }),
                level > declared + 1 ==> prev_upvalue_index == state.function_upvalues[level - 1].len(),
            decreases current + 1 - level,
        {
            let is_local = level == declared + 1;
            let index = if is_local {
                slot
            } else {
                prev_upvalue_index
            };
            let ghost lists = self.function_upvalues@;
            self.function_upvalues[level].push(ResolvedUpValue { is_local, index });
            prev_upvalue_index = self.function_upvalues[level].len() - 1;
            proof {
                assert(state.function_upvalues[level as int] == lists[level as int]@);
                assert forall|l: int| 0 <= l <= current implies (#[trigger] self.function_upvalues@[l])@ == (if declared
                    < l < level + 1 {
                    state.function_upvalues[l].push(state.threaded_upvalue(i as int, l))
                } else {
                    state.function_upvalues[l]
                }) by {
                    if l != level {
                        assert(self.function_upvalues@[l] == lists[l]);
                    }
                }
            }
            level += 1;
        }
        proof {
            assert(upvalue_lists_view(self.function_upvalues@) =~= state.capture(i as int).function_upvalues);
        }
        self.function_upvalues[current].len() - 1
    }

    /// Returns the offset of the variable and its symbol, or `None` if no
    /// declaration in scope has that name; a diagnostic is then reported at
    /// `span`.
    fn resolve_symbol(&mut self, ident: &str, span: Span) -> (found: Option<(usize, usize)>)
        requires
            old(self).wf(),
        ensures
            final(self)@ == old(self)@.resolve_symbol(ident@, span).0,
            match found {
                Some((offset, id)) => old(self)@.resolve_symbol(ident@, span).1 == Some(
                    (offset, id as int),
                ),
                None => old(self)@.resolve_symbol(ident@, span).1 is None,
            },
    {
        let ghost state = self@;
        proof {
            reveal(ResolverState::well_scoped);
            lemma_lookup(state.symbols, state.accessible_symbols, ident@);
            assert forall|i: int| 0 <= i < self.accessible_symbols@.len() implies #[trigger] self.accessible_symbols@[i]
                < self.symbols@.len() by {
                assert(0 <= state.accessible_symbols[i] < state.symbols.len());
            }
        }
        match find_accessible(&self.symbols, &self.accessible_symbols, ident) {
            None => {
                self.report(unresolved_symbol(ident, span));
                None
            },
            Some(i) => {
                proof {
                    state.lemma_symbol_at(i as int);
                }
                let id = self.accessible_symbols[i];
                let scope_depth = self.symbols[id].scope_depth;
                let current_depth = self.function_scope_depths[self.function_scope_depths.len() - 1];
                if self.find_function_scope_depth(scope_depth) == 0 {
                    Some((i, id))
                } else if self.in_same_function_scope(scope_depth, current_depth) {
                    let current_func_offset = self.function_offsets[self.function_offsets.len() - 1];
                    Some((i - current_func_offset, id))
                } else {
                    // capture outer variable
                    let offset = self.capture(i);
                    Some((offset, id))
                }
            },
        }
    }

    /// Resolves an identifier expression and records where its value lives.
    fn resolve_identifier(&mut self, expr: &Expr, ident: &str)
        requires
            old(self).wf(),
        ensures
            final(self)@ == old(self)@.resolve_identifier(expr.id, ident@, expr.span),
    {
        broadcast use vstd::std_specs::hash::group_hash_axioms;

        let ghost state = self@;
        proof {
            state.lemma_resolve_symbol(ident@, expr.span);
        }
        if let Some((offset, id)) = self.resolve_symbol(ident, expr.span) {
            proof {
                reveal(ResolverState::well_scoped);
                state.lemma_extends_keeps(self@);
            }
            let scope_depth = self.symbols[id].scope_depth;
            let current_depth = self.function_scope_depths[self.function_scope_depths.len() - 1];
            let declared = self.find_function_scope_depth(scope_depth);
            let current = self.find_function_scope_depth(current_depth);
            self.resolved_symbol_table.insert(
                expr.id,
                ResolvedSymbol {
                    offset,
                    is_global: declared == 0,
                    is_upvalue: declared != 0 && current > declared,
                    symbol: id,
                },
            );
        }
    }

    /// Resolves an expression.
    pub fn visit_expr(&mut self, expr: &Expr)
        requires
            old(self).wf(),
            expr_resolvable(*expr, old(self)@.scope_depth() as nat),
        ensures
            final(self)@ == old(self)@.visit_expr(*expr),
            final(self).wf(),
            old(self)@.extends_to(final(self)@),
        decreases expr, 0nat,
    {
        let ghost state = self@;
        proof {
            state.lemma_visit_expr(*expr);
        }
        match &expr.kind {
            ExprKind::Identifier(ident) => {
                self.resolve_identifier(expr, ident.as_str());
                proof {
                    self.lemma_fits();
                }
            },
            ExprKind::FnCall { callee, args } => {
                self.visit_expr(callee);
                proof {
                    state.lemma_extends_keeps(self@);
                }
                self.visit_exprs(args);
            },
            ExprKind::Binary { lhs, op, rhs } => {
                self.visit_expr(lhs);
                proof {
                    state.lemma_extends_keeps(self@);
                }
                self.visit_expr(rhs);
                let assigns = match op {
                    Token::Equals => true,
                    _ => false,
                };
                // make sure lhs is an identifier
                let to_identifier = match &lhs.kind {
                    ExprKind::Identifier(_) => true,
                    _ => false,
                };
                if assigns && !to_identifier {
                    self.report(invalid_assignment(lhs.span));
                    proof {
                        self.lemma_fits();
                    }
                }
            },
            ExprKind::Unary { op, arg } => {
                self.visit_expr(arg);
            },
            ExprKind::Lambda { inner_stmt, params, body } => {
                proof {
                    state.lemma_begin_function();
                }
                self.begin_function();
                proof {
                    self.lemma_fits();
                }
                let ghost entered = self@;
                // add arguments
                self.visit_stmts(params);
                proof {
                    entered.lemma_extends_keeps(self@);
                }
                let ghost mid = self@;
                self.visit_stmts(body);
                proof {
                    entered.lemma_extends_trans(mid, self@);
                    state.lemma_end_function(self@);
                    entered.lemma_extends_keeps(self@);
                    self@.lemma_current_level();
                }
                let upvalues = self.end_function();
                proof {
                    self.lemma_fits();
                }
                self.declare_lambda(inner_stmt, upvalues);
                proof {
                    self.lemma_fits();
                }
            },
            _ => {},
        }
    }

    /// Resolves the expressions in order.
    fn visit_exprs(&mut self, exprs: &Vec<Expr>)
        requires
            old(self).wf(),
            forall|i: int|
                0 <= i < exprs@.len() ==> expr_resolvable(
                    #[trigger] exprs@[i],
                    old(self)@.scope_depth() as nat,
                ),
        ensures
            final(self)@ == old(self)@.visit_exprs(exprs@, exprs@.len()),
            final(self).wf(),
            old(self)@.extends_to(final(self)@),
        decreases exprs, 1nat,
    {
        let ghost state = self@;
        proof {
            state.lemma_extends_refl();
        }
        let mut i: usize = 0;
        while i < exprs.len()
            invariant
                i <= exprs.len(),
                state == old(self)@,
                self.wf(),
                self@ == state.visit_exprs(exprs@, i as nat),
                state.extends_to(self@),
                forall|j: int|
                    0 <= j < exprs@.len() ==> expr_resolvable(
                        #[trigger] exprs@[j],
                        state.scope_depth() as nat,
                    ),
            decreases exprs.len() - i,
        {
            let ghost before = self@;
            proof {
                state.lemma_extends_keeps(before);
            }
            self.visit_expr(&exprs[i]);
            proof {
                state.lemma_extends_trans(before, self@);
            }
            i += 1;
        }
    }

    /// Records the symbol of a lambda whose body has been resolved.
    fn declare_lambda(&mut self, inner_stmt: &Stmt, upvalues: Vec<ResolvedUpValue>)
        requires
            old(self).wf(),
        ensures
            final(self)@ == old(self)@.declare_lambda(inner_stmt.id, upvalues@),
    {
        broadcast use vstd::std_specs::hash::group_hash_axioms;

        proof {
            reveal(ResolverState::well_scoped);
        }
        let depth = self.function_scope_depths[self.function_scope_depths.len() - 1];
        let id = self.symbols.len();
        // patch self.symbol_table with upvalues
        self.symbols.push(
            Symbol {
                ident: String::from_str("lambda"),
                scope_depth: depth,
                is_captured: false,
                upvalues,
                stmt: Some(inner_stmt.id),
            },
        );
        self.symbol_table.insert(inner_stmt.id, id);
        proof {
            let next = old(self)@.declare_lambda(inner_stmt.id, upvalues@);
            assert(self@.symbols =~= next.symbols);
        }
    }

    /// Resolves a statement.
    pub fn visit_stmt(&mut self, stmt: &Stmt)
        requires
            old(self).wf(),
            stmt_resolvable(*stmt, old(self)@.scope_depth() as nat),
        ensures
            final(self)@ == old(self)@.visit_stmt(*stmt),
            final(self).wf(),
            old(self)@.extends_to(final(self)@),
        decreases stmt, 0nat,
    {
        let ghost state = self@;
        proof {
            state.lemma_visit_stmt(*stmt);
        }
        match &stmt.kind {
            StmtKind::LetDeclaration { ident, initializer, ty } => {
                self.visit_expr(initializer);
                self.add_symbol(ident.clone(), Some(stmt));
                proof {
                    self.lemma_fits();
                }
            },
            StmtKind::FnParam { ident } => {
                self.add_symbol(ident.clone(), Some(stmt));
                proof {
                    self.lemma_fits();
                }
            },
            StmtKind::FnDeclaration { ident, params, body } => {
                // Add symbol first to allow for recursion.
                let id = self.add_symbol(ident.clone(), Some(stmt));
                proof {
                    self.lemma_fits();
                }
                let ghost declared = self@;
                proof {
                    state.lemma_add_symbol(ident@, Some(stmt.id));
                    state.lemma_extends_keeps(declared);
                    declared.lemma_begin_function();
                }
                self.begin_function();
                proof {
                    self.lemma_fits();
                }
                let ghost entered = self@;
                // add arguments
                self.visit_stmts(params);
                proof {
                    entered.lemma_extends_keeps(self@);
                }
                let ghost mid = self@;
                self.visit_stmts(body);
                proof {
                    entered.lemma_extends_trans(mid, self@);
                    declared.lemma_end_function(self@);
                    entered.lemma_extends_keeps(self@);
                    self@.lemma_current_level();
                }
                let upvalues = self.end_function();
                proof {
                    self.lemma_fits();
                }
                proof {
                    declared.lemma_extends_keeps(self@);
                }
                // patch self.symbol_table with upvalues
                let ghost left = self@;
                self.symbols[id].upvalues = upvalues;
                proof {
                    self.lemma_fits();
                }
                proof {
                    let next = left.set_upvalues(id as int, upvalues@);
                    assert(self@.symbols =~= next.symbols);
                }
            },
            StmtKind::Block(body) => {
                self.visit_block(body);
            },
            StmtKind::IfElseStmt { condition, if_block, else_block } => {
                self.visit_expr(condition);
                proof {
                    state.lemma_extends_keeps(self@);
                }
                self.visit_block(if_block);
                if let Some(else_block) = else_block {
                    proof {
                        let mid = state.visit_expr(*condition);
                        state.lemma_visit_expr(*condition);
                        state.lemma_extends_keeps(mid);
                        mid.lemma_visit_block(if_block@);
                        mid.lemma_extends_keeps(self@);
                    }
                    self.visit_block(else_block);
                }
            },
            StmtKind::WhileStmt { condition, body } => {
                self.visit_expr(condition);
                proof {
                    state.lemma_extends_keeps(self@);
                }
                self.visit_block(body);
            },
            StmtKind::ExprStmt(expr) => {
                self.visit_expr(expr);
            },
            StmtKind::ReturnStmt(expr) => {
                self.visit_expr(expr);
            },
            StmtKind::Lambda => {},
            StmtKind::Error => {},
        }
    }

    /// Resolves the statements of a block in a scope of their own.
    fn visit_block(&mut self, stmts: &Vec<Stmt>)
        requires
            old(self).wf(),
            old(self)@.scope_depth() < u32::MAX,
            stmts_resolvable(stmts@, old(self)@.scope_depth() as nat + 1),
        ensures
            final(self)@ == old(self)@.visit_block(stmts@),
            final(self).wf(),
            old(self)@.extends_to(final(self)@),
        decreases stmts, 2nat,
    {
        let ghost state = self@;
        proof {
            state.lemma_visit_block(stmts@);
            state.lemma_enter_scope();
        }
        self.enter_scope();
        proof {
            self.lemma_fits();
        }
        let ghost entered = self@;
        self.visit_stmts(stmts);
        proof {
            entered.lemma_extends_keeps(self@);
        }
        self.exit_scope();
        proof {
            self.lemma_fits();
        }
    }

    /// Resolves the statements in order.
    fn visit_stmts(&mut self, stmts: &Vec<Stmt>)
        requires
            old(self).wf(),
            stmts_resolvable(stmts@, old(self)@.scope_depth() as nat),
        ensures
            final(self)@ == old(self)@.visit_stmts(stmts@, stmts@.len()),
            final(self).wf(),
            old(self)@.extends_to(final(self)@),
        decreases stmts, 1nat,
    {
        let ghost state = self@;
        proof {
            state.lemma_extends_refl();
        }
        let mut i: usize = 0;
        while i < stmts.len()
            invariant
                i <= stmts.len(),
                state == old(self)@,
                self.wf(),
                self@ == state.visit_stmts(stmts@, i as nat),
                state.extends_to(self@),
                stmts_resolvable(stmts@, state.scope_depth() as nat),
            decreases stmts.len() - i,
        {
            let ghost before = self@;
            proof {
                state.lemma_extends_keeps(before);
            }
            self.visit_stmt(&stmts[i]);
            proof {
                state.lemma_extends_trans(before, self@);
            }
            i += 1;
        }
    }
}

/// The position in `accessible` of the most recently declared symbol named
/// `ident`.
fn find_accessible(symbols: &Vec<Symbol>, accessible: &Vec<usize>, ident: &str) -> (found: Option<
    usize,
>)
    requires
        forall|i: int| 0 <= i < accessible@.len() ==> #[trigger] accessible@[i] < symbols@.len(),
    ensures
        match found {
            Some(i) => lookup(symbols_view(symbols@), ids_view(accessible@), ident@) == Some(i as int),
            None => lookup(symbols_view(symbols@), ids_view(accessible@), ident@) is None,
        },
{
    let wanted = String::from_str(ident);
    let ghost all = ids_view(accessible@);
    let mut i = accessible.len();
    proof {
        assert(all.take(i as int) =~= all);
    }
    while i > 0
        invariant
            i <= accessible.len(),
            all == ids_view(accessible@),
            wanted@ == ident@,
            forall|j: int| 0 <= j < accessible@.len() ==> #[trigger] accessible@[j] < symbols@.len(),
            lookup(symbols_view(symbols@), all, ident@) == lookup(
                symbols_view(symbols@),
                all.take(i as int),
                ident@,
            ),
        decreases i,
    {
        let id = accessible[i - 1];
        proof {
            assert(all.take(i as int).last() == id as int);
            assert(all.take(i as int).drop_last() =~= all.take(i - 1));
        }
        if symbols[id].ident == wanted {
            return Some(i - 1);
        }
        i -= 1;
    }
    None
}

/// The diagnostic for an identifier that no visible declaration matches.
fn unresolved_symbol(ident: &str, span: Span) -> (error: SyntaxError)
    ensures
        error@ == unresolved_symbol_error(ident@, span),
{
    let mut message = String::from_str("cannot resolve symbol \"");
    message.append(ident);
    message.append("\"");
    let mut help = String::from_str("make sure symbol \"");
    help.append(ident);
    help.append("\" is in scope");
    SyntaxError::new(message, span).with_help(help)
}

/// The diagnostic for an assignment whose target is not an identifier.
fn invalid_assignment(span: Span) -> (error: SyntaxError)
    ensures
        error@ == invalid_assignment_error(span),
{
    SyntaxError::new(String::from_str("invalid left-hand side of assignment"), span).with_help(
        String::from_str("left-hand side of an assignment must be an identifier"),
    )
}

} // verus!
