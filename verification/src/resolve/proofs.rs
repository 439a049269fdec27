//! Proofs about the model: each step keeps the state well formed, and a
//! whole walk leaves the function stacks and the accessible symbols as it
//! found them, but for what was declared on the way.

use vstd::prelude::*;
use crate::ast::{expr_resolvable, stmt_resolvable, stmts_resolvable, Expr, ExprKind, Stmt, StmtKind};
use crate::source::{Span, SyntaxErrorView};
use crate::symbol::{ResolvedUpValue, SymbolView};
use crate::resolve::model::{function_level, lookup, ResolveResultView, ResolverState};

verus! {

/// What `function_level` finds: a level within the stack, whose function was
/// at a lesser depth than `scope_depth`, while every function further in was
/// not.
pub proof fn lemma_function_level(depths: Seq<u32>, scope_depth: u32)
    ensures
        function_level(depths, scope_depth) <= depths.len(),
        function_level(depths, scope_depth) > 0 ==> depths[function_level(depths, scope_depth) - 1]
            < scope_depth,
        forall|k: int|
            function_level(depths, scope_depth) <= k < depths.len() ==> #[trigger] depths[k]
                >= scope_depth,
    decreases depths.len(),
{
    if depths.len() > 0 && depths.last() >= scope_depth {
        let rest = depths.drop_last();
        lemma_function_level(rest, scope_depth);
        assert forall|k: int|
            function_level(depths, scope_depth) <= k < depths.len() implies #[trigger] depths[k]
            >= scope_depth by {
            if k < rest.len() {
                assert(rest[k] >= scope_depth);
            }
        }
    }
}

/// What `lookup` finds: the last position that holds a symbol of that name.
pub proof fn lemma_lookup(symbols: Seq<SymbolView>, accessible: Seq<int>, ident: Seq<char>)
    ensures
        match lookup(symbols, accessible, ident) {
            Some(i) => {
                &&& 0 <= i < accessible.len()
                &&& symbols[accessible[i]].ident == ident
                &&& forall|j: int|
                    i < j < accessible.len() ==> symbols[#[trigger] accessible[j]].ident != ident
            },
            None => forall|j: int|
                0 <= j < accessible.len() ==> symbols[#[trigger] accessible[j]].ident != ident,
        },
    decreases accessible.len(),
{
    if accessible.len() > 0 && symbols[accessible.last()].ident != ident {
        let rest = accessible.drop_last();
        lemma_lookup(symbols, rest, ident);
        match lookup(symbols, accessible, ident) {
            Some(i) => {
                assert(rest[i] == accessible[i]);
                assert forall|j: int| i < j < accessible.len() implies symbols[#[trigger] accessible[j]].ident
                    != ident by {
                    if j < rest.len() {
                        assert(rest[j] == accessible[j]);
                    }
                }
            },
            None => {
                assert forall|j: int| 0 <= j < accessible.len() implies symbols[#[trigger] accessible[j]].ident
                    != ident by {
                    if j < rest.len() {
                        assert(rest[j] == accessible[j]);
                    }
                }
            },
        }
    }
}

/// A filter that holds of the first `n` items and of no other keeps exactly
/// those.
pub proof fn lemma_filter_keeps_prefix<A>(s: Seq<A>, pred: spec_fn(A) -> bool, n: int)
    requires
        0 <= n <= s.len(),
        forall|i: int| 0 <= i < n ==> pred(#[trigger] s[i]),
        forall|i: int| n <= i < s.len() ==> !pred(#[trigger] s[i]),
    ensures
        s.filter(pred) == s.take(n),
    decreases s.len(),
{
    reveal(Seq::filter);
    if s.len() == 0 {
        assert(s.filter(pred) =~= s.take(n));
    } else if n == s.len() {
        lemma_filter_keeps_prefix(s.drop_last(), pred, n - 1);
        assert(s.drop_last().take(n - 1).push(s.last()) =~= s.take(n));
    } else {
        lemma_filter_keeps_prefix(s.drop_last(), pred, n);
        assert(s.drop_last().take(n) =~= s.take(n));
    }
}

impl ResolverState {
    /// In a well formed state the function being resolved is the innermost
    /// one on the stacks.
    pub proof fn lemma_current_level(self)
        requires
            self.well_scoped(),
        ensures
            self.function_scope_depths.len() >= 1,
            self.function_offsets.len() == self.function_scope_depths.len(),
            self.function_upvalues.len() == self.function_scope_depths.len(),
            self.current_level() == self.function_scope_depths.len() - 1,
    {
        reveal(ResolverState::well_scoped);
        let depths = self.function_scope_depths;
        lemma_function_level(depths, self.scope_depth());
        let level = function_level(depths, self.scope_depth());
        if level < depths.len() - 1 {
            assert(depths[depths.len() - 2] < depths[depths.len() - 1]);
        }
    }

    /// In a well formed state an accessible symbol is a symbol of the arena,
    /// declared by the current function or one around it, at or after the
    /// position at which the locals of its function begin.
    pub proof fn lemma_symbol_at(self, i: int)
        requires
            self.well_scoped(),
            0 <= i < self.accessible_symbols.len(),
        ensures
            0 <= self.accessible_symbols[i] < self.symbols.len(),
            self.level_at(i) <= self.current_level(),
            self.current_level() == self.function_scope_depths.len() - 1,
            self.level_at(i) > 0 ==> self.function_offsets[self.level_at(i) as int] <= i,
    {
        self.lemma_current_level();
        reveal(ResolverState::well_scoped);
        let depths = self.function_scope_depths;
        lemma_function_level(depths, self.depth_at(i));
        let level = self.level_at(i);
        if level == depths.len() {
            assert(self.depth_at(i) <= self.scope_depth());
        }
        if level > 0 {
            assert(self.depth_at(i) > depths[level - 1]);
        }
    }

    /// Anything extends to itself.
    pub proof fn lemma_extends_refl(self)
        ensures
            self.extends_to(self),
    {
        reveal(ResolverState::extends_to);
    }

    /// Extension is transitive.
    pub proof fn lemma_extends_trans(self, mid: ResolverState, next: ResolverState)
        requires
            self.extends_to(mid),
            mid.well_scoped(),
            mid.extends_to(next),
        ensures
            self.extends_to(next),
    {
        reveal(ResolverState::extends_to);
        reveal(ResolverState::well_scoped);
        assert forall|i: int|
            self.accessible_symbols.len() <= i < next.accessible_symbols.len() implies #[trigger] next.depth_at(
            i,
        ) == self.scope_depth() by {
            if i < mid.accessible_symbols.len() {
                assert(mid.depth_at(i) == self.scope_depth());
                assert(next.accessible_symbols[i] == mid.accessible_symbols[i]);
                assert(0 <= mid.accessible_symbols[i] < mid.symbols.len());
            } else {
                assert(next.depth_at(i) == mid.scope_depth());
            }
        }
    }

    /// What an extension keeps.
    pub proof fn lemma_extends_keeps(self, next: ResolverState)
        requires
            self.extends_to(next),
        ensures
            next.function_scope_depths == self.function_scope_depths,
            next.function_offsets == self.function_offsets,
            next.function_upvalues.len() == self.function_upvalues.len(),
            next.scope_depth() == self.scope_depth(),
            self.symbols.len() <= next.symbols.len(),
            self.accessible_symbols.len() <= next.accessible_symbols.len(),
            self.at_top_level() ==> next.at_top_level(),
    {
        reveal(ResolverState::extends_to);
    }

    pub proof fn lemma_enter_scope(self)
        requires
            self.well_scoped(),
            self.scope_depth() < u32::MAX,
        ensures
            self.enter_scope().well_scoped(),
            self.enter_scope().scope_depth() == self.scope_depth() + 1,
    {
        reveal(ResolverState::well_scoped);
        let next = self.enter_scope();
        assert forall|i: int| 0 <= i < next.accessible_symbols.len() implies #[trigger] next.depth_at(i)
            <= next.scope_depth() by {
            assert(self.depth_at(i) <= self.scope_depth());
        }
        assert forall|i: int, j: int|
            0 <= i <= j < next.accessible_symbols.len() implies #[trigger] next.depth_at(i)
            <= #[trigger] next.depth_at(j) by {
            assert(self.depth_at(i) <= self.depth_at(j));
        }
        assert forall|i: int, k: int|
            0 <= i < next.accessible_symbols.len() && 0 <= k < next.function_scope_depths.len() - 1
                && #[trigger] next.depth_at(i) > #[trigger] next.function_scope_depths[k] implies next.function_offsets[k
                + 1] <= i by {
            assert(self.depth_at(i) > self.function_scope_depths[k]);
        }
    }

    pub proof fn lemma_begin_function(self)
        requires
            self.well_scoped(),
            self.scope_depth() < u32::MAX,
        ensures
            self.begin_function().well_scoped(),
            self.begin_function().scope_depth() == self.scope_depth() + 1,
    {
        reveal(ResolverState::well_scoped);
        let next = self.begin_function();
        let depths = self.function_scope_depths;
        assert forall|j: int, k: int| 0 <= j < k < next.function_scope_depths.len() implies next.function_scope_depths[j]
            < next.function_scope_depths[k] by {
            if k == depths.len() {
                if j < depths.len() - 1 {
                    assert(depths[j] < depths[depths.len() - 1]);
                }
            }
        }
        assert forall|i: int| 0 <= i < next.accessible_symbols.len() implies #[trigger] next.depth_at(i)
            <= next.scope_depth() by {
            assert(self.depth_at(i) <= self.scope_depth());
        }
        assert forall|i: int, j: int|
            0 <= i <= j < next.accessible_symbols.len() implies #[trigger] next.depth_at(i)
            <= #[trigger] next.depth_at(j) by {
            assert(self.depth_at(i) <= self.depth_at(j));
        }
        assert forall|i: int, k: int|
            0 <= i < next.accessible_symbols.len() && 0 <= k < next.function_scope_depths.len() - 1
                && #[trigger] next.depth_at(i) > #[trigger] next.function_scope_depths[k] implies next.function_offsets[k
                + 1] <= i by {
            assert(self.depth_at(i) <= self.scope_depth());
            if k < depths.len() - 1 {
                assert(self.depth_at(i) > self.function_scope_depths[k]);
            }
        }
        assert forall|k: int| 0 <= k < next.function_offsets.len() implies #[trigger] next.function_offsets[k]
            <= next.accessible_symbols.len() by {
            if k < depths.len() {
                assert(self.function_offsets[k] <= self.accessible_symbols.len());
            }
        }
    }

    pub proof fn lemma_add_symbol(self, ident: Seq<char>, stmt: Option<u64>)
        requires
            self.well_scoped(),
        ensures
            self.add_symbol(ident, stmt).well_scoped(),
            self.extends_to(self.add_symbol(ident, stmt)),
    {
        reveal(ResolverState::well_scoped);
        reveal(ResolverState::extends_to);
        let next = self.add_symbol(ident, stmt);
        let count = self.accessible_symbols.len() as int;
        assert forall|i: int| 0 <= i < next.accessible_symbols.len() implies 0
            <= #[trigger] next.accessible_symbols[i] < next.symbols.len() by {
            if i < count {
                assert(0 <= self.accessible_symbols[i] < self.symbols.len());
            }
        }
        assert forall|i: int| 0 <= i < next.accessible_symbols.len() implies #[trigger] next.depth_at(i)
            == (if i < count {
            self.depth_at(i)
        } else {
            self.scope_depth()
        }) by {
            if i < count {
                assert(0 <= self.accessible_symbols[i] < self.symbols.len());
            }
        }
        assert forall|i: int| 0 <= i < next.accessible_symbols.len() implies #[trigger] next.depth_at(i)
            <= next.scope_depth() by {
            if i < count {
                assert(self.depth_at(i) <= self.scope_depth());
            }
        }
        assert forall|i: int, j: int|
            0 <= i <= j < next.accessible_symbols.len() implies #[trigger] next.depth_at(i)
            <= #[trigger] next.depth_at(j) by {
            if j < count {
                assert(self.depth_at(i) <= self.depth_at(j));
            } else if i < count {
                assert(self.depth_at(i) <= self.scope_depth());
            }
        }
        assert forall|i: int, k: int|
            0 <= i < next.accessible_symbols.len() && 0 <= k < next.function_scope_depths.len() - 1
                && #[trigger] next.depth_at(i) > #[trigger] next.function_scope_depths[k] implies next.function_offsets[k
                + 1] <= i by {
            if i < count {
                assert(self.depth_at(i) > self.function_scope_depths[k]);
            } else {
                assert(self.function_offsets[k + 1] <= count);
            }
        }
        assert forall|k: int| 0 <= k < next.function_offsets.len() implies #[trigger] next.function_offsets[k]
            <= next.accessible_symbols.len() by {
            assert(self.function_offsets[k] <= count);
        }
        assert forall|key: u64| #[trigger] next.symbol_table.contains_key(key) implies next.symbol_table[key]
            < next.symbols.len() by {
            if self.symbol_table.contains_key(key) {
                assert(self.symbol_table[key] < self.symbols.len());
            }
        }
        assert forall|key: u64| #[trigger]
            next.resolved_symbol_table.contains_key(key) implies next.resolved_symbol_table[key].is_sound(next.symbols.len()) by {
            assert(self.resolved_symbol_table[key].is_sound(self.symbols.len()));
        }
    }

    pub proof fn lemma_report(self, error: SyntaxErrorView)
        requires
            self.well_scoped(),
        ensures
            self.report(error).well_scoped(),
            self.extends_to(self.report(error)),
    {
        reveal(ResolverState::well_scoped);
        reveal(ResolverState::extends_to);
        let next = self.report(error);
        assert forall|i: int| 0 <= i < next.accessible_symbols.len() implies #[trigger] next.depth_at(i)
            == self.depth_at(i) by {}
        self.lemma_same_scopes(next);
    }

    /// A state that differs from a well formed one only in what the
    /// invariant does not read is well formed.
    pub proof fn lemma_same_scopes(self, next: ResolverState)
        requires
            self.well_scoped(),
            next.function_scope_depths == self.function_scope_depths,
            next.function_offsets == self.function_offsets,
            next.function_upvalues.len() == self.function_upvalues.len(),
            next.accessible_symbols == self.accessible_symbols,
            next.symbols.len() >= self.symbols.len(),
            forall|id: int|
                0 <= id < self.symbols.len() ==> (#[trigger] next.symbols[id]).scope_depth
                    == self.symbols[id].scope_depth,
            forall|key: u64| #[trigger]
                next.symbol_table.contains_key(key) ==> next.symbol_table[key] < next.symbols.len(),
            forall|key: u64| #[trigger]
                next.resolved_symbol_table.contains_key(key)
                    ==> next.resolved_symbol_table[key].is_sound(next.symbols.len()),
        ensures
            next.well_scoped(),
    {
        reveal(ResolverState::well_scoped);
        assert forall|i: int| 0 <= i < next.accessible_symbols.len() implies #[trigger] next.depth_at(i)
            == self.depth_at(i) by {
            assert(0 <= self.accessible_symbols[i] < self.symbols.len());
        }
        assert forall|i: int| 0 <= i < next.accessible_symbols.len() implies 0
            <= #[trigger] next.accessible_symbols[i] < next.symbols.len() by {
            assert(0 <= self.accessible_symbols[i] < self.symbols.len());
        }
        assert forall|i: int| 0 <= i < next.accessible_symbols.len() implies #[trigger] next.depth_at(i)
            <= next.scope_depth() by {
            assert(self.depth_at(i) <= self.scope_depth());
        }
        assert forall|i: int, j: int|
            0 <= i <= j < next.accessible_symbols.len() implies #[trigger] next.depth_at(i)
            <= #[trigger] next.depth_at(j) by {
            assert(self.depth_at(i) <= self.depth_at(j));
        }
        assert forall|i: int, k: int|
            0 <= i < next.accessible_symbols.len() && 0 <= k < next.function_scope_depths.len() - 1
                && #[trigger] next.depth_at(i) > #[trigger] next.function_scope_depths[k] implies next.function_offsets[k
                + 1] <= i by {
            assert(self.depth_at(i) > self.function_scope_depths[k]);
        }
    }

    /// A state with the same stacks and accessible symbols, whose arena and
    /// diagnostics have only grown, is an extension.
    pub proof fn lemma_same_scopes_extends(self, next: ResolverState)
        requires
            next.function_scope_depths == self.function_scope_depths,
            next.function_offsets == self.function_offsets,
            next.function_upvalues.len() == self.function_upvalues.len(),
            next.accessible_symbols == self.accessible_symbols,
            next.symbols.len() >= self.symbols.len(),
            forall|id: int|
                0 <= id < self.symbols.len() ==> {
                    &&& (#[trigger] next.symbols[id]).ident == self.symbols[id].ident
                    &&& next.symbols[id].scope_depth == self.symbols[id].scope_depth
                    &&& next.symbols[id].stmt == self.symbols[id].stmt
                },
            self.errors.len() <= next.errors.len(),
            forall|i: int| 0 <= i < self.errors.len() ==> #[trigger] next.errors[i] == self.errors[i],
        ensures
            self.extends_to(next),
    {
        reveal(ResolverState::extends_to);
    }

    pub proof fn lemma_resolve_symbol(self, ident: Seq<char>, span: Span)
        requires
            self.well_scoped(),
        ensures
            self.resolve_symbol(ident, span).0.well_scoped(),
            self.extends_to(self.resolve_symbol(ident, span).0),
            match self.resolve_symbol(ident, span).1 {
                Some((offset, id)) => 0 <= id < self.symbols.len(),
                None => true,
            },
    {
        lemma_lookup(self.symbols, self.accessible_symbols, ident);
        match lookup(self.symbols, self.accessible_symbols, ident) {
            None => {
                self.lemma_report(crate::resolve::model::unresolved_symbol_error(ident, span));
            },
            Some(i) => {
                self.lemma_symbol_at(i);
                if self.level_at(i) == 0 || self.level_at(i) == self.current_level() {
                    self.lemma_extends_refl();
                } else {
                    let next = self.capture(i);
                    assert forall|key: u64| #[trigger] next.symbol_table.contains_key(key) implies next.symbol_table[key]
                        < next.symbols.len() by {
                        reveal(ResolverState::well_scoped);
                    }
                    assert forall|key: u64| #[trigger]
                        next.resolved_symbol_table.contains_key(
                            key,
                        ) implies next.resolved_symbol_table[key].is_sound(next.symbols.len()) by {
                        reveal(ResolverState::well_scoped);
                    }
                    self.lemma_same_scopes(next);
                    self.lemma_same_scopes_extends(next);
                }
            },
        }
    }

    pub proof fn lemma_resolve_identifier(self, expr: u64, ident: Seq<char>, span: Span)
        requires
            self.well_scoped(),
        ensures
            self.resolve_identifier(expr, ident, span).well_scoped(),
            self.extends_to(self.resolve_identifier(expr, ident, span)),
    {
        self.lemma_resolve_symbol(ident, span);
        let (mid, found) = self.resolve_symbol(ident, span);
        let next = self.resolve_identifier(expr, ident, span);
        self.lemma_extends_keeps(mid);
        match found {
            None => {},
            Some((offset, id)) => {
                assert forall|key: u64| #[trigger] next.symbol_table.contains_key(key) implies next.symbol_table[key]
                    < next.symbols.len() by {
                    reveal(ResolverState::well_scoped);
                }
                assert forall|key: u64| #[trigger]
                    next.resolved_symbol_table.contains_key(
                        key,
                    ) implies next.resolved_symbol_table[key].is_sound(next.symbols.len()) by {
                    reveal(ResolverState::well_scoped);
                    if key != expr {
                        assert(mid.resolved_symbol_table.contains_key(key));
                    }
                }
                mid.lemma_same_scopes(next);
                mid.lemma_same_scopes_extends(next);
                self.lemma_extends_trans(mid, next);
            },
        }
    }

    pub proof fn lemma_set_upvalues(self, id: int, upvalues: Seq<ResolvedUpValue>)
        requires
            self.well_scoped(),
            0 <= id < self.symbols.len(),
        ensures
            self.set_upvalues(id, upvalues).well_scoped(),
            self.extends_to(self.set_upvalues(id, upvalues)),
    {
        let next = self.set_upvalues(id, upvalues);
        assert forall|key: u64| #[trigger] next.symbol_table.contains_key(key) implies next.symbol_table[key]
            < next.symbols.len() by {
            reveal(ResolverState::well_scoped);
        }
        assert forall|key: u64| #[trigger]
            next.resolved_symbol_table.contains_key(key) implies next.resolved_symbol_table[key].is_sound(next.symbols.len()) by {
            reveal(ResolverState::well_scoped);
        }
        self.lemma_same_scopes(next);
        self.lemma_same_scopes_extends(next);
    }

    pub proof fn lemma_declare_lambda(self, stmt: u64, upvalues: Seq<ResolvedUpValue>)
        requires
            self.well_scoped(),
        ensures
            self.declare_lambda(stmt, upvalues).well_scoped(),
            self.extends_to(self.declare_lambda(stmt, upvalues)),
    {
        let next = self.declare_lambda(stmt, upvalues);
        assert forall|key: u64| #[trigger] next.symbol_table.contains_key(key) implies next.symbol_table[key]
            < next.symbols.len() by {
            reveal(ResolverState::well_scoped);
            if self.symbol_table.contains_key(key) {
                assert(self.symbol_table[key] < self.symbols.len());
            }
        }
        assert forall|key: u64| #[trigger]
            next.resolved_symbol_table.contains_key(key) implies next.resolved_symbol_table[key].is_sound(next.symbols.len()) by {
            reveal(ResolverState::well_scoped);
        }
        self.lemma_same_scopes(next);
        self.lemma_same_scopes_extends(next);
    }

    /// Leaving the scope that was entered at `self`, after more code was
    /// resolved in it, gives back the accessible symbols of `self`.
    pub proof fn lemma_exit_scope(self, inner: ResolverState)
        requires
            self.well_scoped(),
            self.scope_depth() < u32::MAX,
            inner.well_scoped(),
            self.enter_scope().extends_to(inner),
        ensures
            inner.exit_scope().well_scoped(),
            self.extends_to(inner.exit_scope()),
            inner.exit_scope().accessible_symbols == self.accessible_symbols,
    {
        let next = inner.exit_scope();
        self.lemma_enter_scope();
        self.lemma_leave(self.enter_scope(), inner);
        self.lemma_current_level();
        reveal(ResolverState::extends_to);
        assert(next.function_scope_depths =~= self.function_scope_depths);
        self.lemma_left(inner, next);
    }

    /// Leaving the function that was entered at `self`, after its
    /// parameters and body were resolved, gives back the accessible symbols
    /// and the stacks of `self`.
    pub proof fn lemma_end_function(self, inner: ResolverState)
        requires
            self.well_scoped(),
            self.scope_depth() < u32::MAX,
            inner.well_scoped(),
            self.begin_function().extends_to(inner),
        ensures
            inner.end_function().well_scoped(),
            self.extends_to(inner.end_function()),
            inner.end_function().accessible_symbols == self.accessible_symbols,
            inner.function_upvalues.len() >= 2,
    {
        let next = inner.end_function();
        self.lemma_begin_function();
        self.lemma_leave(self.begin_function(), inner);
        self.lemma_current_level();
        reveal(ResolverState::extends_to);
        assert(next.function_scope_depths =~= self.function_scope_depths);
        assert(next.function_offsets =~= self.function_offsets);
        self.lemma_left(inner, next);
    }

    /// When a scope one deeper than that of `self` is left, exactly the
    /// accessible symbols of `self` remain.
    proof fn lemma_leave(self, entered: ResolverState, inner: ResolverState)
        requires
            self.well_scoped(),
            self.scope_depth() < u32::MAX,
            entered.scope_depth() == self.scope_depth() + 1,
            entered.accessible_symbols == self.accessible_symbols,
            entered.symbols == self.symbols,
            entered.extends_to(inner),
        ensures
            inner.exit_scope().accessible_symbols == self.accessible_symbols,
            inner.scope_depth() == self.scope_depth() + 1,
    {
        reveal(ResolverState::well_scoped);
        reveal(ResolverState::extends_to);
        let depth = (inner.scope_depth() - 1) as u32;
        let pred = inner.declared_within(depth);
        let all = inner.accessible_symbols;
        let n = self.accessible_symbols.len() as int;
        assert forall|i: int| 0 <= i < n implies pred(#[trigger] all[i]) by {
            assert(0 <= self.accessible_symbols[i] < self.symbols.len());
            assert(self.depth_at(i) <= self.scope_depth());
        }
        assert forall|i: int| n <= i < all.len() implies !pred(#[trigger] all[i]) by {
            assert(inner.depth_at(i) == entered.scope_depth());
        }
        lemma_filter_keeps_prefix(all, pred, n);
        assert(all.take(n) =~= self.accessible_symbols);
    }

    /// The state after leaving is well formed and extends the one before
    /// entering.
    proof fn lemma_left(self, inner: ResolverState, next: ResolverState)
        requires
            self.well_scoped(),
            inner.well_scoped(),
            next.function_scope_depths == self.function_scope_depths,
            next.function_offsets == self.function_offsets,
            next.function_upvalues.len() == self.function_upvalues.len(),
            next.accessible_symbols == self.accessible_symbols,
            next.symbols == inner.symbols,
            next.symbol_table == inner.symbol_table,
            next.resolved_symbol_table == inner.resolved_symbol_table,
            next.errors == inner.errors,
            inner.symbols.len() >= self.symbols.len(),
            forall|id: int|
                0 <= id < self.symbols.len() ==> {
                    &&& (#[trigger] inner.symbols[id]).ident == self.symbols[id].ident
                    &&& inner.symbols[id].scope_depth == self.symbols[id].scope_depth
                    &&& inner.symbols[id].stmt == self.symbols[id].stmt
                },
            self.errors.len() <= inner.errors.len(),
            forall|i: int| 0 <= i < self.errors.len() ==> #[trigger] inner.errors[i] == self.errors[i],
        ensures
            next.well_scoped(),
            self.extends_to(next),
    {
        assert forall|key: u64| #[trigger] next.symbol_table.contains_key(key) implies next.symbol_table[key]
            < next.symbols.len() by {
            reveal(ResolverState::well_scoped);
        }
        assert forall|key: u64| #[trigger]
            next.resolved_symbol_table.contains_key(key) implies next.resolved_symbol_table[key].is_sound(next.symbols.len()) by {
            reveal(ResolverState::well_scoped);
        }
        self.lemma_same_scopes(next);
        self.lemma_same_scopes_extends(next);
    }

    /// Resolving an expression keeps the state well formed and extends it.
    pub proof fn lemma_visit_expr(self, expr: Expr)
        requires
            self.well_scoped(),
            expr_resolvable(expr, self.scope_depth() as nat),
        ensures
            self.visit_expr(expr).well_scoped(),
            self.extends_to(self.visit_expr(expr)),
        decreases expr, 0nat,
    {
        match expr.kind {
            ExprKind::Identifier(ident) => {
                self.lemma_resolve_identifier(expr.id, ident@, expr.span);
            },
            ExprKind::FnCall { callee, args } => {
                self.lemma_visit_expr(*callee);
                let mid = self.visit_expr(*callee);
                self.lemma_extends_keeps(mid);
                mid.lemma_visit_exprs(args@, args@.len());
                self.lemma_extends_trans(mid, mid.visit_exprs(args@, args@.len()));
            },
            ExprKind::Binary { lhs, op, rhs } => {
                self.lemma_visit_expr(*lhs);
                let mid = self.visit_expr(*lhs);
                self.lemma_extends_keeps(mid);
                mid.lemma_visit_expr(*rhs);
                let walked = mid.visit_expr(*rhs);
                self.lemma_extends_trans(mid, walked);
                if op is Equals && !(lhs.kind is Identifier) {
                    let error = crate::resolve::model::invalid_assignment_error(lhs.span);
                    walked.lemma_report(error);
                    self.lemma_extends_trans(walked, walked.report(error));
                }
            },
            ExprKind::Unary { op, arg } => {
                self.lemma_visit_expr(*arg);
            },
            ExprKind::Lambda { inner_stmt, params, body } => {
                self.lemma_begin_function();
                let entered = self.begin_function();
                entered.lemma_visit_stmts(params@, params@.len());
                let mid = entered.visit_stmts(params@, params@.len());
                entered.lemma_extends_keeps(mid);
                mid.lemma_visit_stmts(body@, body@.len());
                let inside = mid.visit_stmts(body@, body@.len());
                entered.lemma_extends_trans(mid, inside);
                self.lemma_end_function(inside);
                let left = inside.end_function();
                left.lemma_declare_lambda(inner_stmt.id, inside.function_upvalues.last());
                self.lemma_extends_trans(
                    left,
                    left.declare_lambda(inner_stmt.id, inside.function_upvalues.last()),
                );
            },
            _ => {
                self.lemma_extends_refl();
            },
        }
    }

    /// Resolving expressions in turn keeps the state well formed and
    /// extends it.
    pub proof fn lemma_visit_exprs(self, exprs: Seq<Expr>, n: nat)
        requires
            self.well_scoped(),
            n <= exprs.len(),
            forall|i: int|
                0 <= i < exprs.len() ==> expr_resolvable(
                    #[trigger] exprs[i],
                    self.scope_depth() as nat,
                ),
        ensures
            self.visit_exprs(exprs, n).well_scoped(),
            self.extends_to(self.visit_exprs(exprs, n)),
        decreases exprs, n,
    {
        if n == 0 {
            self.lemma_extends_refl();
        } else {
            self.lemma_visit_exprs(exprs, (n - 1) as nat);
            let mid = self.visit_exprs(exprs, (n - 1) as nat);
            self.lemma_extends_keeps(mid);
            mid.lemma_visit_expr(exprs[n - 1]);
            self.lemma_extends_trans(mid, mid.visit_expr(exprs[n - 1]));
        }
    }

    /// Resolving a statement keeps the state well formed and extends it.
    pub proof fn lemma_visit_stmt(self, stmt: Stmt)
        requires
            self.well_scoped(),
            stmt_resolvable(stmt, self.scope_depth() as nat),
        ensures
            self.visit_stmt(stmt).well_scoped(),
            self.extends_to(self.visit_stmt(stmt)),
        decreases stmt, 0nat,
    {
        match stmt.kind {
            StmtKind::LetDeclaration { ident, initializer, ty } => {
                self.lemma_visit_expr(initializer);
                let mid = self.visit_expr(initializer);
                mid.lemma_add_symbol(ident@, Some(stmt.id));
                self.lemma_extends_keeps(mid);
                self.lemma_extends_trans(mid, mid.add_symbol(ident@, Some(stmt.id)));
            },
            StmtKind::FnParam { ident } => {
                self.lemma_add_symbol(ident@, Some(stmt.id));
            },
            StmtKind::FnDeclaration { ident, params, body } => {
                self.lemma_add_symbol(ident@, Some(stmt.id));
                let declared = self.add_symbol(ident@, Some(stmt.id));
                self.lemma_extends_keeps(declared);
                declared.lemma_begin_function();
                let entered = declared.begin_function();
                entered.lemma_visit_stmts(params@, params@.len());
                let mid = entered.visit_stmts(params@, params@.len());
                entered.lemma_extends_keeps(mid);
                mid.lemma_visit_stmts(body@, body@.len());
                let inside = mid.visit_stmts(body@, body@.len());
                entered.lemma_extends_trans(mid, inside);
                declared.lemma_end_function(inside);
                let left = inside.end_function();
                declared.lemma_extends_keeps(left);
                let upvalues = inside.function_upvalues.last();
                left.lemma_set_upvalues(self.symbols.len() as int, upvalues);
                self.lemma_extends_trans(declared, left);
                self.lemma_extends_trans(left, left.set_upvalues(self.symbols.len() as int, upvalues));
            },
            StmtKind::Block(body) => {
                self.lemma_visit_block(body@);
            },
            StmtKind::IfElseStmt { condition, if_block, else_block } => {
                self.lemma_visit_expr(condition);
                let mid = self.visit_expr(condition);
                self.lemma_extends_keeps(mid);
                mid.lemma_visit_block(if_block@);
                let first = mid.visit_block(if_block@);
                self.lemma_extends_trans(mid, first);
                match else_block {
                    Some(block) => {
                        self.lemma_extends_keeps(first);
                        first.lemma_visit_block(block@);
                        self.lemma_extends_trans(first, first.visit_block(block@));
                    },
                    None => {},
                }
            },
            StmtKind::WhileStmt { condition, body } => {
                self.lemma_visit_expr(condition);
                let mid = self.visit_expr(condition);
                self.lemma_extends_keeps(mid);
                mid.lemma_visit_block(body@);
                self.lemma_extends_trans(mid, mid.visit_block(body@));
            },
            StmtKind::ExprStmt(expr) => {
                self.lemma_visit_expr(expr);
            },
            StmtKind::ReturnStmt(expr) => {
                self.lemma_visit_expr(expr);
            },
            StmtKind::Lambda => {},
            StmtKind::Error => {
                self.lemma_extends_refl();
            },
        }
    }

    /// Resolving a block gives back the accessible symbols it began with.
    pub proof fn lemma_visit_block(self, stmts: Seq<Stmt>)
        requires
            self.well_scoped(),
            self.scope_depth() < u32::MAX,
            stmts_resolvable(stmts, self.scope_depth() as nat + 1),
        ensures
            self.visit_block(stmts).well_scoped(),
            self.extends_to(self.visit_block(stmts)),
            self.visit_block(stmts).accessible_symbols == self.accessible_symbols,
        decreases stmts, stmts.len() + 1,
    {
        self.lemma_enter_scope();
        let entered = self.enter_scope();
        entered.lemma_visit_stmts(stmts, stmts.len());
        self.lemma_exit_scope(entered.visit_stmts(stmts, stmts.len()));
    }

    /// Resolving statements in turn keeps the state well formed and extends
    /// it.
    pub proof fn lemma_visit_stmts(self, stmts: Seq<Stmt>, n: nat)
        requires
            self.well_scoped(),
            n <= stmts.len(),
            stmts_resolvable(stmts, self.scope_depth() as nat),
        ensures
            self.visit_stmts(stmts, n).well_scoped(),
            self.extends_to(self.visit_stmts(stmts, n)),
        decreases stmts, n,
    {
        if n == 0 {
            self.lemma_extends_refl();
        } else {
            self.lemma_visit_stmts(stmts, (n - 1) as nat);
            let mid = self.visit_stmts(stmts, (n - 1) as nat);
            self.lemma_extends_keeps(mid);
            mid.lemma_visit_stmt(stmts[n - 1]);
            self.lemma_extends_trans(mid, mid.visit_stmt(stmts[n - 1]));
        }
    }

    /// A resolver that goes on from a well formed result is well formed and
    /// at the top level.
    pub proof fn lemma_resume(
        result: ResolveResultView,
        content: Seq<char>,
        errors: Seq<SyntaxErrorView>,
    )
        requires
            result.wf(),
        ensures
            ResolverState::resume(result, content, errors).wf(),
            ResolverState::resume(result, content, errors).at_top_level(),
    {
        reveal(ResolverState::well_scoped);
        let state = ResolverState::resume(result, content, errors);
        assert forall|i: int| 0 <= i < state.accessible_symbols.len() implies #[trigger] state.depth_at(
            i,
        ) == 0 by {
            assert(0 <= result.accessible_symbols[i] < result.symbols.len());
        }
    }

    /// What a well formed resolver at the top level hands on is well formed.
    pub proof fn lemma_result(self)
        requires
            self.wf(),
            self.at_top_level(),
        ensures
            self.result().wf(),
    {
        reveal(ResolverState::well_scoped);
        let result = self.result();
        assert forall|i: int| 0 <= i < result.accessible_symbols.len() implies {
            &&& 0 <= #[trigger] result.accessible_symbols[i] < result.symbols.len()
            &&& result.symbols[result.accessible_symbols[i]].scope_depth == 0
        } by {
            assert(self.depth_at(i) <= self.scope_depth());
        }
    }

    /// The state of a new resolver is well formed and at the top level.
    pub proof fn lemma_initial(content: Seq<char>, errors: Seq<SyntaxErrorView>)
        ensures
            ResolverState::initial(content, errors).wf(),
            ResolverState::initial(content, errors).at_top_level(),
    {
        reveal(ResolverState::well_scoped);
    }
}

} // verus!
