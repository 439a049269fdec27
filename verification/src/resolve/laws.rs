//! What holds of every resolution, stated over the model and proved.

use vstd::prelude::*;
use crate::ast::{stmt_resolvable, stmts_resolvable, Expr, Stmt};
use crate::resolve::model::{
    invalid_assignment_error,
    lookup,
    unresolved_symbol_error,
    ResolverState,
};
use crate::resolve::proofs::lemma_lookup;
use crate::source::{Span, SyntaxErrorView};
use crate::symbol::{ResolvedSymbol, ResolvedUpValue, SymbolView};

verus! {

/// Shadowing: of two accessible symbols of one name, a use never resolves
/// to the one declared first. It resolves to the last symbol of that name.
pub proof fn law_latest_declaration_wins(state: ResolverState, ident: Seq<char>, i: int, j: int)
    requires
        0 <= i < j < state.accessible_symbols.len(),
        state.symbol_at(i).ident == ident,
        state.symbol_at(j).ident == ident,
    ensures
        lookup(state.symbols, state.accessible_symbols, ident) matches Some(found) && j <= found
            < state.accessible_symbols.len() && state.symbol_at(found).ident == ident && forall|k: int|
            found < k < state.accessible_symbols.len() ==> (#[trigger] state.symbol_at(k)).ident != ident,
{
    lemma_lookup(state.symbols, state.accessible_symbols, ident);
    match lookup(state.symbols, state.accessible_symbols, ident) {
        Some(found) => {
            if found < j {
                assert(state.symbols[state.accessible_symbols[j]].ident != ident);
            }
            assert forall|k: int| found < k < state.accessible_symbols.len() implies (#[trigger] state.symbol_at(
                k,
            )).ident != ident by {
                assert(state.symbols[state.accessible_symbols[k]].ident != ident);
            }
        },
        None => {
            assert(state.symbols[state.accessible_symbols[j]].ident != ident);
        },
    }
}

/// Resolving a statement is append-only on the accessible symbols: each
/// keeps its position, and with it its slot, and the symbol there keeps its
/// name and its scope depth.
pub proof fn law_accessible_symbols_keep_their_positions(state: ResolverState, stmt: Stmt, i: int)
    requires
        state.wf(),
        stmt_resolvable(stmt, state.scope_depth() as nat),
        0 <= i < state.accessible_symbols.len(),
    ensures
        i < state.visit_stmt(stmt).accessible_symbols.len(),
        state.visit_stmt(stmt).accessible_symbols[i] == state.accessible_symbols[i],
        state.visit_stmt(stmt).symbol_at(i).ident == state.symbol_at(i).ident,
        state.visit_stmt(stmt).symbol_at(i).scope_depth == state.symbol_at(i).scope_depth,
{
    state.lemma_visit_stmt(stmt);
    reveal(ResolverState::extends_to);
    reveal(ResolverState::well_scoped);
    assert(0 <= state.accessible_symbols[i] < state.symbols.len());
}

/// The same of a whole program unit, which moreover leaves the scopes in
/// order and the resolver at the top level, ready for the next unit or to
/// hand on its result.
pub proof fn law_units_keep_positions(state: ResolverState, unit: Seq<Stmt>, i: int)
    requires
        state.wf(),
        state.at_top_level(),
        stmts_resolvable(unit, 0),
        0 <= i < state.accessible_symbols.len(),
    ensures
        state.visit_stmts(unit, unit.len()).well_scoped(),
        state.visit_stmts(unit, unit.len()).at_top_level(),
        i < state.visit_stmts(unit, unit.len()).accessible_symbols.len(),
        state.visit_stmts(unit, unit.len()).accessible_symbols[i] == state.accessible_symbols[i],
        state.visit_stmts(unit, unit.len()).symbol_at(i).ident == state.symbol_at(i).ident,
{
    state.lemma_visit_stmts(unit, unit.len());
    state.lemma_extends_keeps(state.visit_stmts(unit, unit.len()));
    reveal(ResolverState::extends_to);
    reveal(ResolverState::well_scoped);
    assert(0 <= state.accessible_symbols[i] < state.symbols.len());
}

/// Global slot stability: at the top level a use of a declared name
/// resolves to a global whose offset is the symbol's position among the
/// accessible symbols, and a resolver that goes on from the handed-on
/// result resolves the same use to the same offset and symbol.
pub proof fn law_global_slots_are_stable(
    state: ResolverState,
    content: Seq<char>,
    errors: Seq<SyntaxErrorView>,
    expr: Expr,
    i: int,
)
    requires
        state.wf(),
        state.at_top_level(),
        expr.kind is Identifier,
        lookup(state.symbols, state.accessible_symbols, expr.kind->Identifier_0@) == Some(i),
    ensures
        state.visit_expr(expr).resolved_symbol_table.contains_key(expr.id),
        state.visit_expr(expr).resolved_symbol_table[expr.id] == (ResolvedSymbol {
            offset: i as usize,
            is_global: true,
            is_upvalue: false,
            symbol: state.accessible_symbols[i] as usize,
        }),
        state.visit_expr(expr).resolved_symbol_table[expr.id].offset == i,
        state.visit_expr(expr).resolved_symbol_table[expr.id].symbol == state.accessible_symbols[i],
        ResolverState::resume(state.result(), content, errors).visit_expr(
            expr,
        ).resolved_symbol_table[expr.id] == state.visit_expr(expr).resolved_symbol_table[expr.id],
{
    let ident = expr.kind->Identifier_0@;
    let resumed = ResolverState::resume(state.result(), content, errors);
    lemma_lookup(state.symbols, state.accessible_symbols, ident);
    state.lemma_symbol_at(i);
    state.lemma_current_level();
    assert(state.function_scope_depths =~= resumed.function_scope_depths);
    assert(state.level_at(i) == 0);
    assert(resumed.level_at(i) == 0);
    assert(state.current_level() == 0);
    assert(resumed.current_level() == 0);
}

/// Unresolved identifier: a use of a name that no accessible symbol has
/// reports exactly one diagnostic and changes nothing else; in particular
/// no resolution is recorded for the use.
pub proof fn law_unresolved_identifier_is_reported(state: ResolverState, expr: Expr)
    requires
        expr.kind is Identifier,
        lookup(state.symbols, state.accessible_symbols, expr.kind->Identifier_0@) is None,
    ensures
        state.visit_expr(expr) == state.report(
            unresolved_symbol_error(expr.kind->Identifier_0@, expr.span),
        ),
        state.visit_expr(expr).errors.len() == state.errors.len() + 1,
        state.visit_expr(expr).resolved_symbol_table == state.resolved_symbol_table,
{
}

/// Invalid assignment target: an assignment whose left operand is not an
/// identifier reports exactly one diagnostic after both operands were
/// resolved, and changes nothing else.
pub proof fn law_invalid_assignment_target_is_reported(state: ResolverState, expr: Expr)
    requires
        expr.kind is Binary,
        expr.kind->Binary_op is Equals,
        !(expr.kind->lhs.kind is Identifier),
    ensures
        state.visit_expr(expr) == state.visit_expr(*expr.kind->lhs).visit_expr(*expr.kind->rhs).report(
            invalid_assignment_error(expr.kind->lhs.span),
        ),
        state.visit_expr(expr).errors.len() == state.visit_expr(*expr.kind->lhs).visit_expr(
            *expr.kind->rhs,
        ).errors.len() + 1,
        state.visit_expr(expr).resolved_symbol_table == state.visit_expr(*expr.kind->lhs).visit_expr(
            *expr.kind->rhs,
        ).resolved_symbol_table,
        state.visit_expr(expr).symbol_table == state.visit_expr(*expr.kind->lhs).visit_expr(
            *expr.kind->rhs,
        ).symbol_table,
{
}

/// An assignment to an identifier, and any other binary expression, reports
/// nothing of its own.
pub proof fn law_other_binary_expressions_pass(state: ResolverState, expr: Expr)
    requires
        expr.kind is Binary,
        !(expr.kind->Binary_op is Equals) || expr.kind->lhs.kind is Identifier,
    ensures
        state.visit_expr(expr) == state.visit_expr(*expr.kind->lhs).visit_expr(*expr.kind->rhs),
{
}

/// Self-recursion: when the parameters and the body of a function
/// declaration are resolved, the function's own name is in scope and stands
/// for the function's symbol.
pub proof fn law_function_is_in_scope_of_its_body(state: ResolverState, ident: Seq<char>, stmt: u64)
    ensures
        lookup(
            state.add_symbol(ident, Some(stmt)).begin_function().symbols,
            state.add_symbol(ident, Some(stmt)).begin_function().accessible_symbols,
            ident,
        ) == Some(state.accessible_symbols.len() as int),
        state.add_symbol(ident, Some(stmt)).begin_function().symbol_at(
            state.accessible_symbols.len() as int,
        ) == SymbolView::fresh(ident, state.scope_depth(), Some(stmt)),
{
}

/// Capture: when a function uses a symbol that a function around it
/// declared, the symbol is marked as captured; the function just inside the
/// declaring one gets a local upvalue for the symbol's slot in the
/// declaring function; each function further in, up to the current one,
/// gets an upvalue that is not local and whose index is the former length
/// of the list of the function around it, which is where that function's
/// new upvalue stands; the use's offset is likewise the index of the
/// current function's new upvalue; and no other upvalue list changes.
pub proof fn law_capture_threads_upvalues(state: ResolverState, ident: Seq<char>, span: Span, i: int)
    requires
        state.wf(),
        lookup(state.symbols, state.accessible_symbols, ident) == Some(i),
        0 < state.level_at(i) < state.current_level(),
    ensures
        ({
            let (next, found) = state.resolve_symbol(ident, span);
            let declared = state.level_at(i) as int;
            let current = state.current_level() as int;
            &&& next.symbol_at(i).is_captured
            &&& next.function_upvalues.len() == state.function_upvalues.len()
            &&& current == state.function_upvalues.len() - 1
            &&& next.function_upvalues[declared + 1] == state.function_upvalues[declared + 1].push(
                ResolvedUpValue {
                    is_local: true,
                    index: (i - state.function_offsets[declared]) as usize,
                },
            )
            &&& 0 <= i - state.function_offsets[declared]
            &&& forall|level: int|
                declared + 1 < level <= current ==> #[trigger] next.function_upvalues[level]
                    == state.function_upvalues[level].push(
                    ResolvedUpValue {
                        is_local: false,
                        index: state.function_upvalues[level - 1].len() as usize,
                    },
                )
            &&& forall|level: int|
                0 <= level <= declared ==> #[trigger] next.function_upvalues[level]
                    == state.function_upvalues[level]
            &&& forall|level: int|
                declared < level <= current ==> (#[trigger] state.function_upvalues[level]).len()
                    <= usize::MAX
            &&& found == Some(
                (state.function_upvalues[current].len() as usize, state.accessible_symbols[i]),
            )
            &&& next.accessible_symbols == state.accessible_symbols
            &&& next.errors == state.errors
        }),
{
    lemma_lookup(state.symbols, state.accessible_symbols, ident);
    state.lemma_symbol_at(i);
    state.lemma_current_level();
}

/// Every table entry names a symbol of the arena, and so does every
/// accessible symbol: in a well formed state, and so after any resolution.
pub proof fn law_tables_name_live_symbols(state: ResolverState)
    requires
        state.wf(),
    ensures
        forall|key: u64| #[trigger]
            state.symbol_table.contains_key(key) ==> state.symbol_table[key] < state.symbols.len(),
        forall|key: u64| #[trigger]
            state.resolved_symbol_table.contains_key(key) ==> state.resolved_symbol_table[key].is_sound(state.symbols.len()),
        forall|i: int|
            0 <= i < state.accessible_symbols.len() ==> 0 <= #[trigger] state.accessible_symbols[i]
                < state.symbols.len(),
{
    reveal(ResolverState::well_scoped);
}

/// A local's offset is its position relative to where the locals of the
/// current function begin: the first parameter has offset `0`.
pub proof fn law_local_offset_is_relative(state: ResolverState, ident: Seq<char>, span: Span, i: int)
    requires
        state.wf(),
        lookup(state.symbols, state.accessible_symbols, ident) == Some(i),
        0 < state.level_at(i),
        state.level_at(i) == state.current_level(),
    ensures
        state.resolve_symbol(ident, span).0 == state,
        state.resolve_symbol(ident, span).1 == Some(
            ((i - state.function_offsets.last()) as usize, state.accessible_symbols[i]),
        ),
        0 <= i - state.function_offsets.last(),
{
    lemma_lookup(state.symbols, state.accessible_symbols, ident);
    state.lemma_symbol_at(i);
    state.lemma_current_level();
}

/// Every recorded resolution is of exactly one kind: none is marked both
/// as a global and as an upvalue.
pub proof fn law_no_resolution_is_global_and_upvalue(state: ResolverState)
    requires
        state.wf(),
    ensures
        forall|key: u64| #[trigger]
            state.resolved_symbol_table.contains_key(key) ==> !(state.resolved_symbol_table[key].is_global
                && state.resolved_symbol_table[key].is_upvalue),
{
    reveal(ResolverState::well_scoped);
}

/// The kind of a resolution follows from where the symbol was declared: a
/// symbol of the global level gives a global, whose offset is its position;
/// a symbol of the current function gives a local, whose offset is its
/// position relative to where the function's locals begin; a symbol of a
/// function around the current one gives an upvalue, whose offset is the
/// index of the current function's new upvalue. The three exclude each
/// other, and each offset and symbol is the number it stands for.
pub proof fn law_resolution_kind_follows_declaring_level(state: ResolverState, expr: Expr, i: int)
    requires
        state.wf(),
        expr.kind is Identifier,
        lookup(state.symbols, state.accessible_symbols, expr.kind->Identifier_0@) == Some(i),
    ensures
        ({
            let next = state.visit_expr(expr);
            let entry = next.resolved_symbol_table[expr.id];
            let declared = state.level_at(i);
            let current = state.current_level();
            &&& next.resolved_symbol_table.contains_key(expr.id)
            &&& declared <= current
            &&& entry.is_global == (declared == 0)
            &&& entry.is_upvalue == (0 < declared < current)
            &&& entry.symbol == state.accessible_symbols[i]
            &&& declared == 0 ==> entry.offset == i
            &&& 0 < declared == current ==> entry.offset == i - state.function_offsets.last()
            &&& 0 < declared < current ==> entry.offset == state.function_upvalues[current as int].len()
        }),
{
    let ident = expr.kind->Identifier_0@;
    lemma_lookup(state.symbols, state.accessible_symbols, ident);
    state.lemma_symbol_at(i);
    state.lemma_current_level();
    reveal(ResolverState::well_scoped);
    let (next, found) = state.resolve_symbol(ident, expr.span);
    assert(next.function_scope_depths == state.function_scope_depths);
    assert(next.symbols[state.accessible_symbols[i]].scope_depth == state.symbol_at(i).scope_depth);
}

/// A use of a global captures nothing, wherever it stands: neither the
/// symbols nor any list of upvalues change, and the resolution is marked as
/// a global only.
pub proof fn law_global_use_captures_nothing(state: ResolverState, expr: Expr, i: int)
    requires
        state.wf(),
        expr.kind is Identifier,
        lookup(state.symbols, state.accessible_symbols, expr.kind->Identifier_0@) == Some(i),
        state.level_at(i) == 0,
    ensures
        state.visit_expr(expr).symbols == state.symbols,
        state.visit_expr(expr).function_upvalues == state.function_upvalues,
        state.visit_expr(expr).errors == state.errors,
        state.visit_expr(expr).resolved_symbol_table == state.resolved_symbol_table.insert(
            expr.id,
            ResolvedSymbol {
                offset: i as usize,
                is_global: true,
                is_upvalue: false,
                symbol: state.accessible_symbols[i] as usize,
            },
        ),
{
}

} // verus!
