use ella::ast::{Expr, ExprKind, Stmt, StmtKind, Token};
use ella::resolve::{ResolveResult, Resolver};
use ella::source::{Source, Span};
use ella::symbol::{ResolvedSymbol, ResolvedUpValue, Symbol};
use ella::value::{BuiltinVars, Value, ValueType};

/// Hands out the identities of the nodes of one tree.
struct Tree {
    next: u64,
}

impl Tree {
    fn new() -> Self {
        Tree { next: 1 }
    }

    fn id(&mut self) -> u64 {
        let id = self.next;
        self.next += 1;
        id
    }

    fn span(id: u64) -> Span {
        Span { start: id as usize * 10, end: id as usize * 10 + 5 }
    }

    fn expr(&mut self, kind: ExprKind) -> Expr {
        let id = self.id();
        Expr { id, kind, span: Tree::span(id) }
    }

    fn stmt(&mut self, kind: StmtKind) -> Stmt {
        let id = self.id();
        Stmt { id, kind, span: Tree::span(id) }
    }

    fn ident(&mut self, name: &str) -> Expr {
        self.expr(ExprKind::Identifier(name.to_string()))
    }

    fn number(&mut self, value: f64) -> Expr {
        self.expr(ExprKind::NumberLit(Value::from_bits(value.to_bits())))
    }

    fn binary(&mut self, lhs: Expr, op: Token, rhs: Expr) -> Expr {
        self.expr(ExprKind::Binary { lhs: Box::new(lhs), op, rhs: Box::new(rhs) })
    }

    fn call(&mut self, callee: Expr, args: Vec<Expr>) -> Expr {
        self.expr(ExprKind::FnCall { callee: Box::new(callee), args })
    }

    fn lambda(&mut self, params: Vec<Stmt>, body: Vec<Stmt>) -> Expr {
        let inner_stmt = Box::new(self.stmt(StmtKind::Lambda));
        self.expr(ExprKind::Lambda { inner_stmt, params, body })
    }

    fn let_(&mut self, name: &str, initializer: Expr) -> Stmt {
        self.stmt(StmtKind::LetDeclaration { ident: name.to_string(), initializer, ty: None })
    }

    fn param(&mut self, name: &str) -> Stmt {
        self.stmt(StmtKind::FnParam { ident: name.to_string() })
    }

    fn function(&mut self, name: &str, params: Vec<Stmt>, body: Vec<Stmt>) -> Stmt {
        self.stmt(StmtKind::FnDeclaration { ident: name.to_string(), params, body })
    }

    fn block(&mut self, body: Vec<Stmt>) -> Stmt {
        self.stmt(StmtKind::Block(body))
    }

    fn expr_stmt(&mut self, expr: Expr) -> Stmt {
        self.stmt(StmtKind::ExprStmt(expr))
    }

    fn ret(&mut self, expr: Expr) -> Stmt {
        self.stmt(StmtKind::ReturnStmt(expr))
    }

    /// A program unit: the function that stands around its statements.
    fn unit(&mut self, body: Vec<Stmt>) -> Stmt {
        self.function("<global>", Vec::new(), body)
    }
}

fn builtins(names: &[&str]) -> BuiltinVars {
    let mut vars = BuiltinVars::new();
    for name in names {
        vars.add(name.to_string(), Value::from_bits(0), ValueType::Function);
    }
    vars
}

fn new_resolver() -> Resolver {
    Resolver::new(Source::new(String::new()))
}

/// Resolves one unit with a new resolver that knows the given builtins.
fn resolve(unit: &Stmt, names: &[&str]) -> (ResolveResult, Vec<String>) {
    let mut resolver = new_resolver();
    resolver.resolve_builtin_vars(&builtins(names));
    assert!(resolver.try_resolve_top_level(unit));
    let messages = messages(&resolver);
    (resolver.into_resolve_result(), messages)
}

fn messages(resolver: &Resolver) -> Vec<String> {
    resolver.source().errors.errors.iter().map(|error| error.message.clone()).collect()
}

fn resolved(result: &ResolveResult, expr: &Expr) -> ResolvedSymbol {
    *result.lookup_identifier(expr).expect("the identifier is resolved")
}

fn declared<'a>(result: &'a ResolveResult, stmt: &Stmt) -> &'a Symbol {
    result.lookup_declaration(stmt).expect("the statement declares a symbol")
}

fn body_of(stmt: &Stmt) -> &Vec<Stmt> {
    match &stmt.kind {
        StmtKind::FnDeclaration { body, .. } => body,
        StmtKind::Block(body) => body,
        StmtKind::WhileStmt { body, .. } => body,
        _ => panic!("the statement has no body"),
    }
}

fn params_of(stmt: &Stmt) -> &Vec<Stmt> {
    match &stmt.kind {
        StmtKind::FnDeclaration { params, .. } => params,
        _ => panic!("the statement has no parameters"),
    }
}

fn expr_of(stmt: &Stmt) -> &Expr {
    match &stmt.kind {
        StmtKind::ExprStmt(expr) => expr,
        StmtKind::ReturnStmt(expr) => expr,
        StmtKind::LetDeclaration { initializer, .. } => initializer,
        _ => panic!("the statement has no expression"),
    }
}

fn callee_of(expr: &Expr) -> &Expr {
    match &expr.kind {
        ExprKind::FnCall { callee, .. } => callee,
        _ => panic!("the expression is no call"),
    }
}

fn args_of(expr: &Expr) -> &Vec<Expr> {
    match &expr.kind {
        ExprKind::FnCall { args, .. } => args,
        _ => panic!("the expression is no call"),
    }
}

fn operands_of(expr: &Expr) -> (&Expr, &Expr) {
    match &expr.kind {
        ExprKind::Binary { lhs, rhs, .. } => (lhs, rhs),
        _ => panic!("the expression is not binary"),
    }
}

#[test]
fn shadowing_inner_declaration_wins() {
    // let x = 1; { let x = 2; use(x); }
    let mut t = Tree::new();
    let one = t.number(1.0);
    let outer = t.let_("x", one);
    let two = t.number(2.0);
    let inner = t.let_("x", two);
    let callee = t.ident("use");
    let x = t.ident("x");
    let call = t.call(callee, vec![x]);
    let use_x = t.expr_stmt(call);
    let block = t.block(vec![inner, use_x]);
    let unit = t.unit(vec![outer, block]);

    let (result, messages) = resolve(&unit, &["use"]);
    assert!(messages.is_empty());
    let outer = &body_of(&unit)[0];
    let block = &body_of(&unit)[1];
    let inner = &body_of(block)[0];
    let x = &args_of(expr_of(&body_of(block)[1]))[0];
    let found = resolved(&result, x);
    let symbol = result.symbol(found.symbol).unwrap();
    assert_eq!(symbol.stmt, Some(inner.id));
    assert_ne!(symbol.stmt, Some(outer.id));
    assert_eq!(symbol.scope_depth, 1);
    // use, the outer x, the inner x
    assert_eq!(found.offset, 2);
    assert!(found.is_global);
    assert!(!found.is_upvalue);
    assert_eq!(declared(&result, inner), symbol);
}

#[test]
fn block_symbols_leave_scope() {
    // { let y = 1; } y;
    let mut t = Tree::new();
    let one = t.number(1.0);
    let y = t.let_("y", one);
    let block = t.block(vec![y]);
    let use_y = t.ident("y");
    let stmt = t.expr_stmt(use_y);
    let unit = t.unit(vec![block, stmt]);

    let (result, messages) = resolve(&unit, &[]);
    assert_eq!(messages, vec!["cannot resolve symbol \"y\"".to_string()]);
    assert!(result.lookup_identifier(expr_of(&body_of(&unit)[1])).is_none());
    // the declaration stays in the table
    let y = &body_of(&body_of(&unit)[0])[0];
    assert_eq!(declared(&result, y).ident, "y");
    assert!(result.lookup_in_accessible_symbols("y").is_none());
}

#[test]
fn global_slot_is_stable_across_units() {
    // unit A: let g = 1; g;    unit B: g;
    let mut t = Tree::new();
    let one = t.number(1.0);
    let g = t.let_("g", one);
    let use_a = t.ident("g");
    let stmt_a = t.expr_stmt(use_a);
    let unit_a = t.unit(vec![g, stmt_a]);
    let h_init = t.number(2.0);
    let h = t.let_("h", h_init);
    let use_b = t.ident("g");
    let stmt_b = t.expr_stmt(use_b);
    let use_h = t.ident("h");
    let stmt_h = t.expr_stmt(use_h);
    let unit_b = t.unit(vec![h, stmt_b, stmt_h]);

    let mut first = new_resolver();
    first.resolve_builtin_vars(&builtins(&["print", "clock"]));
    first.resolve_top_level(&unit_a);
    let exported = first.into_resolve_result();
    let in_a = resolved(&exported, expr_of(&body_of(&unit_a)[1]));
    assert_eq!(in_a.offset, 2);
    assert!(in_a.is_global);

    let mut second = Resolver::new_with_existing_resolve_result(
        Source::new(String::new()),
        exported.clone(),
    );
    second.resolve_top_level(&unit_b);
    assert!(messages(&second).is_empty());
    let result = second.into_resolve_result();
    let in_b = resolved(&result, expr_of(&body_of(&unit_b)[1]));
    assert_eq!(in_b, in_a);
    // what unit A resolved is still there
    assert_eq!(resolved(&result, expr_of(&body_of(&unit_a)[1])), in_a);
    // the global of unit B takes the next slot
    let h = resolved(&result, expr_of(&body_of(&unit_b)[2]));
    assert_eq!(h.offset, 3);
    assert!(h.is_global);
    assert_eq!(result.lookup_in_accessible_symbols("print").unwrap().stmt, None);
}

#[test]
fn self_recursion_resolves() {
    // fn f(n) { return f(n); }
    let mut t = Tree::new();
    let n = t.param("n");
    let callee = t.ident("f");
    let arg = t.ident("n");
    let call = t.call(callee, vec![arg]);
    let ret = t.ret(call);
    let f = t.function("f", vec![n], vec![ret]);
    let unit = t.unit(vec![f]);

    let (result, messages) = resolve(&unit, &[]);
    assert!(messages.is_empty());
    let f = &body_of(&unit)[0];
    let call = expr_of(&body_of(f)[0]);
    let callee = resolved(&result, callee_of(call));
    assert_eq!(result.symbol(callee.symbol).unwrap().stmt, Some(f.id));
    assert_eq!(
        callee,
        ResolvedSymbol { offset: 0, is_global: true, is_upvalue: false, symbol: 0 }
    );
    let arg = resolved(&result, &args_of(call)[0]);
    assert_eq!(
        arg,
        ResolvedSymbol { offset: 0, is_global: false, is_upvalue: false, symbol: 1 }
    );
    assert!(declared(&result, f).upvalues.is_empty());
    assert!(!declared(&result, f).is_captured);
}

#[test]
fn global_read_inside_a_function_is_global_only() {
    // let g = 1; fn f() { return g; }
    let mut t = Tree::new();
    let one = t.number(1.0);
    let g = t.let_("g", one);
    let use_g = t.ident("g");
    let ret = t.ret(use_g);
    let f = t.function("f", vec![], vec![ret]);
    let unit = t.unit(vec![g, f]);

    let mut resolver = new_resolver();
    for stmt in body_of(&unit) {
        assert!(stmt.is_resolvable(0));
        resolver.visit_stmt(stmt);
    }
    assert!(messages(&resolver).is_empty());
    let result = resolver.into_resolve_result();
    let g = &body_of(&unit)[0];
    let f = &body_of(&unit)[1];
    let use_g = resolved(&result, expr_of(&body_of(f)[0]));
    assert_eq!(
        use_g,
        ResolvedSymbol { offset: 0, is_global: true, is_upvalue: false, symbol: 0 }
    );
    assert!(!declared(&result, g).is_captured);
    assert!(declared(&result, f).upvalues.is_empty());
}

#[test]
fn no_resolution_is_both_global_and_upvalue() {
    // let g = 1; fn a(x) { fn b() { return g; return x; return b; return a; } }
    let mut t = Tree::new();
    let one = t.number(1.0);
    let g = t.let_("g", one);
    let x = t.param("x");
    let uses: Vec<Stmt> = ["g", "x", "b", "a"]
        .iter()
        .map(|name| {
            let ident = t.ident(name);
            t.ret(ident)
        })
        .collect();
    let b = t.function("b", vec![], uses);
    let a = t.function("a", vec![x], vec![b]);
    let unit = t.unit(vec![g, a]);

    let (result, messages) = resolve(&unit, &["print"]);
    assert!(messages.is_empty());
    let a = &body_of(&unit)[1];
    let b = &body_of(a)[0];
    let kinds: Vec<(bool, bool, usize)> = body_of(b)
        .iter()
        .map(|stmt| {
            let found = resolved(&result, expr_of(stmt));
            (found.is_global, found.is_upvalue, found.offset)
        })
        .collect();
    // g and a are globals at their positions, x and b are locals of a
    // that b captures
    assert_eq!(
        kinds,
        vec![(true, false, 1), (false, true, 0), (false, true, 1), (true, false, 2)]
    );
    assert_eq!(
        declared(&result, b).upvalues,
        vec![
            ResolvedUpValue { is_local: true, index: 0 },
            ResolvedUpValue { is_local: true, index: 1 },
        ]
    );
    assert!(declared(&result, b).is_captured);
    assert!(!declared(&result, a).is_captured);
}

#[test]
fn single_hop_capture() {
    // fn outer(x) { fn inner() { return x; } }
    let mut t = Tree::new();
    let x = t.param("x");
    let use_x = t.ident("x");
    let ret = t.ret(use_x);
    let inner = t.function("inner", vec![], vec![ret]);
    let outer = t.function("outer", vec![x], vec![inner]);
    let unit = t.unit(vec![outer]);

    let (result, messages) = resolve(&unit, &["print", "clock", "assert"]);
    assert!(messages.is_empty());
    let outer = &body_of(&unit)[0];
    let x = &params_of(outer)[0];
    let inner = &body_of(outer)[0];
    let use_x = resolved(&result, expr_of(&body_of(inner)[0]));
    assert!(use_x.is_upvalue);
    assert!(!use_x.is_global);
    assert_eq!(use_x.offset, 0);
    assert_eq!(result.symbol(use_x.symbol).unwrap().stmt, Some(x.id));
    // x is the first local of outer, whatever stands before outer
    assert_eq!(
        declared(&result, inner).upvalues,
        vec![ResolvedUpValue { is_local: true, index: 0 }]
    );
    assert!(declared(&result, x).is_captured);
    assert!(declared(&result, outer).upvalues.is_empty());
    assert!(!declared(&result, outer).is_captured);
}

#[test]
fn multi_hop_capture() {
    // fn a(x) { fn b() { fn c() { return x; } } }
    let mut t = Tree::new();
    let x = t.param("x");
    let use_x = t.ident("x");
    let ret = t.ret(use_x);
    let c = t.function("c", vec![], vec![ret]);
    let b = t.function("b", vec![], vec![c]);
    let a = t.function("a", vec![x], vec![b]);
    let unit = t.unit(vec![a]);

    let (result, messages) = resolve(&unit, &[]);
    assert!(messages.is_empty());
    let a = &body_of(&unit)[0];
    let x = &params_of(a)[0];
    let b = &body_of(a)[0];
    let c = &body_of(b)[0];
    assert_eq!(declared(&result, b).upvalues, vec![ResolvedUpValue { is_local: true, index: 0 }]);
    assert_eq!(declared(&result, c).upvalues, vec![ResolvedUpValue { is_local: false, index: 0 }]);
    assert!(declared(&result, a).upvalues.is_empty());
    assert!(declared(&result, x).is_captured);
    let use_x = resolved(&result, expr_of(&body_of(c)[0]));
    assert_eq!(
        use_x,
        ResolvedSymbol { offset: 0, is_global: false, is_upvalue: true, symbol: 1 }
    );
}

#[test]
fn capture_indices_follow_slots_and_upvalue_lists() {
    // fn a(p, q) { let r = 0; fn b(s) { fn c() { return q; return r; return s; } } }
    let mut t = Tree::new();
    let p = t.param("p");
    let q = t.param("q");
    let zero = t.number(0.0);
    let r = t.let_("r", zero);
    let s = t.param("s");
    let use_q = t.ident("q");
    let ret_q = t.ret(use_q);
    let use_r = t.ident("r");
    let ret_r = t.ret(use_r);
    let use_s = t.ident("s");
    let ret_s = t.ret(use_s);
    let c = t.function("c", vec![], vec![ret_q, ret_r, ret_s]);
    let b = t.function("b", vec![s], vec![c]);
    let a = t.function("a", vec![p, q], vec![r, b]);
    let unit = t.unit(vec![a]);

    let (result, messages) = resolve(&unit, &["print"]);
    assert!(messages.is_empty());
    let a = &body_of(&unit)[0];
    let b = &body_of(a)[1];
    let c = &body_of(b)[0];
    // q is slot 1 of a, r is slot 2 of a; both reach c through b
    assert_eq!(
        declared(&result, b).upvalues,
        vec![
            ResolvedUpValue { is_local: true, index: 1 },
            ResolvedUpValue { is_local: true, index: 2 },
        ]
    );
    // s is slot 0 of b, which is just around c
    assert_eq!(
        declared(&result, c).upvalues,
        vec![
            ResolvedUpValue { is_local: false, index: 0 },
            ResolvedUpValue { is_local: false, index: 1 },
            ResolvedUpValue { is_local: true, index: 0 },
        ]
    );
    let offsets: Vec<usize> =
        body_of(c).iter().map(|stmt| resolved(&result, expr_of(stmt)).offset).collect();
    assert_eq!(offsets, vec![0, 1, 2]);
    assert!(!declared(&result, &params_of(a)[0]).is_captured);
    assert!(declared(&result, &params_of(a)[1]).is_captured);
    assert!(declared(&result, &body_of(a)[0]).is_captured);
    assert!(declared(&result, &params_of(b)[0]).is_captured);
}

#[test]
fn capture_from_a_block_inside_the_declaring_function() {
    // fn a() { { let x = 1; fn b() { return x; } } }
    let mut t = Tree::new();
    let one = t.number(1.0);
    let x = t.let_("x", one);
    let use_x = t.ident("x");
    let ret = t.ret(use_x);
    let b = t.function("b", vec![], vec![ret]);
    let block = t.block(vec![x, b]);
    let a = t.function("a", vec![], vec![block]);
    let unit = t.unit(vec![a]);

    let (result, messages) = resolve(&unit, &[]);
    assert!(messages.is_empty());
    let a = &body_of(&unit)[0];
    let block = &body_of(a)[0];
    let b = &body_of(block)[1];
    assert_eq!(declared(&result, b).upvalues, vec![ResolvedUpValue { is_local: true, index: 0 }]);
    assert_eq!(declared(&result, &body_of(block)[0]).scope_depth, 2);
    let use_x = resolved(&result, expr_of(&body_of(b)[0]));
    assert!(use_x.is_upvalue && !use_x.is_global);
    assert_eq!(use_x.offset, 0);
}

#[test]
fn invalid_assignment_target_is_reported_once() {
    // 1 = 2; then: let x = 0; x = 3;
    let mut t = Tree::new();
    let one = t.number(1.0);
    let two = t.number(2.0);
    let bad = t.binary(one, Token::Equals, two);
    let bad_stmt = t.expr_stmt(bad);
    let zero = t.number(0.0);
    let x = t.let_("x", zero);
    let target = t.ident("x");
    let three = t.number(3.0);
    let good = t.binary(target, Token::Equals, three);
    let good_stmt = t.expr_stmt(good);
    let unit = t.unit(vec![bad_stmt, x, good_stmt]);

    let mut resolver = new_resolver();
    resolver.resolve_top_level(&unit);
    let errors = &resolver.source().errors.errors;
    assert_eq!(errors.len(), 1);
    assert_eq!(errors[0].message, "invalid left-hand side of assignment");
    assert_eq!(
        errors[0].help.as_deref(),
        Some("left-hand side of an assignment must be an identifier")
    );
    let (lhs, _) = operands_of(expr_of(&body_of(&unit)[0]));
    assert_eq!(errors[0].span, lhs.span);
    assert!(resolver.source().errors.has_errors());
    let result = resolver.into_resolve_result();
    // the rest of the program is resolved as usual
    let (target, _) = operands_of(expr_of(&body_of(&unit)[2]));
    assert_eq!(
        resolved(&result, target),
        ResolvedSymbol { offset: 0, is_global: true, is_upvalue: false, symbol: 0 }
    );
    assert!(result.lookup_identifier(lhs).is_none());
}

#[test]
fn comparison_with_a_literal_on_the_left_is_no_assignment() {
    // 1 == 2; 1 + 2;
    let mut t = Tree::new();
    let one = t.number(1.0);
    let two = t.number(2.0);
    let compare = t.binary(one, Token::EqualsEquals, two);
    let compare_stmt = t.expr_stmt(compare);
    let one = t.number(1.0);
    let two = t.number(2.0);
    let sum = t.binary(one, Token::Plus, two);
    let sum_stmt = t.expr_stmt(sum);
    let unit = t.unit(vec![compare_stmt, sum_stmt]);
    let (_, messages) = resolve(&unit, &[]);
    assert!(messages.is_empty());
}

#[test]
fn unresolved_identifier_is_reported_once() {
    let mut t = Tree::new();
    let name = t.ident("undeclared_name");
    let stmt = t.expr_stmt(name);
    let unit = t.unit(vec![stmt]);

    let mut resolver = new_resolver();
    resolver.resolve_builtin_vars(&builtins(&["print"]));
    resolver.resolve_top_level(&unit);
    let errors = &resolver.source().errors.errors;
    assert_eq!(errors.len(), 1);
    assert_eq!(errors[0].message, "cannot resolve symbol \"undeclared_name\"");
    assert_eq!(
        errors[0].help.as_deref(),
        Some("make sure symbol \"undeclared_name\" is in scope")
    );
    let name = expr_of(&body_of(&unit)[0]);
    assert_eq!(errors[0].span, name.span);
    assert_eq!(resolver.source().errors.len(), 1);
    let result = resolver.into_resolve_result();
    assert!(result.lookup_identifier(name).is_none());
}

#[test]
fn use_before_declaration_is_unresolved() {
    // x; let x = 1;
    let mut t = Tree::new();
    let early = t.ident("x");
    let stmt = t.expr_stmt(early);
    let one = t.number(1.0);
    let x = t.let_("x", one);
    let unit = t.unit(vec![stmt, x]);
    let (result, messages) = resolve(&unit, &[]);
    assert_eq!(messages, vec!["cannot resolve symbol \"x\"".to_string()]);
    assert_eq!(result.lookup_in_accessible_symbols("x").unwrap().stmt, Some(body_of(&unit)[1].id));
}

#[test]
fn let_initializer_does_not_see_its_own_binding() {
    // let x = x;
    let mut t = Tree::new();
    let init = t.ident("x");
    let x = t.let_("x", init);
    let unit = t.unit(vec![x]);
    let (result, messages) = resolve(&unit, &[]);
    assert_eq!(messages.len(), 1);
    assert!(result.lookup_identifier(expr_of(&body_of(&unit)[0])).is_none());
}

#[test]
fn locals_count_from_the_start_of_their_function() {
    // fn double(x) { let result = x * 2; return result; }  double(10);
    let mut t = Tree::new();
    let x = t.param("x");
    let use_x = t.ident("x");
    let two = t.number(2.0);
    let product = t.binary(use_x, Token::Asterisk, two);
    let result_decl = t.let_("result", product);
    let use_result = t.ident("result");
    let ret = t.ret(use_result);
    let double = t.function("double", vec![x], vec![result_decl, ret]);
    let callee = t.ident("double");
    let ten = t.number(10.0);
    let call = t.call(callee, vec![ten]);
    let call_stmt = t.expr_stmt(call);
    let unit = t.unit(vec![double, call_stmt]);

    let (result, messages) = resolve(&unit, &["assert", "assert_eq"]);
    assert!(messages.is_empty());
    let double = &body_of(&unit)[0];
    let (use_x, _) = operands_of(expr_of(&body_of(double)[0]));
    assert_eq!(
        resolved(&result, use_x),
        ResolvedSymbol { offset: 0, is_global: false, is_upvalue: false, symbol: 3 }
    );
    assert_eq!(
        resolved(&result, expr_of(&body_of(double)[1])),
        ResolvedSymbol { offset: 1, is_global: false, is_upvalue: false, symbol: 4 }
    );
    assert_eq!(
        resolved(&result, callee_of(expr_of(&body_of(&unit)[1]))),
        ResolvedSymbol { offset: 2, is_global: true, is_upvalue: false, symbol: 2 }
    );
    // parameters and locals are gone once the function is left
    assert!(result.lookup_in_accessible_symbols("x").is_none());
    assert!(result.lookup_in_accessible_symbols("result").is_none());
    assert_eq!(result.lookup_in_accessible_symbols("double").unwrap().stmt, Some(double.id));
}

#[test]
fn parameters_take_slots_in_order() {
    // fn twice(f, v) { return f(f(v)); }
    let mut t = Tree::new();
    let f = t.param("f");
    let v = t.param("v");
    let inner_callee = t.ident("f");
    let arg = t.ident("v");
    let inner = t.call(inner_callee, vec![arg]);
    let outer_callee = t.ident("f");
    let outer = t.call(outer_callee, vec![inner]);
    let ret = t.ret(outer);
    let twice = t.function("twice", vec![f, v], vec![ret]);
    let unit = t.unit(vec![twice]);

    let (result, messages) = resolve(&unit, &[]);
    assert!(messages.is_empty());
    let twice = &body_of(&unit)[0];
    let outer = expr_of(&body_of(twice)[0]);
    let inner = &args_of(outer)[0];
    assert_eq!(resolved(&result, callee_of(outer)).offset, 0);
    assert_eq!(resolved(&result, callee_of(inner)).offset, 0);
    assert_eq!(resolved(&result, &args_of(inner)[0]).offset, 1);
    assert!(!resolved(&result, &args_of(inner)[0]).is_global);
}

#[test]
fn lambda_symbol_is_keyed_by_its_inner_statement() {
    // fn make(x) { return fn() { return x; }; }
    let mut t = Tree::new();
    let x = t.param("x");
    let use_x = t.ident("x");
    let ret_x = t.ret(use_x);
    let lambda = t.lambda(vec![], vec![ret_x]);
    let ret = t.ret(lambda);
    let make = t.function("make", vec![x], vec![ret]);
    let unit = t.unit(vec![make]);

    let (result, messages) = resolve(&unit, &[]);
    assert!(messages.is_empty());
    let make = &body_of(&unit)[0];
    let lambda = expr_of(&body_of(make)[0]);
    let (inner_stmt, body) = match &lambda.kind {
        ExprKind::Lambda { inner_stmt, body, .. } => (inner_stmt, body),
        _ => unreachable!(),
    };
    let symbol = declared(&result, inner_stmt);
    assert_eq!(symbol.ident, "lambda");
    assert_eq!(symbol.upvalues, vec![ResolvedUpValue { is_local: true, index: 0 }]);
    assert_eq!(symbol.stmt, Some(inner_stmt.id));
    assert_eq!(symbol.scope_depth, 1);
    assert!(!symbol.is_captured);
    assert!(result.lookup_in_accessible_symbols("lambda").is_none());
    let use_x = resolved(&result, expr_of(&body[0]));
    assert!(use_x.is_upvalue);
    assert_eq!(use_x.offset, 0);
    assert!(declared(&result, &params_of(make)[0]).is_captured);
}

#[test]
fn lambda_parameters_are_locals() {
    // let add = fn(a, b) { return a + b; };
    let mut t = Tree::new();
    let a = t.param("a");
    let b = t.param("b");
    let use_a = t.ident("a");
    let use_b = t.ident("b");
    let sum = t.binary(use_a, Token::Plus, use_b);
    let ret = t.ret(sum);
    let lambda = t.lambda(vec![a, b], vec![ret]);
    let add = t.let_("add", lambda);
    let unit = t.unit(vec![add]);

    let (result, messages) = resolve(&unit, &["print"]);
    assert!(messages.is_empty());
    let lambda = expr_of(&body_of(&unit)[0]);
    let body = match &lambda.kind {
        ExprKind::Lambda { body, .. } => body,
        _ => unreachable!(),
    };
    let (use_a, use_b) = operands_of(expr_of(&body[0]));
    assert_eq!(resolved(&result, use_a).offset, 0);
    assert_eq!(resolved(&result, use_b).offset, 1);
    assert!(!resolved(&result, use_a).is_global);
    assert!(!resolved(&result, use_b).is_upvalue);
    assert_eq!(result.lookup_in_accessible_symbols("add").unwrap().scope_depth, 0);
}

#[test]
fn if_else_and_while_bodies_have_their_own_scopes() {
    let mut t = Tree::new();
    let flag_init = t.number(1.0);
    let flag = t.let_("flag", flag_init);
    let condition = t.ident("flag");
    let one = t.number(1.0);
    let in_if = t.let_("a", one);
    let use_a = t.ident("a");
    let use_a_stmt = t.expr_stmt(use_a);
    let wrong = t.ident("a");
    let wrong_stmt = t.expr_stmt(wrong);
    let if_else = t.stmt(StmtKind::IfElseStmt {
        condition,
        if_block: vec![in_if, use_a_stmt],
        else_block: Some(vec![wrong_stmt]),
    });
    let loop_condition = t.ident("flag");
    let two = t.number(2.0);
    let in_loop = t.let_("b", two);
    let while_stmt = t.stmt(StmtKind::WhileStmt { condition: loop_condition, body: vec![in_loop] });
    let late = t.ident("b");
    let late_stmt = t.expr_stmt(late);
    let unit = t.unit(vec![flag, if_else, while_stmt, late_stmt]);

    let (result, messages) = resolve(&unit, &[]);
    assert_eq!(
        messages,
        vec!["cannot resolve symbol \"a\"".to_string(), "cannot resolve symbol \"b\"".to_string()]
    );
    match &body_of(&unit)[1].kind {
        StmtKind::IfElseStmt { condition, if_block, else_block } => {
            assert_eq!(resolved(&result, condition).offset, 0);
            assert_eq!(resolved(&result, expr_of(&if_block[1])).offset, 1);
            assert_eq!(declared(&result, &if_block[0]).scope_depth, 1);
            assert!(result.lookup_identifier(expr_of(&else_block.as_ref().unwrap()[0])).is_none());
        },
        _ => unreachable!(),
    }
    assert_eq!(declared(&result, &body_of(&body_of(&unit)[2])[0]).scope_depth, 1);
}

#[test]
fn builtins_are_globals_without_a_statement() {
    let mut t = Tree::new();
    let clock = t.ident("clock");
    let call = t.call(clock, vec![]);
    let stmt = t.expr_stmt(call);
    let unit = t.unit(vec![stmt]);
    let (result, messages) = resolve(&unit, &["print", "clock"]);
    assert!(messages.is_empty());
    let found = resolved(&result, callee_of(expr_of(&body_of(&unit)[0])));
    assert_eq!(found, ResolvedSymbol { offset: 1, is_global: true, is_upvalue: false, symbol: 1 });
    let symbol = result.lookup_in_accessible_symbols("clock").unwrap();
    assert_eq!(symbol.stmt, None);
    assert_eq!(symbol.scope_depth, 0);
    assert_eq!(result.symbol(0).unwrap().ident, "print");
    assert!(result.symbol(2).is_none());
}

#[test]
fn top_level_entry_accepts_only_resolvable_functions() {
    let mut t = Tree::new();
    let one = t.number(1.0);
    let not_a_function = t.let_("x", one);
    let stray = t.stmt(StmtKind::Lambda);
    let with_stray = t.unit(vec![stray]);
    let error = t.stmt(StmtKind::Error);
    let error_expr = t.expr(ExprKind::Error);
    let error_expr_stmt = t.expr_stmt(error_expr);
    let with_errors = t.unit(vec![error, error_expr_stmt]);

    let mut resolver = new_resolver();
    assert!(!resolver.try_resolve_top_level(&not_a_function));
    assert!(!resolver.try_resolve_top_level(&with_stray));
    assert!(resolver.try_resolve_top_level(&with_errors));
    assert!(messages(&resolver).is_empty());
    assert!(!not_a_function.is_resolvable_function(0));
    assert!(not_a_function.is_resolvable(0));
    assert!(!with_stray.is_resolvable(0));
    let result = resolver.into_resolve_result();
    assert!(result.lookup_in_accessible_symbols("x").is_none());
    assert!(result.lookup_declaration(&not_a_function).is_none());
}

#[test]
fn scopes_deeper_than_the_counter_are_not_resolvable() {
    let mut t = Tree::new();
    let one = t.number(1.0);
    let x = t.let_("x", one);
    let block = t.block(vec![x]);
    assert!(block.is_resolvable(0));
    assert!(block.is_resolvable(u32::MAX - 1));
    assert!(!block.is_resolvable(u32::MAX));
    let lambda = t.lambda(vec![], vec![]);
    assert!(lambda.is_resolvable(u32::MAX - 1));
    assert!(!lambda.is_resolvable(u32::MAX));
    let literal = t.number(1.0);
    assert!(literal.is_resolvable(u32::MAX));
}

#[test]
fn top_level_function_parameters_are_not_declared() {
    // the unit's own parameters are not visited, only its body
    let mut t = Tree::new();
    let p = t.param("p");
    let use_p = t.ident("p");
    let stmt = t.expr_stmt(use_p);
    let unit = t.function("main", vec![p], vec![stmt]);
    let (result, messages) = resolve(&unit, &[]);
    assert_eq!(messages, vec!["cannot resolve symbol \"p\"".to_string()]);
    assert!(result.lookup_declaration(&unit).is_none());
    assert!(result.lookup_in_accessible_symbols("main").is_none());
}

#[test]
fn variables_program_resolves() {
    // let x = 1; assert_eq(x, 1); let y = x + 1; assert_eq(y, x + 1); x = 10;
    let mut t = Tree::new();
    let one = t.number(1.0);
    let x = t.let_("x", one);
    let callee = t.ident("assert_eq");
    let use_x = t.ident("x");
    let one = t.number(1.0);
    let check_x = t.call(callee, vec![use_x, one]);
    let check_x = t.expr_stmt(check_x);
    let use_x = t.ident("x");
    let one = t.number(1.0);
    let sum = t.binary(use_x, Token::Plus, one);
    let y = t.let_("y", sum);
    let callee = t.ident("assert_eq");
    let use_y = t.ident("y");
    let use_x = t.ident("x");
    let one = t.number(1.0);
    let sum = t.binary(use_x, Token::Plus, one);
    let check_y = t.call(callee, vec![use_y, sum]);
    let check_y = t.expr_stmt(check_y);
    let target = t.ident("x");
    let ten = t.number(10.0);
    let assign = t.binary(target, Token::Equals, ten);
    let assign = t.expr_stmt(assign);
    let unit = t.unit(vec![x, check_x, y, check_y, assign]);

    let (result, messages) = resolve(&unit, &["assert", "assert_eq"]);
    assert!(messages.is_empty());
    let check_y = expr_of(&body_of(&unit)[3]);
    assert_eq!(resolved(&result, callee_of(check_y)).offset, 1);
    assert_eq!(resolved(&result, &args_of(check_y)[0]).offset, 3);
    let (use_x, _) = operands_of(&args_of(check_y)[1]);
    assert_eq!(resolved(&result, use_x).offset, 2);
    let (target, _) = operands_of(expr_of(&body_of(&unit)[4]));
    assert_eq!(resolved(&result, target).offset, 2);
}

#[test]
fn unary_operand_and_call_arguments_are_resolved() {
    let mut t = Tree::new();
    let one = t.number(1.0);
    let x = t.let_("x", one);
    let use_x = t.ident("x");
    let negated = t.expr(ExprKind::Unary { op: Token::Minus, arg: Box::new(use_x) });
    let missing = t.ident("nowhere");
    let callee = t.ident("x");
    let call = t.call(callee, vec![negated, missing]);
    let stmt = t.expr_stmt(call);
    let unit = t.unit(vec![x, stmt]);
    let (result, messages) = resolve(&unit, &[]);
    assert_eq!(messages, vec!["cannot resolve symbol \"nowhere\"".to_string()]);
    let call = expr_of(&body_of(&unit)[1]);
    match &args_of(call)[0].kind {
        ExprKind::Unary { arg, .. } => assert_eq!(resolved(&result, arg).offset, 0),
        _ => unreachable!(),
    }
}
