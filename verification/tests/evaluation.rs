use nix_eval::attr_set::{AttrValue, Bindings};
use nix_eval::env::{Displ, Level, StaticEnv};
use nix_eval::err::{NixError, ValueKind};
use nix_eval::eval::{EvalState, ShouldEval};
use nix_eval::nix_expr::{
    AttrDef, AttrName, BinOp, DynamicAttrDef, Expr, ExprAssert, ExprAttrs, ExprConcatStrings,
    ExprIf, ExprLambda, ExprLet, ExprOpHasAttr, ExprSelect, ExprVar, ExprWith, Formal, Formals,
    OpKind,
};
use nix_eval::pos::{KnownPos, Pos};
use nix_eval::primops::{PrimOp, PrimOpFun, RegisterPrimOp};
use nix_eval::symbol_table::Symbol;
use nix_eval::value::{NixFloat, NixString, Value};
use std::collections::HashMap;

const DEPTH: usize = 200;

fn scope() -> StaticEnv<'static> {
    StaticEnv { is_with: false, up: None, vars: HashMap::new() }
}

fn sym(state: &mut EvalState, name: &str) -> Symbol {
    state.symbols.create(name.to_string())
}

fn var(name: Symbol) -> Expr {
    var_at(name, Pos::Undefined)
}

fn var_at(name: Symbol, pos: Pos) -> Expr {
    Expr::Var(ExprVar {
        pos,
        name,
        resolved: false,
        from_with: false,
        level: Level(0),
        displ: Displ(0),
    })
}

fn def(name: Symbol, expr: Expr) -> (Symbol, AttrDef) {
    (name, AttrDef { inherited: false, expr: Box::new(expr), pos: Pos::Undefined, displ: Displ(0) })
}

fn inherit(name: Symbol) -> (Symbol, AttrDef) {
    (
        name,
        AttrDef { inherited: true, expr: Box::new(var(name)), pos: Pos::Undefined, displ: Displ(0) },
    )
}

fn set(attrs: Vec<(Symbol, AttrDef)>) -> ExprAttrs {
    ExprAttrs { recursive: false, attrs, dynamic_attrs: Vec::new() }
}

fn rec_set(attrs: Vec<(Symbol, AttrDef)>) -> ExprAttrs {
    ExprAttrs { recursive: true, attrs, dynamic_attrs: Vec::new() }
}

fn let_in(attrs: Vec<(Symbol, AttrDef)>, body: Expr) -> Expr {
    Expr::Let(ExprLet { attrs: Box::new(rec_set(attrs)), body: Box::new(body) })
}

fn with(attrs: Expr, body: Expr) -> Expr {
    Expr::With(ExprWith {
        pos: Pos::Undefined,
        attrs: Box::new(attrs),
        body: Box::new(body),
        prev_with: Level(0),
    })
}

fn binop(kind: OpKind, e1: Expr, e2: Expr) -> Expr {
    Expr::BinOp(BinOp { kind, pos: Pos::Undefined, e1: Box::new(e1), e2: Box::new(e2) })
}

fn app(f: Expr, x: Expr) -> Expr {
    binop(OpKind::App, f, x)
}

fn plus(a: Expr, b: Expr) -> Expr {
    Expr::ConcatStrings(ExprConcatStrings {
        pos: Pos::Undefined,
        force_string: false,
        exprs: vec![a, b],
    })
}

fn name(symbol: Symbol) -> AttrName {
    AttrName { symbol, expr: None }
}

fn select(e: Expr, path: Vec<AttrName>, default: Option<Expr>) -> Expr {
    Expr::Select(ExprSelect {
        pos: Pos::Undefined,
        expr: Box::new(e),
        def: default.map(Box::new),
        attr_path: path,
    })
}

fn lambda(arg: Symbol, body: Expr) -> Expr {
    Expr::Lambda(ExprLambda {
        pos: Pos::Undefined,
        name: arg,
        arg: Some(arg),
        match_attrs: false,
        formals: Formals { formals: Vec::new(), ellipsis: false },
        body: Box::new(body),
    })
}

fn pattern(formals: Vec<Formal>, ellipsis: bool, body: Expr) -> Expr {
    Expr::Lambda(ExprLambda {
        pos: Pos::Undefined,
        name: 0,
        arg: None,
        match_attrs: true,
        formals: Formals { formals, ellipsis },
        body: Box::new(body),
    })
}

fn int_at(state: &EvalState, slot: usize) -> i64 {
    match state.value(slot) {
        Some(Value::Int(n)) => *n,
        _ => panic!("no integer in the slot"),
    }
}

fn bool_at(state: &EvalState, slot: usize) -> bool {
    match state.value(slot) {
        Some(Value::Bool(b)) => *b,
        _ => panic!("no boolean in the slot"),
    }
}

fn attr_of(state: &EvalState, slot: usize, name: Symbol) -> AttrValue {
    match state.value(slot) {
        Some(Value::Attrs(b)) => b.get(name).expect("the set lacks the name"),
        _ => panic!("no set in the slot"),
    }
}

fn with_div(state: &mut EvalState, scope: &mut StaticEnv) -> Symbol {
    let mut registry = RegisterPrimOp::new();
    registry.register(PrimOp { name: "__div".to_string(), arity: 2, fun: PrimOpFun::Div });
    registry.register(PrimOp { name: "__sub".to_string(), arity: 2, fun: PrimOpFun::Sub });
    registry.register(PrimOp { name: "__mul".to_string(), arity: 2, fun: PrimOpFun::Mul });
    registry.register(PrimOp { name: "__lessThan".to_string(), arity: 2, fun: PrimOpFun::LessThan });
    state.register_prim_ops(scope, &registry).unwrap();
    sym(state, "__div")
}

#[test]
fn top_level_resolves_and_evaluates() {
    let mut state = EvalState::new();
    let mut globals = scope();
    let div = with_div(&mut state, &mut globals);
    let x = sym(&mut state, "x");
    let y = sym(&mut state, "y");
    let mut e = let_in(
        vec![def(x, app(app(var(div), Expr::Int(84)), Expr::Int(2)))],
        plus(var(x), Expr::Int(0)),
    );
    let mut open = plus(var(x), var(y));
    let slots = state.values.len();
    assert_eq!(
        state.eval_top_level(&globals, &mut open, DEPTH),
        Err(NixError::UndefinedVar(x, Pos::Undefined))
    );
    assert_eq!(state.values.len(), slots);
    let slot = state.eval_top_level(&globals, &mut e, DEPTH).unwrap();
    assert_eq!(int_at(&state, slot), 42);
}

#[test]
fn application_value_is_carried_out_when_forced() {
    let mut state = EvalState::new();
    let x = sym(&mut state, "x");
    let mut f = lambda(x, plus(var(x), Expr::Int(1)));
    f.bind_vars(&scope()).unwrap();
    let fun = state.eval(0, &f, DEPTH).unwrap();
    let arg = state.push_value(Value::Int(41));
    let call = state.push_value(Value::App(nix_eval::value::App { left: fun, right: arg }));
    assert_eq!(state.force(call, Pos::Undefined, 0), Err(NixError::DepthExhausted));
    assert!(matches!(state.value(call), Some(Value::App(_))));
    assert_eq!(state.force(call, Pos::Undefined, DEPTH), Ok(()));
    assert_eq!(int_at(&state, call), 42);
    let opaque = state.push_value(Value::External);
    assert_eq!(state.force(opaque, Pos::Undefined, DEPTH), Ok(()));
    assert!(matches!(state.value(opaque), Some(Value::External)));
    let bad = state.push_value(Value::App(nix_eval::value::App { left: arg, right: arg }));
    assert_eq!(
        state.force(bad, Pos::Undefined, DEPTH),
        Err(NixError::NotAFunction(ValueKind::Int))
    );
}

#[test]
fn failed_definitions_leave_the_state_as_it_is() {
    let mut state = EvalState::new();
    let a = sym(&mut state, "a");
    let b = sym(&mut state, "b");
    let twice = let_in(vec![def(a, Expr::Int(1)), def(a, Expr::Int(2))], Expr::Int(0));
    let rec_twice = Expr::Attrs(rec_set(vec![def(b, Expr::Int(1)), def(b, Expr::Int(2))]));
    let slots = state.values.len();
    let envs = state.envs.len();
    assert_eq!(state.eval(0, &twice, DEPTH), Err(NixError::DuplicateAttr(a, Pos::Undefined)));
    assert_eq!(state.eval(0, &rec_twice, DEPTH), Err(NixError::DuplicateAttr(b, Pos::Undefined)));
    assert_eq!((state.values.len(), state.envs.len()), (slots, envs));
}

#[test]
fn innermost_binding_shadows() {
    let mut state = EvalState::new();
    let a = sym(&mut state, "a");
    let mut e = let_in(vec![def(a, Expr::Int(1))], let_in(vec![def(a, Expr::Int(2))], var(a)));
    e.bind_vars(&scope()).unwrap();
    let slot = state.eval(0, &e, DEPTH).unwrap();
    assert_eq!(int_at(&state, slot), 2);
}

#[test]
fn with_falls_back_to_the_outer_with() {
    let mut state = EvalState::new();
    let a = sym(&mut state, "a");
    let b = sym(&mut state, "b");
    let mut e = with(
        Expr::Attrs(set(vec![def(a, Expr::Int(1))])),
        with(Expr::Attrs(set(vec![def(b, Expr::Int(2))])), plus(var(a), var(b))),
    );
    e.bind_vars(&scope()).unwrap();
    let slot = state.eval(0, &e, DEPTH).unwrap();
    assert_eq!(int_at(&state, slot), 3);
}

#[test]
fn nearer_with_wins() {
    let mut state = EvalState::new();
    let a = sym(&mut state, "a");
    let mut e = with(
        Expr::Attrs(set(vec![def(a, Expr::Int(1))])),
        with(Expr::Attrs(set(vec![def(a, Expr::Int(2))])), var(a)),
    );
    e.bind_vars(&scope()).unwrap();
    let slot = state.eval(0, &e, DEPTH).unwrap();
    assert_eq!(int_at(&state, slot), 2);
}

#[test]
fn with_records_the_distance_to_the_with_around_it() {
    let mut state = EvalState::new();
    let a = sym(&mut state, "a");
    let x = sym(&mut state, "x");
    let mut e = with(
        Expr::Attrs(set(vec![def(a, Expr::Int(1))])),
        let_in(vec![def(x, Expr::Int(0))], with(Expr::Attrs(set(vec![])), var(a))),
    );
    e.bind_vars(&scope()).unwrap();
    match &e {
        Expr::With(outer) => {
            assert_eq!(outer.prev_with, Level(0));
            match &*outer.body {
                Expr::Let(l) => match &*l.body {
                    Expr::With(inner) => {
                        assert_eq!(inner.prev_with, Level(2));
                        match &*inner.body {
                            Expr::Var(v) => {
                                assert!(v.resolved);
                                assert!(v.from_with);
                                assert_eq!(v.level, Level(0));
                            },
                            _ => panic!("no variable"),
                        }
                    },
                    _ => panic!("no with"),
                },
                _ => panic!("no let"),
            }
        },
        _ => panic!("no with"),
    }
    let slot = state.eval(0, &e, DEPTH).unwrap();
    assert_eq!(int_at(&state, slot), 1);
}

#[test]
fn unused_binding_is_never_forced() {
    let mut state = EvalState::new();
    let mut globals = scope();
    let div = with_div(&mut state, &mut globals);
    let x = sym(&mut state, "x");
    let y = sym(&mut state, "y");
    let mut e = let_in(
        vec![def(x, app(app(var(div), Expr::Int(1)), Expr::Int(0)))],
        select(Expr::Attrs(set(vec![def(y, Expr::Int(2))])), vec![name(y)], None),
    );
    e.bind_vars(&globals).unwrap();
    let slot = state.eval(0, &e, DEPTH).unwrap();
    assert_eq!(int_at(&state, slot), 2);
}

#[test]
fn division_by_zero_fails_when_forced() {
    let mut state = EvalState::new();
    let mut globals = scope();
    let div = with_div(&mut state, &mut globals);
    let x = sym(&mut state, "x");
    let mut e = let_in(vec![def(x, app(app(var(div), Expr::Int(1)), Expr::Int(0)))], var(x));
    e.bind_vars(&globals).unwrap();
    assert_eq!(state.eval(0, &e, DEPTH), Err(NixError::DivisionByZero));
}

#[test]
fn built_in_arithmetic() {
    let mut state = EvalState::new();
    let mut globals = scope();
    let div = with_div(&mut state, &mut globals);
    let sub = sym(&mut state, "__sub");
    let mul = sym(&mut state, "__mul");
    let less = sym(&mut state, "__lessThan");
    let mut e = Expr::List(vec![
        app(app(var(div), Expr::Int(-7)), Expr::Int(2)),
        app(app(var(div), Expr::Int(7)), Expr::Int(-2)),
        app(app(var(div), Expr::Int(-7)), Expr::Int(-2)),
        app(app(var(sub), Expr::Int(7)), Expr::Int(9)),
        app(app(var(mul), Expr::Int(-7)), Expr::Int(6)),
        app(app(var(less), Expr::Int(1)), Expr::Int(2)),
        app(app(var(div), Expr::Int(i64::MIN)), Expr::Int(-1)),
        app(app(var(sub), Expr::Int(i64::MIN)), Expr::Int(1)),
        app(app(var(mul), Expr::Int(i64::MAX)), Expr::Int(2)),
        app(app(var(div), Expr::Int(i64::MIN)), Expr::Int(1)),
    ]);
    e.bind_vars(&globals).unwrap();
    let slot = state.eval(0, &e, DEPTH).unwrap();
    let items = match state.value(slot) {
        Some(Value::List(items)) => items.clone(),
        _ => panic!("no list"),
    };
    let p = Pos::Undefined;
    assert_eq!(state.force(items[0], p, DEPTH), Ok(()));
    assert_eq!(int_at(&state, items[0]), -3);
    assert_eq!(state.force(items[1], p, DEPTH), Ok(()));
    assert_eq!(int_at(&state, items[1]), -3);
    assert_eq!(state.force(items[2], p, DEPTH), Ok(()));
    assert_eq!(int_at(&state, items[2]), 3);
    assert_eq!(state.force(items[3], p, DEPTH), Ok(()));
    assert_eq!(int_at(&state, items[3]), -2);
    assert_eq!(state.force(items[4], p, DEPTH), Ok(()));
    assert_eq!(int_at(&state, items[4]), -42);
    assert_eq!(state.force(items[5], p, DEPTH), Ok(()));
    assert!(bool_at(&state, items[5]));
    assert_eq!(state.force(items[6], p, DEPTH), Err(NixError::IntegerOverflow));
    assert_eq!(state.force(items[7], p, DEPTH), Err(NixError::IntegerOverflow));
    assert_eq!(state.force(items[8], p, DEPTH), Err(NixError::IntegerOverflow));
    assert_eq!(state.force(items[9], p, DEPTH), Ok(()));
    assert_eq!(int_at(&state, items[9]), i64::MIN);
}

#[test]
fn partly_applied_built_in_is_a_function() {
    let mut state = EvalState::new();
    let mut globals = scope();
    let _ = with_div(&mut state, &mut globals);
    let sub = sym(&mut state, "__sub");
    let f = sym(&mut state, "f");
    let mut e = let_in(vec![def(f, app(var(sub), Expr::Int(10)))], app(var(f), Expr::Int(4)));
    e.bind_vars(&globals).unwrap();
    let slot = state.eval(0, &e, DEPTH).unwrap();
    assert_eq!(int_at(&state, slot), 6);
}

#[test]
fn built_in_of_another_arity_is_refused() {
    let mut state = EvalState::new();
    let mut globals = scope();
    let mut registry = RegisterPrimOp::new();
    registry.register(PrimOp { name: "one".to_string(), arity: 1, fun: PrimOpFun::Sub });
    state.register_prim_ops(&mut globals, &registry).unwrap();
    let one = sym(&mut state, "one");
    let mut e = app(var(one), Expr::Int(1));
    e.bind_vars(&globals).unwrap();
    assert_eq!(state.eval(0, &e, DEPTH), Err(NixError::CallArity { takes: 2, given: 1 }));
}

#[test]
fn thunk_is_forced_at_most_once() {
    let mut state = EvalState::new();
    let x = sym(&mut state, "x");
    // Each evaluation of the list literal makes a new slot, so a second
    // evaluation of `x` would show in the number of slots.
    let mut e = let_in(
        vec![def(x, Expr::List(vec![Expr::Int(1), Expr::Int(2)]))],
        Expr::List(vec![var(x), var(x)]),
    );
    e.bind_vars(&scope()).unwrap();
    let slot = state.eval(0, &e, DEPTH).unwrap();
    let items = match state.value(slot) {
        Some(Value::List(items)) => items.clone(),
        _ => panic!("no list"),
    };
    assert_eq!(items[0], items[1]);
    assert!(matches!(state.value(items[0]), Some(Value::Thunk(_))));
    let before = state.values.len();
    assert_eq!(state.force(items[0], Pos::Undefined, DEPTH), Ok(()));
    let after_first = state.values.len();
    assert!(after_first > before);
    assert!(matches!(state.value(items[0]), Some(Value::List(_))));
    assert_eq!(state.force(items[1], Pos::Undefined, DEPTH), Ok(()));
    assert_eq!(state.force(items[0], Pos::Undefined, DEPTH), Ok(()));
    assert_eq!(state.values.len(), after_first);
}

#[test]
fn self_reference_is_an_infinite_recursion() {
    let mut state = EvalState::new();
    let x = sym(&mut state, "x");
    let file = sym(&mut state, "test.nix");
    let pos = Pos::Known(KnownPos { file, line: 1, column: 9 });
    let mut e = let_in(vec![def(x, var_at(x, pos))], var(x));
    e.bind_vars(&scope()).unwrap();
    assert_eq!(state.eval(0, &e, DEPTH), Err(NixError::InfiniteRecursion(pos)));
}

#[test]
fn failed_force_leaves_the_thunk() {
    let mut state = EvalState::new();
    let x = sym(&mut state, "x");
    let mut e = let_in(vec![def(x, var(x))], Expr::List(vec![var(x)]));
    e.bind_vars(&scope()).unwrap();
    let slot = state.eval(0, &e, DEPTH).unwrap();
    let items = match state.value(slot) {
        Some(Value::List(items)) => items.clone(),
        _ => panic!("no list"),
    };
    let first = state.force(items[0], Pos::Undefined, DEPTH);
    assert_eq!(first, Err(NixError::InfiniteRecursion(Pos::Undefined)));
    assert!(matches!(state.value(items[0]), Some(Value::Thunk(_))));
    assert_eq!(state.force(items[0], Pos::Undefined, DEPTH), first);
}

#[test]
fn update_prefers_the_right_and_keeps_thunks() {
    let mut state = EvalState::new();
    let a = sym(&mut state, "a");
    let b = sym(&mut state, "b");
    let l = sym(&mut state, "l");
    let mut e = let_in(
        vec![def(l, Expr::Attrs(set(vec![def(a, Expr::Int(1)), def(b, Expr::Int(1))])))],
        Expr::List(vec![
            var(l),
            binop(OpKind::Update, var(l), Expr::Attrs(set(vec![def(a, Expr::Int(2))]))),
        ]),
    );
    e.bind_vars(&scope()).unwrap();
    let slot = state.eval(0, &e, DEPTH).unwrap();
    let items = match state.value(slot) {
        Some(Value::List(items)) => items.clone(),
        _ => panic!("no list"),
    };
    assert_eq!(state.force(items[0], Pos::Undefined, DEPTH), Ok(()));
    assert_eq!(state.force(items[1], Pos::Undefined, DEPTH), Ok(()));
    let left_b = attr_of(&state, items[0], b);
    let merged_a = attr_of(&state, items[1], a);
    let merged_b = attr_of(&state, items[1], b);
    match state.value(items[1]) {
        Some(Value::Attrs(set)) => assert_eq!(set.len(), 2),
        _ => panic!("no set"),
    }
    // The slot of `b` is the one of the left set, still unevaluated.
    assert_eq!(merged_b.value, left_b.value);
    assert!(matches!(state.value(merged_b.value), Some(Value::Thunk(_))));
    assert_eq!(state.force(merged_a.value, Pos::Undefined, DEPTH), Ok(()));
    assert_eq!(int_at(&state, merged_a.value), 2);
    assert_eq!(state.force(merged_b.value, Pos::Undefined, DEPTH), Ok(()));
    assert_eq!(int_at(&state, merged_b.value), 1);
}

#[test]
fn unbound_variable_is_reported_with_its_position() {
    let mut state = EvalState::new();
    let a = sym(&mut state, "a");
    let b = sym(&mut state, "b");
    let file = sym(&mut state, "test.nix");
    let pos = Pos::Known(KnownPos { file, line: 3, column: 7 });
    let mut e = let_in(vec![def(a, Expr::Int(1))], plus(var(a), var_at(b, pos)));
    assert_eq!(e.bind_vars(&scope()), Err(NixError::UndefinedVar(b, pos)));
}

#[test]
fn first_unbound_variable_is_the_one_reported() {
    let mut state = EvalState::new();
    let a = sym(&mut state, "a");
    let b = sym(&mut state, "b");
    let c = sym(&mut state, "c");
    let file = sym(&mut state, "test.nix");
    let at = |line: usize| Pos::Known(KnownPos { file, line, column: 1 });
    // if b then (let a = c; in a) else c
    let mut e = Expr::If(ExprIf {
        cond: Box::new(var_at(b, at(1))),
        then_: Box::new(let_in(vec![def(a, var_at(c, at(2)))], var(a))),
        else_: Box::new(var_at(c, at(3))),
    });
    assert_eq!(e.bind_vars(&scope()), Err(NixError::UndefinedVar(b, at(1))));
    let mut globals = scope();
    globals.vars.insert(b, Displ(0));
    assert_eq!(e.bind_vars(&globals), Err(NixError::UndefinedVar(c, at(2))));
    // The body of a function is resolved after the defaults of its formals.
    let mut f = pattern(
        vec![Formal { name: a, def: Some(Box::new(var_at(c, at(5)))) }],
        false,
        var_at(b, at(4)),
    );
    assert_eq!(f.bind_vars(&scope()), Err(NixError::UndefinedVar(c, at(5))));
}

#[test]
fn evaluation_keeps_evaluated_values() {
    let mut state = EvalState::new();
    let x = sym(&mut state, "x");
    let y = sym(&mut state, "y");
    let mut e = let_in(
        vec![def(x, Expr::Int(1)), def(y, plus(var(x), Expr::Int(1)))],
        Expr::List(vec![var(x), var(y)]),
    );
    e.bind_vars(&scope()).unwrap();
    let slot = state.eval(0, &e, DEPTH).unwrap();
    let items = match state.value(slot) {
        Some(Value::List(items)) => items.clone(),
        _ => panic!("no list"),
    };
    assert_eq!(state.force(items[0], Pos::Undefined, DEPTH), Ok(()));
    assert_eq!(int_at(&state, items[0]), 1);
    let slots = state.values.len();
    let envs = state.envs.len();
    assert_eq!(state.force(items[1], Pos::Undefined, DEPTH), Ok(()));
    assert!(state.values.len() >= slots);
    assert_eq!(state.envs.len(), envs);
    assert_eq!(int_at(&state, items[0]), 1);
    assert_eq!(int_at(&state, items[1]), 2);
    assert_eq!(int_at(&state, slot_of_list_head(&state, slot)), 1);
}

fn slot_of_list_head(state: &EvalState, list: usize) -> usize {
    match state.value(list) {
        Some(Value::List(items)) => items[0],
        _ => panic!("no list"),
    }
}

#[test]
fn closed_expression_resolves_every_variable() {
    let mut state = EvalState::new();
    let a = sym(&mut state, "a");
    let b = sym(&mut state, "b");
    let mut e = let_in(
        vec![def(a, Expr::Int(1)), def(b, var(a))],
        lambda(a, plus(var(a), var(b))),
    );
    assert_eq!(e.bind_vars(&scope()), Ok(()));
    match &e {
        Expr::Let(l) => {
            assert_eq!(l.attrs.attrs[0].1.displ, Displ(0));
            assert_eq!(l.attrs.attrs[1].1.displ, Displ(1));
            match &*l.attrs.attrs[1].1.expr {
                Expr::Var(v) => {
                    assert!(v.resolved && !v.from_with);
                    assert_eq!((v.level, v.displ), (Level(0), Displ(0)));
                },
                _ => panic!("no variable"),
            }
            match &*l.body {
                Expr::Lambda(f) => match &*f.body {
                    Expr::ConcatStrings(c) => {
                        match (&c.exprs[0], &c.exprs[1]) {
                            (Expr::Var(x), Expr::Var(y)) => {
                                assert!(x.resolved && y.resolved);
                                assert_eq!((x.level, x.displ), (Level(0), Displ(0)));
                                assert_eq!((y.level, y.displ), (Level(1), Displ(1)));
                            },
                            _ => panic!("no variables"),
                        }
                    },
                    _ => panic!("no sum"),
                },
                _ => panic!("no function"),
            }
        },
        _ => panic!("no let"),
    }
}

#[test]
fn variable_in_a_with_is_left_to_evaluation() {
    let mut state = EvalState::new();
    let a = sym(&mut state, "a");
    let b = sym(&mut state, "b");
    let pos = Pos::Undefined;
    let mut e = with(Expr::Attrs(set(vec![def(a, Expr::Int(1))])), var(b));
    assert_eq!(e.bind_vars(&scope()), Ok(()));
    assert_eq!(state.eval(0, &e, DEPTH), Err(NixError::UndefinedVar(b, pos)));
}

#[test]
fn lookup_without_evaluation_refuses_an_unevaluated_with() {
    let mut state = EvalState::new();
    let a = sym(&mut state, "a");
    let attrs = Expr::Attrs(set(vec![def(a, Expr::Int(1))]));
    let frame = state.push_env(nix_eval::env::Env {
        up: Some(0),
        prev_with: Level(0),
        values: nix_eval::env::EnvInner::HasWithExpr(&attrs),
    });
    let v = ExprVar {
        pos: Pos::Undefined,
        name: a,
        resolved: true,
        from_with: true,
        level: Level(0),
        displ: Displ(0),
    };
    assert_eq!(
        state.lookup_var(frame, &v, ShouldEval::No, DEPTH),
        Err(NixError::VarLookupUnevaluated(a))
    );
    assert!(matches!(state.envs[frame].values, nix_eval::env::EnvInner::HasWithExpr(_)));
    let slot = state.lookup_var(frame, &v, ShouldEval::Yes, DEPTH).unwrap();
    assert!(matches!(state.envs[frame].values, nix_eval::env::EnvInner::HasWithAttrs(_)));
    // Now that the frame holds its set, the lookup needs no evaluation.
    assert_eq!(state.lookup_var(frame, &v, ShouldEval::No, DEPTH), Ok(slot));
    assert_eq!(state.force(slot, Pos::Undefined, DEPTH), Ok(()));
    assert_eq!(int_at(&state, slot), 1);
}

#[test]
fn lookup_of_a_bound_variable_reads_the_frame() {
    let mut state = EvalState::new();
    let a = sym(&mut state, "a");
    let first = state.push_value(Value::Int(10));
    let second = state.push_value(Value::Int(20));
    let outer = state.push_env(nix_eval::env::Env {
        up: Some(0),
        prev_with: Level(0),
        values: nix_eval::env::EnvInner::Plain(vec![first, second]),
    });
    let inner = state.push_env(nix_eval::env::Env {
        up: Some(outer),
        prev_with: Level(0),
        values: nix_eval::env::EnvInner::Plain(vec![]),
    });
    let mut v = ExprVar {
        pos: Pos::Undefined,
        name: a,
        resolved: true,
        from_with: false,
        level: Level(1),
        displ: Displ(1),
    };
    assert_eq!(state.lookup_var(inner, &v, ShouldEval::No, 0), Ok(second));
    v.displ = Displ(2);
    assert_eq!(state.lookup_var(inner, &v, ShouldEval::No, 0), Err(NixError::BadReference));
    v.level = Level(5);
    assert_eq!(state.lookup_var(inner, &v, ShouldEval::No, 0), Err(NixError::BadReference));
}

#[test]
fn eval_attrs_wants_a_set() {
    let mut state = EvalState::new();
    let a = sym(&mut state, "a");
    let good = Expr::Attrs(set(vec![def(a, Expr::Int(1))]));
    let bad = Expr::Int(1);
    let b = state.eval_attrs(0, &good, DEPTH).unwrap();
    assert_eq!(b.len(), 1);
    assert!(b.get(a).is_some());
    match state.eval_attrs(0, &bad, DEPTH) {
        Err(e) => {
            assert_eq!(e, NixError::Type { expected: ValueKind::Attrs, actual: ValueKind::Int })
        },
        Ok(_) => panic!("an integer is no set"),
    }
}

#[test]
fn selection_follows_the_path_or_takes_the_default() {
    let mut state = EvalState::new();
    let a = sym(&mut state, "a");
    let b = sym(&mut state, "b");
    let c = sym(&mut state, "c");
    let nested = || {
        Expr::Attrs(set(vec![def(a, Expr::Attrs(set(vec![def(b, Expr::Int(5))])))]))
    };
    let e1 = select(nested(), vec![name(a), name(b)], None);
    let e2 = select(nested(), vec![name(a), name(c)], None);
    let e3 = select(nested(), vec![name(a), name(c)], Some(Expr::Int(9)));
    let e4 = select(nested(), vec![name(a), name(b), name(c)], None);
    let e5 = select(nested(), vec![name(a), name(b), name(c)], Some(Expr::Int(8)));
    let s1 = state.eval(0, &e1, DEPTH).unwrap();
    assert_eq!(int_at(&state, s1), 5);
    assert_eq!(state.eval(0, &e2, DEPTH), Err(NixError::MissingAttr(c, Pos::Undefined)));
    let s3 = state.eval(0, &e3, DEPTH).unwrap();
    assert_eq!(int_at(&state, s3), 9);
    assert_eq!(
        state.eval(0, &e4, DEPTH),
        Err(NixError::Type { expected: ValueKind::Attrs, actual: ValueKind::Int })
    );
    let s5 = state.eval(0, &e5, DEPTH).unwrap();
    assert_eq!(int_at(&state, s5), 8);
}

#[test]
fn has_attr_tests_the_path() {
    let mut state = EvalState::new();
    let a = sym(&mut state, "a");
    let b = sym(&mut state, "b");
    let c = sym(&mut state, "c");
    let nested = || {
        Expr::Attrs(set(vec![def(a, Expr::Attrs(set(vec![def(b, Expr::Int(5))])))]))
    };
    let has = |path: Vec<AttrName>| {
        Expr::OpHasAttr(ExprOpHasAttr { expr: Box::new(nested()), attr_path: path })
    };
    let e1 = has(vec![name(a), name(b)]);
    let e2 = has(vec![name(a), name(c)]);
    let e3 = has(vec![name(a), name(b), name(c)]);
    let s1 = state.eval(0, &e1, DEPTH).unwrap();
    assert!(bool_at(&state, s1));
    let s2 = state.eval(0, &e2, DEPTH).unwrap();
    assert!(!bool_at(&state, s2));
    let s3 = state.eval(0, &e3, DEPTH).unwrap();
    assert!(!bool_at(&state, s3));
}

#[test]
fn computed_names_select_and_define() {
    let mut state = EvalState::new();
    let a = sym(&mut state, "a");
    let text_a = Expr::String(a);
    let dynamic = Expr::Attrs(ExprAttrs {
        recursive: false,
        attrs: vec![],
        dynamic_attrs: vec![DynamicAttrDef {
            name_expr: Box::new(text_a),
            value_expr: Box::new(Expr::Int(3)),
            pos: Pos::Undefined,
        }],
    });
    let e = select(
        dynamic,
        vec![AttrName { symbol: 0, expr: Some(Box::new(Expr::String(a))) }],
        None,
    );
    let slot = state.eval(0, &e, DEPTH).unwrap();
    assert_eq!(int_at(&state, slot), 3);
}

#[test]
fn duplicate_names_are_refused() {
    let mut state = EvalState::new();
    let a = sym(&mut state, "a");
    let twice = Expr::Attrs(set(vec![def(a, Expr::Int(1)), def(a, Expr::Int(2))]));
    assert_eq!(state.eval(0, &twice, DEPTH), Err(NixError::DuplicateAttr(a, Pos::Undefined)));
    let collides = Expr::Attrs(ExprAttrs {
        recursive: false,
        attrs: vec![def(a, Expr::Int(1))],
        dynamic_attrs: vec![DynamicAttrDef {
            name_expr: Box::new(Expr::String(a)),
            value_expr: Box::new(Expr::Int(3)),
            pos: Pos::Undefined,
        }],
    });
    assert_eq!(state.eval(0, &collides, DEPTH), Err(NixError::DuplicateAttr(a, Pos::Undefined)));
    let number = Expr::Attrs(ExprAttrs {
        recursive: false,
        attrs: vec![],
        dynamic_attrs: vec![DynamicAttrDef {
            name_expr: Box::new(Expr::Int(1)),
            value_expr: Box::new(Expr::Int(3)),
            pos: Pos::Undefined,
        }],
    });
    assert_eq!(
        state.eval(0, &number, DEPTH),
        Err(NixError::Type { expected: ValueKind::String, actual: ValueKind::Int })
    );
}

#[test]
fn recursive_set_sees_its_own_names_and_inherits_from_outside() {
    let mut state = EvalState::new();
    let a = sym(&mut state, "a");
    let b = sym(&mut state, "b");
    let c = sym(&mut state, "c");
    let mut e = let_in(
        vec![def(c, Expr::Int(30))],
        select(
            Expr::Attrs(rec_set(vec![
                def(a, plus(var(b), var(c))),
                def(b, Expr::Int(4)),
                inherit(c),
            ])),
            vec![name(a)],
            None,
        ),
    );
    e.bind_vars(&scope()).unwrap();
    let slot = state.eval(0, &e, DEPTH).unwrap();
    assert_eq!(int_at(&state, slot), 34);
}

#[test]
fn function_binds_its_argument_lazily() {
    let mut state = EvalState::new();
    let x = sym(&mut state, "x");
    let y = sym(&mut state, "y");
    // (x: 7) applied to an argument that would fail
    let mut e = let_in(vec![def(y, var(y))], app(lambda(x, Expr::Int(7)), var(y)));
    e.bind_vars(&scope()).unwrap();
    let slot = state.eval(0, &e, DEPTH).unwrap();
    assert_eq!(int_at(&state, slot), 7);
    let mut id = app(lambda(x, var(x)), Expr::Int(5));
    id.bind_vars(&scope()).unwrap();
    let slot = state.eval(0, &id, DEPTH).unwrap();
    assert_eq!(int_at(&state, slot), 5);
}

#[test]
fn function_that_takes_a_set() {
    let mut state = EvalState::new();
    let a = sym(&mut state, "a");
    let b = sym(&mut state, "b");
    let c = sym(&mut state, "c");
    let f = |ellipsis: bool| {
        pattern(
            vec![
                Formal { name: a, def: None },
                Formal { name: b, def: Some(Box::new(plus(var(a), Expr::Int(1)))) },
            ],
            ellipsis,
            plus(var(a), var(b)),
        )
    };
    let mut e1 = app(f(false), Expr::Attrs(set(vec![def(a, Expr::Int(1))])));
    let mut e2 =
        app(f(false), Expr::Attrs(set(vec![def(a, Expr::Int(1)), def(b, Expr::Int(10))])));
    let mut e3 = app(f(false), Expr::Attrs(set(vec![def(b, Expr::Int(10))])));
    let mut e4 =
        app(f(false), Expr::Attrs(set(vec![def(a, Expr::Int(1)), def(c, Expr::Int(10))])));
    let mut e5 =
        app(f(true), Expr::Attrs(set(vec![def(a, Expr::Int(1)), def(c, Expr::Int(10))])));
    let mut e6 = app(f(true), Expr::Int(1));
    let mut e7 = app(Expr::Int(1), Expr::Int(1));
    for e in [&mut e1, &mut e2, &mut e3, &mut e4, &mut e5, &mut e6, &mut e7] {
        e.bind_vars(&scope()).unwrap();
    }
    let s1 = state.eval(0, &e1, DEPTH).unwrap();
    assert_eq!(int_at(&state, s1), 3);
    let s2 = state.eval(0, &e2, DEPTH).unwrap();
    assert_eq!(int_at(&state, s2), 11);
    assert_eq!(state.eval(0, &e3, DEPTH), Err(NixError::MissingFormal(a, Pos::Undefined)));
    assert_eq!(state.eval(0, &e4, DEPTH), Err(NixError::UnexpectedArg(c, Pos::Undefined)));
    let s5 = state.eval(0, &e5, DEPTH).unwrap();
    assert_eq!(int_at(&state, s5), 3);
    assert_eq!(
        state.eval(0, &e6, DEPTH),
        Err(NixError::Type { expected: ValueKind::Attrs, actual: ValueKind::Int })
    );
    assert_eq!(state.eval(0, &e7, DEPTH), Err(NixError::NotAFunction(ValueKind::Int)));
}

#[test]
fn conditions_and_assertions() {
    let mut state = EvalState::new();
    let x = sym(&mut state, "x");
    let file = sym(&mut state, "test.nix");
    let pos = Pos::Known(KnownPos { file, line: 2, column: 1 });
    let cond = |c: Expr| {
        Expr::If(ExprIf {
            cond: Box::new(c),
            then_: Box::new(Expr::Int(1)),
            else_: Box::new(Expr::Int(2)),
        })
    };
    let check = |c: Expr| {
        Expr::Assert(ExprAssert { pos, cond: Box::new(c), body: Box::new(Expr::Int(3)) })
    };
    let e1 = cond(Expr::Bool(true));
    let e2 = cond(Expr::OpNot(Box::new(Expr::Bool(true))));
    let e3 = cond(Expr::Null);
    let e4 = check(Expr::Bool(true));
    let e5 = check(Expr::Bool(false));
    let mut looping = let_in(vec![def(x, var(x))], Expr::Null);
    looping.bind_vars(&scope()).unwrap();
    let s1 = state.eval(0, &e1, DEPTH).unwrap();
    assert_eq!(int_at(&state, s1), 1);
    let s2 = state.eval(0, &e2, DEPTH).unwrap();
    assert_eq!(int_at(&state, s2), 2);
    assert_eq!(
        state.eval(0, &e3, DEPTH),
        Err(NixError::Type { expected: ValueKind::Bool, actual: ValueKind::Null })
    );
    let s4 = state.eval(0, &e4, DEPTH).unwrap();
    assert_eq!(int_at(&state, s4), 3);
    assert_eq!(state.eval(0, &e5, DEPTH), Err(NixError::AssertionFailed(pos)));
    let s6 = state.eval(0, &looping, DEPTH).unwrap();
    assert!(matches!(state.value(s6), Some(Value::Null)));
}

#[test]
fn logical_operators_skip_what_they_do_not_need() {
    let mut state = EvalState::new();
    let t = || Expr::Bool(true);
    let f = || Expr::Bool(false);
    // An integer as second operand is a type error if it is evaluated.
    let cases = vec![
        (binop(OpKind::And, f(), Expr::Int(1)), Ok(false)),
        (binop(OpKind::And, t(), f()), Ok(false)),
        (binop(OpKind::And, t(), t()), Ok(true)),
        (binop(OpKind::Or, t(), Expr::Int(1)), Ok(true)),
        (binop(OpKind::Or, f(), f()), Ok(false)),
        (binop(OpKind::Or, f(), t()), Ok(true)),
        (binop(OpKind::Impl, f(), Expr::Int(1)), Ok(true)),
        (binop(OpKind::Impl, t(), f()), Ok(false)),
        (binop(OpKind::Impl, t(), t()), Ok(true)),
        (
            binop(OpKind::And, t(), Expr::Int(1)),
            Err(NixError::Type { expected: ValueKind::Bool, actual: ValueKind::Int }),
        ),
    ];
    for (e, expected) in cases.iter() {
        let got = state.eval(0, e, DEPTH);
        match (got, expected) {
            (Ok(slot), Ok(b)) => assert_eq!(bool_at(&state, slot), *b),
            (Err(e), Err(x)) => assert_eq!(e, *x),
            _ => panic!("another outcome was expected"),
        }
    }
}

#[test]
fn equality_is_structural() {
    let mut state = EvalState::new();
    let a = sym(&mut state, "a");
    let b = sym(&mut state, "b");
    let x = sym(&mut state, "x");
    let list = |items: Vec<i64>| Expr::List(items.into_iter().map(Expr::Int).collect());
    let one = |n: Symbol, v: i64| Expr::Attrs(set(vec![def(n, Expr::Int(v))]));
    let two = |v: i64, w: i64| {
        Expr::Attrs(set(vec![def(a, Expr::Int(v)), def(b, list(vec![w]))]))
    };
    let flipped = |v: i64, w: i64| {
        Expr::Attrs(set(vec![def(b, list(vec![w])), def(a, Expr::Int(v))]))
    };
    let cases = vec![
        (Expr::Int(1), Expr::Int(1), true),
        (Expr::Int(1), Expr::Int(2), false),
        (Expr::Int(1), Expr::Bool(true), false),
        (Expr::Null, Expr::Null, true),
        (Expr::String(a), Expr::String(a), true),
        (Expr::String(a), Expr::String(b), false),
        (Expr::Path("/x".to_string()), Expr::Path("/x".to_string()), true),
        (Expr::Path("/x".to_string()), Expr::Path("/y".to_string()), false),
        (list(vec![1, 2]), list(vec![1, 2]), true),
        (list(vec![1, 2]), list(vec![1, 3]), false),
        (list(vec![1, 2]), list(vec![1]), false),
        (list(vec![]), list(vec![]), true),
        (two(1, 2), flipped(1, 2), true),
        (two(1, 2), flipped(1, 3), false),
        (two(1, 2), one(a, 1), false),
        (one(a, 1), one(b, 1), false),
        (lambda(x, Expr::Int(1)), lambda(x, Expr::Int(1)), false),
        (
            Expr::Float(NixFloat { bits: 0.0f64.to_bits() }),
            Expr::Float(NixFloat { bits: (-0.0f64).to_bits() }),
            true,
        ),
        (
            Expr::Float(NixFloat { bits: f64::NAN.to_bits() }),
            Expr::Float(NixFloat { bits: f64::NAN.to_bits() | 1 }),
            true,
        ),
        (
            Expr::Float(NixFloat { bits: 1.5f64.to_bits() }),
            Expr::Float(NixFloat { bits: 2.5f64.to_bits() }),
            false,
        ),
        (
            Expr::Float(NixFloat { bits: f64::NAN.to_bits() }),
            Expr::Float(NixFloat { bits: 2.5f64.to_bits() }),
            false,
        ),
    ];
    let built: Vec<(Expr, Expr, bool)> = cases
        .into_iter()
        .flat_map(|(l, r, eq)| {
            let l2 = copy(&l);
            let r2 = copy(&r);
            vec![(binop(OpKind::Eq, l, r), Expr::Null, eq), (binop(OpKind::NEq, l2, r2), Expr::Null, !eq)]
        })
        .collect();
    for (e, _, expected) in built.iter() {
        let slot = state.eval(0, e, DEPTH).unwrap();
        assert_eq!(bool_at(&state, slot), *expected);
    }
}

fn copy(e: &Expr) -> Expr {
    match e {
        Expr::Int(n) => Expr::Int(*n),
        Expr::Bool(b) => Expr::Bool(*b),
        Expr::Null => Expr::Null,
        Expr::Float(f) => Expr::Float(*f),
        Expr::String(s) => Expr::String(*s),
        Expr::Path(p) => Expr::Path(p.clone()),
        Expr::List(items) => Expr::List(items.iter().map(copy).collect()),
        Expr::Attrs(a) => Expr::Attrs(ExprAttrs {
            recursive: a.recursive,
            attrs: a.attrs.iter().map(|(n, d)| def(*n, copy(&d.expr))).collect(),
            dynamic_attrs: Vec::new(),
        }),
        Expr::Lambda(l) => lambda(l.name, copy(&l.body)),
        _ => panic!("not copied in this test"),
    }
}

#[test]
fn lists_concatenate() {
    let mut state = EvalState::new();
    let e = binop(
        OpKind::ConcatLists,
        Expr::List(vec![Expr::Int(1)]),
        Expr::List(vec![Expr::Int(2), Expr::Int(3)]),
    );
    let bad = binop(OpKind::ConcatLists, Expr::List(vec![]), Expr::Int(2));
    let slot = state.eval(0, &e, DEPTH).unwrap();
    let items = match state.value(slot) {
        Some(Value::List(items)) => items.clone(),
        _ => panic!("no list"),
    };
    assert_eq!(items.len(), 3);
    for (i, expected) in [1, 2, 3].iter().enumerate() {
        assert_eq!(state.force(items[i], Pos::Undefined, DEPTH), Ok(()));
        assert_eq!(int_at(&state, items[i]), *expected);
    }
    assert_eq!(
        state.eval(0, &bad, DEPTH),
        Err(NixError::Type { expected: ValueKind::List, actual: ValueKind::Int })
    );
}

#[test]
fn strings_concatenate_and_unite_their_contexts() {
    let mut state = EvalState::new();
    let x = sym(&mut state, "x");
    let y = sym(&mut state, "y");
    let mut globals = scope();
    state
        .define_global(
            &mut globals,
            x,
            Value::String(NixString {
                s: "ab".to_string(),
                context: vec!["p".to_string(), "q".to_string()],
            }),
        )
        .unwrap();
    state
        .define_global(
            &mut globals,
            y,
            Value::String(NixString {
                s: "cd".to_string(),
                context: vec!["q".to_string(), "r".to_string(), "r".to_string()],
            }),
        )
        .unwrap();
    let mut e = Expr::ConcatStrings(ExprConcatStrings {
        pos: Pos::Undefined,
        force_string: true,
        exprs: vec![var(x), Expr::Path("/".to_string()), var(y)],
    });
    e.bind_vars(&globals).unwrap();
    let slot = state.eval(0, &e, DEPTH).unwrap();
    match state.value(slot) {
        Some(Value::String(s)) => {
            assert_eq!(s.s, "ab/cd");
            assert_eq!(s.context, vec!["p".to_string(), "q".to_string(), "r".to_string()]);
        },
        _ => panic!("no string"),
    }
}

#[test]
fn concatenation_goes_by_its_first_part() {
    let mut state = EvalState::new();
    let a = sym(&mut state, "a");
    let cat = |force_string: bool, exprs: Vec<Expr>| {
        Expr::ConcatStrings(ExprConcatStrings { pos: Pos::Undefined, force_string, exprs })
    };
    let path = cat(false, vec![Expr::Path("/x".to_string()), Expr::String(a)]);
    let text = cat(true, vec![Expr::Path("/x".to_string()), Expr::String(a)]);
    let empty = cat(true, vec![]);
    let sum = cat(false, vec![Expr::Int(1), Expr::Int(2), Expr::Int(39)]);
    let overflow = cat(false, vec![Expr::Int(i64::MAX), Expr::Int(1)]);
    let mixed = cat(false, vec![Expr::Int(1), Expr::String(a)]);
    let forced = cat(true, vec![Expr::Int(1)]);
    let wrong = cat(false, vec![Expr::String(a), Expr::Int(1)]);
    let s = state.eval(0, &path, DEPTH).unwrap();
    assert!(matches!(state.value(s), Some(Value::Path(p)) if p == "/xa"));
    let s = state.eval(0, &text, DEPTH).unwrap();
    assert!(matches!(state.value(s), Some(Value::String(t)) if t.s == "/xa"));
    let s = state.eval(0, &empty, DEPTH).unwrap();
    assert!(matches!(state.value(s), Some(Value::String(t)) if t.s.is_empty()));
    let s = state.eval(0, &sum, DEPTH).unwrap();
    assert_eq!(int_at(&state, s), 42);
    assert_eq!(state.eval(0, &overflow, DEPTH), Err(NixError::IntegerOverflow));
    assert_eq!(
        state.eval(0, &mixed, DEPTH),
        Err(NixError::Type { expected: ValueKind::Int, actual: ValueKind::String })
    );
    assert_eq!(
        state.eval(0, &forced, DEPTH),
        Err(NixError::Type { expected: ValueKind::String, actual: ValueKind::Int })
    );
    assert_eq!(
        state.eval(0, &wrong, DEPTH),
        Err(NixError::Type { expected: ValueKind::String, actual: ValueKind::Int })
    );
}

#[test]
fn position_evaluates_to_its_parts() {
    let mut state = EvalState::new();
    let file = sym(&mut state, "default.nix");
    let known = Expr::Pos(Pos::Known(KnownPos { file, line: 12, column: 3 }));
    let unknown = Expr::Pos(Pos::Undefined);
    let slot = state.eval(0, &known, DEPTH).unwrap();
    let s_file = sym(&mut state, "file");
    let s_line = sym(&mut state, "line");
    let s_column = sym(&mut state, "column");
    let f = attr_of(&state, slot, s_file).value;
    let l = attr_of(&state, slot, s_line).value;
    let c = attr_of(&state, slot, s_column).value;
    assert!(matches!(state.value(f), Some(Value::String(s)) if s.s == "default.nix"));
    assert_eq!(int_at(&state, l), 12);
    assert_eq!(int_at(&state, c), 3);
    let slot = state.eval(0, &unknown, DEPTH).unwrap();
    assert!(matches!(state.value(slot), Some(Value::Null)));
}

#[test]
fn depth_bounds_evaluation() {
    let mut state = EvalState::new();
    let f = sym(&mut state, "f");
    let x = sym(&mut state, "x");
    // let f = x: f x; in f 1
    let mut e = let_in(vec![def(f, lambda(x, app(var(f), var(x))))], app(var(f), Expr::Int(1)));
    e.bind_vars(&scope()).unwrap();
    assert_eq!(state.eval(0, &e, 0), Err(NixError::DepthExhausted));
    assert_eq!(state.eval(0, &e, 60), Err(NixError::DepthExhausted));
    assert_eq!(state.eval(0, &Expr::Int(1), 0), Err(NixError::DepthExhausted));
    assert!(state.eval(0, &Expr::Int(1), 1).is_ok());
}

#[test]
fn literals_evaluate_to_themselves() {
    let mut state = EvalState::new();
    let a = sym(&mut state, "hello");
    let s = state.eval(0, &Expr::Int(-4), DEPTH).unwrap();
    assert_eq!(int_at(&state, s), -4);
    let s = state.eval(0, &Expr::Bool(true), DEPTH).unwrap();
    assert!(bool_at(&state, s));
    let s = state.eval(0, &Expr::Null, DEPTH).unwrap();
    assert!(matches!(state.value(s), Some(Value::Null)));
    let float = Expr::Float(NixFloat { bits: 1.5f64.to_bits() });
    let s = state.eval(0, &float, DEPTH).unwrap();
    assert!(matches!(state.value(s), Some(Value::Float(f)) if f64::from_bits(f.bits) == 1.5));
    let path = Expr::Path("/etc".to_string());
    let s = state.eval(0, &path, DEPTH).unwrap();
    assert!(matches!(state.value(s), Some(Value::Path(p)) if p == "/etc"));
    let text = Expr::String(a);
    let s = state.eval(0, &text, DEPTH).unwrap();
    assert!(
        matches!(state.value(s), Some(Value::String(t)) if t.s == "hello" && t.context.is_empty())
    );
    let unknown = Expr::String(a + 100);
    assert_eq!(state.eval(0, &unknown, DEPTH), Err(NixError::UnknownSymbol(a + 100)));
    let nowhere = Expr::Pos(Pos::Known(KnownPos { file: a + 100, line: 1, column: 1 }));
    assert_eq!(state.eval(0, &nowhere, DEPTH), Err(NixError::UnknownSymbol(a + 100)));
}

#[test]
fn unresolved_variable_is_a_bad_reference() {
    let mut state = EvalState::new();
    let a = sym(&mut state, "a");
    let e = var(a);
    let one = state.push_value(Value::Int(1));
    let frame = state.push_env(nix_eval::env::Env {
        up: Some(0),
        prev_with: Level(0),
        values: nix_eval::env::EnvInner::Plain(vec![one]),
    });
    assert_eq!(state.eval(frame, &e, DEPTH), Err(NixError::BadReference));
    let deferred = state.maybe_thunk(frame, &e);
    assert!(matches!(state.value(deferred), Some(Value::Thunk(_))));
    assert_eq!(state.force(17, Pos::Undefined, DEPTH), Err(NixError::BadReference));
}

#[test]
fn bindings_enumerate_in_the_order_of_their_names() {
    let mut state = EvalState::new();
    // Interned against the order of the dictionary.
    let names = ["pear", "fig", "apple", "banana", "cherry"];
    let symbols: Vec<usize> = names.iter().map(|n| sym(&mut state, n)).collect();
    let value = |n: usize| AttrValue { value: n, pos: Pos::Undefined };
    let mut one = Bindings::new();
    for i in [0usize, 1, 2, 3, 4] {
        one.insert(symbols[i], value(i));
    }
    let mut other = Bindings::new();
    for i in [4usize, 2, 0, 3, 1] {
        other.insert(symbols[i], value(i));
    }
    let a = one.sorted(&state.symbols);
    let b = other.sorted(&state.symbols);
    assert_eq!(a, b);
    let texts: Vec<&str> = a.iter().map(|attr| state.symbols.name(attr.name).as_str()).collect();
    assert_eq!(texts, vec!["apple", "banana", "cherry", "fig", "pear"]);
    assert_eq!(a[0].value, value(2));
    assert_eq!(one.insert(symbols[2], value(9)), Some(value(2)));
    assert_eq!(one.sorted(&state.symbols)[0].value, value(9));
    assert_eq!(one.len(), 5);
    assert!(Bindings::new().sorted(&state.symbols).is_empty());
}

#[test]
fn later_interned_name_can_come_first() {
    let mut state = EvalState::new();
    let b = sym(&mut state, "b");
    let a = sym(&mut state, "a");
    assert!(b < a);
    let mut set = Bindings::new();
    set.insert(b, AttrValue { value: 2, pos: Pos::Undefined });
    set.insert(a, AttrValue { value: 1, pos: Pos::Undefined });
    let attrs = set.sorted(&state.symbols);
    assert_eq!(
        attrs,
        vec![
            nix_eval::attr_set::Attr { name: a, value: AttrValue { value: 1, pos: Pos::Undefined } },
            nix_eval::attr_set::Attr { name: b, value: AttrValue { value: 2, pos: Pos::Undefined } },
        ]
    );
    // A handle that the table did not hand out comes after its symbols.
    set.insert(77, AttrValue { value: 3, pos: Pos::Undefined });
    set.insert(50, AttrValue { value: 4, pos: Pos::Undefined });
    let names: Vec<usize> = set.sorted(&state.symbols).iter().map(|x| x.name).collect();
    assert_eq!(names, vec![a, b, 50, 77]);
}

#[test]
fn unexpected_argument_is_the_first_by_text() {
    let mut state = EvalState::new();
    let x = sym(&mut state, "x");
    let zed = sym(&mut state, "zed");
    let alpha = sym(&mut state, "alpha");
    let mut e = app(
        pattern(vec![Formal { name: x, def: None }], false, var(x)),
        Expr::Attrs(set(vec![
            def(zed, Expr::Int(1)),
            def(x, Expr::Int(2)),
            def(alpha, Expr::Int(3)),
        ])),
    );
    e.bind_vars(&scope()).unwrap();
    assert_eq!(state.eval(0, &e, DEPTH), Err(NixError::UnexpectedArg(alpha, Pos::Undefined)));
}

#[test]
fn update_of_bindings_prefers_the_second() {
    let value = |n: usize| AttrValue { value: n, pos: Pos::Undefined };
    let mut left = Bindings::new();
    left.insert(1, value(10));
    left.insert(2, value(20));
    let mut right = Bindings::new();
    right.insert(2, value(21));
    right.insert(3, value(31));
    let merged = left.updated(&right);
    assert_eq!(merged.len(), 3);
    assert_eq!(merged.get(1), Some(value(10)));
    assert_eq!(merged.get(2), Some(value(21)));
    assert_eq!(merged.get(3), Some(value(31)));
    assert_eq!(merged.get(4), None);
}

#[test]
fn nesting_counts_the_frames_on_the_deepest_way_down() {
    let mut state = EvalState::new();
    let x = sym(&mut state, "x");
    let y = sym(&mut state, "y");
    assert_eq!(Expr::Int(1).nesting(), Some(0));
    assert_eq!(plus(var(x), Expr::Int(1)).nesting(), Some(0));
    assert_eq!(lambda(x, var(x)).nesting(), Some(1));
    assert_eq!(Expr::Attrs(set(vec![def(x, lambda(y, var(y)))])).nesting(), Some(1));
    assert_eq!(Expr::Attrs(rec_set(vec![def(x, lambda(y, var(y)))])).nesting(), Some(2));
    // let x = (y: with y; x); in (x: 1): the binding is the deepest way.
    let e = let_in(
        vec![def(x, lambda(y, with(var(y), var(x))))],
        lambda(x, Expr::Int(1)),
    );
    assert_eq!(e.nesting(), Some(3));
    assert_eq!(Expr::List(vec![Expr::Int(1), lambda(x, var(x)), e]).nesting(), Some(3));
    let defaulted = pattern(
        vec![Formal { name: x, def: Some(Box::new(lambda(y, lambda(x, var(y))))) }],
        false,
        Expr::Int(0),
    );
    assert_eq!(defaulted.nesting(), Some(3));
    let chosen = select(
        Expr::Attrs(set(Vec::new())),
        vec![AttrName { symbol: x, expr: Some(Box::new(lambda(y, var(y)))) }],
        Some(Expr::Int(0)),
    );
    assert_eq!(chosen.nesting(), Some(1));
}

#[test]
fn scopes_fit_where_the_levels_can_be_counted() {
    let mut state = EvalState::new();
    let x = sym(&mut state, "x");
    let outer = scope();
    let middle = StaticEnv { is_with: true, up: Some(&outer), vars: HashMap::new() };
    let inner = StaticEnv { is_with: false, up: Some(&middle), vars: HashMap::new() };
    assert_eq!(outer.chain_len(), Some(1));
    assert_eq!(inner.chain_len(), Some(3));
    let f = lambda(x, var(x));
    assert!(f.scopes_fit(Some(3)));
    assert!(f.scopes_fit(Some(usize::MAX - 1)));
    assert!(!f.scopes_fit(Some(usize::MAX)));
    assert!(Expr::Int(1).scopes_fit(Some(usize::MAX)));
    assert!(!Expr::Int(1).scopes_fit(None));
}

#[test]
fn program_is_resolved_and_evaluated_where_its_scopes_fit() {
    let mut state = EvalState::new();
    let mut globals = scope();
    let div = with_div(&mut state, &mut globals);
    let x = sym(&mut state, "x");
    let y = sym(&mut state, "y");
    let mut e = let_in(
        vec![def(x, app(app(var(div), Expr::Int(84)), Expr::Int(2)))],
        plus(var(x), Expr::Int(0)),
    );
    let mut open = plus(var(x), var(y));
    let slots = state.values.len();
    assert_eq!(
        state.eval_program(&globals, &mut open, DEPTH),
        Err(NixError::UndefinedVar(x, Pos::Undefined))
    );
    assert_eq!(state.values.len(), slots);
    let slot = state.eval_program(&globals, &mut e, DEPTH).unwrap();
    assert_eq!(int_at(&state, slot), 42);
    assert_eq!(NixError::ScopesTooDeep.message(&state.symbols), "scopes nest too deep");
}

#[test]
fn failed_resolution_keeps_the_tree() {
    let mut state = EvalState::new();
    let x = sym(&mut state, "x");
    let y = sym(&mut state, "y");
    let z = sym(&mut state, "z");
    let at = Pos::Known(KnownPos { file: x, line: 3, column: 9 });
    // let x = 1; in [ x (y: y + z) ]: z is free, and x and y are bound
    // before it is met.
    let tree = || {
        let_in(
            vec![def(x, Expr::Int(1))],
            Expr::List(vec![var(x), lambda(y, plus(var(y), var_at(z, at)))]),
        )
    };
    let mut e = tree();
    assert_eq!(e.bind_vars(&scope()), Err(NixError::UndefinedVar(z, at)));
    match (&e, &tree()) {
        (Expr::Let(after), Expr::Let(before)) => {
            assert_eq!(after.attrs.attrs.len(), before.attrs.attrs.len());
            assert_eq!(after.attrs.attrs[0].0, x);
            match (&*after.body, &*before.body) {
                (Expr::List(a), Expr::List(b)) => {
                    assert_eq!(a.len(), b.len());
                    match (&a[0], &a[1]) {
                        (Expr::Var(v), Expr::Lambda(l)) => {
                            assert_eq!(v.name, x);
                            assert_eq!(l.arg, Some(y));
                            match &*l.body {
                                Expr::ConcatStrings(sum) => match (&sum.exprs[0], &sum.exprs[1]) {
                                    (Expr::Var(l), Expr::Var(r)) => {
                                        assert_eq!((l.name, l.pos), (y, Pos::Undefined));
                                        assert_eq!((r.name, r.pos), (z, at));
                                        assert!(!r.resolved);
                                    },
                                    _ => panic!("the operands are no longer variables"),
                                },
                                _ => panic!("the body is no longer a sum"),
                            }
                        },
                        _ => panic!("the list no longer holds a variable and a function"),
                    }
                },
                _ => panic!("the body is no longer a list"),
            }
        },
        _ => panic!("the expression is no longer a let"),
    }
}

#[test]
fn context_union_keeps_the_first_and_adds_what_it_lacks() {
    let mut acc = vec!["a".to_string(), "b".to_string()];
    let more = vec!["b".to_string(), "c".to_string(), "a".to_string(), "c".to_string(), "d".to_string()];
    nix_eval::ops::union_context(&mut acc, &more);
    assert_eq!(acc, vec!["a", "b", "c", "d"]);
    let mut empty: Vec<String> = Vec::new();
    nix_eval::ops::union_context(&mut empty, &vec!["x".to_string(), "x".to_string()]);
    assert_eq!(empty, vec!["x"]);
    nix_eval::ops::union_context(&mut acc, &Vec::new());
    assert_eq!(acc, vec!["a", "b", "c", "d"]);
}

#[test]
fn every_reference_observes_the_one_computed_value() {
    let mut state = EvalState::new();
    let x = sym(&mut state, "x");
    let mut e = let_in(
        vec![def(x, Expr::List(vec![Expr::Int(1), Expr::Int(2), Expr::Int(3)]))],
        Expr::List(vec![var(x), var(x), var(x), var(x)]),
    );
    e.bind_vars(&scope()).unwrap();
    let slot = state.eval(0, &e, DEPTH).unwrap();
    let refs = match state.value(slot) {
        Some(Value::List(items)) => items.clone(),
        _ => panic!("no list"),
    };
    assert_eq!(refs.len(), 4);
    assert_eq!(state.force(refs[0], Pos::Undefined, DEPTH), Ok(()));
    let computed = match state.value(refs[0]) {
        Some(Value::List(items)) => items.clone(),
        _ => panic!("no list"),
    };
    let slots = state.values.len();
    for r in refs.iter().skip(1) {
        assert_eq!(*r, refs[0]);
        assert_eq!(state.force(*r, Pos::Undefined, 1), Ok(()));
        assert_eq!(state.values.len(), slots);
        match state.value(*r) {
            Some(Value::List(items)) => assert_eq!(*items, computed),
            _ => panic!("no list"),
        }
    }
}

#[test]
fn attribute_precedes_another_by_the_text_of_its_name() {
    let mut state = EvalState::new();
    let pear = sym(&mut state, "pear");
    let apple = sym(&mut state, "apple");
    let one = nix_eval::attr_set::Attr { name: pear, value: AttrValue { value: 0, pos: Pos::Undefined } };
    let two = nix_eval::attr_set::Attr { name: apple, value: AttrValue { value: 9, pos: Pos::Undefined } };
    assert!(two.precedes(&one, &state.symbols));
    assert!(!one.precedes(&two, &state.symbols));
    assert!(!one.precedes(&one, &state.symbols));
}
