use nix_eval::attr_path::{parse_attr_path, AttrPathError};
use nix_eval::env::{Displ, EnvIter, EnvLevel, Level, StaticEnv, StaticEnvIter};
use nix_eval::err::NixError;
use nix_eval::eval::EvalState;
use nix_eval::expr_ext::ExprExt;
use nix_eval::nix_expr::{Expr, ExprLambda, ExprVar, Formals};
use nix_eval::pos::{decimal_string, KnownPos, OwnedKnownPos, OwnedPos, Pos};
use nix_eval::primops::{PrimOp, PrimOpFun, RegisterPrimOp};
use nix_eval::symbol_table::{text_before, SymbolTable};
use nix_eval::value::NixString;
use std::collections::HashMap;

#[test]
fn attr_path_with_a_quoted_component() {
    assert_eq!(parse_attr_path("a.\"b.c\".d"), Ok(vec!["a", "b.c", "d"]));
}

#[test]
fn attr_path_of_bare_components() {
    assert_eq!(parse_attr_path("a"), Ok(vec!["a"]));
    assert_eq!(parse_attr_path("foo.bar.baz"), Ok(vec!["foo", "bar", "baz"]));
    assert_eq!(parse_attr_path("a\"b.c"), Ok(vec!["a\"b", "c"]));
    assert_eq!(parse_attr_path("\u{e9}t\u{e9}.x"), Ok(vec!["\u{e9}t\u{e9}", "x"]));
}

#[test]
fn attr_path_of_quoted_components() {
    assert_eq!(parse_attr_path("\"a\""), Ok(vec!["a"]));
    assert_eq!(parse_attr_path("\"\""), Ok(vec![""]));
    assert_eq!(parse_attr_path("\"a.b\".\"c.d\""), Ok(vec!["a.b", "c.d"]));
    assert_eq!(parse_attr_path("\"..\".x"), Ok(vec!["..", "x"]));
}

#[test]
fn attr_path_failures() {
    assert_eq!(parse_attr_path(""), Err(AttrPathError::EmptyPath));
    assert_eq!(parse_attr_path("."), Err(AttrPathError::EmptyComponent));
    assert_eq!(parse_attr_path("a."), Err(AttrPathError::EmptyComponent));
    assert_eq!(parse_attr_path(".a"), Err(AttrPathError::EmptyComponent));
    assert_eq!(parse_attr_path("a..b"), Err(AttrPathError::EmptyComponent));
    assert_eq!(parse_attr_path("\"a\"."), Err(AttrPathError::EmptyComponent));
    assert_eq!(parse_attr_path("\"a"), Err(AttrPathError::UnterminatedQuote));
    assert_eq!(parse_attr_path("a.\"b.c"), Err(AttrPathError::UnterminatedQuote));
    assert_eq!(parse_attr_path("\""), Err(AttrPathError::UnterminatedQuote));
    assert_eq!(parse_attr_path("\"a\"b"), Err(AttrPathError::UnexpectedAfterQuote));
    assert_eq!(parse_attr_path("\"a\"\"b\""), Err(AttrPathError::UnexpectedAfterQuote));
}

#[test]
fn interning_equal_text_gives_the_same_symbol() {
    let mut table = SymbolTable::new();
    let a = table.create("a".to_string());
    let b = table.create("b".to_string());
    let again = table.create("a".to_string());
    assert_eq!(a, again);
    assert_ne!(a, b);
    assert_eq!(table.len(), 2);
    assert_eq!(table.name(a), "a");
    assert_eq!(table.name(b), "b");
    assert_eq!(table.lookup(&"b".to_string()), Some(b));
    assert_eq!(table.lookup(&"c".to_string()), None);
}

#[test]
fn positions_render() {
    let mut table = SymbolTable::new();
    let file = table.create("dir/default.nix".to_string());
    let known = KnownPos { file, line: 10, column: 205 };
    assert_eq!(known.to_string(&table), "dir/default.nix:10:205");
    assert_eq!(Pos::Known(known).to_string(&table), "dir/default.nix:10:205");
    assert_eq!(Pos::Undefined.to_string(&table), "undefined position");
    let owned = known.to_owned(&table);
    assert_eq!(owned.file, "dir/default.nix");
    assert_eq!((owned.line, owned.column), (10, 205));
    assert_eq!(owned.to_string(), "dir/default.nix:10:205");
    assert_eq!(OwnedPos::Undefined.to_string(), "undefined position");
    match Pos::Known(known).to_owned(&table) {
        OwnedPos::Known(p) => assert_eq!(p.to_string(), "dir/default.nix:10:205"),
        OwnedPos::Undefined => panic!("the position is known"),
    }
    assert!(matches!(Pos::Undefined.to_owned(&table), OwnedPos::Undefined));
    let zero = OwnedKnownPos { file: String::new(), line: 0, column: 1 };
    assert_eq!(zero.to_string(), ":0:1");
}

#[test]
fn decimal_numerals() {
    assert_eq!(decimal_string(0), "0");
    assert_eq!(decimal_string(7), "7");
    assert_eq!(decimal_string(10), "10");
    assert_eq!(decimal_string(1234567890), "1234567890");
    assert_eq!(decimal_string(usize::MAX), usize::MAX.to_string());
}

#[test]
fn errors_render() {
    let mut table = SymbolTable::new();
    let file = table.create("a.nix".to_string());
    let x = table.create("x".to_string());
    let pos = Pos::Known(KnownPos { file, line: 1, column: 2 });
    assert_eq!(
        NixError::UndefinedVar(x, pos).message(&table),
        "undefined variable 'x' at 'a.nix:1:2'"
    );
    assert_eq!(
        NixError::UndefinedVar(x, Pos::Undefined).message(&table),
        "undefined variable 'x' at 'undefined position'"
    );
    assert_eq!(
        NixError::VarLookupUnevaluated(x).message(&table),
        "variable 'x' was not evaluated"
    );
    assert_eq!(
        NixError::Type {
            expected: nix_eval::err::ValueKind::Attrs,
            actual: nix_eval::err::ValueKind::Int
        }
        .message(&table),
        "type error: value is an integer while a set was expected"
    );
    assert_eq!(
        NixError::InfiniteRecursion(pos).message(&table),
        "infinite recursion encountered at 'a.nix:1:2'"
    );
    assert_eq!(
        NixError::MissingAttr(x, pos).message(&table),
        "attribute 'x' missing at 'a.nix:1:2'"
    );
    assert_eq!(
        NixError::DuplicateAttr(x, pos).message(&table),
        "attribute 'x' already defined at 'a.nix:1:2'"
    );
    assert_eq!(
        NixError::MissingFormal(x, pos).message(&table),
        "function at 'a.nix:1:2' called without required argument 'x'"
    );
    assert_eq!(
        NixError::UnexpectedArg(x, pos).message(&table),
        "function at 'a.nix:1:2' called with unexpected argument 'x'"
    );
    assert_eq!(
        NixError::NotAFunction(nix_eval::err::ValueKind::Null).message(&table),
        "attempt to call something which is not a function but null"
    );
    assert_eq!(
        NixError::CallArity { takes: 2, given: 1 }.message(&table),
        "built-in function takes 2 arguments but was given 1"
    );
    assert_eq!(NixError::AssertionFailed(pos).message(&table), "assertion failed at 'a.nix:1:2'");
    assert_eq!(NixError::IntegerOverflow.message(&table), "integer overflow");
    assert_eq!(NixError::DivisionByZero.message(&table), "division by zero");
    assert_eq!(NixError::DepthExhausted.message(&table), "evaluation depth exhausted");
    assert_eq!(NixError::BadReference.message(&table), "reference outside the evaluator's state");
    assert_eq!(NixError::UnknownSymbol(9).message(&table), "symbol of another evaluator");
}

#[test]
fn static_walk_hands_out_levels() {
    let outer = StaticEnv { is_with: false, up: None, vars: HashMap::new() };
    let with = StaticEnv { is_with: true, up: Some(&outer), vars: HashMap::new() };
    let inner = StaticEnv { is_with: false, up: Some(&with), vars: HashMap::new() };
    let mut iter = StaticEnvIter::new(&inner);
    let first = iter.next().unwrap();
    assert_eq!((first.level, first.with_level), (Level(0), None));
    assert!(!first.env.is_with);
    let second = iter.next().unwrap();
    assert_eq!((second.level, second.with_level), (Level(1), Some(Level(1))));
    assert!(second.env.is_with);
    let third = iter.next().unwrap();
    assert_eq!((third.level, third.with_level), (Level(2), Some(Level(1))));
    assert!(iter.next().is_none());
    assert!(iter.next().is_none());
    assert_eq!(iter.level, Level(3));
}

#[test]
fn variable_resolves_to_the_innermost_frame() {
    let mut outer_vars = HashMap::new();
    outer_vars.insert(1usize, Displ(4));
    outer_vars.insert(2usize, Displ(5));
    let mut inner_vars = HashMap::new();
    inner_vars.insert(1usize, Displ(0));
    let outer = StaticEnv { is_with: false, up: None, vars: outer_vars };
    let with = StaticEnv { is_with: true, up: Some(&outer), vars: HashMap::new() };
    let inner = StaticEnv { is_with: false, up: Some(&with), vars: inner_vars };
    let fresh = |name: usize| ExprVar {
        pos: Pos::Undefined,
        name,
        resolved: false,
        from_with: false,
        level: Level(0),
        displ: Displ(0),
    };
    let mut v = fresh(1);
    assert_eq!(v.bind_vars(&inner), Ok(()));
    assert_eq!((v.resolved, v.from_with, v.level, v.displ), (true, false, Level(0), Displ(0)));
    let mut v = fresh(2);
    assert_eq!(v.bind_vars(&inner), Ok(()));
    assert_eq!((v.resolved, v.from_with, v.level, v.displ), (true, false, Level(2), Displ(5)));
    let mut v = fresh(3);
    assert_eq!(v.bind_vars(&inner), Ok(()));
    assert_eq!((v.resolved, v.from_with, v.level), (true, true, Level(1)));
    let mut v = fresh(3);
    assert_eq!(v.bind_vars(&outer), Err(NixError::UndefinedVar(3, Pos::Undefined)));
    assert!(!v.resolved);
}

#[test]
fn runtime_walk_follows_the_chain() {
    let mut state = EvalState::new();
    let a = state.push_env(nix_eval::env::Env {
        up: Some(0),
        prev_with: Level(0),
        values: nix_eval::env::EnvInner::Plain(vec![]),
    });
    let b = state.push_env(nix_eval::env::Env {
        up: Some(a),
        prev_with: Level(0),
        values: nix_eval::env::EnvInner::Plain(vec![]),
    });
    let mut iter = EnvIter::new(b);
    assert_eq!(iter.next(&state.envs), Some(EnvLevel { env: b, level: Level(0) }));
    assert_eq!(iter.next(&state.envs), Some(EnvLevel { env: a, level: Level(1) }));
    assert_eq!(iter.next(&state.envs), Some(EnvLevel { env: 0, level: Level(2) }));
    assert_eq!(iter.next(&state.envs), None);
    assert_eq!(state.walk_up(b, 2), Some(0));
    assert_eq!(state.walk_up(b, 3), None);
    assert_eq!(state.walk_up(b, 0), Some(b));
    assert_eq!(state.walk_up(99, 0), None);
}

#[test]
fn texts_are_ordered_as_in_the_dictionary() {
    assert!(text_before("a", "b"));
    assert!(!text_before("b", "a"));
    assert!(!text_before("a", "a"));
    assert!(text_before("", "a"));
    assert!(!text_before("a", ""));
    assert!(!text_before("", ""));
    assert!(text_before("ab", "abc"));
    assert!(text_before("abc", "abd"));
    assert!(text_before("Z", "a"));
    assert!(text_before("z", "\u{e9}"));
    for (x, y) in [("apple", "apricot"), ("b", "ba"), ("\u{e9}", "\u{ea}"), ("x", "x")] {
        assert_eq!(text_before(x, y), x < y);
        assert_eq!(text_before(y, x), y < x);
    }
    let mut table = SymbolTable::new();
    let b = table.create("b".to_string());
    let a = table.create("a".to_string());
    assert!(table.less(a, b) && !table.less(b, a) && !table.less(a, a));
    assert!(table.less(b, 9) && !table.less(9, b));
    assert!(table.less(8, 9) && !table.less(9, 8) && !table.less(9, 9));
}

#[test]
fn function_takes_a_name() {
    let mut f = Expr::Lambda(ExprLambda {
        pos: Pos::Undefined,
        name: 0,
        arg: Some(1),
        match_attrs: false,
        formals: Formals { formals: Vec::new(), ellipsis: false },
        body: Box::new(Expr::Int(1)),
    });
    f.set_name(7);
    assert!(matches!(&f, Expr::Lambda(l) if l.name == 7 && l.arg == Some(1)));
    let mut n = Expr::Int(3);
    n.set_name(7);
    assert!(matches!(n, Expr::Int(3)));
    let mut state = EvalState::new();
    let slot = ExprExt::maybe_thunk(&f, &mut state, 0);
    assert!(matches!(state.value(slot), Some(nix_eval::value::Value::Thunk(_))));
    let value = ExprExt::eval(&f, &mut state, 0, 10).unwrap();
    assert!(matches!(state.value(value), Some(nix_eval::value::Value::Lambda(_))));
    assert_eq!(ExprExt::bind_vars(&mut n, &StaticEnv { is_with: false, up: None, vars: HashMap::new() }), Ok(()));
}

#[test]
fn levels_convert() {
    assert_eq!(Level::from(3), Level(3));
    assert_eq!(usize::from(Level(3)), 3);
    assert_eq!(Displ::from(4), Displ(4));
    assert_eq!(usize::from(Displ(4)), 4);
}

#[test]
fn new_string_has_no_context() {
    let s = NixString::new("text".to_string());
    assert_eq!(s.s, "text");
    assert!(s.context.is_empty());
}

#[test]
fn registry_keeps_the_order_of_registration() {
    let mut registry = RegisterPrimOp::new();
    registry.register(PrimOp { name: "b".to_string(), arity: 2, fun: PrimOpFun::Sub });
    registry.register(PrimOp { name: "a".to_string(), arity: 2, fun: PrimOpFun::Mul });
    let names: Vec<&str> = registry.prim_ops.iter().map(|p| p.name.as_str()).collect();
    assert_eq!(names, vec!["b", "a"]);
    let mut state = EvalState::new();
    let mut scope = StaticEnv { is_with: false, up: None, vars: HashMap::new() };
    assert_eq!(state.register_prim_ops(&mut scope, &registry), Ok(()));
    let a = state.symbols.lookup(&"a".to_string()).unwrap();
    let b = state.symbols.lookup(&"b".to_string()).unwrap();
    assert_eq!(scope.vars.get(&b), Some(&Displ(0)));
    assert_eq!(scope.vars.get(&a), Some(&Displ(1)));
}

#[test]
fn walk_that_has_ended_yields_nothing_at_any_level() {
    let state = EvalState::new();
    let mut ended = EnvIter { cur_env: None, level: Level(usize::MAX) };
    assert!(ended.next(&state.envs).is_none());
    assert_eq!(ended.level, Level(usize::MAX));
    let mut outside = EnvIter { cur_env: Some(state.envs.len()), level: Level(usize::MAX) };
    assert!(outside.next(&state.envs).is_none());
    assert_eq!(outside.cur_env, Some(state.envs.len()));
}
