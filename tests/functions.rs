use cel_eval::functions::{contains_value, size_value};
use cel_eval::resolver::resolve;
use cel_eval::{ArithmeticOp, Atom, CelType, Context, ExecutionError, Expression, Key, RelationOp};

fn int_lit(i: i64) -> Expression {
    Expression::Atom(Atom::Int(i))
}

fn text(s: &str) -> Expression {
    Expression::Atom(Atom::String(s.to_string()))
}

fn bytes(b: &[u8]) -> Expression {
    Expression::Atom(Atom::Bytes(b.to_vec()))
}

fn ident(s: &str) -> Expression {
    Expression::Ident(s.to_string())
}

fn list(items: Vec<Expression>) -> Expression {
    Expression::List(items)
}

fn call(name: &str, args: Vec<Expression>) -> Expression {
    Expression::Call(None, name.to_string(), args)
}

fn method(target: Expression, name: &str, args: Vec<Expression>) -> Expression {
    Expression::Call(Some(Box::new(target)), name.to_string(), args)
}

fn member(base: Expression, field: &str) -> Expression {
    Expression::Member(Box::new(base), field.to_string())
}

fn arith(l: Expression, op: ArithmeticOp, r: Expression) -> Expression {
    Expression::Arithmetic(Box::new(l), op, Box::new(r))
}

fn equals(l: Expression, r: Expression) -> Expression {
    Expression::Relation(Box::new(l), RelationOp::Equals, Box::new(r))
}

fn abc_map() -> Expression {
    Expression::Dict(vec![(text("a"), int_lit(1)), (text("b"), int_lit(2)), (text("c"), int_lit(3))])
}

fn foo_context<'a>() -> Context<'a> {
    let mut ctx = Context::new();
    ctx.add_variable("foo", CelType::Dict(vec![(Key::String("bar".to_string()), CelType::Int(1))]));
    ctx
}

fn eval_in(e: &Expression, ctx: &Context) -> Result<CelType, ExecutionError> {
    resolve(e, ctx)
}

fn eval(e: &Expression) -> Result<CelType, ExecutionError> {
    resolve(e, &Context::new())
}

fn is_function_error(r: &Result<CelType, ExecutionError>, name: &str) -> bool {
    matches!(r, Err(ExecutionError::FunctionError { function, .. }) if function == name)
}

#[test]
fn test_size() {
    let tests = vec![
        ("size of list", equals(call("size", vec![list(vec![int_lit(1), int_lit(2), int_lit(3)])]), int_lit(3))),
        ("size of map", equals(call("size", vec![abc_map()]), int_lit(3))),
        ("size of string", equals(call("size", vec![text("foo")]), int_lit(3))),
        ("size of bytes", equals(call("size", vec![bytes(b"foo")]), int_lit(3))),
    ];
    for (name, script) in tests {
        assert_eq!(eval(&script), Ok(CelType::Bool(true)), "{}", name);
    }
}

#[test]
fn test_has() {
    let tests = vec![
        ("map has", equals(call("has", vec![member(ident("foo"), "bar")]), Expression::Atom(Atom::Bool(true)))),
        ("map has", equals(call("has", vec![member(ident("foo"), "bar")]), Expression::Atom(Atom::Bool(true)))),
        ("map not has", equals(call("has", vec![member(ident("foo"), "baz")]), Expression::Atom(Atom::Bool(false)))),
        (
            "map deep not has",
            equals(
                call("has", vec![member(member(ident("foo"), "baz"), "bar")]),
                Expression::Atom(Atom::Bool(false)),
            ),
        ),
    ];
    for (name, script) in tests {
        let ctx = foo_context();
        assert_eq!(eval_in(&script, &ctx), Ok(CelType::Bool(true)), "{}", name);
    }
}

#[test]
fn test_map() {
    let one_two_three = || list(vec![int_lit(1), int_lit(2), int_lit(3)]);
    let tests = vec![
        (
            "map list",
            equals(
                method(one_two_three(), "map", vec![ident("x"), arith(ident("x"), ArithmeticOp::Multiply, int_lit(2))]),
                list(vec![int_lit(2), int_lit(4), int_lit(6)]),
            ),
        ),
        (
            "map list 2",
            equals(
                method(one_two_three(), "map", vec![ident("y"), arith(ident("y"), ArithmeticOp::Add, int_lit(1))]),
                list(vec![int_lit(2), int_lit(3), int_lit(4)]),
            ),
        ),
    ];
    for (name, script) in tests {
        let ctx = Context::new();
        assert_eq!(eval_in(&script, &ctx), Ok(CelType::Bool(true)), "{}", name);
    }
}

#[test]
fn size_counts_each_kind() {
    assert_eq!(eval(&call("size", vec![list(vec![int_lit(1), int_lit(2), int_lit(3)])])), Ok(CelType::Int(3)));
    assert_eq!(eval(&call("size", vec![abc_map()])), Ok(CelType::Int(3)));
    assert_eq!(eval(&call("size", vec![text("foo")])), Ok(CelType::Int(3)));
    assert_eq!(eval(&call("size", vec![bytes(b"foo")])), Ok(CelType::Int(3)));
    assert_eq!(eval(&call("size", vec![list(vec![])])), Ok(CelType::Int(0)));
}

#[test]
fn size_counts_characters_not_bytes() {
    assert_eq!(eval(&call("size", vec![text("héllo")])), Ok(CelType::Int(5)));
    assert_eq!(size_value(&CelType::String("日本".to_string())), Ok(CelType::Int(2)));
}

#[test]
fn size_as_method_is_refused() {
    let r = eval(&method(list(vec![int_lit(1)]), "size", vec![]));
    assert_eq!(
        r,
        Err(ExecutionError::NotSupportedAsMethod {
            name: "size".to_string(),
            target: CelType::List(vec![CelType::Int(1)]),
        })
    );
}

#[test]
fn size_without_argument() {
    assert_eq!(
        eval(&call("size", vec![])),
        Err(ExecutionError::InvalidArgumentCount { expected: 1, actual: 0 })
    );
}

#[test]
fn size_of_int_is_an_error() {
    assert!(is_function_error(&eval(&call("size", vec![int_lit(4)])), "size"));
}

#[test]
fn contains_on_list() {
    let l = || list(vec![int_lit(1), int_lit(2), int_lit(3)]);
    assert_eq!(eval(&method(l(), "contains", vec![int_lit(1)])), Ok(CelType::Bool(true)));
    assert_eq!(eval(&method(l(), "contains", vec![int_lit(7)])), Ok(CelType::Bool(false)));
    assert_eq!(eval(&method(l(), "contains", vec![text("1")])), Ok(CelType::Bool(false)));
    assert_eq!(eval(&method(list(vec![]), "contains", vec![int_lit(1)])), Ok(CelType::Bool(false)));
}

#[test]
fn contains_on_list_compares_nested_values() {
    let nested = list(vec![list(vec![int_lit(1), int_lit(2)]), text("x")]);
    assert_eq!(
        eval(&method(nested, "contains", vec![list(vec![int_lit(1), int_lit(2)])])),
        Ok(CelType::Bool(true))
    );
}

#[test]
fn contains_on_map_keys() {
    assert_eq!(eval(&method(abc_map(), "contains", vec![text("a")])), Ok(CelType::Bool(true)));
    assert_eq!(eval(&method(abc_map(), "contains", vec![text("z")])), Ok(CelType::Bool(false)));
    assert_eq!(
        eval(&method(abc_map(), "contains", vec![list(vec![])])),
        Err(ExecutionError::UnsupportedKeyType(CelType::List(vec![])))
    );
}

#[test]
fn contains_on_string() {
    assert_eq!(eval(&method(text("abc"), "contains", vec![text("b")])), Ok(CelType::Bool(true)));
    assert_eq!(eval(&method(text("abc"), "contains", vec![text("bc")])), Ok(CelType::Bool(true)));
    assert_eq!(eval(&method(text("abc"), "contains", vec![text("ca")])), Ok(CelType::Bool(false)));
    assert_eq!(eval(&method(text("abc"), "contains", vec![text("")])), Ok(CelType::Bool(true)));
    assert_eq!(eval(&method(text("abc"), "contains", vec![int_lit(1)])), Ok(CelType::Bool(false)));
}

#[test]
fn contains_on_bytes() {
    assert_eq!(eval(&method(bytes(b"abc"), "contains", vec![bytes(b"c")])), Ok(CelType::Bool(true)));
    assert_eq!(eval(&method(bytes(b"abc"), "contains", vec![bytes(b"z")])), Ok(CelType::Bool(false)));
    assert_eq!(eval(&method(bytes(b"abc"), "contains", vec![bytes(b"")])), Ok(CelType::Bool(false)));
    assert_eq!(eval(&method(bytes(b"abc"), "contains", vec![int_lit(1)])), Ok(CelType::Bool(false)));
}

#[test]
fn contains_on_bytes_multibyte_fails() {
    assert!(is_function_error(&eval(&method(bytes(b"abc"), "contains", vec![bytes(b"ab")])), "contains"));
    let r = contains_value(&CelType::Bytes(vec![1, 2]), &CelType::Bytes(vec![1, 2]));
    assert!(is_function_error(&r, "contains"));
}

#[test]
fn contains_on_other_receiver_is_false() {
    assert_eq!(eval(&method(int_lit(5), "contains", vec![int_lit(5)])), Ok(CelType::Bool(false)));
}

#[test]
fn has_passes_other_errors_on() {
    let ctx = foo_context();
    let r = eval_in(&call("has", vec![call("size", vec![int_lit(1)])]), &ctx);
    assert!(is_function_error(&r, "size"));
}

#[test]
fn has_of_unbound_identifier_is_false() {
    assert_eq!(eval(&call("has", vec![ident("nothing")])), Ok(CelType::Bool(false)));
}

#[test]
fn has_as_method_is_refused() {
    let r = eval(&method(int_lit(1), "has", vec![ident("foo")]));
    assert_eq!(
        r,
        Err(ExecutionError::NotSupportedAsMethod { name: "has".to_string(), target: CelType::Int(1) })
    );
}

#[test]
fn map_keeps_parent_binding() {
    let mut ctx = Context::new();
    ctx.add_variable("x", CelType::Int(100));
    let e = method(
        list(vec![int_lit(1), int_lit(2)]),
        "map",
        vec![ident("x"), arith(ident("x"), ArithmeticOp::Add, int_lit(1))],
    );
    assert_eq!(eval_in(&e, &ctx), Ok(CelType::List(vec![CelType::Int(2), CelType::Int(3)])));
    assert_eq!(ctx.get_variable("x"), Some(CelType::Int(100)));
}

#[test]
fn map_body_sees_outer_bindings() {
    let mut ctx = Context::new();
    ctx.add_variable("k", CelType::Int(10));
    let e = method(
        list(vec![int_lit(1), int_lit(2)]),
        "map",
        vec![ident("x"), arith(ident("x"), ArithmeticOp::Multiply, ident("k"))],
    );
    assert_eq!(eval_in(&e, &ctx), Ok(CelType::List(vec![CelType::Int(10), CelType::Int(20)])));
}

#[test]
fn map_on_empty_list() {
    let e = method(list(vec![]), "map", vec![ident("x"), ident("x")]);
    assert_eq!(eval(&e), Ok(CelType::List(vec![])));
}

#[test]
fn map_on_non_list_fails() {
    let e = method(text("abc"), "map", vec![ident("x"), ident("x")]);
    assert!(is_function_error(&eval(&e), "map"));
}

#[test]
fn map_needs_identifier() {
    let e = method(list(vec![int_lit(1)]), "map", vec![int_lit(1), int_lit(2)]);
    assert!(is_function_error(&eval(&e), "map"));
}

#[test]
fn map_argument_count() {
    let e = method(list(vec![int_lit(1)]), "map", vec![ident("x")]);
    assert_eq!(eval(&e), Err(ExecutionError::InvalidArgumentCount { expected: 2, actual: 1 }));
    let e = method(list(vec![int_lit(1)]), "map", vec![ident("x"), int_lit(1), int_lit(2)]);
    assert_eq!(eval(&e), Err(ExecutionError::InvalidArgumentCount { expected: 2, actual: 3 }));
}

#[test]
fn map_without_receiver() {
    let e = call("map", vec![ident("x"), ident("x")]);
    assert_eq!(eval(&e), Err(ExecutionError::MissingArgumentOrTarget));
}

#[test]
fn map_stops_at_first_error() {
    let e = method(
        list(vec![int_lit(1), text("a"), int_lit(3)]),
        "map",
        vec![ident("x"), arith(ident("x"), ArithmeticOp::Add, int_lit(1))],
    );
    assert!(is_function_error(&eval(&e), "_+_"));
}

#[test]
fn contains_without_receiver() {
    assert_eq!(eval(&call("contains", vec![int_lit(1)])), Err(ExecutionError::MissingArgumentOrTarget));
}

#[test]
fn unknown_identifier_is_no_such_key() {
    assert_eq!(eval(&ident("nope")), Err(ExecutionError::NoSuchKey("nope".to_string())));
}

#[test]
fn member_of_missing_field() {
    let ctx = foo_context();
    assert_eq!(eval_in(&member(ident("foo"), "bar"), &ctx), Ok(CelType::Int(1)));
    assert_eq!(
        eval_in(&member(ident("foo"), "baz"), &ctx),
        Err(ExecutionError::NoSuchKey("baz".to_string()))
    );
}

#[test]
fn unknown_function() {
    assert!(is_function_error(&eval(&call("frobnicate", vec![])), "frobnicate"));
}

#[test]
fn integer_overflow_is_an_error() {
    let e = arith(int_lit(i64::MAX), ArithmeticOp::Add, int_lit(1));
    assert!(is_function_error(&eval(&e), "_+_"));
    let e = arith(int_lit(6), ArithmeticOp::Subtract, int_lit(8));
    assert_eq!(eval(&e), Ok(CelType::Int(-2)));
}

#[test]
fn map_literal_with_list_key_fails() {
    let e = Expression::Dict(vec![(list(vec![]), int_lit(1))]);
    assert_eq!(eval(&e), Err(ExecutionError::UnsupportedKeyType(CelType::List(vec![]))));
}

#[test]
fn child_scope_shadows_without_touching_parent() {
    let mut parent = Context::new();
    parent.add_variable("a", CelType::Int(1));
    parent.add_variable("b", CelType::Int(2));
    let mut child = parent.child();
    child.add_variable("a", CelType::Int(5));
    assert_eq!(child.get_variable("a"), Some(CelType::Int(5)));
    assert_eq!(child.get_variable("b"), Some(CelType::Int(2)));
    assert_eq!(parent.get_variable("a"), Some(CelType::Int(1)));
    assert_eq!(child.get_variable("c"), None);
}

#[test]
fn map_values_compare_by_entries() {
    let one = || Expression::Dict(vec![(text("a"), int_lit(1))]);
    assert_eq!(eval(&equals(one(), one())), Ok(CelType::Bool(true)));
    let other = Expression::Dict(vec![(text("a"), int_lit(2))]);
    assert_eq!(eval(&equals(one(), other)), Ok(CelType::Bool(false)));
    let wider = Expression::Dict(vec![(text("a"), int_lit(1)), (text("b"), int_lit(1))]);
    assert_eq!(eval(&equals(one(), wider)), Ok(CelType::Bool(false)));
}

#[test]
fn map_equality_ignores_entry_order() {
    let ab = || Expression::Dict(vec![(text("a"), int_lit(1)), (text("b"), int_lit(2))]);
    let ba = || Expression::Dict(vec![(text("b"), int_lit(2)), (text("a"), int_lit(1))]);
    assert_eq!(eval(&equals(ab(), ba())), Ok(CelType::Bool(true)));
    assert_eq!(eval(&method(list(vec![ab()]), "contains", vec![ba()])), Ok(CelType::Bool(true)));
}

#[test]
fn map_literal_repeated_key_keeps_later_value() {
    let dup = || Expression::Dict(vec![(text("a"), int_lit(1)), (text("b"), int_lit(5)), (text("a"), int_lit(2))]);
    assert_eq!(eval(&call("size", vec![dup()])), Ok(CelType::Int(2)));
    assert_eq!(eval(&member(dup(), "a")), Ok(CelType::Int(2)));
    assert_eq!(
        eval(&dup()),
        Ok(CelType::Dict(vec![
            (Key::String("a".to_string()), CelType::Int(2)),
            (Key::String("b".to_string()), CelType::Int(5)),
        ]))
    );
}

#[test]
fn not_equals_and_mixed_types() {
    let ne = Expression::Relation(Box::new(int_lit(1)), RelationOp::NotEquals, Box::new(text("1")));
    assert_eq!(eval(&ne), Ok(CelType::Bool(true)));
    assert_eq!(eval(&equals(int_lit(1), Expression::Atom(Atom::UInt(1)))), Ok(CelType::Bool(false)));
}

#[test]
fn unsigned_underflow_is_an_error() {
    let e = arith(Expression::Atom(Atom::UInt(1)), ArithmeticOp::Subtract, Expression::Atom(Atom::UInt(2)));
    assert!(is_function_error(&eval(&e), "_-_"));
    let e = arith(Expression::Atom(Atom::UInt(3)), ArithmeticOp::Multiply, Expression::Atom(Atom::UInt(4)));
    assert_eq!(eval(&e), Ok(CelType::UInt(12)));
}
