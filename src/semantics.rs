use crate::ast::{ArithmeticOp, Expression, RelationOp};
use crate::error::{ErrVal, ExecutionError};
use crate::text::is_substring;
use crate::value::{
    keys_unique, lemma_key_index, lemma_put_entry_wf, lookup_entry, put_entry, val_eq, wf, CelType,
    KeyVal, Val,
};
use vstd::prelude::*;

verus! {

/// The bindings an expression is evaluated under: name to value.
pub type Env = Map<Seq<char>, Val>;

/// The model of an outcome.
pub open spec fn result_view(r: Result<CelType, ExecutionError>) -> Result<Val, ErrVal> {
    match r {
        Ok(v) => Ok(v.view()),
        Err(e) => Err(e.view()),
    }
}

/// The model of an optional receiver.
pub open spec fn target_view(t: Option<&CelType>) -> Option<Val> {
    match t {
        Some(v) => Some(v.view()),
        None => None,
    }
}

/// The name under which an operator reports its errors.
pub open spec fn op_name(op: ArithmeticOp) -> Seq<char> {
    match op {
        ArithmeticOp::Add => "_+_"@,
        ArithmeticOp::Subtract => "_-_"@,
        ArithmeticOp::Multiply => "_*_"@,
    }
}

pub open spec fn apply_op(op: ArithmeticOp, x: int, y: int) -> int {
    match op {
        ArithmeticOp::Add => x + y,
        ArithmeticOp::Subtract => x - y,
        ArithmeticOp::Multiply => x * y,
    }
}

/// Arithmetic on two integers of one kind; a result out of range is an error.
pub open spec fn arith(op: ArithmeticOp, a: Val, b: Val) -> Result<Val, ErrVal> {
    match (a, b) {
        (Val::Int(x), Val::Int(y)) => {
            let r = apply_op(op, x, y);
            if i64::MIN <= r <= i64::MAX {
                Ok(Val::Int(r))
            } else {
                Err(ErrVal::FunctionError(op_name(op)))
            }
        },
        (Val::UInt(x), Val::UInt(y)) => {
            let r = apply_op(op, x, y);
            if 0 <= r <= u64::MAX {
                Ok(Val::UInt(r))
            } else {
                Err(ErrVal::FunctionError(op_name(op)))
            }
        },
        _ => Err(ErrVal::FunctionError(op_name(op))),
    }
}

pub open spec fn relation(op: RelationOp, a: Val, b: Val) -> Val {
    match op {
        RelationOp::Equals => Val::Bool(val_eq(a, b)),
        RelationOp::NotEquals => Val::Bool(!val_eq(a, b)),
    }
}

/// Field `f` of a value: only a map has fields, keyed by strings.
pub open spec fn member_of(v: Val, f: Seq<char>) -> Result<Val, ErrVal> {
    match v {
        Val::Dict(m) => match lookup_entry(m, KeyVal::Str(f)) {
            Some(x) => Ok(x),
            None => Err(ErrVal::NoSuchKey(f)),
        },
        _ => Err(ErrVal::NoSuchKey(f)),
    }
}

/// A length as an `Int`, where it fits.
pub open spec fn int_len(n: int) -> Result<Val, ErrVal> {
    if n <= i64::MAX {
        Ok(Val::Int(n))
    } else {
        Err(ErrVal::FunctionError("size"@))
    }
}

/// What `size` gives for an argument value.
pub open spec fn size_of(v: Val) -> Result<Val, ErrVal> {
    match v {
        Val::List(l) => int_len(l.len() as int),
        Val::Dict(m) => int_len(m.len() as int),
        Val::Str(s) => int_len(s.len() as int),
        Val::Bytes(b) => int_len(b.len() as int),
        _ => Err(ErrVal::FunctionError("size"@)),
    }
}

/// Some element of `l` is equal in value to `a`.
pub open spec fn list_has(l: Seq<Val>, a: Val) -> bool {
    exists|i: int| #![trigger l[i]] 0 <= i < l.len() && val_eq(l[i], a)
}

/// What `contains` gives for a receiver and an argument value.
pub open spec fn contains_of(t: Val, a: Val) -> Result<Val, ErrVal> {
    match t {
        Val::List(l) => Ok(Val::Bool(list_has(l, a))),
        Val::Dict(m) => match a.to_key() {
            Some(k) => Ok(Val::Bool(exists|i: int| 0 <= i < m.len() && #[trigger] m[i].0 == k)),
            None => Err(ErrVal::UnsupportedKeyType(a)),
        },
        Val::Str(s) => match a {
            Val::Str(u) => Ok(Val::Bool(is_substring(s, u))),
            _ => Ok(Val::Bool(false)),
        },
        Val::Bytes(b) => match a {
            Val::Bytes(c) => if c.len() > 1 {
                Err(ErrVal::FunctionError("contains"@))
            } else if c.len() == 0 {
                Ok(Val::Bool(false))
            } else {
                Ok(Val::Bool(b.contains(c[0])))
            },
            _ => Ok(Val::Bool(false)),
        },
        _ => Ok(Val::Bool(false)),
    }
}

/// What `has` makes of the outcome of evaluating its argument: success is
/// `true`, an absent key or field is `false`, any other error stays.
pub open spec fn has_of(r: Result<Val, ErrVal>) -> Result<Val, ErrVal> {
    match r {
        Ok(_) => Ok(Val::Bool(true)),
        Err(ErrVal::NoSuchKey(_)) => Ok(Val::Bool(false)),
        Err(x) => Err(x),
    }
}

/// The value of an expression under the bindings `env`.
pub open spec fn eval(e: Expression, env: Env) -> Result<Val, ErrVal>
    decreases e, 0int,
{
    match e {
        Expression::Atom(a) => Ok(a.view()),
        Expression::Ident(n) => if env.contains_key(n@) {
            Ok(env[n@])
        } else {
            Err(ErrVal::NoSuchKey(n@))
        },
        Expression::List(items) => match eval_list(items@, env) {
            Ok(vs) => Ok(Val::List(vs)),
            Err(x) => Err(x),
        },
        Expression::Dict(entries) => match eval_entries(entries@, env) {
            Ok(es) => Ok(Val::Dict(es)),
            Err(x) => Err(x),
        },
        Expression::Member(base, f) => match eval(*base, env) {
            Ok(v) => member_of(v, f@),
            Err(x) => Err(x),
        },
        Expression::Call(target, name, args) => match target {
            None => call(name@, None, args@, env),
            Some(t) => match eval(*t, env) {
                Ok(v) => call(name@, Some(v), args@, env),
                Err(x) => Err(x),
            },
        },
        Expression::Arithmetic(l, op, r) => match eval(*l, env) {
            Ok(a) => match eval(*r, env) {
                Ok(b) => arith(op, a, b),
                Err(x) => Err(x),
            },
            Err(x) => Err(x),
        },
        Expression::Relation(l, op, r) => match eval(*l, env) {
            Ok(a) => match eval(*r, env) {
                Ok(b) => Ok(relation(op, a, b)),
                Err(x) => Err(x),
            },
            Err(x) => Err(x),
        },
    }
}

/// The values of a sequence of expressions, in order; the first error stops it.
pub open spec fn eval_list(es: Seq<Expression>, env: Env) -> Result<Seq<Val>, ErrVal>
    decreases es, 0int,
{
    if es.len() == 0 {
        Ok(Seq::empty())
    } else {
        match eval_list(es.subrange(0, es.len() - 1), env) {
            Ok(vs) => match eval(es[es.len() - 1], env) {
                Ok(v) => Ok(vs.push(v)),
                Err(x) => Err(x),
            },
            Err(x) => Err(x),
        }
    }
}

/// The entries of a map literal: key, then value, of each entry in order,
/// bound one after another with `put_entry`, so that a repeated key keeps
/// its place and takes the later value.
pub open spec fn eval_entries(es: Seq<(Expression, Expression)>, env: Env) -> Result<
    Seq<(KeyVal, Val)>,
    ErrVal,
>
    decreases es, 0int,
{
    if es.len() == 0 {
        Ok(Seq::empty())
    } else {
        match eval_entries(es.subrange(0, es.len() - 1), env) {
            Ok(vs) => match eval(es[es.len() - 1].0, env) {
                Ok(k) => match k.to_key() {
                    Some(kk) => match eval(es[es.len() - 1].1, env) {
                        Ok(v) => Ok(put_entry(vs, kk, v)),
                        Err(x) => Err(x),
                    },
                    None => Err(ErrVal::UnsupportedKeyType(k)),
                },
                Err(x) => Err(x),
            },
            Err(x) => Err(x),
        }
    }
}

/// A call of the function `name`, with an evaluated receiver if there is one
/// and the argument expressions unevaluated.
pub open spec fn call(name: Seq<char>, target: Option<Val>, args: Seq<Expression>, env: Env) -> Result<
    Val,
    ErrVal,
>
    decreases args, 1int,
{
    if name == "size"@ {
        size_call(target, args, env)
    } else if name == "contains"@ {
        contains_call(target, args, env)
    } else if name == "has"@ {
        has_call(target, args, env)
    } else if name == "map"@ {
        map_call(target, args, env)
    } else {
        Err(ErrVal::FunctionError(name))
    }
}

/// `size(x)`: the length of the value of `x`; no receiver allowed.
pub open spec fn size_call(target: Option<Val>, args: Seq<Expression>, env: Env) -> Result<Val, ErrVal>
    decreases args, 0int,
{
    match target {
        Some(t) => Err(ErrVal::NotSupportedAsMethod("size"@, t)),
        None => if args.len() == 0 {
            Err(ErrVal::InvalidArgumentCount(1, 0))
        } else {
            match eval(args[0], env) {
                Ok(v) => size_of(v),
                Err(x) => Err(x),
            }
        },
    }
}

/// `t.contains(x)`.
pub open spec fn contains_call(target: Option<Val>, args: Seq<Expression>, env: Env) -> Result<
    Val,
    ErrVal,
>
    decreases args, 0int,
{
    match target {
        None => Err(ErrVal::MissingArgumentOrTarget),
        Some(t) => if args.len() == 0 {
            Err(ErrVal::InvalidArgumentCount(1, 0))
        } else {
            match eval(args[0], env) {
                Ok(a) => contains_of(t, a),
                Err(x) => Err(x),
            }
        },
    }
}

/// `has(x)`: whether `x` evaluates without an absent key or field.
pub open spec fn has_call(target: Option<Val>, args: Seq<Expression>, env: Env) -> Result<Val, ErrVal>
    decreases args, 0int,
{
    match target {
        Some(t) => Err(ErrVal::NotSupportedAsMethod("has"@, t)),
        None => if args.len() == 0 {
            Err(ErrVal::InvalidArgumentCount(1, 0))
        } else {
            has_of(eval(args[0], env))
        },
    }
}

/// `l.map(x, body)`.
pub open spec fn map_call(target: Option<Val>, args: Seq<Expression>, env: Env) -> Result<Val, ErrVal>
    decreases args, 0int,
{
    match target {
        None => Err(ErrVal::MissingArgumentOrTarget),
        Some(t) => if args.len() != 2 {
            Err(ErrVal::InvalidArgumentCount(2, args.len()))
        } else {
            match args[0] {
                Expression::Ident(x) => match t {
                    Val::List(items) => match map_items(items, x@, args[1], env) {
                        Ok(vs) => Ok(Val::List(vs)),
                        Err(x) => Err(x),
                    },
                    _ => Err(ErrVal::FunctionError("map"@)),
                },
                _ => Err(ErrVal::FunctionError("map"@)),
            }
        },
    }
}

/// `body` evaluated once per item, in order, with `x` bound to the item on
/// top of `env`; the first error stops it.
pub open spec fn map_items(items: Seq<Val>, x: Seq<char>, body: Expression, env: Env) -> Result<
    Seq<Val>,
    ErrVal,
>
    decreases body, items.len(),
{
    if items.len() == 0 {
        Ok(Seq::empty())
    } else {
        match map_items(items.subrange(0, items.len() - 1), x, body, env) {
            Ok(vs) => match eval(body, env.insert(x, items[items.len() - 1])) {
                Ok(v) => Ok(vs.push(v)),
                Err(e) => Err(e),
            },
            Err(e) => Err(e),
        }
    }
}

/// An error in a prefix of a list literal is the error of the whole list.
pub proof fn lemma_eval_list_err(es: Seq<Expression>, n: int, env: Env)
    requires
        0 <= n <= es.len(),
        eval_list(es.subrange(0, n), env) is Err,
    ensures
        eval_list(es, env) == eval_list(es.subrange(0, n), env),
    decreases es.len(),
{
    if n < es.len() {
        let p = es.subrange(0, es.len() - 1);
        assert(p.subrange(0, n) =~= es.subrange(0, n));
        lemma_eval_list_err(p, n, env);
    } else {
        assert(es.subrange(0, n) =~= es);
    }
}

/// An error in a prefix of a map literal is the error of the whole map.
pub proof fn lemma_eval_entries_err(es: Seq<(Expression, Expression)>, n: int, env: Env)
    requires
        0 <= n <= es.len(),
        eval_entries(es.subrange(0, n), env) is Err,
    ensures
        eval_entries(es, env) == eval_entries(es.subrange(0, n), env),
    decreases es.len(),
{
    if n < es.len() {
        let p = es.subrange(0, es.len() - 1);
        assert(p.subrange(0, n) =~= es.subrange(0, n));
        lemma_eval_entries_err(p, n, env);
    } else {
        assert(es.subrange(0, n) =~= es);
    }
}

/// An error on some item of `map` is the error of the whole `map`.
pub proof fn lemma_map_items_err(items: Seq<Val>, n: int, x: Seq<char>, body: Expression, env: Env)
    requires
        0 <= n <= items.len(),
        map_items(items.subrange(0, n), x, body, env) is Err,
    ensures
        map_items(items, x, body, env) == map_items(items.subrange(0, n), x, body, env),
    decreases items.len(),
{
    if n < items.len() {
        let p = items.subrange(0, items.len() - 1);
        assert(p.subrange(0, n) =~= items.subrange(0, n));
        lemma_map_items_err(p, n, x, body, env);
    } else {
        assert(items.subrange(0, n) =~= items);
    }
}

/// Every value bound in `env` is well formed.
pub open spec fn env_wf(env: Env) -> bool {
    forall|k: Seq<char>| #[trigger] env.contains_key(k) ==> wf(env[k])
}

/// Evaluation under well-formed bindings gives a well-formed value: every map
/// it builds or passes on has unique keys.
pub proof fn lemma_eval_wf(e: Expression, env: Env)
    requires
        env_wf(env),
    ensures
        eval(e, env) is Ok ==> wf(eval(e, env)->Ok_0),
    decreases e, 0int,
{
    match e {
        Expression::List(items) => {
            lemma_eval_list_wf(items@, env);
        },
        Expression::Dict(entries) => {
            lemma_eval_entries_wf(entries@, env);
        },
        Expression::Member(base, f) => {
            lemma_eval_wf(*base, env);
            if eval(*base, env) is Ok {
                let v = eval(*base, env)->Ok_0;
                if let Val::Dict(m) = v {
                    lemma_key_index(m, KeyVal::Str(f@));
                }
            }
        },
        Expression::Call(t, name, args) => match t {
            None => {
                lemma_call_wf(name@, None, args@, env);
            },
            Some(te) => {
                lemma_eval_wf(*te, env);
                if eval(*te, env) is Ok {
                    lemma_call_wf(name@, Some(eval(*te, env)->Ok_0), args@, env);
                }
            },
        },
        _ => {},
    }
}

proof fn lemma_eval_list_wf(es: Seq<Expression>, env: Env)
    requires
        env_wf(env),
    ensures
        eval_list(es, env) is Ok ==> forall|i: int|
            #![trigger eval_list(es, env)->Ok_0[i]]
            0 <= i < eval_list(es, env)->Ok_0.len() ==> wf(eval_list(es, env)->Ok_0[i]),
    decreases es, 0int,
{
    if es.len() > 0 {
        lemma_eval_list_wf(es.subrange(0, es.len() - 1), env);
        lemma_eval_wf(es[es.len() - 1], env);
    }
}

proof fn lemma_eval_entries_wf(es: Seq<(Expression, Expression)>, env: Env)
    requires
        env_wf(env),
    ensures
        eval_entries(es, env) is Ok ==> keys_unique(eval_entries(es, env)->Ok_0) && forall|i: int|
            #![trigger eval_entries(es, env)->Ok_0[i]]
            0 <= i < eval_entries(es, env)->Ok_0.len() ==> wf(eval_entries(es, env)->Ok_0[i].1),
    decreases es, 0int,
{
    if es.len() > 0 {
        let p = es.subrange(0, es.len() - 1);
        lemma_eval_entries_wf(p, env);
        lemma_eval_wf(es[es.len() - 1].1, env);
        if eval_entries(p, env) is Ok && eval(es[es.len() - 1].0, env) is Ok && eval(
            es[es.len() - 1].1,
            env,
        ) is Ok && eval(es[es.len() - 1].0, env)->Ok_0.to_key() is Some {
            lemma_put_entry_wf(
                eval_entries(p, env)->Ok_0,
                eval(es[es.len() - 1].0, env)->Ok_0.to_key()->0,
                eval(es[es.len() - 1].1, env)->Ok_0,
            );
        }
    }
}

proof fn lemma_call_wf(name: Seq<char>, target: Option<Val>, args: Seq<Expression>, env: Env)
    requires
        env_wf(env),
        target is Some ==> wf(target->0),
    ensures
        call(name, target, args, env) is Ok ==> wf(call(name, target, args, env)->Ok_0),
    decreases args, 1int,
{
    if name == "map"@ {
        lemma_map_call_wf(target, args, env);
    }
}

proof fn lemma_map_call_wf(target: Option<Val>, args: Seq<Expression>, env: Env)
    requires
        env_wf(env),
        target is Some ==> wf(target->0),
    ensures
        map_call(target, args, env) is Ok ==> wf(map_call(target, args, env)->Ok_0),
    decreases args, 0int,
{
    if target is Some && args.len() == 2 {
        if let Expression::Ident(x) = args[0] {
            if let Val::List(items) = target->0 {
                lemma_map_items_wf(items, x@, args[1], env);
            }
        }
    }
}

proof fn lemma_map_items_wf(items: Seq<Val>, x: Seq<char>, body: Expression, env: Env)
    requires
        env_wf(env),
        forall|i: int| #![trigger items[i]] 0 <= i < items.len() ==> wf(items[i]),
    ensures
        map_items(items, x, body, env) is Ok ==> forall|i: int|
            #![trigger map_items(items, x, body, env)->Ok_0[i]]
            0 <= i < map_items(items, x, body, env)->Ok_0.len() ==> wf(
                map_items(items, x, body, env)->Ok_0[i],
            ),
    decreases body, items.len(),
{
    if items.len() > 0 {
        let p = items.subrange(0, items.len() - 1);
        assert forall|i: int| #![trigger p[i]] 0 <= i < p.len() implies wf(p[i]) by {
            assert(p[i] == items[i]);
        }
        lemma_map_items_wf(p, x, body, env);
        let env2 = env.insert(x, items[items.len() - 1]);
        assert forall|k: Seq<char>| #[trigger] env2.contains_key(k) implies wf(env2[k]) by {
            if k != x {
                assert(env.contains_key(k));
            }
        }
        lemma_eval_wf(body, env2);
    }
}

} // verus!
