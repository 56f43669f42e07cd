use crate::ast::{ArithmeticOp, Expression};
use crate::context::Context;
use crate::error::{ErrVal, ExecutionError};
use crate::functions::{contains, has, size};
use crate::semantics::{
    arith, call, eval, eval_entries, eval_list, lemma_eval_entries_err, lemma_eval_list_err,
    env_wf, lemma_eval_wf, member_of, op_name, relation, result_view, target_view,
};
use crate::text::str_eq;
use crate::value::{find_key, lemma_view_entries, wf, view_entries, view_list, CelType, Key, KeyVal, Val};
use vstd::pervasive::VecAdditionalExecFns;
use vstd::prelude::*;

verus! {

fn op_str(op: &ArithmeticOp) -> (r: &'static str)
    ensures
        r@ == op_name(*op),
{
    match op {
        ArithmeticOp::Add => "_+_",
        ArithmeticOp::Subtract => "_-_",
        ArithmeticOp::Multiply => "_*_",
    }
}

/// Arithmetic on two values; see `arith`.
pub fn arith_value(op: &ArithmeticOp, a: &CelType, b: &CelType) -> (r: Result<CelType, ExecutionError>)
    ensures
        result_view(r) == arith(*op, a.view(), b.view()),
{
    match (a, b) {
        (CelType::Int(x), CelType::Int(y)) => {
            let z = match op {
                ArithmeticOp::Add => x.checked_add(*y),
                ArithmeticOp::Subtract => x.checked_sub(*y),
                ArithmeticOp::Multiply => x.checked_mul(*y),
            };
            match z {
                Some(z) => Ok(CelType::Int(z)),
                None => Err(ExecutionError::function_error(op_str(op), "integer overflow")),
            }
        },
        (CelType::UInt(x), CelType::UInt(y)) => {
            let z = match op {
                ArithmeticOp::Add => x.checked_add(*y),
                ArithmeticOp::Subtract => x.checked_sub(*y),
                ArithmeticOp::Multiply => x.checked_mul(*y),
            };
            match z {
                Some(z) => Ok(CelType::UInt(z)),
                None => Err(ExecutionError::function_error(op_str(op), "integer overflow")),
            }
        },
        _ => Err(ExecutionError::function_error(op_str(op), "operands are not integers of one kind")),
    }
}

/// Field `f` of a value: the entry of a map under the string key `f`.
pub fn member_value(v: &CelType, f: &str) -> (r: Result<CelType, ExecutionError>)
    ensures
        result_view(r) == member_of(v.view(), f@),
{
    match v {
        CelType::Dict(m) => {
            proof {
                lemma_view_entries(m@);
            }
            let key = Key::String(f.to_owned());
            match find_key(m, &key) {
                Some(j) => Ok(m[j].1.copy()),
                None => Err(ExecutionError::no_such_key(f)),
            }
        },
        _ => Err(ExecutionError::no_such_key(f)),
    }
}

/// Calls the built-in named `name`; an unknown name is a `FunctionError`.
pub fn call_function(
    name: &String,
    target: Option<&CelType>,
    args: &[Expression],
    ctx: &Context,
) -> (r: Result<CelType, ExecutionError>)
    ensures
        result_view(r) == call(name@, target_view(target), args@, ctx.bindings()),
    decreases args@, 1int,
{
    if str_eq(name.as_str(), "size") {
        size(target, args, ctx)
    } else if str_eq(name.as_str(), "contains") {
        if target.is_none() {
            Err(ExecutionError::missing_argument_or_target())
        } else {
            contains(target, args, ctx)
        }
    } else if str_eq(name.as_str(), "has") {
        has(target, args, ctx)
    } else if str_eq(name.as_str(), "map") {
        crate::functions::map(target, args, ctx)
    } else {
        Err(ExecutionError::function_error(name.as_str(), "no such function"))
    }
}

/// Evaluates an expression in a scope. Calls hand their argument expressions
/// unevaluated to the built-in, which decides what to evaluate and where.
/// Under well-formed bindings the value is well formed: its maps have unique
/// keys.
pub fn resolve(e: &Expression, ctx: &Context) -> (r: Result<CelType, ExecutionError>)
    ensures
        result_view(r) == eval(*e, ctx.bindings()),
        env_wf(ctx.bindings()) && r is Ok ==> wf(result_view(r)->Ok_0),
    decreases e, 1int,
{
    let r = resolve_node(e, ctx);
    proof {
        if env_wf(ctx.bindings()) {
            lemma_eval_wf(*e, ctx.bindings());
        }
    }
    r
}

fn resolve_node(e: &Expression, ctx: &Context) -> (r: Result<CelType, ExecutionError>)
    ensures
        result_view(r) == eval(*e, ctx.bindings()),
    decreases e, 0int,
{
    let ghost env = ctx.bindings();
    match e {
        Expression::Atom(a) => Ok(a.to_value()),
        Expression::Ident(n) => match ctx.get_variable(n.as_str()) {
            Some(v) => Ok(v),
            None => Err(ExecutionError::no_such_key(n.as_str())),
        },
        Expression::List(items) => {
            let mut out: Vec<CelType> = Vec::new();
            let mut i: usize = 0;
            while i < items.len()
                invariant
                    i <= items.len(),
                    *e == Expression::List(*items),
                    env == ctx.bindings(),
                    eval_list(items@.subrange(0, i as int), env) == Ok::<Seq<Val>, ErrVal>(
                        view_list(out@),
                    ),
                decreases items.len() - i,
            {
                proof {
                    assert(decreases_to!(*e => e->List_0));
                    assert(items@.subrange(0, i + 1).subrange(0, i as int) =~= items@.subrange(
                        0,
                        i as int,
                    ));
                    assert(items@.subrange(0, i + 1)[i as int] == items@[i as int]);
                }
                match resolve(&items[i], ctx) {
                    Ok(v) => {
                        proof {
                            assert(out@.push(v).subrange(0, out@.len() as int) =~= out@);
                        }
                        out.push(v);
                    },
                    Err(x) => {
                        proof {
                            lemma_eval_list_err(items@, i + 1, env);
                        }
                        return Err(x);
                    },
                }
                i += 1;
            }
            proof {
                assert(items@.subrange(0, items@.len() as int) =~= items@);
            }
            Ok(CelType::List(out))
        },
        Expression::Dict(entries) => {
            let mut out: Vec<(Key, CelType)> = Vec::new();
            let mut i: usize = 0;
            while i < entries.len()
                invariant
                    i <= entries.len(),
                    *e == Expression::Dict(*entries),
                    env == ctx.bindings(),
                    eval_entries(entries@.subrange(0, i as int), env) == Ok::<
                        Seq<(KeyVal, Val)>,
                        ErrVal,
                    >(view_entries(out@)),
                decreases entries.len() - i,
            {
                proof {
                    assert(decreases_to!(*e => e->Dict_0));
                    assert(entries@.subrange(0, i + 1).subrange(0, i as int) =~= entries@.subrange(
                        0,
                        i as int,
                    ));
                    assert(entries@.subrange(0, i + 1)[i as int] == entries@[i as int]);
                }
                let kv = match resolve(&entries[i].0, ctx) {
                    Ok(kv) => kv,
                    Err(x) => {
                        proof {
                            lemma_eval_entries_err(entries@, i + 1, env);
                        }
                        return Err(x);
                    },
                };
                let key = match kv.to_key() {
                    Some(key) => key,
                    None => {
                        proof {
                            lemma_eval_entries_err(entries@, i + 1, env);
                        }
                        return Err(ExecutionError::UnsupportedKeyType(kv));
                    },
                };
                let v = match resolve(&entries[i].1, ctx) {
                    Ok(v) => v,
                    Err(x) => {
                        proof {
                            lemma_eval_entries_err(entries@, i + 1, env);
                        }
                        return Err(x);
                    },
                };
                let ghost before = out@;
                proof {
                    lemma_view_entries(before);
                }
                match find_key(&out, &key) {
                    Some(j) => {
                        out.set(j, (key, v));
                        proof {
                            lemma_view_entries(out@);
                            assert(view_entries(out@) =~= view_entries(before).update(
                                j as int,
                                (out@[j as int].0.view(), out@[j as int].1.view()),
                            ));
                        }
                    },
                    None => {
                        proof {
                            assert(before.push((key, v)).subrange(0, before.len() as int) =~= before);
                        }
                        out.push((key, v));
                    },
                }
                i += 1;
            }
            proof {
                assert(entries@.subrange(0, entries@.len() as int) =~= entries@);
            }
            Ok(CelType::Dict(out))
        },
        Expression::Member(base, f) => match resolve(base, ctx) {
            Ok(v) => member_value(&v, f.as_str()),
            Err(x) => Err(x),
        },
        Expression::Call(target, name, args) => match target {
            None => call_function(name, None, args.as_slice(), ctx),
            Some(t) => match resolve(t, ctx) {
                Ok(v) => call_function(name, Some(&v), args.as_slice(), ctx),
                Err(x) => Err(x),
            },
        },
        Expression::Arithmetic(l, op, r) => match resolve(l, ctx) {
            Ok(a) => match resolve(r, ctx) {
                Ok(b) => arith_value(op, &a, &b),
                Err(x) => Err(x),
            },
            Err(x) => Err(x),
        },
        Expression::Relation(l, op, r) => match resolve(l, ctx) {
            Ok(a) => match resolve(r, ctx) {
                Ok(b) => {
                    let same = a.value_eq(&b);
                    match op {
                        crate::ast::RelationOp::Equals => Ok(CelType::Bool(same)),
                        crate::ast::RelationOp::NotEquals => Ok(CelType::Bool(!same)),
                    }
                },
                Err(x) => Err(x),
            },
            Err(x) => Err(x),
        },
    }
}

} // verus!
