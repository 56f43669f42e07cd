use crate::ast::Expression;
use crate::error::ErrVal;
use crate::semantics::{
    contains_call, contains_of, list_has, eval, has_call, map_call, map_items, size_call, Env,
};
use crate::value::{key_index, lemma_key_index, val_eq, wf, Val};
use vstd::prelude::*;

verus! {

/// The count that `size` reports for a value, where it has one.
pub open spec fn count_of(v: Val) -> Option<int> {
    match v {
        Val::List(l) => Some(l.len() as int),
        Val::Dict(m) => Some(m.len() as int),
        Val::Str(s) => Some(s.len() as int),
        Val::Bytes(b) => Some(b.len() as int),
        _ => None,
    }
}

/// `size(x)` is the element, entry, character or byte count of the value of
/// `x` when that value is a list, map, string or byte sequence.
pub proof fn law_size_is_count(args: Seq<Expression>, env: Env, v: Val)
    requires
        args.len() >= 1,
        eval(args[0], env) == Ok::<Val, ErrVal>(v),
        count_of(v) is Some,
        count_of(v)->0 <= i64::MAX,
    ensures
        size_call(None, args, env) == Ok::<Val, ErrVal>(Val::Int(count_of(v)->0)),
{
}

/// `size` called with a receiver always fails with `NotSupportedAsMethod`.
pub proof fn law_size_not_a_method(t: Val, args: Seq<Expression>, env: Env)
    ensures
        size_call(Some(t), args, env) == Err::<Val, ErrVal>(ErrVal::NotSupportedAsMethod("size"@, t)),
{
}

/// On a list, `contains` never fails and is true exactly when some element
/// is equal in value to the probe, whatever the probe's type; in particular
/// it is true whenever the probe is one of the elements (for a well-formed
/// probe).
pub proof fn law_list_contains(l: Seq<Val>, a: Val)
    ensures
        contains_of(Val::List(l), a) == Ok::<Val, ErrVal>(
            Val::Bool(list_has(l, a)),
        ),
        l.contains(a) && wf(a) ==> contains_of(Val::List(l), a) == Ok::<Val, ErrVal>(Val::Bool(true)),
{
    if l.contains(a) && wf(a) {
        let i = choose|i: int| 0 <= i < l.len() && l[i] == a;
        lemma_val_eq_refl(a);
        assert(val_eq(l[i], a));
    }
}

/// Every well-formed value is equal in value to itself.
pub proof fn lemma_val_eq_refl(a: Val)
    requires
        wf(a),
    ensures
        val_eq(a, a),
    decreases a,
{
    match a {
        Val::List(x) => {
            assert forall|i: int| #![trigger x[i]] 0 <= i < x.len() implies val_eq(x[i], x[i]) by {
                lemma_val_eq_refl(x[i]);
            }
        },
        Val::Dict(x) => {
            assert forall|i: int| #![trigger x[i]] 0 <= i < x.len() implies 0 <= key_index(x, x[i].0)
                && val_eq(x[i].1, x[key_index(x, x[i].0)].1) by {
                lemma_key_index(x, x[i].0);
                lemma_val_eq_refl(x[i].1);
            }
        },
        _ => {},
    }
}

/// On a byte sequence, `contains` with an argument of more than one byte
/// always fails with a `FunctionError`.
pub proof fn law_bytes_contains_multibyte(b: Seq<u8>, c: Seq<u8>)
    requires
        c.len() > 1,
    ensures
        contains_of(Val::Bytes(b), Val::Bytes(c)) == Err::<Val, ErrVal>(
            ErrVal::FunctionError("contains"@),
        ),
{
}

/// The same law one level up: `b.contains(x)` fails whenever `x` evaluates to
/// more than one byte.
pub proof fn law_bytes_contains_call_multibyte(
    b: Seq<u8>,
    args: Seq<Expression>,
    env: Env,
    c: Seq<u8>,
)
    requires
        args.len() >= 1,
        eval(args[0], env) == Ok::<Val, ErrVal>(Val::Bytes(c)),
        c.len() > 1,
    ensures
        contains_call(Some(Val::Bytes(b)), args, env) == Err::<Val, ErrVal>(
            ErrVal::FunctionError("contains"@),
        ),
{
}

/// `has(x)` is `false` exactly when evaluating `x` fails with `NoSuchKey`,
/// `true` when it succeeds, and passes any other error on unchanged.
pub proof fn law_has_absence(args: Seq<Expression>, env: Env)
    requires
        args.len() >= 1,
    ensures
        (has_call(None, args, env) == Ok::<Val, ErrVal>(Val::Bool(false))) <==> (eval(
            args[0],
            env,
        ) matches Err(ErrVal::NoSuchKey(_))),
        (has_call(None, args, env) == Ok::<Val, ErrVal>(Val::Bool(true))) <==> eval(
            args[0],
            env,
        ) is Ok,
        eval(args[0], env) is Err && !(eval(args[0], env)->Err_0 is NoSuchKey) ==> has_call(
            None,
            args,
            env,
        ) == eval(args[0], env),
{
}

/// `map` keeps length and order: it succeeds exactly when the body evaluates
/// for every item, and then item `i` of the result is the body evaluated with
/// the loop variable bound to item `i` on top of the unchanged outer bindings.
pub proof fn law_map_items(items: Seq<Val>, x: Seq<char>, body: Expression, env: Env)
    ensures
        map_items(items, x, body, env) is Ok <==> (forall|i: int|
            0 <= i < items.len() ==> #[trigger] eval(body, env.insert(x, items[i])) is Ok),
        map_items(items, x, body, env) is Ok ==> {
            let vs = map_items(items, x, body, env)->Ok_0;
            &&& vs.len() == items.len()
            &&& forall|i: int|
                0 <= i < items.len() ==> eval(body, env.insert(x, items[i])) == Ok::<Val, ErrVal>(
                    #[trigger] vs[i],
                )
        },
    decreases items.len(),
{
    if items.len() > 0 {
        let p = items.subrange(0, items.len() - 1);
        law_map_items(p, x, body, env);
        assert forall|i: int| 0 <= i < p.len() implies p[i] == items[i] by {}
        if map_items(items, x, body, env) is Ok {
            assert forall|i: int| 0 <= i < items.len() implies #[trigger] eval(
                body,
                env.insert(x, items[i]),
            ) is Ok by {
                if i < p.len() {
                    assert(p[i] == items[i]);
                }
            }
        }
        if forall|i: int|
            0 <= i < items.len() ==> #[trigger] eval(body, env.insert(x, items[i])) is Ok {
            assert forall|i: int| 0 <= i < p.len() implies #[trigger] eval(
                body,
                env.insert(x, p[i]),
            ) is Ok by {
                assert(eval(body, env.insert(x, items[i])) is Ok);
            }
            assert(eval(body, env.insert(x, items[items.len() - 1])) is Ok);
        }
    }
}

/// `map` called on a receiver that is not a list always fails with a
/// `FunctionError`.
pub proof fn law_map_needs_list(t: Val, args: Seq<Expression>, env: Env)
    requires
        !(t is List),
        args.len() == 2,
    ensures
        map_call(Some(t), args, env) == Err::<Val, ErrVal>(ErrVal::FunctionError("map"@)),
{
}

/// `map` with other than two arguments always fails with
/// `InvalidArgumentCount { expected: 2, actual }`.
pub proof fn law_map_arity(t: Val, args: Seq<Expression>, env: Env)
    requires
        args.len() != 2,
    ensures
        map_call(Some(t), args, env) == Err::<Val, ErrVal>(
            ErrVal::InvalidArgumentCount(2, args.len()),
        ),
{
}

} // verus!
