use crate::ast::Expression;
use crate::context::Context;
use crate::error::{ErrVal, ExecutionError};
use crate::resolver::resolve;
use crate::semantics::{
    contains_call, contains_of, has_call, int_len, lemma_map_items_err, map_call, map_items,
    result_view, size_call, size_of, target_view,
};
use crate::text::str_contains;
use crate::value::{
    lemma_view_entries, lemma_view_list, val_eq, view_entries, view_list, CelType, Key, Val,
};
use vstd::prelude::*;
use vstd::string::StrSliceExecFns;

verus! {

impl CelType {
    /// The map key this value converts to, if its variant may be a key.
    pub fn to_key(&self) -> (r: Option<Key>)
        ensures
            match r {
                Some(k) => self.view().to_key() == Some(k.view()),
                None => self.view().to_key() is None,
            },
    {
        match self {
            CelType::Bool(b) => Some(Key::Bool(*b)),
            CelType::Int(i) => Some(Key::Int(*i)),
            CelType::UInt(u) => Some(Key::UInt(*u)),
            CelType::String(s) => Some(Key::String(s.clone())),
            _ => None,
        }
    }
}

/// A length as an `Int` value, or an error where it does not fit.
fn length_value(n: usize) -> (r: Result<CelType, ExecutionError>)
    ensures
        result_view(r) == int_len(n as int),
{
    if (n as u128) <= (i64::MAX as u128) {
        Ok(CelType::Int(n as i64))
    } else {
        Err(ExecutionError::function_error("size", "size does not fit in an int"))
    }
}

/// The length of a list, map, string (in characters) or byte sequence.
pub fn size_value(v: &CelType) -> (r: Result<CelType, ExecutionError>)
    ensures
        result_view(r) == size_of(v.view()),
{
    match v {
        CelType::List(l) => {
            proof {
                lemma_view_list(l@);
            }
            length_value(l.len())
        },
        CelType::Dict(m) => {
            proof {
                lemma_view_entries(m@);
            }
            length_value(m.len())
        },
        CelType::String(s) => length_value(s.as_str().unicode_len()),
        CelType::Bytes(b) => length_value(b.len()),
        _ => Err(ExecutionError::function_error("size", "value has no size")),
    }
}

/// Whether receiver `t` contains `a`: an element of a list, a key of a map, a
/// substring of a string, a byte of a byte sequence.
pub fn contains_value(t: &CelType, a: &CelType) -> (r: Result<CelType, ExecutionError>)
    ensures
        result_view(r) == contains_of(t.view(), a.view()),
{
    match t {
        CelType::List(l) => {
            proof {
                lemma_view_list(l@);
            }
            let mut i: usize = 0;
            while i < l.len()
                invariant
                    i <= l.len(),
                    *t == CelType::List(*l),
                    view_list(l@).len() == l.len(),
                    forall|j: int| 0 <= j < l.len() ==> #[trigger] view_list(l@)[j] == l@[j].view(),
                    forall|j: int| 0 <= j < i ==> !#[trigger] val_eq(view_list(l@)[j], a.view()),
                decreases l.len() - i,
            {
                if l[i].value_eq(a) {
                    assert(val_eq(view_list(l@)[i as int], a.view()));
                    return Ok(CelType::Bool(true));
                }
                i += 1;
            }
            Ok(CelType::Bool(false))
        },
        CelType::Dict(m) => {
            proof {
                lemma_view_entries(m@);
            }
            let k = match a.to_key() {
                Some(k) => k,
                None => {
                    return Err(ExecutionError::UnsupportedKeyType(a.copy()));
                },
            };
            let mut i: usize = 0;
            while i < m.len()
                invariant
                    i <= m.len(),
                    *t == CelType::Dict(*m),
                    a.view().to_key() == Some(k.view()),
                    view_entries(m@).len() == m.len(),
                    forall|j: int|
                        0 <= j < m.len() ==> #[trigger] view_entries(m@)[j] == (
                            m@[j].0.view(),
                            m@[j].1.view(),
                        ),
                    forall|j: int| 0 <= j < i ==> view_entries(m@)[j].0 != k.view(),
                decreases m.len() - i,
            {
                if m[i].0.key_eq(&k) {
                    assert(view_entries(m@)[i as int].0 == k.view());
                    return Ok(CelType::Bool(true));
                }
                i += 1;
            }
            Ok(CelType::Bool(false))
        },
        CelType::String(s) => match a {
            CelType::String(u) => Ok(CelType::Bool(str_contains(s.as_str(), u.as_str()))),
            _ => Ok(CelType::Bool(false)),
        },
        CelType::Bytes(b) => match a {
            CelType::Bytes(c) => {
                if c.len() > 1 {
                    return Err(ExecutionError::function_error("contains", "expected a single byte"));
                }
                if c.len() == 0 {
                    return Ok(CelType::Bool(false));
                }
                let byte = c[0];
                let mut i: usize = 0;
                while i < b.len()
                    invariant
                        i <= b.len(),
                        *t == CelType::Bytes(*b),
                        *a == CelType::Bytes(*c),
                        c@.len() == 1,
                        byte == c@[0],
                        forall|j: int| 0 <= j < i ==> b@[j] != byte,
                    decreases b.len() - i,
                {
                    if b[i] == byte {
                        assert(b@.contains(c@[0]));
                        return Ok(CelType::Bool(true));
                    }
                    i += 1;
                }
                Ok(CelType::Bool(false))
            },
            _ => Ok(CelType::Bool(false)),
        },
        _ => Ok(CelType::Bool(false)),
    }
}

/// `size(x)`: the number of elements, entries, characters or bytes of the
/// value of `x`. It is a free function: a receiver is an error.
pub fn size(target: Option<&CelType>, args: &[Expression], ctx: &Context) -> (r: Result<
    CelType,
    ExecutionError,
>)
    ensures
        result_view(r) == size_call(target_view(target), args@, ctx.bindings()),
    decreases args@, 0int,
{
    if let Some(t) = target {
        return Err(ExecutionError::not_supported_as_method("size", t.copy()));
    }
    if args.len() == 0 {
        return Err(ExecutionError::invalid_argument_count(1, 0));
    }
    match resolve(&args[0], ctx) {
        Ok(v) => size_value(&v),
        Err(x) => Err(x),
    }
}

/// `t.contains(x)`: whether the receiver contains the value of `x`; see
/// `contains_value`. The receiver is required.
pub fn contains(target: Option<&CelType>, args: &[Expression], ctx: &Context) -> (r: Result<
    CelType,
    ExecutionError,
>)
    requires
        target is Some,
    ensures
        result_view(r) == contains_call(target_view(target), args@, ctx.bindings()),
    decreases args@, 0int,
{
    let t = target.unwrap();
    if args.len() == 0 {
        return Err(ExecutionError::invalid_argument_count(1, 0));
    }
    match resolve(&args[0], ctx) {
        Ok(a) => contains_value(t, &a),
        Err(x) => Err(x),
    }
}

/// `has(x)`: `true` if `x` evaluates, `false` if evaluating it fails on an
/// absent key or field; any other error is passed on unchanged.
pub fn has(target: Option<&CelType>, args: &[Expression], ctx: &Context) -> (r: Result<
    CelType,
    ExecutionError,
>)
    ensures
        result_view(r) == has_call(target_view(target), args@, ctx.bindings()),
    decreases args@, 0int,
{
    if let Some(t) = target {
        return Err(ExecutionError::not_supported_as_method("has", t.copy()));
    }
    if args.len() == 0 {
        return Err(ExecutionError::invalid_argument_count(1, 0));
    }
    match resolve(&args[0], ctx) {
        Ok(_) => Ok(CelType::Bool(true)),
        Err(x) => match x {
            ExecutionError::NoSuchKey(_) => Ok(CelType::Bool(false)),
            _ => Err(x),
        },
    }
}

/// `l.map(x, body)`: a list of the values of `body`, one per item of the
/// receiver list and in its order, each evaluated in a child scope of `ctx`
/// where `x` is bound to the item.
pub fn map(target: Option<&CelType>, args: &[Expression], ctx: &Context) -> (r: Result<
    CelType,
    ExecutionError,
>)
    ensures
        result_view(r) == map_call(target_view(target), args@, ctx.bindings()),
    decreases args@, 0int,
{
    let t = match target {
        Some(t) => t,
        None => {
            return Err(ExecutionError::missing_argument_or_target());
        },
    };
    if args.len() != 2 {
        return Err(ExecutionError::invalid_argument_count(2, args.len()));
    }
    let ident = match &args[0] {
        Expression::Ident(n) => n,
        _ => {
            return Err(ExecutionError::function_error("map", "first argument must be an identifier"));
        },
    };
    match t {
        CelType::List(items) => {
            proof {
                lemma_view_list(items@);
            }
            let ghost env = ctx.bindings();
            let ghost its = view_list(items@);
            let mut values: Vec<CelType> = Vec::new();
            let mut i: usize = 0;
            while i < items.len()
                invariant
                    i <= items.len(),
                    env == ctx.bindings(),
                    its == view_list(items@),
                    its.len() == items.len(),
                    forall|j: int| 0 <= j < items.len() ==> #[trigger] its[j] == items@[j].view(),
                    args@.len() == 2,
                    args@[0] == Expression::Ident(*ident),
                    target_view(target) == Some(Val::List(its)),
                    map_items(its.subrange(0, i as int), ident@, args@[1], env) == Ok::<
                        Seq<Val>,
                        ErrVal,
                    >(view_list(values@)),
                decreases items.len() - i,
            {
                let mut child = ctx.child();
                child.add_variable(ident.as_str(), items[i].copy());
                proof {
                    assert(its.subrange(0, i + 1).subrange(0, i as int) =~= its.subrange(0, i as int));
                    assert(its.subrange(0, i + 1)[i as int] == its[i as int]);
                }
                match resolve(&args[1], &child) {
                    Ok(v) => {
                        proof {
                            assert(values@.push(v).subrange(0, values@.len() as int) =~= values@);
                        }
                        values.push(v);
                    },
                    Err(x) => {
                        proof {
                            lemma_map_items_err(its, i + 1, ident@, args@[1], env);
                        }
                        return Err(x);
                    },
                }
                i += 1;
            }
            proof {
                assert(its.subrange(0, its.len() as int) =~= its);
            }
            Ok(CelType::List(values))
        },
        _ => Err(ExecutionError::function_error("map", "map can only be called on a list")),
    }
}

} // verus!
