//! The structural type of a value on the wire.
use vstd::prelude::*;

verus! {

/// A resource handle kind.
#[derive(Debug, Clone, PartialEq, Eq)]
pub enum Resource {
    /// Travels as a future of unit.
    Pollable,
    /// Travels as a stream of bytes.
    InputStream,
    /// Travels as a string handle.
    OutputStream,
    /// A resource defined by an interface; travels as a string handle.
    Dynamic(String),
}

/// The type of a value.
#[derive(Debug, PartialEq, Eq)]
pub enum Type {
    Bool,
    U8,
    U16,
    U32,
    U64,
    S8,
    S16,
    S32,
    S64,
    Float32,
    Float64,
    Char,
    String,
    List(Box<Type>),
    Record(Vec<Type>),
    Tuple(Vec<Type>),
    Variant(Vec<Option<Type>>),
    Enum,
    Option(Box<Type>),
    Result { ok: Option<Box<Type>>, err: Option<Box<Type>> },
    Flags,
    Future(Option<Box<Type>>),
    Stream(Option<Box<Type>>),
    Resource(Resource),
}

/// Whether a type holds a future or a stream anywhere within it.
pub open spec fn is_async(ty: Type) -> bool
    decreases ty,
{
    match ty {
        Type::List(t) => is_async(*t),
        Type::Record(ts) => exists|i: int| 0 <= i < ts.len() && is_async(#[trigger] ts@[i]),
        Type::Tuple(ts) => exists|i: int| 0 <= i < ts.len() && is_async(#[trigger] ts@[i]),
        Type::Variant(ts) => exists|i: int|
            0 <= i < ts.len() && (#[trigger] ts@[i] matches Some(t) && is_async(t)),
        Type::Option(t) => is_async(*t),
        Type::Result { ok, err } => (ok matches Some(t) && is_async(*t)) || (err matches Some(t)
            && is_async(*t)),
        Type::Future(_) => true,
        Type::Stream(_) => true,
        Type::Resource(Resource::Pollable) => true,
        Type::Resource(Resource::InputStream) => true,
        _ => false,
    }
}

/// A type is well formed when every field, element and case can be given a
/// 32-bit index.
pub open spec fn type_wf(ty: Type) -> bool
    decreases ty,
{
    match ty {
        Type::List(t) => type_wf(*t),
        Type::Record(ts) => ts.len() <= u32::MAX && forall|i: int|
            0 <= i < ts.len() ==> type_wf(#[trigger] ts@[i]),
        Type::Tuple(ts) => ts.len() <= u32::MAX && forall|i: int|
            0 <= i < ts.len() ==> type_wf(#[trigger] ts@[i]),
        Type::Variant(ts) => ts.len() <= u32::MAX && forall|i: int|
            0 <= i < ts.len() ==> (#[trigger] ts@[i] matches Some(t) ==> type_wf(t)),
        Type::Option(t) => type_wf(*t),
        Type::Result { ok, err } => (ok matches Some(t) ==> type_wf(*t)) && (err matches Some(t)
            ==> type_wf(*t)),
        Type::Future(t) => t matches Some(t) ==> type_wf(*t),
        Type::Stream(t) => t matches Some(t) ==> type_wf(*t),
        _ => true,
    }
}

/// Whether a type is well formed: every field, element and case can be given
/// a 32-bit index.
pub fn type_is_wf(ty: &Type) -> (r: bool)
    ensures
        r == type_wf(*ty),
    decreases ty,
{
    match ty {
        Type::List(t) => type_is_wf(t),
        Type::Record(ts) => fields_are_wf(ts),
        Type::Tuple(ts) => fields_are_wf(ts),
        Type::Variant(ts) => cases_are_wf(ts),
        Type::Option(t) => type_is_wf(t),
        Type::Result { ok, err } => {
            let ok_wf = match ok {
                None => true,
                Some(t) => type_is_wf(t),
            };
            let err_wf = match err {
                None => true,
                Some(t) => type_is_wf(t),
            };
            ok_wf && err_wf
        },
        Type::Future(t) => match t {
            None => true,
            Some(t) => type_is_wf(t),
        },
        Type::Stream(t) => match t {
            None => true,
            Some(t) => type_is_wf(t),
        },
        _ => true,
    }
}

fn fields_are_wf(ts: &Vec<Type>) -> (r: bool)
    ensures
        r == (ts.len() <= u32::MAX && forall|i: int| 0 <= i < ts.len() ==> type_wf(#[trigger] ts@[i])),
    decreases ts,
{
    if ts.len() > 0xffff_ffff {
        return false;
    }
    let mut k: usize = 0;
    while k < ts.len()
        invariant
            k <= ts.len() <= u32::MAX,
            forall|i: int| 0 <= i < k ==> type_wf(#[trigger] ts@[i]),
        decreases ts.len() - k,
    {
        if !type_is_wf(&ts[k]) {
            return false;
        }
        k = k + 1;
    }
    true
}

fn cases_are_wf(ts: &Vec<Option<Type>>) -> (r: bool)
    ensures
        r == (ts.len() <= u32::MAX && forall|i: int|
            0 <= i < ts.len() ==> (#[trigger] ts@[i] matches Some(t) ==> type_wf(t))),
    decreases ts,
{
    if ts.len() > 0xffff_ffff {
        return false;
    }
    let mut k: usize = 0;
    while k < ts.len()
        invariant
            k <= ts.len() <= u32::MAX,
            forall|i: int| 0 <= i < k ==> (#[trigger] ts@[i] matches Some(t) ==> type_wf(t)),
        decreases ts.len() - k,
    {
        match &ts[k] {
            None => {},
            Some(t) => {
                if !type_is_wf(t) {
                    assert(ts@[k as int] matches Some(u) && !type_wf(u));
                    return false;
                }
            },
        }
        k = k + 1;
    }
    true
}

} // verus!
