//! The decoder: reads a value of a given type from the bytes of its primary
//! payload, attaching the subscriptions of its pending futures and streams.
use vstd::prelude::*;

use crate::leb::{read_signed, read_signed_spec, read_unsigned, read_unsigned_spec, LebError};
use crate::subscription::{demux_error, AsyncSubscription, SubscriptionError, SubscriptionKind, unbox};
use crate::types::{Resource, Type};
use crate::value::{FutureValue, StreamValue, Value};

verus! {

/// Why bytes could not be decoded as a value of a type.
#[derive(Debug, Clone, Copy, PartialEq, Eq, Structural)]
pub enum DecodeError {
    /// The bytes end before the value does; more may arrive.
    UnexpectedEnd,
    /// An integer does not fit the width it is read as.
    IntegerOverflow,
    /// A `bool` byte other than 0 or 1.
    InvalidBool,
    /// A `char` that is not a Unicode scalar value.
    InvalidChar,
    /// A string that is not UTF-8.
    InvalidUtf8,
    /// An `option` header other than 0 or 1.
    InvalidOption,
    /// A `result` header other than 0 or 1.
    InvalidResult,
    /// A `future` header other than 0 or 1.
    InvalidFuture,
    /// A stream item header other than 0 or 1, or an inline stream without
    /// its closing 0.
    InvalidStream,
    /// A variant discriminant with no case.
    UnknownVariant,
    /// The subscription tree does not fit the type.
    Subscription(SubscriptionError),
}

/// Whether `v` is a Unicode scalar value.
pub open spec fn is_unicode_scalar(v: u32) -> bool {
    v < 0xD800 || (0xE000 <= v && v <= 0x10FFFF)
}

/// Relies on `char::from_u32`: a `char` exactly for the Unicode scalar
/// values, with that code point.
#[verifier::external_body]
fn char_from_u32(v: u32) -> (r: Option<char>)
    ensures
        r is Some <==> is_unicode_scalar(v),
        r matches Some(c) ==> c as u32 == v,
{
    char::from_u32(v)
}

/// Relies on `String::from_utf8`: a string exactly when the bytes are UTF-8,
/// holding the characters they encode.
#[verifier::external_body]
fn string_from_utf8(b: Vec<u8>) -> (r: Option<String>)
    ensures
        r is Some <==> vstd::utf8::valid_utf8(b@),
        r matches Some(s) ==> s@ == vstd::utf8::decode_utf8(b@),
{
    match String::from_utf8(b) {
        Ok(s) => Some(s),
        Err(_) => None,
    }
}

/// The decoding error of an integer that could not be read.
pub open spec fn leb_error(e: LebError) -> DecodeError {
    match e {
        LebError::Incomplete => DecodeError::UnexpectedEnd,
        LebError::Overflow => DecodeError::IntegerOverflow,
    }
}

/// The end of a single byte at `p`.
pub open spec fn byte_end(b: Seq<u8>, p: int) -> Result<int, DecodeError> {
    if 0 <= p < b.len() {
        Ok(p + 1)
    } else {
        Err(DecodeError::UnexpectedEnd)
    }
}

/// The end of an unsigned integer at `p` that must not exceed `max`.
pub open spec fn uint_end(b: Seq<u8>, p: int, max: int) -> Result<int, DecodeError> {
    match read_unsigned_spec(b, p) {
        Err(e) => Err(leb_error(e)),
        Ok((x, e)) => if x <= max {
            Ok(e)
        } else {
            Err(DecodeError::IntegerOverflow)
        },
    }
}

/// The end of a signed integer at `p` that must lie in `[min, max]`.
pub open spec fn sint_end(b: Seq<u8>, p: int, min: int, max: int) -> Result<int, DecodeError> {
    match read_signed_spec(b, p) {
        Err(e) => Err(leb_error(e)),
        Ok((x, e)) => if min <= x <= max {
            Ok(e)
        } else {
            Err(DecodeError::IntegerOverflow)
        },
    }
}

/// The end of `n` fixed bytes at `p`.
pub open spec fn fixed_end(b: Seq<u8>, p: int, n: int) -> Result<int, DecodeError> {
    if p + n <= b.len() {
        Ok(p + n)
    } else {
        Err(DecodeError::UnexpectedEnd)
    }
}

/// The end of a `char` at `p`.
pub open spec fn char_end(b: Seq<u8>, p: int) -> Result<int, DecodeError> {
    match read_unsigned_spec(b, p) {
        Err(e) => Err(leb_error(e)),
        Ok((x, e)) => if x > u32::MAX {
            Err(DecodeError::IntegerOverflow)
        } else if !is_unicode_scalar(x as u32) {
            Err(DecodeError::InvalidChar)
        } else {
            Ok(e)
        },
    }
}

/// The end of a string at `p`.
pub open spec fn string_end(b: Seq<u8>, p: int) -> Result<int, DecodeError> {
    match read_unsigned_spec(b, p) {
        Err(e) => Err(leb_error(e)),
        Ok((n, e)) => if e + n > b.len() {
            Err(DecodeError::UnexpectedEnd)
        } else if vstd::utf8::valid_utf8(b.subrange(e, e + n)) {
            Ok(e + n)
        } else {
            Err(DecodeError::InvalidUtf8)
        },
    }
}

/// The end of the closing 0 of an inline stream at `p`.
pub open spec fn stream_close_end(b: Seq<u8>, p: int) -> Result<int, DecodeError> {
    if !(0 <= p < b.len()) {
        Err(DecodeError::UnexpectedEnd)
    } else if b[p] == 0 {
        Ok(p + 1)
    } else {
        Err(DecodeError::InvalidStream)
    }
}

/// The subscription of field `i`, if any.
pub open spec fn field_sub<T>(subs: Option<Seq<Option<AsyncSubscription<T>>>>, i: int) -> Option<
    AsyncSubscription<T>,
> {
    match subs {
        None => None,
        Some(v) => if 0 <= i < v.len() {
            v[i]
        } else {
            None
        },
    }
}

/// Where decoding a value of type `ty` at `p` ends, with subscription `sub`,
/// or the error that stops it.
pub open spec fn decode_end<T>(ty: Type, b: Seq<u8>, p: int, sub: Option<AsyncSubscription<T>>) -> Result<int, DecodeError>
    decreases ty, 0int,
{
    match ty {
        Type::Bool => if !(0 <= p < b.len()) {
            Err(DecodeError::UnexpectedEnd)
        } else if b[p] <= 1 {
            Ok(p + 1)
        } else {
            Err(DecodeError::InvalidBool)
        },
        Type::U8 => byte_end(b, p),
        Type::S8 => byte_end(b, p),
        Type::U16 => uint_end(b, p, 0xffff),
        Type::U32 => uint_end(b, p, 0xffff_ffff),
        Type::U64 => uint_end(b, p, 0xffff_ffff_ffff_ffff),
        Type::S16 => sint_end(b, p, -0x8000, 0x7fff),
        Type::S32 => sint_end(b, p, -0x8000_0000, 0x7fff_ffff),
        Type::S64 => sint_end(b, p, -0x8000_0000_0000_0000, 0x7fff_ffff_ffff_ffff),
        Type::Float32 => fixed_end(b, p, 4),
        Type::Float64 => fixed_end(b, p, 8),
        Type::Char => char_end(b, p),
        Type::String => string_end(b, p),
        Type::List(t) => match sub {
            Some(AsyncSubscription::List(inner)) => Err(
                DecodeError::Subscription(demux_error(*inner)),
            ),
            Some(_) => Err(DecodeError::Subscription(SubscriptionError::Mismatch(SubscriptionKind::List))),
            None => match read_unsigned_spec(b, p) {
                Err(e) => Err(leb_error(e)),
                Ok((n, e)) => if n > u32::MAX {
                    Err(DecodeError::IntegerOverflow)
                } else {
                    list_end::<T>(*t, b, e, n as nat)
                },
            },
        },
        Type::Record(ts) => match sub {
            None => fields_end::<T>(ts@, b, p, None, 0),
            Some(AsyncSubscription::Record(v)) => fields_end(ts@, b, p, Some(v@), 0),
            Some(_) => Err(DecodeError::Subscription(SubscriptionError::Mismatch(SubscriptionKind::Record))),
        },
        Type::Tuple(ts) => match sub {
            None => fields_end::<T>(ts@, b, p, None, 0),
            Some(AsyncSubscription::Tuple(v)) => fields_end(ts@, b, p, Some(v@), 0),
            Some(_) => Err(DecodeError::Subscription(SubscriptionError::Mismatch(SubscriptionKind::Tuple))),
        },
        Type::Variant(cases) => match read_unsigned_spec(b, p) {
            Err(e) => Err(leb_error(e)),
            Ok((d, e)) => if d > u32::MAX {
                Err(DecodeError::IntegerOverflow)
            } else if d >= cases.len() {
                Err(DecodeError::UnknownVariant)
            } else {
                match sub {
                    Some(AsyncSubscription::Variant(v)) => match cases@[d as int] {
                        None => Ok(e),
                        Some(t) => decode_end(t, b, e, field_sub(Some(v@), d as int)),
                    },
                    Some(_) => Err(DecodeError::Subscription(SubscriptionError::Mismatch(SubscriptionKind::Variant))),
                    None => match cases@[d as int] {
                        None => Ok(e),
                        Some(t) => decode_end::<T>(t, b, e, None),
                    },
                }
            },
        },
        Type::Enum => uint_end(b, p, 0xffff_ffff),
        Type::Option(t) => if !(0 <= p < b.len()) {
            Err(DecodeError::UnexpectedEnd)
        } else if b[p] == 0 {
            Ok(p + 1)
        } else if b[p] == 1 {
            match sub {
                None => decode_end::<T>(*t, b, p + 1, None),
                Some(AsyncSubscription::Option(inner)) => decode_end(*t, b, p + 1, Some(*inner)),
                Some(_) => Err(DecodeError::Subscription(SubscriptionError::Mismatch(SubscriptionKind::Option))),
            }
        } else {
            Err(DecodeError::InvalidOption)
        },
        Type::Result { ok, err } => match sub {
            Some(AsyncSubscription::Result { ok: sok, err: serr }) => if !(0 <= p < b.len()) {
                Err(DecodeError::UnexpectedEnd)
            } else if b[p] == 0 {
                opt_end(ok, b, p + 1, unbox(sok))
            } else if b[p] == 1 {
                opt_end(err, b, p + 1, unbox(serr))
            } else {
                Err(DecodeError::InvalidResult)
            },
            Some(_) => Err(DecodeError::Subscription(SubscriptionError::Mismatch(SubscriptionKind::Result))),
            None => if !(0 <= p < b.len()) {
                Err(DecodeError::UnexpectedEnd)
            } else if b[p] == 0 {
                opt_end::<T>(ok, b, p + 1, None)
            } else if b[p] == 1 {
                opt_end::<T>(err, b, p + 1, None)
            } else {
                Err(DecodeError::InvalidResult)
            },
        },
        Type::Flags => uint_end(b, p, 0xffff_ffff_ffff_ffff),
        Type::Future(t) => match sub {
            Some(AsyncSubscription::Future { nested, .. }) => if !(0 <= p < b.len()) {
                Err(DecodeError::UnexpectedEnd)
            } else if b[p] == 0 {
                Ok(p + 1)
            } else if b[p] == 1 {
                opt_end(t, b, p + 1, unbox(nested))
            } else {
                Err(DecodeError::InvalidFuture)
            },
            _ => Err(DecodeError::Subscription(SubscriptionError::Mismatch(SubscriptionKind::Future))),
        },
        Type::Stream(t) => match sub {
            Some(AsyncSubscription::Stream { nested: Some(n), .. }) => Err(
                DecodeError::Subscription(demux_error(*n)),
            ),
            Some(AsyncSubscription::Stream { nested: None, .. }) => match t {
                None => stream_body_end::<T>(None, b, p),
                Some(t) => stream_body_end::<T>(Some(*t), b, p),
            },
            _ => Err(DecodeError::Subscription(SubscriptionError::Mismatch(SubscriptionKind::Stream))),
        },
        Type::Resource(Resource::Pollable) => match sub {
            Some(AsyncSubscription::Future { .. }) => if !(0 <= p < b.len()) {
                Err(DecodeError::UnexpectedEnd)
            } else if b[p] <= 1 {
                Ok(p + 1)
            } else {
                Err(DecodeError::InvalidFuture)
            },
            _ => Err(DecodeError::Subscription(SubscriptionError::Mismatch(SubscriptionKind::Future))),
        },
        Type::Resource(Resource::InputStream) => match sub {
            Some(AsyncSubscription::Stream { nested: Some(n), .. }) => Err(
                DecodeError::Subscription(demux_error(*n)),
            ),
            Some(AsyncSubscription::Stream { nested: None, .. }) => byte_stream_end(b, p),
            _ => Err(DecodeError::Subscription(SubscriptionError::Mismatch(SubscriptionKind::Stream))),
        },
        Type::Resource(_) => string_end(b, p),
    }
}

/// `decode_end` of an optional payload type; an absent one takes no bytes.
pub open spec fn opt_end<T>(t: Option<Box<Type>>, b: Seq<u8>, p: int, sub: Option<AsyncSubscription<T>>) -> Result<int, DecodeError>
    decreases t, 0int,
{
    match t {
        None => Ok(p),
        Some(t) => decode_end(*t, b, p, sub),
    }
}

/// `stream_body_end` of a stream of bytes.
pub open spec fn byte_stream_end(b: Seq<u8>, p: int) -> Result<int, DecodeError> {
    if !(0 <= p < b.len()) {
        Err(DecodeError::UnexpectedEnd)
    } else if b[p] == 0 {
        Ok(p + 1)
    } else if b[p] == 1 {
        match byte_end(b, p + 1) {
            Err(e) => Err(e),
            Ok(e) => stream_close_end(b, e),
        }
    } else {
        match read_unsigned_spec(b, p) {
            Err(e) => Err(leb_error(e)),
            Ok((n, e)) => match fixed_end(b, e, n as int) {
                Err(e) => Err(e),
                Ok(e2) => stream_close_end(b, e2),
            },
        }
    }
}

/// The end of `n` values of type `t` at `p`, one after the other.
pub open spec fn list_end<T>(t: Type, b: Seq<u8>, p: int, n: nat) -> Result<int, DecodeError>
    decreases t, n,
{
    if n == 0 {
        Ok(p)
    } else {
        match decode_end::<T>(t, b, p, None) {
            Err(e) => Err(e),
            Ok(e) => list_end::<T>(t, b, e, (n - 1) as nat),
        }
    }
}

/// The end of fields `i..` of a record or tuple at `p`.
pub open spec fn fields_end<T>(
    ts: Seq<Type>,
    b: Seq<u8>,
    p: int,
    subs: Option<Seq<Option<AsyncSubscription<T>>>>,
    i: int,
) -> Result<int, DecodeError>
    decreases ts, ts.len() - i,
{
    if i < 0 || i >= ts.len() {
        Ok(p)
    } else {
        match decode_end(ts[i], b, p, field_sub(subs, i)) {
            Err(e) => Err(e),
            Ok(e) => fields_end(ts, b, e, subs, i + 1),
        }
    }
}

/// The end of a stream at `p` whose subscription fits: a pending header, or
/// an inline stream of one or of a counted number of items closed by 0.
pub open spec fn stream_body_end<T>(t: Option<Type>, b: Seq<u8>, p: int) -> Result<int, DecodeError>
    decreases t, 0int,
{
    if !(0 <= p < b.len()) {
        Err(DecodeError::UnexpectedEnd)
    } else if b[p] == 0 {
        Ok(p + 1)
    } else if b[p] == 1 {
        match t {
            None => stream_close_end(b, p + 1),
            Some(t) => match decode_end::<T>(t, b, p + 1, None) {
                Err(e) => Err(e),
                Ok(e) => stream_close_end(b, e),
            },
        }
    } else {
        match read_unsigned_spec(b, p) {
            Err(e) => Err(leb_error(e)),
            Ok((n, e)) => match t {
                None => stream_close_end(b, e),
                Some(t) => match list_end::<T>(t, b, e, n as nat) {
                    Err(e) => Err(e),
                    Ok(e2) => stream_close_end(b, e2),
                },
            },
        }
    }
}

/// Whether `v` is a value of type `ty`.
pub open spec fn has_type<H>(v: Value<H>, ty: Type) -> bool
    decreases ty, 0int,
{
    match ty {
        Type::Bool => v is Bool,
        Type::U8 => v is U8,
        Type::U16 => v is U16,
        Type::U32 => v is U32,
        Type::U64 => v is U64,
        Type::S8 => v is S8,
        Type::S16 => v is S16,
        Type::S32 => v is S32,
        Type::S64 => v is S64,
        Type::Float32 => v is Float32,
        Type::Float64 => v is Float64,
        Type::Char => match v {
            Value::Char(_) => true,
            _ => false,
        },
        Type::String => v is String,
        Type::List(t) => match v {
            Value::List(vs) => forall|i: int| 0 <= i < vs.len() ==> has_type(#[trigger] vs@[i], *t),
            _ => false,
        },
        Type::Record(ts) => match v {
            Value::Record(vs) => vs.len() == ts.len() && forall|i: int|
                0 <= i < vs.len() ==> has_type(#[trigger] vs@[i], ts@[i]),
            _ => false,
        },
        Type::Tuple(ts) => match v {
            Value::Tuple(vs) => vs.len() == ts.len() && forall|i: int|
                0 <= i < vs.len() ==> has_type(#[trigger] vs@[i], ts@[i]),
            _ => false,
        },
        Type::Variant(cases) => match v {
            Value::Variant { discriminant, nested } => discriminant < cases.len() && match cases@[discriminant as int] {
                None => nested is None,
                Some(t) => match nested {
                    Some(x) => has_type(*x, t),
                    None => false,
                },
            },
            _ => false,
        },
        Type::Enum => v is Enum,
        Type::Option(t) => match v {
            Value::Option(None) => true,
            Value::Option(Some(x)) => has_type(*x, *t),
            _ => false,
        },
        Type::Result { ok, err } => match v {
            Value::Result(Ok(x)) => payload_has_type(x, ok),
            Value::Result(Err(x)) => payload_has_type(x, err),
            _ => false,
        },
        Type::Flags => v is Flags,
        Type::Future(t) => match v {
            Value::Future(FutureValue::Ready(x)) => payload_has_type(x, t),
            Value::Future(FutureValue::Pending(_)) => true,
            _ => false,
        },
        Type::Stream(t) => match v {
            Value::Stream(StreamValue::Ready(items)) => forall|i: int|
                0 <= i < items.len() ==> item_has_type(#[trigger] items@[i], t),
            Value::Stream(StreamValue::Pending(_)) => true,
            _ => false,
        },
        Type::Resource(Resource::Pollable) => match v {
            Value::Future(FutureValue::Ready(x)) => x is None,
            Value::Future(FutureValue::Pending(_)) => true,
            _ => false,
        },
        Type::Resource(Resource::InputStream) => match v {
            Value::Stream(StreamValue::Ready(items)) => forall|i: int|
                0 <= i < items.len() ==> (#[trigger] items@[i] matches Some(Value::U8(_))),
            Value::Stream(StreamValue::Pending(_)) => true,
            _ => false,
        },
        Type::Resource(_) => v is String,
    }
}

/// Whether an optional payload fits an optional type: both absent, or a value
/// of the type.
pub open spec fn payload_has_type<H>(x: Option<Box<Value<H>>>, t: Option<Box<Type>>) -> bool
    decreases t, 0int,
{
    match t {
        None => x is None,
        Some(t) => match x {
            Some(v) => has_type(*v, *t),
            None => false,
        },
    }
}

/// Whether a stream item fits the stream's element type.
pub open spec fn item_has_type<H>(x: Option<Value<H>>, t: Option<Box<Type>>) -> bool
    decreases t, 0int,
{
    match t {
        None => x is None,
        Some(t) => match x {
            Some(v) => has_type(v, *t),
            None => false,
        },
    }
}

fn read_byte(b: &[u8], p: usize) -> (r: Result<u8, DecodeError>)
    ensures
        match r {
            Ok(x) => byte_end(b@, p as int) == Ok::<int, DecodeError>(p + 1) && p < b.len() && x
                == b@[p as int],
            Err(e) => byte_end(b@, p as int) == Err::<int, DecodeError>(e),
        },
{
    if p < b.len() {
        Ok(b[p])
    } else {
        Err(DecodeError::UnexpectedEnd)
    }
}

fn decode_uint(b: &[u8], p: usize, max: u64) -> (r: Result<(u64, usize), DecodeError>)
    ensures
        match r {
            Ok((x, e)) => uint_end(b@, p as int, max as int) == Ok::<int, DecodeError>(e as int)
                && x <= max && read_unsigned_spec(b@, p as int) == Ok::<(u64, int), LebError>(
                (x, e as int),
            ) && p < e <= b.len(),
            Err(err) => uint_end(b@, p as int, max as int) == Err::<int, DecodeError>(err),
        },
{
    match read_unsigned(b, p) {
        Err(LebError::Incomplete) => Err(DecodeError::UnexpectedEnd),
        Err(LebError::Overflow) => Err(DecodeError::IntegerOverflow),
        Ok((x, e)) => if x <= max {
            Ok((x, e))
        } else {
            Err(DecodeError::IntegerOverflow)
        },
    }
}

fn decode_sint(b: &[u8], p: usize, min: i64, max: i64) -> (r: Result<(i64, usize), DecodeError>)
    ensures
        match r {
            Ok((x, e)) => sint_end(b@, p as int, min as int, max as int) == Ok::<int, DecodeError>(
                e as int,
            ) && min <= x <= max && read_signed_spec(b@, p as int) == Ok::<(i64, int), LebError>(
                (x, e as int),
            ) && p < e <= b.len(),
            Err(err) => sint_end(b@, p as int, min as int, max as int) == Err::<int, DecodeError>(
                err,
            ),
        },
{
    match read_signed(b, p) {
        Err(LebError::Incomplete) => Err(DecodeError::UnexpectedEnd),
        Err(LebError::Overflow) => Err(DecodeError::IntegerOverflow),
        Ok((x, e)) => if min <= x && x <= max {
            Ok((x, e))
        } else {
            Err(DecodeError::IntegerOverflow)
        },
    }
}

fn decode_fixed(b: &[u8], p: usize, n: usize) -> (r: Result<usize, DecodeError>)
    ensures
        match r {
            Ok(e) => fixed_end(b@, p as int, n as int) == Ok::<int, DecodeError>(e as int),
            Err(err) => fixed_end(b@, p as int, n as int) == Err::<int, DecodeError>(err),
        },
{
    if p <= b.len() && n <= b.len() - p {
        Ok(p + n)
    } else {
        Err(DecodeError::UnexpectedEnd)
    }
}

/// The little-endian 32-bit pattern at `p`, which must be in range.
fn get_u32_le(b: &[u8], p: usize) -> (r: u32)
    requires
        p + 4 <= b.len(),
    ensures
        r == le32_at(b@, p as int),
{
    b[p] as u32 + b[p + 1] as u32 * 256 + b[p + 2] as u32 * 65536 + b[p + 3] as u32 * 16777216
}

fn decode_char(b: &[u8], p: usize) -> (r: Result<(char, usize), DecodeError>)
    ensures
        match r {
            Ok((c, e)) => char_end(b@, p as int) == Ok::<int, DecodeError>(e as int) && c as u32
                as int == uint_at(b@, p as int) && p < e <= b.len(),
            Err(err) => char_end(b@, p as int) == Err::<int, DecodeError>(err),
        },
{
    match read_unsigned(b, p) {
        Err(LebError::Incomplete) => Err(DecodeError::UnexpectedEnd),
        Err(LebError::Overflow) => Err(DecodeError::IntegerOverflow),
        Ok((x, e)) => if x > 0xffff_ffff {
            Err(DecodeError::IntegerOverflow)
        } else {
            match char_from_u32(x as u32) {
                None => Err(DecodeError::InvalidChar),
                Some(c) => Ok((c, e)),
            }
        },
    }
}

/// Decodes a length-prefixed UTF-8 string at `p`.
pub fn decode_string(b: &[u8], p: usize) -> (r: Result<(String, usize), DecodeError>)
    ensures
        match r {
            Ok((s, e)) => string_end(b@, p as int) == Ok::<int, DecodeError>(e as int) && s@
                == vstd::utf8::decode_utf8(
                b@.subrange(uint_end_at(b@, p as int), uint_end_at(b@, p as int) + uint_at(b@, p as int)),
            ) && p < e <= b.len(),
            Err(err) => string_end(b@, p as int) == Err::<int, DecodeError>(err),
        },
{
    match read_unsigned(b, p) {
        Err(LebError::Incomplete) => Err(DecodeError::UnexpectedEnd),
        Err(LebError::Overflow) => Err(DecodeError::IntegerOverflow),
        Ok((n, e)) => {
            if n > (b.len() - e) as u64 {
                return Err(DecodeError::UnexpectedEnd);
            }
            let end = e + n as usize;
            let mut bytes: Vec<u8> = Vec::new();
            let mut k: usize = e;
            while k < end
                invariant
                    e <= k <= end <= b.len(),
                    bytes@ == b@.subrange(e as int, k as int),
                decreases end - k,
            {
                bytes.push(b[k]);
                k = k + 1;
                assert(bytes@ =~= b@.subrange(e as int, k as int));
            }
            match string_from_utf8(bytes) {
                None => Err(DecodeError::InvalidUtf8),
                Some(s) => Ok((s, end)),
            }
        },
    }
}

/// The position after a value of type `ty` at `p`, if it decodes.
pub open spec fn end_of<T>(ty: Type, b: Seq<u8>, p: int, sub: Option<AsyncSubscription<T>>) -> int {
    match decode_end(ty, b, p, sub) {
        Ok(e) => e,
        Err(_) => p,
    }
}

/// The unsigned integer at `p`.
pub open spec fn uint_at(b: Seq<u8>, p: int) -> int {
    match read_unsigned_spec(b, p) {
        Ok((x, _)) => x as int,
        Err(_) => 0,
    }
}

/// The position after the unsigned integer at `p`.
pub open spec fn uint_end_at(b: Seq<u8>, p: int) -> int {
    match read_unsigned_spec(b, p) {
        Ok((_, e)) => e,
        Err(_) => p,
    }
}

/// The signed integer at `p`.
pub open spec fn sint_at(b: Seq<u8>, p: int) -> int {
    match read_signed_spec(b, p) {
        Ok((x, _)) => x as int,
        Err(_) => 0,
    }
}

/// The little-endian 32-bit number at `p`.
pub open spec fn le32_at(b: Seq<u8>, p: int) -> int {
    b[p] + 256 * b[p + 1] + 65536 * b[p + 2] + 16777216 * b[p + 3]
}

/// The two's complement value of a byte.
pub open spec fn s8_of(x: u8) -> int {
    if x < 128 {
        x as int
    } else {
        x - 256
    }
}

/// The position of element `i` of a list of values of type `t` that starts
/// at `p`.
pub open spec fn list_pos<T>(t: Type, b: Seq<u8>, p: int, i: nat) -> int
    decreases i,
{
    if i == 0 {
        p
    } else {
        list_pos::<T>(t, b, end_of::<T>(t, b, p, None), (i - 1) as nat)
    }
}

/// The subscriptions of the fields of a record or tuple node.
pub open spec fn field_subs<T>(sub: Option<AsyncSubscription<T>>) -> Option<Seq<Option<AsyncSubscription<T>>>> {
    match sub {
        Some(AsyncSubscription::Record(v)) => Some(v@),
        Some(AsyncSubscription::Tuple(v)) => Some(v@),
        _ => None,
    }
}

/// The position of field `i` of a record or tuple whose field `j` starts at
/// `p`.
pub open spec fn field_pos<T>(
    ts: Seq<Type>,
    b: Seq<u8>,
    p: int,
    subs: Option<Seq<Option<AsyncSubscription<T>>>>,
    j: int,
    i: int,
) -> int
    decreases i - j,
{
    if i <= j || j < 0 || j >= ts.len() {
        p
    } else {
        field_pos(ts, b, end_of(ts[j], b, p, field_sub(subs, j)), subs, j + 1, i)
    }
}

/// The subscription of the payload of a node, by the node's kind.
pub open spec fn inner_sub<T>(sub: Option<AsyncSubscription<T>>, ok: bool) -> Option<AsyncSubscription<T>> {
    match sub {
        Some(AsyncSubscription::Option(b)) => Some(*b),
        Some(AsyncSubscription::Result { ok: o, err: e }) => if ok {
            unbox(o)
        } else {
            unbox(e)
        },
        Some(AsyncSubscription::Future { nested, .. }) => unbox(nested),
        _ => None,
    }
}

/// The subscription of case `d` of a variant node.
pub open spec fn case_sub<T>(sub: Option<AsyncSubscription<T>>, d: int) -> Option<AsyncSubscription<T>> {
    match sub {
        Some(AsyncSubscription::Variant(v)) => field_sub(Some(v@), d),
        _ => None,
    }
}

/// Whether `v` is the value that the bytes at `p` denote as a value of type
/// `ty` read with subscription `sub`, where they decode: integers, strings
/// and floating-point bit patterns as read, every element, field and payload
/// in turn, and each pending future or stream holding its subscription node.
pub open spec fn reads<T>(ty: Type, b: Seq<u8>, p: int, sub: Option<AsyncSubscription<T>>, v: Value<AsyncSubscription<T>>) -> bool
    decreases ty, 1int,
{
    match ty {
        Type::Bool => v == Value::<AsyncSubscription<T>>::Bool(b[p] == 1),
        Type::U8 => v == Value::<AsyncSubscription<T>>::U8(b[p]),
        Type::S8 => match v {
            Value::S8(x) => x == s8_of(b[p]),
            _ => false,
        },
        Type::U16 => match v {
            Value::U16(x) => x == uint_at(b, p),
            _ => false,
        },
        Type::U32 => match v {
            Value::U32(x) => x == uint_at(b, p),
            _ => false,
        },
        Type::U64 => match v {
            Value::U64(x) => x == uint_at(b, p),
            _ => false,
        },
        Type::S16 => match v {
            Value::S16(x) => x == sint_at(b, p),
            _ => false,
        },
        Type::S32 => match v {
            Value::S32(x) => x == sint_at(b, p),
            _ => false,
        },
        Type::S64 => match v {
            Value::S64(x) => x == sint_at(b, p),
            _ => false,
        },
        Type::Enum => match v {
            Value::Enum(x) => x == uint_at(b, p),
            _ => false,
        },
        Type::Flags => match v {
            Value::Flags(x) => x == uint_at(b, p),
            _ => false,
        },
        Type::Float32 => match v {
            Value::Float32(x) => x == le32_at(b, p),
            _ => false,
        },
        Type::Float64 => match v {
            Value::Float64(x) => x == le32_at(b, p) + le32_at(b, p + 4) * 0x1_0000_0000,
            _ => false,
        },
        Type::Char => match v {
            Value::Char(c) => c as u32 as int == uint_at(b, p),
            _ => false,
        },
        Type::List(t) => match v {
            Value::List(vs) => vs.len() == uint_at(b, p) && forall|i: int|
                0 <= i < vs.len() ==> reads(
                    *t,
                    b,
                    list_pos::<T>(*t, b, uint_end_at(b, p), i as nat),
                    None,
                    #[trigger] vs@[i],
                ),
            _ => false,
        },
        Type::Record(ts) => match v {
            Value::Record(vs) => vs.len() == ts.len() && forall|i: int|
                0 <= i < vs.len() ==> reads(
                    ts@[i],
                    b,
                    field_pos(ts@, b, p, field_subs(sub), 0, i),
                    field_sub(field_subs(sub), i),
                    #[trigger] vs@[i],
                ),
            _ => false,
        },
        Type::Tuple(ts) => match v {
            Value::Tuple(vs) => vs.len() == ts.len() && forall|i: int|
                0 <= i < vs.len() ==> reads(
                    ts@[i],
                    b,
                    field_pos(ts@, b, p, field_subs(sub), 0, i),
                    field_sub(field_subs(sub), i),
                    #[trigger] vs@[i],
                ),
            _ => false,
        },
        Type::Variant(cases) => match v {
            Value::Variant { discriminant, nested } => discriminant == uint_at(b, p) && 0
                <= discriminant < cases.len() && match cases@[discriminant as int] {
                None => nested is None,
                Some(t) => match nested {
                    Some(x) => reads(t, b, uint_end_at(b, p), case_sub(sub, discriminant as int), *x),
                    None => false,
                },
            },
            _ => false,
        },
        Type::Option(t) => match v {
            Value::Option(None) => b[p] == 0,
            Value::Option(Some(x)) => b[p] == 1 && reads(*t, b, p + 1, inner_sub(sub, true), *x),
            _ => false,
        },
        Type::Result { ok, err } => match v {
            Value::Result(Ok(x)) => b[p] == 0 && reads_payload(ok, b, p + 1, inner_sub(sub, true), x),
            Value::Result(Err(x)) => b[p] == 1 && reads_payload(err, b, p + 1, inner_sub(sub, false), x),
            _ => false,
        },
        Type::Future(t) => match v {
            Value::Future(FutureValue::Pending(node)) => b[p] == 0 && sub == Some(node),
            Value::Future(FutureValue::Ready(x)) => b[p] == 1 && reads_payload(t, b, p + 1, inner_sub(sub, true), x),
            _ => false,
        },
        Type::Resource(Resource::Pollable) => match v {
            Value::Future(FutureValue::Pending(node)) => b[p] == 0 && sub == Some(node),
            Value::Future(FutureValue::Ready(x)) => b[p] == 1 && x is None,
            _ => false,
        },
        Type::Stream(t) => match v {
            Value::Stream(StreamValue::Pending(node)) => b[p] == 0 && sub == Some(node),
            Value::Stream(StreamValue::Ready(items)) => b[p] != 0 && if b[p] == 1 {
                items.len() == 1 && reads_item(t, b, p + 1, items@[0])
            } else {
                items.len() == uint_at(b, p) && forall|i: int|
                    0 <= i < items.len() ==> reads_item(
                        t,
                        b,
                        match t {
                            Some(t) => list_pos::<T>(*t, b, uint_end_at(b, p), i as nat),
                            None => uint_end_at(b, p),
                        },
                        #[trigger] items@[i],
                    )
            },
            _ => false,
        },
        Type::Resource(Resource::InputStream) => match v {
            Value::Stream(StreamValue::Pending(node)) => b[p] == 0 && sub == Some(node),
            Value::Stream(StreamValue::Ready(items)) => b[p] != 0 && if b[p] == 1 {
                items.len() == 1 && items@[0] == Some(Value::<AsyncSubscription<T>>::U8(b[p + 1]))
            } else {
                items.len() == uint_at(b, p) && forall|i: int|
                    0 <= i < items.len() ==> #[trigger] items@[i] == Some(
                        Value::<AsyncSubscription<T>>::U8(b[uint_end_at(b, p) + i]),
                    )
            },
            _ => false,
        },
        Type::String | Type::Resource(_) => match v {
            Value::String(s) => s@ == vstd::utf8::decode_utf8(
                b.subrange(uint_end_at(b, p), uint_end_at(b, p) + uint_at(b, p)),
            ),
            _ => false,
        },
    }
}

/// `reads` of a stream item: none for a stream of unit, else a value.
pub open spec fn reads_item<T>(
    t: Option<Box<Type>>,
    b: Seq<u8>,
    p: int,
    x: Option<Value<AsyncSubscription<T>>>,
) -> bool
    decreases t, 1int,
{
    match t {
        None => x is None,
        Some(t) => match x {
            Some(y) => reads(*t, b, p, None, y),
            None => false,
        },
    }
}

/// `reads` of an optional payload.
pub open spec fn reads_payload<T>(
    t: Option<Box<Type>>,
    b: Seq<u8>,
    p: int,
    sub: Option<AsyncSubscription<T>>,
    x: Option<Box<Value<AsyncSubscription<T>>>>,
) -> bool
    decreases t, 1int,
{
    match t {
        None => x is None,
        Some(t) => match x {
            Some(y) => reads(*t, b, p, sub, *y),
            None => false,
        },
    }
}

/// Whether `r` is what decoding a value of type `ty` at `p` with subscription
/// `sub` gives: the value and its end, or the error that stops it.
pub open spec fn decoded<T>(
    ty: Type,
    b: Seq<u8>,
    p: int,
    sub: Option<AsyncSubscription<T>>,
    r: Result<(Value<AsyncSubscription<T>>, usize), DecodeError>,
) -> bool {
    match r {
        Ok((v, e)) => decode_end(ty, b, p, sub) == Ok::<int, DecodeError>(e as int) && has_type(
            v,
            ty,
        ) && reads(ty, b, p, sub, v) && p <= e && (e <= b.len() || e == p),
        Err(err) => decode_end(ty, b, p, sub) == Err::<int, DecodeError>(err),
    }
}

fn decode_bool_value<T>(b: &[u8], pos: usize, sub: Option<AsyncSubscription<T>>) -> (r: Result<
    (Value<AsyncSubscription<T>>, usize),
    DecodeError,
>)
    ensures
        decoded(Type::Bool, b@, pos as int, sub, r),
{
    match read_byte(b, pos) {
        Err(e) => Err(e),
        Ok(x) => if x <= 1 {
            Ok((Value::Bool(x == 1), pos + 1))
        } else {
            Err(DecodeError::InvalidBool)
        },
    }
}

fn decode_u8_value<T>(b: &[u8], pos: usize, sub: Option<AsyncSubscription<T>>) -> (r: Result<
    (Value<AsyncSubscription<T>>, usize),
    DecodeError,
>)
    ensures
        decoded(Type::U8, b@, pos as int, sub, r),
{
    match read_byte(b, pos) {
        Err(e) => Err(e),
        Ok(x) => Ok((Value::U8(x), pos + 1)),
    }
}

fn decode_s8_value<T>(b: &[u8], pos: usize, sub: Option<AsyncSubscription<T>>) -> (r: Result<
    (Value<AsyncSubscription<T>>, usize),
    DecodeError,
>)
    ensures
        decoded(Type::S8, b@, pos as int, sub, r),
{
    match read_byte(b, pos) {
        Err(e) => Err(e),
        Ok(x) => Ok((Value::S8(if x < 128 { x as i8 } else { (x as i16 - 256) as i8 }), pos + 1)),
    }
}

fn decode_u16_value<T>(b: &[u8], pos: usize, sub: Option<AsyncSubscription<T>>) -> (r: Result<
    (Value<AsyncSubscription<T>>, usize),
    DecodeError,
>)
    ensures
        decoded(Type::U16, b@, pos as int, sub, r),
{
    match decode_uint(b, pos, 0xffff) {
        Err(e) => Err(e),
        Ok((x, e)) => Ok((Value::U16(x as u16), e)),
    }
}

fn decode_u32_value<T>(b: &[u8], pos: usize, sub: Option<AsyncSubscription<T>>) -> (r: Result<
    (Value<AsyncSubscription<T>>, usize),
    DecodeError,
>)
    ensures
        decoded(Type::U32, b@, pos as int, sub, r),
{
    match decode_uint(b, pos, 0xffff_ffff) {
        Err(e) => Err(e),
        Ok((x, e)) => Ok((Value::U32(x as u32), e)),
    }
}

fn decode_u64_value<T>(b: &[u8], pos: usize, sub: Option<AsyncSubscription<T>>) -> (r: Result<
    (Value<AsyncSubscription<T>>, usize),
    DecodeError,
>)
    ensures
        decoded(Type::U64, b@, pos as int, sub, r),
{
    match decode_uint(b, pos, 0xffff_ffff_ffff_ffff) {
        Err(e) => Err(e),
        Ok((x, e)) => Ok((Value::U64(x), e)),
    }
}

fn decode_s16_value<T>(b: &[u8], pos: usize, sub: Option<AsyncSubscription<T>>) -> (r: Result<
    (Value<AsyncSubscription<T>>, usize),
    DecodeError,
>)
    ensures
        decoded(Type::S16, b@, pos as int, sub, r),
{
    match decode_sint(b, pos, -0x8000, 0x7fff) {
        Err(e) => Err(e),
        Ok((x, e)) => Ok((Value::S16(x as i16), e)),
    }
}

fn decode_s32_value<T>(b: &[u8], pos: usize, sub: Option<AsyncSubscription<T>>) -> (r: Result<
    (Value<AsyncSubscription<T>>, usize),
    DecodeError,
>)
    ensures
        decoded(Type::S32, b@, pos as int, sub, r),
{
    match decode_sint(b, pos, -0x8000_0000, 0x7fff_ffff) {
        Err(e) => Err(e),
        Ok((x, e)) => Ok((Value::S32(x as i32), e)),
    }
}

fn decode_s64_value<T>(b: &[u8], pos: usize, sub: Option<AsyncSubscription<T>>) -> (r: Result<
    (Value<AsyncSubscription<T>>, usize),
    DecodeError,
>)
    ensures
        decoded(Type::S64, b@, pos as int, sub, r),
{
    match decode_sint(b, pos, -0x8000_0000_0000_0000, 0x7fff_ffff_ffff_ffff) {
        Err(e) => Err(e),
        Ok((x, e)) => Ok((Value::S64(x), e)),
    }
}

fn decode_float32_value<T>(b: &[u8], pos: usize, sub: Option<AsyncSubscription<T>>) -> (r: Result<
    (Value<AsyncSubscription<T>>, usize),
    DecodeError,
>)
    ensures
        decoded(Type::Float32, b@, pos as int, sub, r),
{
    match decode_fixed(b, pos, 4) {
        Err(e) => Err(e),
        Ok(e) => Ok((Value::Float32(get_u32_le(b, pos)), e)),
    }
}

fn decode_float64_value<T>(b: &[u8], pos: usize, sub: Option<AsyncSubscription<T>>) -> (r: Result<
    (Value<AsyncSubscription<T>>, usize),
    DecodeError,
>)
    ensures
        decoded(Type::Float64, b@, pos as int, sub, r),
{
    match decode_fixed(b, pos, 8) {
        Err(e) => Err(e),
        Ok(e) => {
            let lo = get_u32_le(b, pos) as u64;
            let hi = get_u32_le(b, pos + 4) as u64;
            Ok((Value::Float64(lo + hi * 0x1_0000_0000), e))
        },
    }
}

proof fn lemma_char_value<T>(c: char, b: Seq<u8>, p: int, sub: Option<AsyncSubscription<T>>)
    requires
        c as u32 as int == uint_at(b, p),
    ensures
        has_type(Value::<AsyncSubscription<T>>::Char(c), Type::Char),
        reads(Type::Char, b, p, sub, Value::<AsyncSubscription<T>>::Char(c)),
{
}

proof fn lemma_list_pos_step<T>(t: Type, b: Seq<u8>, p: int, k: nat)
    ensures
        list_pos::<T>(t, b, p, k + 1) == end_of::<T>(t, b, list_pos::<T>(t, b, p, k), None),
    decreases k,
{
    let q = end_of::<T>(t, b, p, None);
    assert(list_pos::<T>(t, b, p, k + 1) == list_pos::<T>(t, b, q, k));
    if k > 0 {
        lemma_list_pos_step::<T>(t, b, q, (k - 1) as nat);
        assert(list_pos::<T>(t, b, p, k) == list_pos::<T>(t, b, q, (k - 1) as nat));
    } else {
        assert(list_pos::<T>(t, b, q, 0) == q);
    }
}

proof fn lemma_field_pos_step<T>(
    ts: Seq<Type>,
    b: Seq<u8>,
    p: int,
    subs: Option<Seq<Option<AsyncSubscription<T>>>>,
    j: int,
    k: int,
)
    requires
        0 <= j <= k < ts.len(),
    ensures
        field_pos(ts, b, p, subs, j, k + 1) == end_of(
            ts[k],
            b,
            field_pos(ts, b, p, subs, j, k),
            field_sub(subs, k),
        ),
    decreases k - j,
{
    let q = end_of(ts[j], b, p, field_sub(subs, j));
    assert(field_pos(ts, b, p, subs, j, k + 1) == field_pos(ts, b, q, subs, j + 1, k + 1));
    if j < k {
        lemma_field_pos_step(ts, b, q, subs, j + 1, k);
        assert(field_pos(ts, b, p, subs, j, k) == field_pos(ts, b, q, subs, j + 1, k));
    } else {
        assert(field_pos(ts, b, q, subs, j + 1, k + 1) == q);
        assert(field_pos(ts, b, p, subs, j, k) == p);
    }
}

fn decode_char_value<T>(b: &[u8], pos: usize, sub: Option<AsyncSubscription<T>>) -> (r: Result<
    (Value<AsyncSubscription<T>>, usize),
    DecodeError,
>)
    ensures
        decoded(Type::Char, b@, pos as int, sub, r),
{
    match decode_char(b, pos) {
        Err(e) => Err(e),
        Ok((c, e)) => {
            let v: Value<AsyncSubscription<T>> = Value::Char(c);
            proof {
                lemma_char_value::<T>(c, b@, pos as int, sub);
            }
            Ok((v, e))
        },
    }
}

fn decode_enum_value<T>(b: &[u8], pos: usize, sub: Option<AsyncSubscription<T>>) -> (r: Result<
    (Value<AsyncSubscription<T>>, usize),
    DecodeError,
>)
    ensures
        decoded(Type::Enum, b@, pos as int, sub, r),
{
    match decode_uint(b, pos, 0xffff_ffff) {
        Err(e) => Err(e),
        Ok((x, e)) => Ok((Value::Enum(x as u32), e)),
    }
}

fn decode_flags_value<T>(b: &[u8], pos: usize, sub: Option<AsyncSubscription<T>>) -> (r: Result<
    (Value<AsyncSubscription<T>>, usize),
    DecodeError,
>)
    ensures
        decoded(Type::Flags, b@, pos as int, sub, r),
{
    match decode_uint(b, pos, 0xffff_ffff_ffff_ffff) {
        Err(e) => Err(e),
        Ok((x, e)) => Ok((Value::Flags(x), e)),
    }
}

fn decode_string_value<T>(ty: &Type, b: &[u8], pos: usize, sub: Option<AsyncSubscription<T>>) -> (r: Result<
    (Value<AsyncSubscription<T>>, usize),
    DecodeError,
>)
    requires
        *ty is String || *ty == Type::Resource(Resource::OutputStream) || *ty matches Type::Resource(Resource::Dynamic(_)),
    ensures
        decoded(*ty, b@, pos as int, sub, r),
{
    match decode_string(b, pos) {
        Err(e) => Err(e),
        Ok((s, e)) => Ok((Value::String(s), e)),
    }
}

/// Decodes a value of type `ty` from `b` at `pos`. The pending futures and
/// streams in it hold their nodes of the subscription tree `sub`.
pub fn decode<T>(ty: &Type, b: &[u8], pos: usize, sub: Option<AsyncSubscription<T>>) -> (r: Result<
    (Value<AsyncSubscription<T>>, usize),
    DecodeError,
>)
    ensures
        decoded(*ty, b@, pos as int, sub, r),
    decreases ty, 3int,
{
    match ty {
        Type::List(_) => decode_list(ty, b, pos, sub),
        Type::Record(_) => decode_record(ty, b, pos, sub),
        Type::Tuple(_) => decode_record(ty, b, pos, sub),
        Type::Variant(_) => decode_variant(ty, b, pos, sub),
        Type::Option(_) => decode_option(ty, b, pos, sub),
        Type::Result { .. } => decode_result(ty, b, pos, sub),
        Type::Future(_) => decode_future(ty, b, pos, sub),
        Type::Stream(_) => decode_stream(ty, b, pos, sub),
        Type::Resource(Resource::Pollable) => decode_pollable(ty, b, pos, sub),
        Type::Resource(Resource::InputStream) => decode_byte_stream(ty, b, pos, sub),
        Type::Resource(_) => decode_string_value(ty, b, pos, sub),
        Type::String => decode_string_value(ty, b, pos, sub),
        Type::Bool => decode_bool_value(b, pos, sub),
        Type::U8 => decode_u8_value(b, pos, sub),
        Type::S8 => decode_s8_value(b, pos, sub),
        Type::U16 => decode_u16_value(b, pos, sub),
        Type::U32 => decode_u32_value(b, pos, sub),
        Type::U64 => decode_u64_value(b, pos, sub),
        Type::S16 => decode_s16_value(b, pos, sub),
        Type::S32 => decode_s32_value(b, pos, sub),
        Type::S64 => decode_s64_value(b, pos, sub),
        Type::Float32 => decode_float32_value(b, pos, sub),
        Type::Float64 => decode_float64_value(b, pos, sub),
        Type::Char => decode_char_value(b, pos, sub),
        Type::Enum => decode_enum_value(b, pos, sub),
        Type::Flags => decode_flags_value(b, pos, sub),
    }
}

fn decode_close(b: &[u8], p: usize) -> (r: Result<usize, DecodeError>)
    ensures
        match r {
            Ok(e) => stream_close_end(b@, p as int) == Ok::<int, DecodeError>(e as int) && e <= b.len(),
            Err(err) => stream_close_end(b@, p as int) == Err::<int, DecodeError>(err),
        },
{
    if p >= b.len() {
        Err(DecodeError::UnexpectedEnd)
    } else if b[p] == 0 {
        Ok(p + 1)
    } else {
        Err(DecodeError::InvalidStream)
    }
}

/// Decodes `n` values of type `t` one after the other, without
/// subscriptions.
fn decode_items<T>(t: &Type, b: &[u8], pos: usize, n: u64) -> (r: Result<
    (Vec<Value<AsyncSubscription<T>>>, usize),
    DecodeError,
>)
    ensures
        match r {
            Ok((vs, e)) => list_end::<T>(*t, b@, pos as int, n as nat) == Ok::<int, DecodeError>(
                e as int,
            ) && pos <= e && (e <= b.len() || e == pos) && vs.len() == n && forall|i: int|
                0 <= i < vs.len() ==> has_type(#[trigger] vs@[i], *t) && reads(
                    *t,
                    b@,
                    list_pos::<T>(*t, b@, pos as int, i as nat),
                    None,
                    vs@[i],
                ),
            Err(err) => list_end::<T>(*t, b@, pos as int, n as nat) == Err::<int, DecodeError>(err),
        },
    decreases t, 4int,
{
    let mut vs: Vec<Value<AsyncSubscription<T>>> = Vec::new();
    let mut cur: usize = pos;
    let mut k: u64 = 0;
    while k < n
        invariant
            k <= n,
            vs.len() == k,
            forall|i: int|
                0 <= i < vs.len() ==> has_type(#[trigger] vs@[i], *t) && reads(
                    *t,
                    b@,
                    list_pos::<T>(*t, b@, pos as int, i as nat),
                    None,
                    vs@[i],
                ),
            cur == list_pos::<T>(*t, b@, pos as int, k as nat),
            pos <= cur,
            cur <= b.len() || cur == pos,
            list_end::<T>(*t, b@, pos as int, n as nat) == list_end::<T>(
                *t,
                b@,
                cur as int,
                (n - k) as nat,
            ),
        decreases n - k,
    {
        match decode::<T>(t, b, cur, None) {
            Err(e) => {
                return Err(e);
            },
            Ok((v, e)) => {
                proof {
                    lemma_list_pos_step::<T>(*t, b@, pos as int, k as nat);
                }
                vs.push(v);
                cur = e;
                k = k + 1;
            },
        }
    }
    Ok((vs, cur))
}

fn decode_list<T>(ty: &Type, b: &[u8], pos: usize, sub: Option<AsyncSubscription<T>>) -> (r: Result<
    (Value<AsyncSubscription<T>>, usize),
    DecodeError,
>)
    requires
        ty is List,
    ensures
        decoded(*ty, b@, pos as int, sub, r),
    decreases ty, 2int,
{
    let t = match ty {
        Type::List(t) => t,
        _ => {
            proof {
                assert(false);
            }
            return Err(DecodeError::InvalidStream);
        },
    };
    if let Some(s) = sub {
        return match s.try_unwrap_list() {
            Err(e) => Err(DecodeError::Subscription(e)),
            Ok(_) => Err(DecodeError::InvalidStream),
        };
    }
    match decode_uint(b, pos, 0xffff_ffff) {
        Err(e) => Err(e),
        Ok((n, e)) => match decode_items::<T>(t, b, e, n) {
            Err(e) => Err(e),
            Ok((vs, e2)) => Ok((Value::List(vs), e2)),
        },
    }
}

/// The sequence of subscriptions an optional vector holds.
pub open spec fn subs_view<T>(subs: Option<Vec<Option<AsyncSubscription<T>>>>) -> Option<
    Seq<Option<AsyncSubscription<T>>>,
> {
    match subs {
        None => None,
        Some(v) => Some(v@),
    }
}

/// Decodes the fields of a record or tuple, each with its own subscription.
fn decode_fields<T>(
    ts: &Vec<Type>,
    b: &[u8],
    pos: usize,
    subs: Option<Vec<Option<AsyncSubscription<T>>>>,
) -> (r: Result<(Vec<Value<AsyncSubscription<T>>>, usize), DecodeError>)
    ensures
        match r {
            Ok((vs, e)) => fields_end::<T>(ts@, b@, pos as int, subs_view(subs), 0) == Ok::<
                int,
                DecodeError,
            >(e as int) && pos <= e && (e <= b.len() || e == pos) && vs.len() == ts.len() && forall|i: int|
                0 <= i < vs.len() ==> has_type(#[trigger] vs@[i], ts@[i]) && reads(
                    ts@[i],
                    b@,
                    field_pos(ts@, b@, pos as int, subs_view(subs), 0, i),
                    field_sub(subs_view(subs), i),
                    vs@[i],
                ),
            Err(err) => fields_end::<T>(ts@, b@, pos as int, subs_view(subs), 0) == Err::<
                int,
                DecodeError,
            >(err),
        },
    decreases ts, 4int,
{
    let ghost sv = subs_view(subs);
    let mut rest = subs;
    let mut vs: Vec<Value<AsyncSubscription<T>>> = Vec::new();
    let mut cur: usize = pos;
    let mut k: usize = 0;
    while k < ts.len()
        invariant
            k <= ts.len(),
            vs.len() == k,
            forall|i: int|
                0 <= i < vs.len() ==> has_type(#[trigger] vs@[i], ts@[i]) && reads(
                    ts@[i],
                    b@,
                    field_pos(ts@, b@, pos as int, sv, 0, i),
                    field_sub(sv, i),
                    vs@[i],
                ),
            cur == field_pos(ts@, b@, pos as int, sv, 0, k as int),
            pos <= cur,
            cur <= b.len() || cur == pos,
            sv == subs_view(subs),
            fields_end::<T>(ts@, b@, pos as int, sv, 0) == fields_end::<T>(
                ts@,
                b@,
                cur as int,
                sv,
                k as int,
            ),
            match sv {
                None => rest is None,
                Some(v0) => rest matches Some(rv) && rv@ == (if k <= v0.len() {
                    v0.subrange(k as int, v0.len() as int)
                } else {
                    Seq::empty()
                }),
            },
        decreases ts.len() - k,
    {
        let s = match &mut rest {
            None => None,
            Some(v) => if v.len() > 0 {
                v.remove(0)
            } else {
                None
            },
        };
        assert(s == field_sub(sv, k as int));
        match decode::<T>(&ts[k], b, cur, s) {
            Err(e) => {
                assert(fields_end::<T>(ts@, b@, cur as int, sv, k as int) == Err::<int, DecodeError>(e));
                return Err(e);
            },
            Ok((v, e)) => {
                proof {
                    lemma_field_pos_step(ts@, b@, pos as int, sv, 0, k as int);
                }
                vs.push(v);
                cur = e;
                k = k + 1;
            },
        }
    }
    Ok((vs, cur))
}

fn decode_variant<T>(ty: &Type, b: &[u8], pos: usize, sub: Option<AsyncSubscription<T>>) -> (r: Result<
    (Value<AsyncSubscription<T>>, usize),
    DecodeError,
>)
    requires
        ty is Variant,
    ensures
        decoded(*ty, b@, pos as int, sub, r),
    decreases ty, 2int,
{
    let cases = match ty {
        Type::Variant(cases) => cases,
        _ => {
            proof {
                assert(false);
            }
            return Err(DecodeError::UnknownVariant);
        },
    };
    let (d, e) = match decode_uint(b, pos, 0xffff_ffff) {
        Err(e) => {
            return Err(e);
        },
        Ok(x) => x,
    };
    if d as usize >= cases.len() {
        return Err(DecodeError::UnknownVariant);
    }
    let i = d as usize;
    let case_sub = match sub {
        None => None,
        Some(s) => match s.try_unwrap_variant() {
            Err(err) => {
                return Err(DecodeError::Subscription(err));
            },
            Ok(mut v) => if i < v.len() {
                v.remove(i)
            } else {
                None
            },
        },
    };
    match &cases[i] {
        None => Ok((Value::Variant { discriminant: d as u32, nested: None }, e)),
        Some(t) => match decode::<T>(t, b, e, case_sub) {
            Err(err) => Err(err),
            Ok((v, e2)) => Ok(
                (Value::Variant { discriminant: d as u32, nested: Some(Box::new(v)) }, e2),
            ),
        },
    }
}

fn decode_option<T>(ty: &Type, b: &[u8], pos: usize, sub: Option<AsyncSubscription<T>>) -> (r: Result<
    (Value<AsyncSubscription<T>>, usize),
    DecodeError,
>)
    requires
        ty is Option,
    ensures
        decoded(*ty, b@, pos as int, sub, r),
    decreases ty, 2int,
{
    let t = match ty {
        Type::Option(t) => t,
        _ => {
            proof {
                assert(false);
            }
            return Err(DecodeError::InvalidOption);
        },
    };
    let h = match read_byte(b, pos) {
        Err(e) => {
            return Err(e);
        },
        Ok(h) => h,
    };
    if h == 0 {
        Ok((Value::Option(None), pos + 1))
    } else if h == 1 {
        let inner = match sub {
            None => None,
            Some(s) => match s.try_unwrap_option() {
                Err(err) => {
                    return Err(DecodeError::Subscription(err));
                },
                Ok(inner) => Some(inner),
            },
        };
        match decode::<T>(t, b, pos + 1, inner) {
            Err(err) => Err(err),
            Ok((v, e)) => Ok((Value::Option(Some(Box::new(v))), e)),
        }
    } else {
        Err(DecodeError::InvalidOption)
    }
}

/// Decodes an optional payload: nothing when the type is absent.
fn decode_payload<T>(
    ty: &Type,
    t: &Option<Box<Type>>,
    b: &[u8],
    pos: usize,
    sub: Option<AsyncSubscription<T>>,
) -> (r: Result<(Option<Box<Value<AsyncSubscription<T>>>>, usize), DecodeError>)
    requires
        t matches Some(x) ==> decreases_to!(*ty => **x),
    ensures
        match r {
            Ok((x, e)) => opt_end(*t, b@, pos as int, sub) == Ok::<int, DecodeError>(e as int)
                && payload_has_type(x, *t) && reads_payload(*t, b@, pos as int, sub, x) && pos <= e
                && (e <= b.len() || e == pos),
            Err(err) => opt_end(*t, b@, pos as int, sub) == Err::<int, DecodeError>(err),
        },
    decreases ty, 1int,
{
    match t {
        None => Ok((None, pos)),
        Some(t) => match decode::<T>(t, b, pos, sub) {
            Err(err) => Err(err),
            Ok((v, e)) => Ok((Some(Box::new(v)), e)),
        },
    }
}

fn decode_result<T>(ty: &Type, b: &[u8], pos: usize, sub: Option<AsyncSubscription<T>>) -> (r: Result<
    (Value<AsyncSubscription<T>>, usize),
    DecodeError,
>)
    requires
        ty is Result,
    ensures
        decoded(*ty, b@, pos as int, sub, r),
    decreases ty, 2int,
{
    let (ok, err) = match ty {
        Type::Result { ok, err } => (ok, err),
        _ => {
            proof {
                assert(false);
            }
            return Err(DecodeError::InvalidResult);
        },
    };
    let (sok, serr) = match sub {
        None => (None, None),
        Some(s) => match s.try_unwrap_result() {
            Err(e) => {
                return Err(DecodeError::Subscription(e));
            },
            Ok(x) => x,
        },
    };
    let h = match read_byte(b, pos) {
        Err(e) => {
            return Err(e);
        },
        Ok(h) => h,
    };
    if h == 0 {
        match decode_payload::<T>(ty, ok, b, pos + 1, sok) {
            Err(e) => Err(e),
            Ok((x, e)) => Ok((Value::Result(Ok(x)), e)),
        }
    } else if h == 1 {
        match decode_payload::<T>(ty, err, b, pos + 1, serr) {
            Err(e) => Err(e),
            Ok((x, e)) => Ok((Value::Result(Err(x)), e)),
        }
    } else {
        Err(DecodeError::InvalidResult)
    }
}

fn rebox<A>(x: Option<A>) -> (r: Option<Box<A>>)
    ensures
        unbox(r) == x,
{
    match x {
        None => None,
        Some(a) => Some(Box::new(a)),
    }
}

fn decode_future<T>(ty: &Type, b: &[u8], pos: usize, sub: Option<AsyncSubscription<T>>) -> (r: Result<
    (Value<AsyncSubscription<T>>, usize),
    DecodeError,
>)
    requires
        ty is Future,
    ensures
        decoded(*ty, b@, pos as int, sub, r),
    decreases ty, 2int,
{
    let t = match ty {
        Type::Future(t) => t,
        _ => {
            proof {
                assert(false);
            }
            return Err(DecodeError::InvalidFuture);
        },
    };
    let (subscriber, nested) = match sub {
        None => {
            return Err(DecodeError::Subscription(SubscriptionError::Mismatch(SubscriptionKind::Future)));
        },
        Some(s) => match s.try_unwrap_future() {
            Err(e) => {
                return Err(DecodeError::Subscription(e));
            },
            Ok(x) => x,
        },
    };
    let h = match read_byte(b, pos) {
        Err(e) => {
            return Err(e);
        },
        Ok(h) => h,
    };
    if h == 0 {
        let node = AsyncSubscription::Future { subscriber, nested: rebox(nested) };
        Ok((Value::Future(FutureValue::Pending(node)), pos + 1))
    } else if h == 1 {
        match decode_payload::<T>(ty, t, b, pos + 1, nested) {
            Err(e) => Err(e),
            Ok((x, e)) => Ok((Value::Future(FutureValue::Ready(x)), e)),
        }
    } else {
        Err(DecodeError::InvalidFuture)
    }
}

fn decode_pollable<T>(ty: &Type, b: &[u8], pos: usize, sub: Option<AsyncSubscription<T>>) -> (r: Result<
    (Value<AsyncSubscription<T>>, usize),
    DecodeError,
>)
    requires
        *ty == Type::Resource(Resource::Pollable),
    ensures
        decoded(*ty, b@, pos as int, sub, r),
{
    let (subscriber, nested) = match sub {
        None => {
            return Err(DecodeError::Subscription(SubscriptionError::Mismatch(SubscriptionKind::Future)));
        },
        Some(s) => match s.try_unwrap_future() {
            Err(e) => {
                return Err(DecodeError::Subscription(e));
            },
            Ok(x) => x,
        },
    };
    let h = match read_byte(b, pos) {
        Err(e) => {
            return Err(e);
        },
        Ok(h) => h,
    };
    if h == 0 {
        let node = AsyncSubscription::Future { subscriber, nested: rebox(nested) };
        Ok((Value::Future(FutureValue::Pending(node)), pos + 1))
    } else if h == 1 {
        Ok((Value::Future(FutureValue::Ready(None)), pos + 1))
    } else {
        Err(DecodeError::InvalidFuture)
    }
}

/// Decodes `n` stream items of type `t` one after the other, without
/// subscriptions.
fn decode_stream_items<T>(t: &Type, b: &[u8], pos: usize, n: u64) -> (r: Result<
    (Vec<Option<Value<AsyncSubscription<T>>>>, usize),
    DecodeError,
>)
    ensures
        match r {
            Ok((vs, e)) => list_end::<T>(*t, b@, pos as int, n as nat) == Ok::<int, DecodeError>(
                e as int,
            ) && pos <= e && (e <= b.len() || e == pos) && vs.len() == n && forall|i: int|
                0 <= i < vs.len() ==> (#[trigger] vs@[i] matches Some(v) && has_type(v, *t) && reads(
                    *t,
                    b@,
                    list_pos::<T>(*t, b@, pos as int, i as nat),
                    None,
                    v,
                )),
            Err(err) => list_end::<T>(*t, b@, pos as int, n as nat) == Err::<int, DecodeError>(err),
        },
    decreases t, 4int,
{
    let mut vs: Vec<Option<Value<AsyncSubscription<T>>>> = Vec::new();
    let mut cur: usize = pos;
    let mut k: u64 = 0;
    while k < n
        invariant
            k <= n,
            vs.len() == k,
            forall|i: int|
                0 <= i < vs.len() ==> (#[trigger] vs@[i] matches Some(v) && has_type(v, *t) && reads(
                    *t,
                    b@,
                    list_pos::<T>(*t, b@, pos as int, i as nat),
                    None,
                    v,
                )),
            cur == list_pos::<T>(*t, b@, pos as int, k as nat),
            pos <= cur,
            cur <= b.len() || cur == pos,
            list_end::<T>(*t, b@, pos as int, n as nat) == list_end::<T>(
                *t,
                b@,
                cur as int,
                (n - k) as nat,
            ),
        decreases n - k,
    {
        match decode::<T>(t, b, cur, None) {
            Err(e) => {
                return Err(e);
            },
            Ok((v, e)) => {
                proof {
                    lemma_list_pos_step::<T>(*t, b@, pos as int, k as nat);
                }
                vs.push(Some(v));
                cur = e;
                k = k + 1;
            },
        }
    }
    Ok((vs, cur))
}

fn unit_items<V>(n: u64) -> (r: Vec<Option<V>>)
    ensures
        r.len() == n,
        forall|i: int| 0 <= i < r.len() ==> (#[trigger] r@[i]) is None,
{
    let mut r: Vec<Option<V>> = Vec::new();
    let mut k: u64 = 0;
    while k < n
        invariant
            k <= n,
            r.len() == k,
            forall|i: int| 0 <= i < r.len() ==> (#[trigger] r@[i]) is None,
        decreases n - k,
    {
        r.push(None);
        k = k + 1;
    }
    r
}

/// Decodes the body of a stream whose subscription fits: a pending header,
/// or the items of an inline stream and its closing 0.
fn decode_stream_body<T>(
    ty: &Type,
    t: &Option<Box<Type>>,
    b: &[u8],
    pos: usize,
    subscriber: T,
) -> (r: Result<(Value<AsyncSubscription<T>>, usize), DecodeError>)
    requires
        t matches Some(x) ==> decreases_to!(*ty => **x),
    ensures
        match r {
            Ok((v, e)) => stream_body_end::<T>(unbox(*t), b@, pos as int) == Ok::<int, DecodeError>(
                e as int,
            ) && has_type(v, Type::Stream(*t)) && reads(
                Type::Stream(*t),
                b@,
                pos as int,
                Some(AsyncSubscription::Stream { subscriber, nested: None }),
                v,
            ) && pos < e <= b.len(),
            Err(err) => stream_body_end::<T>(unbox(*t), b@, pos as int) == Err::<int, DecodeError>(err),
        },
    decreases ty, 1int,
{
    let h = match read_byte(b, pos) {
        Err(e) => {
            return Err(e);
        },
        Ok(h) => h,
    };
    if h == 0 {
        let node = AsyncSubscription::Stream { subscriber, nested: None };
        Ok((Value::Stream(StreamValue::Pending(node)), pos + 1))
    } else if h == 1 {
        match t {
            None => match decode_close(b, pos + 1) {
                Err(e) => Err(e),
                Ok(e) => {
                    let items: Vec<Option<Value<AsyncSubscription<T>>>> = vec![None];
                    assert(item_has_type(items@[0], *t));
                    assert(reads_item::<T>(*t, b@, pos + 1, items@[0]));
                    Ok((Value::Stream(StreamValue::Ready(items)), e))
                },
            },
            Some(t) => match decode::<T>(t, b, pos + 1, None) {
                Err(e) => Err(e),
                Ok((v, e)) => match decode_close(b, e) {
                    Err(e) => Err(e),
                    Ok(e2) => {
                        let items = vec![Some(v)];
                        assert(item_has_type(items@[0], Some(*t)));
                        assert(reads_item::<T>(Some(*t), b@, pos + 1, items@[0]));
                        Ok((Value::Stream(StreamValue::Ready(items)), e2))
                    },
                },
            },
        }
    } else {
        let (n, e) = match read_unsigned(b, pos) {
            Err(LebError::Incomplete) => {
                return Err(DecodeError::UnexpectedEnd);
            },
            Err(LebError::Overflow) => {
                return Err(DecodeError::IntegerOverflow);
            },
            Ok(x) => x,
        };
        match t {
            None => match decode_close(b, e) {
                Err(e) => Err(e),
                Ok(e2) => {
                    let items: Vec<Option<Value<AsyncSubscription<T>>>> = unit_items(n);
                    assert forall|i: int| 0 <= i < items.len() implies item_has_type(
                        #[trigger] items@[i],
                        *t,
                    ) && reads_item::<T>(*t, b@, e as int, items@[i]) by {}
                    Ok((Value::Stream(StreamValue::Ready(items)), e2))
                },
            },
            Some(t) => match decode_stream_items::<T>(t, b, e, n) {
                Err(e) => Err(e),
                Ok((items, e2)) => match decode_close(b, e2) {
                    Err(e) => Err(e),
                    Ok(e3) => {
                        assert forall|i: int| 0 <= i < items.len() implies item_has_type(
                            #[trigger] items@[i],
                            Some(*t),
                        ) && reads_item::<T>(
                            Some(*t),
                            b@,
                            list_pos::<T>(**t, b@, e as int, i as nat),
                            items@[i],
                        ) by {}
                        Ok((Value::Stream(StreamValue::Ready(items)), e3))
                    },
                },
            },
        }
    }
}

fn decode_stream<T>(ty: &Type, b: &[u8], pos: usize, sub: Option<AsyncSubscription<T>>) -> (r: Result<
    (Value<AsyncSubscription<T>>, usize),
    DecodeError,
>)
    requires
        ty is Stream,
    ensures
        decoded(*ty, b@, pos as int, sub, r),
    decreases ty, 2int,
{
    let t = match ty {
        Type::Stream(t) => t,
        _ => {
            proof {
                assert(false);
            }
            return Err(DecodeError::InvalidStream);
        },
    };
    let subscriber = match sub {
        None => {
            return Err(DecodeError::Subscription(SubscriptionError::Mismatch(SubscriptionKind::Stream)));
        },
        Some(s) => match s.try_unwrap_stream() {
            Err(e) => {
                return Err(DecodeError::Subscription(e));
            },
            Ok((subscriber, None)) => subscriber,
            Ok((_, Some(_))) => {
                proof {
                    assert(false);
                }
                return Err(DecodeError::InvalidStream);
            },
        },
    };
    decode_stream_body(ty, t, b, pos, subscriber)
}

fn decode_byte_stream<T>(ty: &Type, b: &[u8], pos: usize, sub: Option<AsyncSubscription<T>>) -> (r: Result<
    (Value<AsyncSubscription<T>>, usize),
    DecodeError,
>)
    requires
        *ty == Type::Resource(Resource::InputStream),
    ensures
        decoded(*ty, b@, pos as int, sub, r),
{
    let subscriber = match sub {
        None => {
            return Err(DecodeError::Subscription(SubscriptionError::Mismatch(SubscriptionKind::Stream)));
        },
        Some(s) => match s.try_unwrap_stream() {
            Err(e) => {
                return Err(DecodeError::Subscription(e));
            },
            Ok((subscriber, None)) => subscriber,
            Ok((_, Some(_))) => {
                proof {
                    assert(false);
                }
                return Err(DecodeError::InvalidStream);
            },
        },
    };
    let h = match read_byte(b, pos) {
        Err(e) => {
            return Err(e);
        },
        Ok(h) => h,
    };
    if h == 0 {
        let node = AsyncSubscription::Stream { subscriber, nested: None };
        return Ok((Value::Stream(StreamValue::Pending(node)), pos + 1));
    }
    let (n, e) = if h == 1 {
        (1u64, pos + 1)
    } else {
        match read_unsigned(b, pos) {
            Err(LebError::Incomplete) => {
                return Err(DecodeError::UnexpectedEnd);
            },
            Err(LebError::Overflow) => {
                return Err(DecodeError::IntegerOverflow);
            },
            Ok(x) => x,
        }
    };
    if n > (b.len() - e) as u64 {
        return Err(DecodeError::UnexpectedEnd);
    }
    let end = e + n as usize;
    let mut items: Vec<Option<Value<AsyncSubscription<T>>>> = Vec::new();
    let mut k: usize = e;
    while k < end
        invariant
            e <= k <= end <= b.len(),
            items.len() == k - e,
            forall|i: int|
                0 <= i < items.len() ==> #[trigger] items@[i] == Some(
                    Value::<AsyncSubscription<T>>::U8(b@[e + i]),
                ),
        decreases end - k,
    {
        items.push(Some(Value::U8(b[k])));
        k = k + 1;
    }
    match decode_close(b, end) {
        Err(err) => Err(err),
        Ok(e2) => Ok((Value::Stream(StreamValue::Ready(items)), e2)),
    }
}

fn decode_record<T>(ty: &Type, b: &[u8], pos: usize, sub: Option<AsyncSubscription<T>>) -> (r: Result<
    (Value<AsyncSubscription<T>>, usize),
    DecodeError,
>)
    requires
        ty is Record || ty is Tuple,
    ensures
        decoded(*ty, b@, pos as int, sub, r),
    decreases ty, 2int,
{
    match ty {
        Type::Record(ts) => {
            let subs = match sub {
                None => None,
                Some(s) => match s.try_unwrap_record() {
                    Err(e) => {
                        return Err(DecodeError::Subscription(e));
                    },
                    Ok(v) => Some(v),
                },
            };
            match decode_fields(ts, b, pos, subs) {
                Err(e) => Err(e),
                Ok((vs, e)) => Ok((Value::Record(vs), e)),
            }
        },
        Type::Tuple(ts) => {
            let subs = match sub {
                None => None,
                Some(s) => match s.try_unwrap_tuple() {
                    Err(e) => {
                        return Err(DecodeError::Subscription(e));
                    },
                    Ok(v) => Some(v),
                },
            };
            match decode_fields(ts, b, pos, subs) {
                Err(e) => Err(e),
                Ok((vs, e)) => Ok((Value::Tuple(vs), e)),
            }
        },
        _ => {
            proof {
                assert(false);
            }
            Err(DecodeError::InvalidStream)
        },
    }
}

/// Where reading one stream item frame at `p` ends.
pub open spec fn item_end<T>(t: Option<Box<Type>>, b: Seq<u8>, p: int) -> Result<int, DecodeError> {
    if !(0 <= p < b.len()) {
        Err(DecodeError::UnexpectedEnd)
    } else if b[p] == 0 {
        Ok(p + 1)
    } else if b[p] == 1 {
        match t {
            None => Ok(p + 1),
            Some(t) => decode_end::<T>(*t, b, p + 1, None),
        }
    } else {
        Err(DecodeError::InvalidStream)
    }
}

/// Reads one frame of a stream's subject: `None` at the end of the stream,
/// else the item, which has a value when the stream's type gives one.
pub fn receive_stream_item<T>(t: &Option<Box<Type>>, b: &[u8], pos: usize) -> (r: Result<
    (Option<Option<Value<AsyncSubscription<T>>>>, usize),
    DecodeError,
>)
    ensures
        match r {
            Ok((item, e)) => pos < e <= b.len() && item_end::<T>(*t, b@, pos as int) == Ok::<int, DecodeError>(e as int)
                && (item is None <==> b@[pos as int] == 0) && (item is None ==> e == pos + 1) && (
                item is Some ==> b@[pos as int] == 1) && (item matches Some(x)
                ==> item_has_type(x, *t) && reads_item::<T>(*t, b@, pos + 1, x)),
            Err(err) => item_end::<T>(*t, b@, pos as int) == Err::<int, DecodeError>(err),
        },
{
    let h = match read_byte(b, pos) {
        Err(e) => {
            return Err(e);
        },
        Ok(h) => h,
    };
    if h == 0 {
        Ok((None, pos + 1))
    } else if h == 1 {
        match t {
            None => Ok((Some(None), pos + 1)),
            Some(t) => match decode::<T>(t, b, pos + 1, None) {
                Err(e) => Err(e),
                Ok((v, e)) => Ok((Some(Some(v)), e)),
            },
        }
    } else {
        Err(DecodeError::InvalidStream)
    }
}

/// The position of frame `i` of the bytes of a stream's subject whose first
/// frame starts at `p`.
pub open spec fn frame_pos<T>(t: Option<Box<Type>>, b: Seq<u8>, p: int, i: nat) -> int
    decreases i,
{
    if i == 0 {
        p
    } else {
        let next = match item_end::<T>(t, b, p) {
            Ok(e) => e,
            Err(_) => p,
        };
        frame_pos::<T>(t, b, next, (i - 1) as nat)
    }
}

proof fn lemma_frame_pos_step<T>(t: Option<Box<Type>>, b: Seq<u8>, p: int, k: nat)
    ensures
        frame_pos::<T>(t, b, p, k + 1) == match item_end::<T>(t, b, frame_pos::<T>(t, b, p, k)) {
            Ok(e) => e,
            Err(_) => frame_pos::<T>(t, b, p, k),
        },
    decreases k,
{
    let q = match item_end::<T>(t, b, p) {
        Ok(e) => e,
        Err(_) => p,
    };
    assert(frame_pos::<T>(t, b, p, k + 1) == frame_pos::<T>(t, b, q, k));
    if k > 0 {
        lemma_frame_pos_step::<T>(t, b, q, (k - 1) as nat);
        assert(frame_pos::<T>(t, b, p, k) == frame_pos::<T>(t, b, q, (k - 1) as nat));
    } else {
        assert(frame_pos::<T>(t, b, q, 0) == q);
    }
}

/// How reading the frames of a stream's subject stopped.
#[derive(Debug, Clone, Copy, PartialEq, Eq, Structural)]
pub enum FramesEnd {
    /// The stream is closed: its closing frame was read.
    Closed,
    /// The bytes end inside a frame; more must arrive.
    NeedMore,
    /// The frame that follows the items read is not a valid frame: the
    /// stream ends with this error.
    Failed(DecodeError),
}

/// Reads the frames of a stream's subject from `pos`, in the order in which
/// they were published: the items of all complete item frames, then how the
/// reading stopped (the stream closed, the bytes ran out, or a bad frame
/// ended the stream), and the position reached. Item `i` is the item of
/// frame `i`; the items before a bad frame are all kept.
pub fn receive_stream_frames<T>(t: &Option<Box<Type>>, b: &[u8], pos: usize) -> (r: (
    Vec<Option<Value<AsyncSubscription<T>>>>,
    FramesEnd,
    usize,
))
    ensures
        frames_read::<T>(*t, b@, pos as int, r.0@),
        frames_stop::<T>(*t, b@, pos as int, r.0.len() as nat, r.1, r.2 as int),
{
    let mut items: Vec<Option<Value<AsyncSubscription<T>>>> = Vec::new();
    let mut cur: usize = pos;
    loop
        invariant
            cur == frame_pos::<T>(*t, b@, pos as int, items.len() as nat),
            pos <= cur <= b.len() || cur == pos,
            frames_read::<T>(*t, b@, pos as int, items@),
        decreases b.len() - cur,
    {
        match receive_stream_item::<T>(t, b, cur) {
            Err(DecodeError::UnexpectedEnd) => {
                return (items, FramesEnd::NeedMore, cur);
            },
            Err(e) => {
                return (items, FramesEnd::Failed(e), cur);
            },
            Ok((None, e)) => {
                return (items, FramesEnd::Closed, e);
            },
            Ok((Some(item), e)) => {
                proof {
                    lemma_frame_pos_step::<T>(*t, b@, pos as int, items.len() as nat);
                }
                let ghost before = items@;
                items.push(item);
                proof {
                    assert forall|i: int| 0 <= i < items@.len() implies frame_read::<T>(
                        *t,
                        b@,
                        frame_pos::<T>(*t, b@, pos as int, i as nat),
                        #[trigger] items@[i],
                    ) by {
                        if i < before.len() {
                            assert(items@[i] == before[i]);
                        }
                    }
                }
                cur = e;
            },
        }
    }
}

/// Where and why reading frames from `pos` stopped after `n` item frames:
/// after the closing frame, before a frame that the bytes do not yet hold,
/// or before a bad frame with its error.
pub open spec fn frames_stop<T>(t: Option<Box<Type>>, b: Seq<u8>, pos: int, n: nat, end: FramesEnd, q: int) -> bool {
    let at = frame_pos::<T>(t, b, pos, n);
    match end {
        FramesEnd::NeedMore => q == at && item_end::<T>(t, b, q) == Err::<int, DecodeError>(
            DecodeError::UnexpectedEnd,
        ),
        FramesEnd::Closed => q == at + 1 && q <= b.len() && b[q - 1] == 0,
        FramesEnd::Failed(err) => err != DecodeError::UnexpectedEnd && q == at && item_end::<T>(
            t,
            b,
            q,
        ) == Err::<int, DecodeError>(err),
    }
}

/// Whether the bytes at `p` hold an item frame whose item is `x`.
pub open spec fn frame_read<T>(t: Option<Box<Type>>, b: Seq<u8>, p: int, x: Option<Value<AsyncSubscription<T>>>) -> bool {
    0 <= p < b.len() && b[p] == 1 && item_end::<T>(t, b, p) is Ok && reads_item::<T>(t, b, p + 1, x)
}

/// Whether `items` are, in order, the items of the first frames of a
/// stream's subject from `p`.
pub open spec fn frames_read<T>(t: Option<Box<Type>>, b: Seq<u8>, p: int, items: Seq<Option<Value<AsyncSubscription<T>>>>) -> bool {
    forall|i: int|
        0 <= i < items.len() ==> frame_read::<T>(
            t,
            b,
            frame_pos::<T>(t, b, p, i as nat),
            #[trigger] items[i],
        )
}

/// Where reading the payload of a resolved future ends: a future of unit
/// has an empty payload.
pub open spec fn future_payload_end<T>(t: Option<Box<Type>>, b: Seq<u8>, sub: Option<AsyncSubscription<T>>) -> Result<int, DecodeError> {
    match t {
        None => if b.len() == 0 {
            Ok(0)
        } else {
            Err(DecodeError::InvalidFuture)
        },
        Some(t) => decode_end(*t, b, 0, sub),
    }
}

/// Reads the value of a future from the payload on its subject, with the
/// subscription of the future's own asynchronous parts.
pub fn decode_future_payload<T>(t: &Option<Box<Type>>, b: &[u8], sub: Option<AsyncSubscription<T>>) -> (r: Result<
    (Option<Value<AsyncSubscription<T>>>, usize),
    DecodeError,
>)
    ensures
        match r {
            Ok((x, e)) => future_payload_end(*t, b@, sub) == Ok::<int, DecodeError>(e as int)
                && item_has_type(x, *t) && match (*t, x) {
                (Some(t), Some(v)) => reads(*t, b@, 0, sub, v),
                _ => true,
            },
            Err(err) => future_payload_end(*t, b@, sub) == Err::<int, DecodeError>(err),
        },
{
    match t {
        None => if b.len() == 0 {
            Ok((None, 0))
        } else {
            Err(DecodeError::InvalidFuture)
        },
        Some(t) => match decode::<T>(t, b, 0, sub) {
            Err(e) => Err(e),
            Ok((v, e)) => Ok((Some(v), e)),
        },
    }
}

/// Checks that at least `n` bytes follow `pos`; where they do not, more must
/// arrive before reading on.
pub fn receive_at_least(b: &[u8], pos: usize, n: usize) -> (r: Result<usize, DecodeError>)
    ensures
        match r {
            Ok(e) => pos + n <= b.len() && e == pos + n,
            Err(err) => pos + n > b.len() && err == DecodeError::UnexpectedEnd,
        },
{
    decode_fixed(b, pos, n)
}

/// Reads an unsigned LEB128 integer at `pos`.
pub fn receive_leb128_unsigned(b: &[u8], pos: usize) -> (r: Result<(u64, usize), DecodeError>)
    ensures
        match r {
            Ok((x, e)) => read_unsigned_spec(b@, pos as int) == Ok::<(u64, int), LebError>((x, e as int)),
            Err(err) => read_unsigned_spec(b@, pos as int) matches Err(le) && err == leb_error(le),
        },
{
    decode_uint(b, pos, 0xffff_ffff_ffff_ffff)
}

/// Reads a signed LEB128 integer at `pos`.
pub fn receive_leb128_signed(b: &[u8], pos: usize) -> (r: Result<(i64, usize), DecodeError>)
    ensures
        match r {
            Ok((x, e)) => read_signed_spec(b@, pos as int) == Ok::<(i64, int), LebError>((x, e as int)),
            Err(err) => read_signed_spec(b@, pos as int) matches Err(le) && err == leb_error(le),
        },
{
    decode_sint(b, pos, -0x8000_0000_0000_0000, 0x7fff_ffff_ffff_ffff)
}

/// Reads the length of a list at `pos`, which must fit in 32 bits.
pub fn receive_list_header(b: &[u8], pos: usize) -> (r: Result<(u32, usize), DecodeError>)
    ensures
        match r {
            Ok((n, e)) => uint_end(b@, pos as int, 0xffff_ffff) == Ok::<int, DecodeError>(e as int)
                && n == uint_at(b@, pos as int),
            Err(err) => uint_end(b@, pos as int, 0xffff_ffff) == Err::<int, DecodeError>(err),
        },
{
    match decode_uint(b, pos, 0xffff_ffff) {
        Err(e) => Err(e),
        Ok((n, e)) => Ok((n as u32, e)),
    }
}

/// Reads a variant or enum discriminant at `pos`, which must fit in 32 bits.
pub fn receive_discriminant(b: &[u8], pos: usize) -> (r: Result<(u32, usize), DecodeError>)
    ensures
        match r {
            Ok((d, e)) => uint_end(b@, pos as int, 0xffff_ffff) == Ok::<int, DecodeError>(e as int)
                && d == uint_at(b@, pos as int),
            Err(err) => uint_end(b@, pos as int, 0xffff_ffff) == Err::<int, DecodeError>(err),
        },
{
    receive_list_header(b, pos)
}

} // verus!
