//! Values, their synchronous encoding on the primary subject and the tree of
//! their asynchronous parts.
use vstd::prelude::*;

use crate::leb::{leb128_signed, leb128_unsigned, write_signed, write_unsigned};

verus! {

/// A value of some `Type`. Floating-point numbers are held as their IEEE-754
/// bit patterns. `H` is what stands for a future or stream that is not yet
/// complete: a producer on the sending side, a subscription on the receiving
/// side.
#[derive(Debug)]
pub enum Value<H> {
    Bool(bool),
    U8(u8),
    U16(u16),
    U32(u32),
    U64(u64),
    S8(i8),
    S16(i16),
    S32(i32),
    S64(i64),
    Float32(u32),
    Float64(u64),
    Char(char),
    String(String),
    List(Vec<Value<H>>),
    Record(Vec<Value<H>>),
    Tuple(Vec<Value<H>>),
    Variant { discriminant: u32, nested: Option<Box<Value<H>>> },
    Enum(u32),
    Option(Option<Box<Value<H>>>),
    Result(Result<Option<Box<Value<H>>>, Option<Box<Value<H>>>>),
    Flags(u64),
    Future(FutureValue<H>),
    Stream(StreamValue<H>),
}

/// A future: resolved to its value (absent for a future of unit), or pending.
#[derive(Debug)]
pub enum FutureValue<H> {
    Ready(Option<Box<Value<H>>>),
    Pending(H),
}

/// A stream: all of its items at hand, or pending. An item without a value is
/// an item of a stream of unit.
#[derive(Debug)]
pub enum StreamValue<H> {
    Ready(Vec<Option<Value<H>>>),
    Pending(H),
}

/// The parts of a value that travel on child subjects after the primary
/// payload, each at the position that determines its subject.
#[derive(Debug)]
pub enum AsyncValue<H> {
    List(Vec<Option<AsyncValue<H>>>),
    Record(Vec<Option<AsyncValue<H>>>),
    Tuple(Vec<Option<AsyncValue<H>>>),
    Variant { discriminant: u32, nested: Box<AsyncValue<H>> },
    Option(Box<AsyncValue<H>>),
    ResultOk(Box<AsyncValue<H>>),
    ResultErr(Box<AsyncValue<H>>),
    /// The parts of the value of a resolved future; they travel below the
    /// future's child subject 0.
    ReadyFuture(Box<AsyncValue<H>>),
    Future(H),
    Stream(StreamValue<H>),
}

/// The little-endian bytes of a 32-bit pattern.
pub open spec fn le_bytes32(x: u32) -> Seq<u8> {
    seq![(x % 256) as u8, (x / 256 % 256) as u8, (x / 65536 % 256) as u8, (x / 16777216) as u8]
}

/// The little-endian bytes of a 64-bit pattern.
pub open spec fn le_bytes64(x: u64) -> Seq<u8> {
    le_bytes32((x % 0x1_0000_0000) as u32) + le_bytes32((x / 0x1_0000_0000) as u32)
}

/// The UTF-8 bytes of a string, after their length.
pub open spec fn string_encoding(s: Seq<char>) -> Seq<u8> {
    leb128_unsigned(vstd::utf8::encode_utf8(s).len()) + vstd::utf8::encode_utf8(s)
}

/// The bytes that a value writes on its primary subject.
pub open spec fn encoding<H>(v: Value<H>) -> Seq<u8>
    decreases v,
{
    match v {
        Value::Bool(b) => seq![if b { 1u8 } else { 0u8 }],
        Value::U8(x) => seq![x],
        Value::U16(x) => leb128_unsigned(x as nat),
        Value::U32(x) => leb128_unsigned(x as nat),
        Value::U64(x) => leb128_unsigned(x as nat),
        Value::S8(x) => seq![((x as int) % 256) as u8],
        Value::S16(x) => leb128_signed(x as int),
        Value::S32(x) => leb128_signed(x as int),
        Value::S64(x) => leb128_signed(x as int),
        Value::Float32(x) => le_bytes32(x),
        Value::Float64(x) => le_bytes64(x),
        Value::Char(c) => leb128_unsigned(c as nat),
        Value::String(s) => string_encoding(s@),
        Value::List(vs) => leb128_unsigned(vs.len() as nat) + encoding_all(vs@),
        Value::Record(vs) => encoding_all(vs@),
        Value::Tuple(vs) => encoding_all(vs@),
        Value::Variant { discriminant, nested } => leb128_unsigned(discriminant as nat)
            + encoding_opt(nested),
        Value::Enum(d) => leb128_unsigned(d as nat),
        Value::Option(None) => seq![0u8],
        Value::Option(Some(x)) => seq![1u8] + encoding(*x),
        Value::Result(Ok(x)) => seq![0u8] + encoding_opt(x),
        Value::Result(Err(x)) => seq![1u8] + encoding_opt(x),
        Value::Flags(x) => leb128_unsigned(x as nat),
        Value::Future(FutureValue::Ready(x)) => seq![1u8] + encoding_opt(x),
        Value::Future(FutureValue::Pending(_)) => seq![0u8],
        Value::Stream(_) => seq![0u8],
    }
}

/// The encoding of an optional payload; nothing when it is absent.
pub open spec fn encoding_opt<H>(x: Option<Box<Value<H>>>) -> Seq<u8>
    decreases x,
{
    match x {
        None => Seq::empty(),
        Some(b) => encoding(*b),
    }
}

/// The encodings of a sequence of values, one after the other.
pub open spec fn encoding_all<H>(vs: Seq<Value<H>>) -> Seq<u8>
    decreases vs,
{
    if vs.len() == 0 {
        Seq::empty()
    } else {
        encoding_all(vs.drop_last()) + encoding(vs.last())
    }
}

/// Whether `r` holds exactly the asynchronous parts of `v`: `None` when it
/// has none, else the tree of them with `None` at each synchronous position.
pub open spec fn async_parts<H>(v: Value<H>, r: Option<AsyncValue<H>>) -> bool
    decreases v,
{
    match v {
        Value::List(vs) => match r {
            None => async_parts_all(vs@, None),
            Some(a) => a matches AsyncValue::List(av) && async_parts_all(vs@, Some(av@)),
        },
        Value::Record(vs) => match r {
            None => async_parts_all(vs@, None),
            Some(a) => a matches AsyncValue::Record(av) && async_parts_all(vs@, Some(av@)),
        },
        Value::Tuple(vs) => match r {
            None => async_parts_all(vs@, None),
            Some(a) => a matches AsyncValue::Tuple(av) && async_parts_all(vs@, Some(av@)),
        },
        Value::Variant { discriminant, nested } => match nested {
            None => r is None,
            Some(x) => match r {
                None => async_parts(*x, None),
                Some(a) => a matches AsyncValue::Variant { discriminant: d, nested: n } && d
                    == discriminant && async_parts(*x, Some(*n)),
            },
        },
        Value::Option(Some(x)) => match r {
            None => async_parts(*x, None),
            Some(a) => a matches AsyncValue::Option(n) && async_parts(*x, Some(*n)),
        },
        Value::Result(Ok(Some(x))) => match r {
            None => async_parts(*x, None),
            Some(a) => a matches AsyncValue::ResultOk(n) && async_parts(*x, Some(*n)),
        },
        Value::Result(Err(Some(x))) => match r {
            None => async_parts(*x, None),
            Some(a) => a matches AsyncValue::ResultErr(n) && async_parts(*x, Some(*n)),
        },
        Value::Future(FutureValue::Ready(Some(x))) => match r {
            None => async_parts(*x, None),
            Some(a) => a matches AsyncValue::ReadyFuture(n) && async_parts(*x, Some(*n)),
        },
        Value::Future(FutureValue::Pending(h)) => r == Some(AsyncValue::Future(h)),
        Value::Stream(st) => r == Some(AsyncValue::<H>::Stream(st)),
        _ => r is None,
    }
}

/// `async_parts` of each element of a sequence: with `None`, none of them
/// has any; with `Some(av)`, `av` holds the parts of each and at least one
/// has some.
pub open spec fn async_parts_all<H>(vs: Seq<Value<H>>, r: Option<Seq<Option<AsyncValue<H>>>>) -> bool
    decreases vs,
{
    match r {
        None => forall|i: int| 0 <= i < vs.len() ==> async_parts(#[trigger] vs[i], None),
        Some(av) => av.len() == vs.len() && (exists|i: int|
            0 <= i < av.len() && #[trigger] av[i] is Some) && forall|i: int|
            0 <= i < vs.len() ==> async_parts(#[trigger] vs[i], av[i]),
    }
}

/// Appends the little-endian bytes of a 32-bit pattern.
fn put_u32_le(buf: &mut Vec<u8>, x: u32)
    ensures
        final(buf)@ == old(buf)@ + le_bytes32(x),
{
    buf.push((x % 256) as u8);
    buf.push((x / 256 % 256) as u8);
    buf.push((x / 65536 % 256) as u8);
    buf.push((x / 16777216) as u8);
    assert(buf@ =~= old(buf)@ + le_bytes32(x));
}

/// Appends the length and UTF-8 bytes of a string.
pub fn encode_string(s: &String, buf: &mut Vec<u8>)
    ensures
        final(buf)@ == old(buf)@ + string_encoding(s@),
{
    let bytes = s.as_str().as_bytes();
    write_unsigned(buf, bytes.len() as u64);
    let ghost mid = buf@;
    let mut k: usize = 0;
    while k < bytes.len()
        invariant
            k <= bytes.len(),
            buf@ == mid + bytes@.subrange(0, k as int),
        decreases bytes.len() - k,
    {
        buf.push(bytes[k]);
        k = k + 1;
        assert(buf@ =~= mid + bytes@.subrange(0, k as int));
    }
    assert(bytes@.subrange(0, k as int) =~= bytes@);
}

/// Encodes `v` on `buf`: appends the bytes of its synchronous part and
/// returns the parts that remain to be sent on child subjects.
pub fn encode<H>(v: Value<H>, buf: &mut Vec<u8>) -> (r: Option<AsyncValue<H>>)
    ensures
        final(buf)@ =~= old(buf)@ + encoding(v),
        async_parts(v, r),
    decreases v,
{
    match v {
        Value::Bool(b) => {
            buf.push(if b { 1u8 } else { 0u8 });
            None
        },
        Value::U8(x) => {
            buf.push(x);
            None
        },
        Value::U16(x) => {
            write_unsigned(buf, x as u64);
            None
        },
        Value::U32(x) => {
            write_unsigned(buf, x as u64);
            None
        },
        Value::U64(x) => {
            write_unsigned(buf, x);
            None
        },
        Value::S8(x) => {
            buf.push(if x < 0 { (x as i16 + 256) as u8 } else { x as u8 });
            None
        },
        Value::S16(x) => {
            write_signed(buf, x as i64);
            None
        },
        Value::S32(x) => {
            write_signed(buf, x as i64);
            None
        },
        Value::S64(x) => {
            write_signed(buf, x);
            None
        },
        Value::Float32(x) => {
            put_u32_le(buf, x);
            None
        },
        Value::Float64(x) => {
            put_u32_le(buf, (x % 0x1_0000_0000) as u32);
            put_u32_le(buf, (x / 0x1_0000_0000) as u32);
            assert(buf@ =~= old(buf)@ + le_bytes64(x));
            None
        },
        Value::Char(c) => {
            write_unsigned(buf, c as u32 as u64);
            assert(c as u32 as u64 as nat == c as nat);
            None
        },
        Value::String(s) => {
            encode_string(&s, buf);
            None
        },
        Value::Enum(d) => {
            encode_discriminant(buf, d);
            None
        },
        Value::Flags(x) => {
            write_unsigned(buf, x);
            None
        },
        Value::List(vs) => encode_list(vs, buf),
        Value::Record(vs) => {
            let r = encode_sized_iter(vs, buf);
            match r {
                None => None,
                Some(av) => Some(AsyncValue::Record(av)),
            }
        },
        Value::Tuple(vs) => {
            let r = encode_sized_iter(vs, buf);
            match r {
                None => None,
                Some(av) => Some(AsyncValue::Tuple(av)),
            }
        },
        Value::Variant { discriminant, nested } => encode_variant(discriminant, nested, buf),
        Value::Option(x) => encode_option(x, buf),
        Value::Result(x) => encode_result(x, buf),
        Value::Future(f) => encode_future(f, buf),
        Value::Stream(st) => {
            buf.push(0u8);
            Some(AsyncValue::Stream(st))
        },
    }
}

fn encode_list<H>(vs: Vec<Value<H>>, buf: &mut Vec<u8>) -> (r: Option<AsyncValue<H>>)
    ensures
        final(buf)@ =~= old(buf)@ + encoding(Value::List(vs)),
        async_parts(Value::List(vs), r),
    decreases vs, 0nat,
{
    write_unsigned(buf, vs.len() as u64);
    let ghost mid = buf@;
    let r = encode_sized_iter(vs, buf);
    assert(buf@ =~= old(buf)@ + encoding(Value::List(vs)));
    match r {
        None => None,
        Some(av) => Some(AsyncValue::List(av)),
    }
}

fn encode_opt_payload<H>(x: Option<Box<Value<H>>>, buf: &mut Vec<u8>) -> (r: Option<AsyncValue<H>>)
    ensures
        final(buf)@ =~= old(buf)@ + encoding_opt(x),
        match x {
            None => r is None,
            Some(b) => async_parts(*b, r),
        },
    decreases x, 0nat,
{
    match x {
        None => None,
        Some(b) => encode(*b, buf),
    }
}

fn encode_variant<H>(discriminant: u32, nested: Option<Box<Value<H>>>, buf: &mut Vec<u8>) -> (r: Option<AsyncValue<H>>)
    ensures
        final(buf)@ =~= old(buf)@ + encoding(Value::Variant { discriminant, nested }),
        async_parts(Value::Variant { discriminant, nested }, r),
    decreases nested, 1nat,
{
    encode_discriminant(buf, discriminant);
    let r = encode_opt_payload(nested, buf);
    match r {
        None => None,
        Some(a) => Some(AsyncValue::Variant { discriminant, nested: Box::new(a) }),
    }
}

fn encode_option<H>(x: Option<Box<Value<H>>>, buf: &mut Vec<u8>) -> (r: Option<AsyncValue<H>>)
    ensures
        final(buf)@ =~= old(buf)@ + encoding(Value::Option(x)),
        async_parts(Value::Option(x), r),
    decreases x,
{
    match x {
        None => {
            buf.push(0u8);
            None
        },
        Some(b) => {
            buf.push(1u8);
            let r = encode(*b, buf);
            match r {
                None => None,
                Some(a) => Some(AsyncValue::Option(Box::new(a))),
            }
        },
    }
}

fn encode_result<H>(x: Result<Option<Box<Value<H>>>, Option<Box<Value<H>>>>, buf: &mut Vec<u8>) -> (r: Option<AsyncValue<H>>)
    ensures
        final(buf)@ =~= old(buf)@ + encoding(Value::Result(x)),
        async_parts(Value::Result(x), r),
    decreases x,
{
    match x {
        Ok(p) => {
            buf.push(0u8);
            let r = encode_opt_payload(p, buf);
            match r {
                None => None,
                Some(a) => Some(AsyncValue::ResultOk(Box::new(a))),
            }
        },
        Err(p) => {
            buf.push(1u8);
            let r = encode_opt_payload(p, buf);
            match r {
                None => None,
                Some(a) => Some(AsyncValue::ResultErr(Box::new(a))),
            }
        },
    }
}

fn encode_future<H>(f: FutureValue<H>, buf: &mut Vec<u8>) -> (r: Option<AsyncValue<H>>)
    ensures
        final(buf)@ =~= old(buf)@ + encoding(Value::Future(f)),
        async_parts(Value::Future(f), r),
    decreases f,
{
    match f {
        FutureValue::Ready(p) => {
            buf.push(1u8);
            match encode_opt_payload(p, buf) {
                None => None,
                Some(a) => Some(AsyncValue::ReadyFuture(Box::new(a))),
            }
        },
        FutureValue::Pending(h) => {
            buf.push(0u8);
            Some(AsyncValue::Future(h))
        },
    }
}

/// Encodes each value in turn; returns the asynchronous parts of each when
/// at least one has some.
pub fn encode_sized_iter<H>(vs: Vec<Value<H>>, buf: &mut Vec<u8>) -> (r: Option<Vec<Option<AsyncValue<H>>>>)
    ensures
        final(buf)@ == old(buf)@ + encoding_all(vs@),
        match r {
            None => async_parts_all(vs@, None),
            Some(av) => async_parts_all(vs@, Some(av@)),
        },
    decreases vs@,
{
    let ghost all = vs@;
    let ghost start = buf@;
    let n: usize = vs.len();
    let mut rest = vs;
    let mut parts: Vec<Option<AsyncValue<H>>> = Vec::new();
    let mut any: bool = false;
    let mut k: usize = 0;
    while rest.len() > 0
        invariant
            all == vs@,
            n == all.len(),
            k + rest.len() == n,
            rest@ == all.subrange(k as int, all.len() as int),
            buf@ == start + encoding_all(all.subrange(0, k as int)),
            parts.len() == k,
            forall|i: int| 0 <= i < k ==> async_parts(#[trigger] all[i], parts@[i]),
            any <==> exists|i: int| 0 <= i < k && #[trigger] parts@[i] is Some,
        decreases rest.len(),
    {
        let x = rest.remove(0);
        assert(x == all[k as int]);
        proof {
            assert(decreases_to!(all => x));
        }
        let a = encode(x, buf);
        let found = a.is_some();
        if found {
            any = true;
        }
        let ghost before = parts@;
        parts.push(a);
        proof {
            assert(all.subrange(0, k + 1).drop_last() =~= all.subrange(0, k as int));
            assert(forall|i: int| 0 <= i < k ==> parts@[i] == before[i]);
            if found {
                assert(parts@[k as int] is Some);
            }
        }
        k = k + 1;
        assert(rest@ =~= all.subrange(k as int, all.len() as int));
    }
    assert(all.subrange(0, k as int) =~= all);
    if any {
        Some(parts)
    } else {
        assert forall|i: int| 0 <= i < all.len() implies async_parts(#[trigger] all[i], None) by {
            assert(parts@[i] is None);
        }
        None
    }
}

/// Appends a variant or enum discriminant.
pub fn encode_discriminant(buf: &mut Vec<u8>, discriminant: u32)
    ensures
        final(buf)@ == old(buf)@ + leb128_unsigned(discriminant as nat),
{
    write_unsigned(buf, discriminant as u64);
}

/// The number of nanoseconds in a duration of `secs` seconds and
/// `subsec_nanos` nanoseconds, where it fits in 64 bits.
pub open spec fn duration_nanos(secs: u64, subsec_nanos: u32) -> int {
    secs * 1_000_000_000 + subsec_nanos
}

/// Appends a duration as its count of nanoseconds; a duration of more than
/// `u64::MAX` nanoseconds cannot be sent, and nothing is appended.
pub fn encode_duration(secs: u64, subsec_nanos: u32, buf: &mut Vec<u8>) -> (r: bool)
    ensures
        r <==> duration_nanos(secs, subsec_nanos) <= u64::MAX,
        r ==> final(buf)@ == old(buf)@ + leb128_unsigned(duration_nanos(secs, subsec_nanos) as nat),
        !r ==> final(buf)@ == old(buf)@,
{
    match secs.checked_mul(1_000_000_000) {
        None => false,
        Some(whole) => match whole.checked_add(subsec_nanos as u64) {
            None => false,
            Some(n) => {
                write_unsigned(buf, n);
                true
            },
        },
    }
}

/// The seconds and the nanoseconds beyond them of a count of nanoseconds.
pub fn duration_from_nanos(n: u64) -> (r: (u64, u32))
    ensures
        duration_nanos(r.0, r.1) == n,
        r.1 < 1_000_000_000,
{
    (n / 1_000_000_000, (n % 1_000_000_000) as u32)
}

/// A tuple whose arity is known only at run time.
pub struct DynamicTuple<T>(pub Vec<T>);

impl<H> DynamicTuple<Value<H>> {
    /// Encodes the elements as one tuple.
    pub fn encode(self, buf: &mut Vec<u8>) -> (r: Option<AsyncValue<H>>)
        ensures
            final(buf)@ =~= old(buf)@ + encoding(Value::Tuple(self.0)),
            async_parts(Value::Tuple(self.0), r),
    {
        encode(Value::Tuple(self.0), buf)
    }
}

} // verus!
