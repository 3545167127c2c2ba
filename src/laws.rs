//! Laws that tie the encoder, the decoder and the subscription planner
//! together.
use vstd::prelude::*;

use crate::decode::{
    decode_end, end_of, field_pos, fields_end, has_type, list_end, list_pos, payload_has_type, reads,
    reads_payload, uint_at, uint_end_at, field_sub, field_subs, inner_sub, case_sub, DecodeError,
    frame_pos, frames_read, frames_stop, frame_read, item_end, reads_item, FramesEnd,
};
use crate::leb::{
    group_end, is_leb128_group, leb128_signed, leb128_unsigned, lemma_signed_round_trip,
    lemma_unsigned_round_trip, read_signed_spec, read_unsigned_spec,
};
use crate::plan::{planned, planned_opt};
use crate::subject::SubjectPath;
use crate::subscription::{unbox, AsyncSubscription};
use crate::transmit::{async_leaves, async_leaves_all, element_index, AsyncLeaf};
use crate::types::{is_async, type_wf, Type};
use crate::value::{
    async_parts, async_parts_all, encoding, encoding_all, encoding_opt, le_bytes32, string_encoding,
    AsyncValue, FutureValue, Value,
};

verus! {

/// Whether the bytes of `b` from `p` on begin with `e`.
pub open spec fn prefix_at(b: Seq<u8>, p: int, e: Seq<u8>) -> bool {
    0 <= p && p + e.len() <= b.len() && b.subrange(p, p + e.len()) == e
}

/// Whether every list in `v` has a length that fits in 32 bits, as the wire
/// format requires.
pub open spec fn lists_fit<H>(v: Value<H>) -> bool
    decreases v,
{
    match v {
        Value::List(vs) => vs.len() <= u32::MAX && forall|i: int|
            0 <= i < vs.len() ==> lists_fit(#[trigger] vs@[i]),
        Value::Record(vs) => forall|i: int| 0 <= i < vs.len() ==> lists_fit(#[trigger] vs@[i]),
        Value::Tuple(vs) => forall|i: int| 0 <= i < vs.len() ==> lists_fit(#[trigger] vs@[i]),
        Value::Variant { nested: Some(x), .. } => lists_fit(*x),
        Value::Option(Some(x)) => lists_fit(*x),
        Value::Result(Ok(Some(x))) => lists_fit(*x),
        Value::Result(Err(Some(x))) => lists_fit(*x),
        _ => true,
    }
}

proof fn lemma_prefix_split(b: Seq<u8>, p: int, e1: Seq<u8>, e2: Seq<u8>)
    requires
        prefix_at(b, p, e1 + e2),
    ensures
        prefix_at(b, p, e1),
        prefix_at(b, p + e1.len(), e2),
{
    let whole = b.subrange(p, p + (e1 + e2).len());
    assert(b.subrange(p, p + e1.len()) =~= whole.subrange(0, e1.len() as int));
    assert((e1 + e2).subrange(0, e1.len() as int) =~= e1);
    assert(b.subrange(p + e1.len(), p + e1.len() + e2.len()) =~= whole.subrange(
        e1.len() as int,
        (e1 + e2).len() as int,
    ));
    assert((e1 + e2).subrange(e1.len() as int, (e1 + e2).len() as int) =~= e2);
}

proof fn lemma_group_end_prefix(b: Seq<u8>, p: int, g: Seq<u8>)
    requires
        is_leb128_group(g),
        prefix_at(b, p, g),
    ensures
        group_end(b, p) == Some(p + g.len()),
    decreases g.len(),
{
    assert(b[p] == g[0]);
    if g.len() > 1 {
        let rest = g.drop_first();
        assert(is_leb128_group(rest)) by {
            assert forall|i: int| 0 <= i < rest.len() - 1 implies rest[i] >= 128 by {
                assert(rest[i] == g[i + 1]);
            }
            assert(rest[rest.len() - 1] == g[g.len() - 1]);
        }
        assert(b.subrange(p + 1, p + 1 + rest.len()) =~= rest) by {
            assert forall|j: int| 0 <= j < rest.len() implies b.subrange(p + 1, p + 1 + rest.len())[j]
                == rest[j] by {
                assert(b.subrange(p, p + g.len())[j + 1] == g[j + 1]);
            }
        }
        lemma_group_end_prefix(b, p + 1, rest);
    }
}

proof fn lemma_read_unsigned_prefix(b: Seq<u8>, p: int, x: u64)
    requires
        prefix_at(b, p, leb128_unsigned(x as nat)),
    ensures
        read_unsigned_spec(b, p) == Ok::<(u64, int), crate::leb::LebError>(
            (x, p + leb128_unsigned(x as nat).len()),
        ),
{
    let g = leb128_unsigned(x as nat);
    lemma_unsigned_round_trip(x as nat);
    lemma_group_end_prefix(b, p, g);
}

proof fn lemma_read_signed_prefix(b: Seq<u8>, p: int, x: i64)
    requires
        prefix_at(b, p, leb128_signed(x as int)),
    ensures
        read_signed_spec(b, p) == Ok::<(i64, int), crate::leb::LebError>(
            (x, p + leb128_signed(x as int).len()),
        ),
{
    let g = leb128_signed(x as int);
    lemma_signed_round_trip(x as int);
    lemma_group_end_prefix(b, p, g);
}

proof fn lemma_encoding_all_front<H>(s: Seq<Value<H>>)
    requires
        s.len() > 0,
    ensures
        encoding_all(s) == encoding(s[0]) + encoding_all(s.drop_first()),
    decreases s.len(),
{
    if s.len() == 1 {
        assert(s.drop_last() =~= Seq::<Value<H>>::empty());
        assert(s.drop_first() =~= Seq::<Value<H>>::empty());
        assert(encoding_all(s.drop_first()) =~= Seq::<u8>::empty());
        assert(encoding_all(s.drop_last()) =~= Seq::<u8>::empty());
        assert(encoding_all(s) =~= encoding(s[0]));
    } else {
        lemma_encoding_all_front(s.drop_last());
        assert(s.drop_last().drop_first() =~= s.drop_first().drop_last());
        assert(s.drop_first().last() == s.last());
        assert(s.drop_last()[0] == s[0]);
        assert(encoding_all(s) =~= encoding(s[0]) + encoding_all(s.drop_first()));
    }
}

/// A value of a type without futures or streams leaves no asynchronous
/// parts when it is encoded.
pub proof fn lemma_sync_value_has_no_async_parts<H>(ty: Type, v: Value<H>)
    requires
        !is_async(ty),
        has_type(v, ty),
    ensures
        async_parts(v, None),
    decreases ty,
{
    match ty {
        Type::List(t) => {
            if let Value::List(vs) = v {
                assert forall|i: int| 0 <= i < vs.len() implies async_parts(#[trigger] vs@[i], None) by {
                    lemma_sync_value_has_no_async_parts(*t, vs@[i]);
                }
                assert(async_parts_all(vs@, None));
            }
        },
        Type::Record(ts) => {
            if let Value::Record(vs) = v {
                assert forall|i: int| 0 <= i < vs.len() implies async_parts(#[trigger] vs@[i], None) by {
                    assert(!is_async(ts@[i]));
                    lemma_sync_value_has_no_async_parts(ts@[i], vs@[i]);
                }
                assert(async_parts_all(vs@, None));
            }
        },
        Type::Tuple(ts) => {
            if let Value::Tuple(vs) = v {
                assert forall|i: int| 0 <= i < vs.len() implies async_parts(#[trigger] vs@[i], None) by {
                    assert(!is_async(ts@[i]));
                    lemma_sync_value_has_no_async_parts(ts@[i], vs@[i]);
                }
                assert(async_parts_all(vs@, None));
            }
        },
        Type::Variant(cases) => {
            if let Value::Variant { discriminant, nested: Some(x) } = v {
                if let Some(t) = cases@[discriminant as int] {
                    assert(!is_async(t));
                    lemma_sync_value_has_no_async_parts(t, *x);
                }
            }
        },
        Type::Option(t) => {
            if let Value::Option(Some(x)) = v {
                lemma_sync_value_has_no_async_parts(*t, *x);
            }
        },
        Type::Result { ok, err } => {
            match v {
                Value::Result(Ok(Some(x))) => {
                    assert(payload_has_type(Some(x), ok));
                    if let Some(t) = ok {
                        assert(has_type(*x, *t));
                        lemma_sync_value_has_no_async_parts(*t, *x);
                    }
                },
                Value::Result(Err(Some(x))) => {
                    assert(payload_has_type(Some(x), err));
                    if let Some(t) = err {
                        assert(has_type(*x, *t));
                        lemma_sync_value_has_no_async_parts(*t, *x);
                    }
                },
                _ => {},
            }
        },
        _ => {},
    }
}

proof fn lemma_string_decodes(b: Seq<u8>, p: int, s: Seq<char>)
    requires
        prefix_at(b, p, string_encoding(s)),
        b.len() <= u64::MAX,
    ensures
        crate::decode::string_end(b, p) == Ok::<int, DecodeError>(p + string_encoding(s).len()),
        vstd::utf8::decode_utf8(
            b.subrange(uint_end_at(b, p), uint_end_at(b, p) + uint_at(b, p)),
        ) == s,
{
    let u = vstd::utf8::encode_utf8(s);
    let n = u.len();
    lemma_prefix_split(b, p, leb128_unsigned(n), u);
    lemma_read_unsigned_prefix(b, p, n as u64);
    vstd::utf8::encode_utf8_valid_utf8(s);
    vstd::utf8::encode_utf8_decode_utf8(s);
}

proof fn lemma_char_decodes<T>(ty: Type, c: char, b: Seq<u8>, p: int)
    requires
        ty == Type::Char,
        prefix_at(b, p, leb128_unsigned(c as nat)),
    ensures
        decode_end::<T>(ty, b, p, None) == Ok::<int, DecodeError>(
            p + leb128_unsigned(c as nat).len(),
        ),
        reads::<T>(ty, b, p, None, Value::Char(c)),
{
    lemma_read_unsigned_prefix(b, p, c as u32 as u64);
    assert(crate::decode::is_unicode_scalar(c as u32));
}

/// Decoding the encoding of a value of a type without futures or streams,
/// with no subscriptions and followed by any bytes, succeeds and stops right
/// after the encoding.
pub proof fn lemma_sync_encoding_decodes<T>(ty: Type, v: Value<AsyncSubscription<T>>, b: Seq<u8>, p: int)
    requires
        !is_async(ty),
        has_type(v, ty),
        lists_fit(v),
        prefix_at(b, p, encoding(v)),
        b.len() <= u64::MAX,
    ensures
        decode_end::<T>(ty, b, p, None) == Ok::<int, DecodeError>(p + encoding(v).len()),
        reads::<T>(ty, b, p, None, v),
    decreases ty, 1int,
{
    assert(encoding_opt::<AsyncSubscription<T>>(None) =~= Seq::<u8>::empty());
    let e = encoding(v);
    assert(e.len() > 0 ==> b[p] == e[0]) by {
        if e.len() > 0 {
            assert(b.subrange(p, p + e.len())[0] == e[0]);
        }
    }
    match v {
        Value::List(_) => lemma_list_value_decodes::<T>(ty, v, b, p),
        Value::Record(_) => lemma_record_decodes::<T>(ty, v, b, p),
        Value::Tuple(_) => lemma_record_decodes::<T>(ty, v, b, p),
        Value::Variant { .. } => lemma_variant_decodes::<T>(ty, v, b, p),
        Value::Option(_) => lemma_option_decodes::<T>(ty, v, b, p),
        Value::Result(_) => lemma_result_decodes::<T>(ty, v, b, p),
        Value::Char(c) => lemma_char_decodes::<T>(ty, c, b, p),
        Value::String(s) => lemma_string_decodes(b, p, s@),
        _ => lemma_number_decodes::<T>(ty, v, b, p),
    }
}

proof fn lemma_number_decodes<T>(ty: Type, v: Value<AsyncSubscription<T>>, b: Seq<u8>, p: int)
    requires
        !(v is List || v is Record || v is Tuple || v is Variant || v is Option || v is Result || v is Char || v is String),
        !is_async(ty),
        has_type(v, ty),
        lists_fit(v),
        prefix_at(b, p, encoding(v)),
        b.len() <= u64::MAX,
    ensures
        decode_end::<T>(ty, b, p, None) == Ok::<int, DecodeError>(p + encoding(v).len()),
        reads::<T>(ty, b, p, None, v),
{
    let e = encoding(v);
    assert(e.len() > 0 ==> b[p] == e[0]) by {
        if e.len() > 0 {
            assert(b.subrange(p, p + e.len())[0] == e[0]);
        }
    }
    match v {
        Value::U16(x) => lemma_read_unsigned_prefix(b, p, x as u64),
        Value::U32(x) => lemma_read_unsigned_prefix(b, p, x as u64),
        Value::U64(x) => lemma_read_unsigned_prefix(b, p, x),
        Value::S16(x) => lemma_read_signed_prefix(b, p, x as i64),
        Value::S32(x) => lemma_read_signed_prefix(b, p, x as i64),
        Value::S64(x) => lemma_read_signed_prefix(b, p, x),
        Value::Enum(x) => lemma_read_unsigned_prefix(b, p, x as u64),
        Value::Flags(x) => lemma_read_unsigned_prefix(b, p, x),
        Value::Float32(x) => {
            assert(b.subrange(p, p + 4) == le_bytes32(x));
            assert(b[p] == le_bytes32(x)[0] && b[p + 1] == le_bytes32(x)[1] && b[p + 2] == le_bytes32(x)[2]
                && b[p + 3] == le_bytes32(x)[3]);
            lemma_le32(x);
        },
        Value::Float64(x) => {
            let lo = (x % 0x1_0000_0000) as u32;
            let hi = (x / 0x1_0000_0000) as u32;
            lemma_prefix_split(b, p, le_bytes32(lo), le_bytes32(hi));
            assert(b[p] == le_bytes32(lo)[0] && b[p + 1] == le_bytes32(lo)[1] && b[p + 2] == le_bytes32(lo)[2]
                && b[p + 3] == le_bytes32(lo)[3]);
            assert(b[p + 4] == le_bytes32(hi)[0] && b[p + 5] == le_bytes32(hi)[1] && b[p + 6]
                == le_bytes32(hi)[2] && b[p + 7] == le_bytes32(hi)[3]);
            lemma_le32(lo);
            lemma_le32(hi);
        },
        _ => {},
    }
}

proof fn lemma_le32(x: u32)
    ensures
        (x % 256) as u8 + 256 * ((x / 256 % 256) as u8) + 65536 * ((x / 65536 % 256) as u8)
            + 16777216 * ((x / 16777216) as u8) == x,
{
    assert((x % 256) as u8 + 256 * ((x / 256 % 256) as u8) + 65536 * ((x / 65536 % 256) as u8)
        + 16777216 * ((x / 16777216) as u8) == x) by (nonlinear_arith);
}

proof fn lemma_list_value_decodes<T>(ty: Type, v: Value<AsyncSubscription<T>>, b: Seq<u8>, p: int)
    requires
        v is List,
        !is_async(ty),
        has_type(v, ty),
        lists_fit(v),
        prefix_at(b, p, encoding(v)),
        b.len() <= u64::MAX,
    ensures
        decode_end::<T>(ty, b, p, None) == Ok::<int, DecodeError>(p + encoding(v).len()),
        reads::<T>(ty, b, p, None, v),
    decreases ty, 0int,
{
    if let (Value::List(vs), Type::List(t)) = (v, ty) {
        let n = vs.len();
        lemma_prefix_split(b, p, leb128_unsigned(n as nat), encoding_all(vs@));
        lemma_read_unsigned_prefix(b, p, n as u64);
        lemma_list_decodes::<T>(*t, vs@, b, p + leb128_unsigned(n as nat).len());
    }
}

proof fn lemma_record_decodes<T>(ty: Type, v: Value<AsyncSubscription<T>>, b: Seq<u8>, p: int)
    requires
        v is Record || v is Tuple,
        !is_async(ty),
        has_type(v, ty),
        lists_fit(v),
        prefix_at(b, p, encoding(v)),
        b.len() <= u64::MAX,
    ensures
        decode_end::<T>(ty, b, p, None) == Ok::<int, DecodeError>(p + encoding(v).len()),
        reads::<T>(ty, b, p, None, v),
    decreases ty, 0int,
{
    match (v, ty) {
        (Value::Record(vs), Type::Record(ts)) => {
            assert(vs@.subrange(0, vs.len() as int) =~= vs@);
            lemma_fields_decode::<T>(ts@, vs@, b, p, 0);
        },
        (Value::Tuple(vs), Type::Tuple(ts)) => {
            assert(vs@.subrange(0, vs.len() as int) =~= vs@);
            lemma_fields_decode::<T>(ts@, vs@, b, p, 0);
        },
        _ => {},
    }
}

proof fn lemma_variant_decodes<T>(ty: Type, v: Value<AsyncSubscription<T>>, b: Seq<u8>, p: int)
    requires
        v is Variant,
        !is_async(ty),
        has_type(v, ty),
        lists_fit(v),
        prefix_at(b, p, encoding(v)),
        b.len() <= u64::MAX,
    ensures
        decode_end::<T>(ty, b, p, None) == Ok::<int, DecodeError>(p + encoding(v).len()),
        reads::<T>(ty, b, p, None, v),
    decreases ty, 0int,
{
    assert(encoding_opt::<AsyncSubscription<T>>(None) =~= Seq::<u8>::empty());
    if let (Value::Variant { discriminant, nested }, Type::Variant(cases)) = (v, ty) {
        lemma_prefix_split(b, p, leb128_unsigned(discriminant as nat), encoding_opt(nested));
        lemma_read_unsigned_prefix(b, p, discriminant as u64);
        if let Some(t) = cases@[discriminant as int] {
            assert(!is_async(t));
            if let Some(x) = nested {
                lemma_sync_encoding_decodes::<T>(
                    t,
                    *x,
                    b,
                    p + leb128_unsigned(discriminant as nat).len(),
                );
            }
        }
    }
}

proof fn lemma_option_decodes<T>(ty: Type, v: Value<AsyncSubscription<T>>, b: Seq<u8>, p: int)
    requires
        v is Option,
        !is_async(ty),
        has_type(v, ty),
        lists_fit(v),
        prefix_at(b, p, encoding(v)),
        b.len() <= u64::MAX,
    ensures
        decode_end::<T>(ty, b, p, None) == Ok::<int, DecodeError>(p + encoding(v).len()),
        reads::<T>(ty, b, p, None, v),
    decreases ty, 0int,
{
    let e = encoding(v);
    assert(b[p] == e[0]) by {
        assert(b.subrange(p, p + e.len())[0] == e[0]);
    }
    if let (Value::Option(Some(x)), Type::Option(t)) = (v, ty) {
        lemma_prefix_split(b, p, seq![1u8], encoding(*x));
        lemma_sync_encoding_decodes::<T>(*t, *x, b, p + 1);
    }
}

proof fn lemma_result_decodes<T>(ty: Type, v: Value<AsyncSubscription<T>>, b: Seq<u8>, p: int)
    requires
        v is Result,
        !is_async(ty),
        has_type(v, ty),
        lists_fit(v),
        prefix_at(b, p, encoding(v)),
        b.len() <= u64::MAX,
    ensures
        decode_end::<T>(ty, b, p, None) == Ok::<int, DecodeError>(p + encoding(v).len()),
        reads::<T>(ty, b, p, None, v),
    decreases ty, 0int,
{
    assert(encoding_opt::<AsyncSubscription<T>>(None) =~= Seq::<u8>::empty());
    let e = encoding(v);
    assert(b[p] == e[0]) by {
        assert(b.subrange(p, p + e.len())[0] == e[0]);
    }
    assert(crate::decode::inner_sub::<T>(None, true) == None::<AsyncSubscription<T>>);
    assert(crate::decode::inner_sub::<T>(None, false) == None::<AsyncSubscription<T>>);
    if let (Value::Result(r), Type::Result { ok, err }) = (v, ty) {
        match r {
            Ok(x) => {
                lemma_prefix_split(b, p, seq![0u8], encoding_opt(x));
                assert(payload_has_type(x, ok));
                match (ok, x) {
                    (Some(t), Some(x)) => {
                        lemma_sync_encoding_decodes::<T>(*t, *x, b, p + 1);
                        assert(crate::decode::opt_end::<T>(ok, b, p + 1, None) == Ok::<int, DecodeError>(p + 1 + encoding(*x).len()));
                        assert(reads_payload::<T>(ok, b, p + 1, None, Some(x)));
                    },
                    _ => {
                        assert(crate::decode::opt_end::<T>(ok, b, p + 1, None) == Ok::<int, DecodeError>(p + 1));
                        assert(reads_payload::<T>(ok, b, p + 1, None, x));
                    },
                }
            },
            Err(x) => {
                lemma_prefix_split(b, p, seq![1u8], encoding_opt(x));
                assert(payload_has_type(x, err));
                match (err, x) {
                    (Some(t), Some(x)) => {
                        lemma_sync_encoding_decodes::<T>(*t, *x, b, p + 1);
                        assert(crate::decode::opt_end::<T>(err, b, p + 1, None) == Ok::<int, DecodeError>(p + 1 + encoding(*x).len()));
                        assert(reads_payload::<T>(err, b, p + 1, None, Some(x)));
                    },
                    _ => {
                        assert(crate::decode::opt_end::<T>(err, b, p + 1, None) == Ok::<int, DecodeError>(p + 1));
                        assert(reads_payload::<T>(err, b, p + 1, None, x));
                    },
                }
            },
        }
    }
}

proof fn lemma_list_decodes<T>(t: Type, vs: Seq<Value<AsyncSubscription<T>>>, b: Seq<u8>, p: int)
    requires
        !is_async(t),
        forall|i: int| 0 <= i < vs.len() ==> has_type(#[trigger] vs[i], t) && lists_fit(vs[i]),
        prefix_at(b, p, encoding_all(vs)),
        b.len() <= u64::MAX,
    ensures
        list_end::<T>(t, b, p, vs.len()) == Ok::<int, DecodeError>(p + encoding_all(vs).len()),
        forall|i: int| 0 <= i < vs.len() ==> reads::<T>(t, b, list_pos::<T>(t, b, p, i as nat), None, #[trigger] vs[i]),
    decreases t, vs.len() + 1,
{
    if vs.len() > 0 {
        lemma_encoding_all_front(vs);
        lemma_prefix_split(b, p, encoding(vs[0]), encoding_all(vs.drop_first()));
        lemma_sync_encoding_decodes::<T>(t, vs[0], b, p);
        assert forall|i: int| 0 <= i < vs.drop_first().len() implies has_type(
            #[trigger] vs.drop_first()[i],
            t,
        ) && lists_fit(vs.drop_first()[i]) by {
            assert(vs.drop_first()[i] == vs[i + 1]);
        }
        let q = p + encoding(vs[0]).len();
        lemma_list_decodes::<T>(t, vs.drop_first(), b, q);
        assert(end_of::<T>(t, b, p, None) == q);
        assert forall|i: int| 0 <= i < vs.len() implies reads::<T>(
            t,
            b,
            list_pos::<T>(t, b, p, i as nat),
            None,
            #[trigger] vs[i],
        ) by {
            if i > 0 {
                assert(list_pos::<T>(t, b, p, i as nat) == list_pos::<T>(t, b, q, (i - 1) as nat));
                assert(vs[i] == vs.drop_first()[i - 1]);
            }
        }
    } else {
        assert(encoding_all(vs) =~= Seq::<u8>::empty());
    }
}

proof fn lemma_fields_decode<T>(ts: Seq<Type>, vs: Seq<Value<AsyncSubscription<T>>>, b: Seq<u8>, p: int, i: int)
    requires
        0 <= i <= ts.len(),
        vs.len() == ts.len(),
        forall|j: int| 0 <= j < ts.len() ==> !is_async(#[trigger] ts[j]),
        forall|j: int| 0 <= j < vs.len() ==> has_type(#[trigger] vs[j], ts[j]) && lists_fit(vs[j]),
        prefix_at(b, p, encoding_all(vs.subrange(i, vs.len() as int))),
        b.len() <= u64::MAX,
    ensures
        fields_end::<T>(ts, b, p, None, i) == Ok::<int, DecodeError>(
            p + encoding_all(vs.subrange(i, vs.len() as int)).len(),
        ),
        forall|j: int| i <= j < vs.len() ==> reads::<T>(ts[j], b, field_pos::<T>(ts, b, p, None, i, j), None, #[trigger] vs[j]),
    decreases ts, ts.len() - i + 1,
{
    let rest = vs.subrange(i, vs.len() as int);
    if i < ts.len() {
        lemma_encoding_all_front(rest);
        assert(rest[0] == vs[i]);
        assert(rest.drop_first() =~= vs.subrange(i + 1, vs.len() as int));
        lemma_prefix_split(b, p, encoding(vs[i]), encoding_all(rest.drop_first()));
        lemma_sync_encoding_decodes::<T>(ts[i], vs[i], b, p);
        lemma_fields_decode::<T>(ts, vs, b, p + encoding(vs[i]).len(), i + 1);
    } else {
        assert(rest =~= Seq::<Value<AsyncSubscription<T>>>::empty());
        assert(encoding_all(rest) =~= Seq::<u8>::empty());
    }
}

/// Round trip of a value of a type without futures or streams: its
/// encoding leaves no asynchronous parts, and decoding that encoding,
/// followed by any bytes, succeeds, stops right after it and reads back
/// exactly the value (`reads` pins every integer, bit pattern, character,
/// string, element, field, case and payload of it).
pub proof fn lemma_sync_round_trip<T>(ty: Type, v: Value<AsyncSubscription<T>>, rest: Seq<u8>)
    requires
        !is_async(ty),
        has_type(v, ty),
        lists_fit(v),
        encoding(v).len() + rest.len() <= u64::MAX,
    ensures
        async_parts(v, None),
        decode_end::<T>(ty, encoding(v) + rest, 0, None) == Ok::<int, DecodeError>(
            encoding(v).len() as int,
        ),
        reads::<T>(ty, encoding(v) + rest, 0, None, v),
{
    let b = encoding(v) + rest;
    assert(b.subrange(0, encoding(v).len() as int) =~= encoding(v));
    lemma_sync_value_has_no_async_parts(ty, v);
    lemma_sync_encoding_decodes::<T>(ty, v, b, 0);
}

/// A value of a type without futures or streams has no asynchronous parts
/// but none at all.
pub proof fn lemma_sync_async_parts_none<H>(ty: Type, v: Value<H>, r: Option<AsyncValue<H>>)
    requires
        !is_async(ty),
        has_type(v, ty),
        async_parts(v, r),
    ensures
        r is None,
    decreases ty,
{
    match (ty, v, r) {
        (Type::List(t), Value::List(vs), Some(AsyncValue::List(av))) => {
            assert(async_parts_all(vs@, Some(av@)));
            let i = choose|i: int| 0 <= i < av@.len() && #[trigger] av@[i] is Some;
            lemma_sync_async_parts_none(*t, vs@[i], av@[i]);
        },
        (Type::Record(ts), Value::Record(vs), Some(AsyncValue::Record(av))) => {
            assert(async_parts_all(vs@, Some(av@)));
            assert(vs.len() == ts.len());
            let i = choose|i: int| 0 <= i < av@.len() && #[trigger] av@[i] is Some;
            assert(!is_async(ts@[i]));
            lemma_sync_async_parts_none(ts@[i], vs@[i], av@[i]);
        },
        (Type::Tuple(ts), Value::Tuple(vs), Some(AsyncValue::Tuple(av))) => {
            assert(async_parts_all(vs@, Some(av@)));
            assert(vs.len() == ts.len());
            let i = choose|i: int| 0 <= i < av@.len() && #[trigger] av@[i] is Some;
            assert(!is_async(ts@[i]));
            lemma_sync_async_parts_none(ts@[i], vs@[i], av@[i]);
        },
        (Type::Variant(cases), Value::Variant { discriminant, nested: Some(x) }, Some(a)) => {
            if let (Some(t), AsyncValue::Variant { nested: n, .. }) = (cases@[discriminant as int], a) {
                assert(!is_async(t));
                lemma_sync_async_parts_none(t, *x, Some(*n));
            }
        },
        (Type::Option(t), Value::Option(Some(x)), Some(AsyncValue::Option(n))) => {
            lemma_sync_async_parts_none(*t, *x, Some(*n));
        },
        (Type::Result { ok, .. }, Value::Result(Ok(Some(x))), Some(AsyncValue::ResultOk(n))) => {
            assert(payload_has_type(Some(x), ok));
            if let Some(t) = ok {
                lemma_sync_async_parts_none(*t, *x, Some(*n));
            }
        },
        (Type::Result { err, .. }, Value::Result(Err(Some(x))), Some(AsyncValue::ResultErr(n))) => {
            assert(payload_has_type(Some(x), err));
            if let Some(t) = err {
                lemma_sync_async_parts_none(*t, *x, Some(*n));
            }
        },
        _ => {},
    }
}

/// Whether subject path `q` is one that the subscription on `pattern`
/// receives: an indeterminate index in the pattern stands for any index.
pub open spec fn path_matches(q: Seq<Option<u32>>, pattern: Seq<Option<u32>>) -> bool {
    q.len() == pattern.len() && forall|k: int|
        0 <= k < q.len() ==> (#[trigger] pattern[k] is None || pattern[k] == q[k])
}

/// Whether the subscription tree `s` has a leaf of the same kind as the
/// part `q` (a future or a stream) subscribed on the subject of `q`.
pub open spec fn subscribes_on<H>(s: AsyncSubscription<SubjectPath>, q: (Seq<Option<u32>>, AsyncLeaf<H>)) -> bool
    decreases s,
{
    match s {
        AsyncSubscription::List(b) => subscribes_on(*b, q),
        AsyncSubscription::Option(b) => subscribes_on(*b, q),
        AsyncSubscription::Record(v) => exists|i: int|
            0 <= i < v.len() && (#[trigger] v@[i] matches Some(n) && subscribes_on(n, q)),
        AsyncSubscription::Tuple(v) => exists|i: int|
            0 <= i < v.len() && (#[trigger] v@[i] matches Some(n) && subscribes_on(n, q)),
        AsyncSubscription::Variant(v) => exists|i: int|
            0 <= i < v.len() && (#[trigger] v@[i] matches Some(n) && subscribes_on(n, q)),
        AsyncSubscription::Result { ok, err } => (ok matches Some(n) && subscribes_on(*n, q)) || (
        err matches Some(n) && subscribes_on(*n, q)),
        AsyncSubscription::Future { subscriber, nested } => (q.1 is Future && path_matches(
            q.0,
            subscriber@,
        )) || (nested matches Some(n) && subscribes_on(*n, q)),
        AsyncSubscription::Stream { subscriber, nested } => (q.1 is Stream && path_matches(
            q.0,
            subscriber@,
        )) || (nested matches Some(n) && subscribes_on(*n, q)),
    }
}

/// Whether `plan` has a node and each leaf of `a` at `p` goes to a subject
/// that it subscribes.
pub open spec fn leaves_subscribed<H>(
    p: Seq<Option<u32>>,
    a: AsyncValue<H>,
    plan: Option<AsyncSubscription<SubjectPath>>,
) -> bool {
    plan matches Some(s) && forall|k: int|
        0 <= k < async_leaves(p, a).len() ==> subscribes_on(s, #[trigger] async_leaves(p, a)[k])
}

/// Every asynchronous part that the encoder hands out for a value of type
/// `ty`, sent on the subject that its position gives below `p`, arrives on
/// a subject that the plan for `ty` at `p` subscribes before the call:
/// where a value has asynchronous parts the plan has a node, and each part's
/// subject is one that a leaf of it receives (the plan subscribes list
/// elements on an indeterminate index, which receives every element's
/// subject), and the parts of a resolved future's value go below the
/// future's child subject 0, where the plan puts its nested subscriptions.
pub proof fn lemma_async_parts_are_subscribed<H>(
    ty: Type,
    v: Value<H>,
    r: Option<AsyncValue<H>>,
    p: Seq<Option<u32>>,
    plan: Option<AsyncSubscription<SubjectPath>>,
)
    requires
        type_wf(ty),
        has_type(v, ty),
        async_parts(v, r),
        planned(ty, p, plan),
    ensures
        r matches Some(a) ==> leaves_subscribed(p, a, plan),
{
    assert(path_matches(p, p));
    lemma_parts_subscribed_at(ty, v, r, p, p, plan);
}

proof fn lemma_parts_subscribed_at<H>(
    ty: Type,
    v: Value<H>,
    r: Option<AsyncValue<H>>,
    p: Seq<Option<u32>>,
    pat: Seq<Option<u32>>,
    plan: Option<AsyncSubscription<SubjectPath>>,
)
    requires
        type_wf(ty),
        has_type(v, ty),
        async_parts(v, r),
        path_matches(p, pat),
        planned(ty, pat, plan),
    ensures
        r matches Some(a) ==> leaves_subscribed(p, a, plan),
    decreases ty, 1int,
{
    if !is_async(ty) {
        lemma_sync_async_parts_none(ty, v, r);
        return;
    }
    if r is None {
        return;
    }
    let a = r->Some_0;
    match ty {
        Type::Option(t) => {
            if let Value::Option(Some(x)) = v {
                if let AsyncValue::Option(n) = a {
                    match plan {
                        None => lemma_parts_subscribed_at(*t, *x, Some(*n), p.push(Some(1)), pat.push(Some(1)), None),
                        Some(AsyncSubscription::Option(b)) => {
                            lemma_parts_subscribed_at(*t, *x, Some(*n), p.push(Some(1)), pat.push(Some(1)), Some(*b));
                            assert(async_leaves(p, a) == async_leaves(p.push(Some(1)), *n));
                            assert forall|k: int| 0 <= k < async_leaves(p, a).len() implies subscribes_on(
                                plan->Some_0,
                                #[trigger] async_leaves(p, a)[k],
                            ) by {
                                assert(subscribes_on(*b, async_leaves(p, a)[k]));
                            }
                        },
                        _ => {},
                    }
                }
            }
        },
        Type::Result { ok, err } => {
            match (v, a) {
                (Value::Result(Ok(Some(x))), AsyncValue::ResultOk(n)) => {
                    assert(payload_has_type(Some(x), ok));
                    if let Some(t) = ok {
                        match plan {
                            None => {
                                assert(planned_opt(ok, pat.push(Some(0)), None));
                                lemma_parts_subscribed_at(*t, *x, Some(*n), p.push(Some(0)), pat.push(Some(0)), None);
                            },
                            Some(AsyncSubscription::Result { ok: sok, .. }) => {
                                assert(planned_opt(ok, pat.push(Some(0)), sok));
                                assert(planned(*t, pat.push(Some(0)), unbox(sok)));
                                lemma_parts_subscribed_at(*t, *x, Some(*n), p.push(Some(0)), pat.push(Some(0)), unbox(sok));
                                assert(async_leaves(p, a) == async_leaves(p.push(Some(0)), *n));
                                assert forall|k: int| 0 <= k < async_leaves(p, a).len() implies subscribes_on(
                                    plan->Some_0,
                                    #[trigger] async_leaves(p, a)[k],
                                ) by {
                                    assert(unbox(sok) matches Some(m) && subscribes_on(m, async_leaves(p, a)[k]));
                                }
                            },
                            _ => {},
                        }
                    }
                },
                (Value::Result(Err(Some(x))), AsyncValue::ResultErr(n)) => {
                    assert(payload_has_type(Some(x), err));
                    if let Some(t) = err {
                        match plan {
                            None => {
                                assert(planned_opt(err, pat.push(Some(1)), None));
                                lemma_parts_subscribed_at(*t, *x, Some(*n), p.push(Some(1)), pat.push(Some(1)), None);
                            },
                            Some(AsyncSubscription::Result { err: serr, .. }) => {
                                assert(planned_opt(err, pat.push(Some(1)), serr));
                                assert(planned(*t, pat.push(Some(1)), unbox(serr)));
                                lemma_parts_subscribed_at(*t, *x, Some(*n), p.push(Some(1)), pat.push(Some(1)), unbox(serr));
                                assert(async_leaves(p, a) == async_leaves(p.push(Some(1)), *n));
                                assert forall|k: int| 0 <= k < async_leaves(p, a).len() implies subscribes_on(
                                    plan->Some_0,
                                    #[trigger] async_leaves(p, a)[k],
                                ) by {
                                    assert(unbox(serr) matches Some(m) && subscribes_on(m, async_leaves(p, a)[k]));
                                }
                            },
                            _ => {},
                        }
                    }
                },
                _ => {},
            }
        },
        Type::Variant(cases) => {
            if let (Value::Variant { discriminant: d, nested: Some(x) }, AsyncValue::Variant { discriminant: da, nested: n }) = (v, a) {
                assert(da == d);
                assert(async_leaves(p, a) == async_leaves(p.push(Some(d)), *n));
                if let Some(t) = cases@[d as int] {
                    let q = p.push(Some(d));
                    let qp = pat.push(Some(d));
                    assert(Some((d as int) as u32) == Some(d));
                    match plan {
                        None => lemma_parts_subscribed_at(t, *x, Some(*n), q, qp, None),
                        Some(AsyncSubscription::Variant(sv)) => {
                            lemma_parts_subscribed_at(t, *x, Some(*n), q, qp, sv@[d as int]);
                            assert forall|k: int| 0 <= k < async_leaves(p, a).len() implies subscribes_on(
                                plan->Some_0,
                                #[trigger] async_leaves(p, a)[k],
                            ) by {
                                assert(sv@[d as int] matches Some(m) && subscribes_on(m, async_leaves(p, a)[k]));
                            }
                        },
                        _ => {},
                    }
                }
            }
        },
        Type::Future(t) => {
            match v {
                Value::Future(FutureValue::Ready(Some(x))) => {
                    assert(payload_has_type(Some(x), t));
                    if let (Some(t), AsyncValue::ReadyFuture(n)) = (t, a) {
                        let q = p.push(Some(0));
                        let qp = pat.push(Some(0));
                        assert(async_leaves(p, a) == async_leaves(q, *n));
                        match plan {
                            Some(AsyncSubscription::Future { nested, .. }) => {
                                assert(planned_opt(Some(t), qp, nested));
                                assert(planned(*t, qp, unbox(nested)));
                                lemma_parts_subscribed_at(*t, *x, Some(*n), q, qp, unbox(nested));
                                assert forall|k: int| 0 <= k < async_leaves(p, a).len() implies subscribes_on(
                                    plan->Some_0,
                                    #[trigger] async_leaves(p, a)[k],
                                ) by {
                                    assert(unbox(nested) matches Some(m) && subscribes_on(m, async_leaves(p, a)[k]));
                                }
                            },
                            _ => {},
                        }
                    }
                },
                Value::Future(FutureValue::Pending(_)) => {
                    assert(async_leaves(p, a)[0].0 == p);
                },
                _ => {},
            }
        },
        Type::Stream(_) => {
            assert(async_leaves(p, a)[0].0 == p);
        },
        Type::Resource(_) => {
            assert(async_leaves(p, a)[0].0 == p);
        },
        Type::List(t) => {
            if let (Value::List(vs), AsyncValue::List(av)) = (v, a) {
                lemma_list_subscribed(*t, vs@, av@, p, pat, plan);
                assert(async_leaves(p, a) == async_leaves_all(p, av@, 0));
            }
        },
        Type::Record(ts) => {
            if let (Value::Record(vs), AsyncValue::Record(av)) = (v, a) {
                lemma_fields_subscribed(ts@, vs@, av@, p, pat, plan, true);
                assert(async_leaves(p, a) == async_leaves_all(p, av@, 0));
            }
        },
        Type::Tuple(ts) => {
            if let (Value::Tuple(vs), AsyncValue::Tuple(av)) = (v, a) {
                lemma_fields_subscribed(ts@, vs@, av@, p, pat, plan, false);
                assert(async_leaves(p, a) == async_leaves_all(p, av@, 0));
            }
        },
        _ => {},
    }
}

proof fn lemma_list_subscribed<H>(
    t: Type,
    vs: Seq<Value<H>>,
    av: Seq<Option<AsyncValue<H>>>,
    p: Seq<Option<u32>>,
    pat: Seq<Option<u32>>,
    plan: Option<AsyncSubscription<SubjectPath>>,
)
    requires
        path_matches(p, pat),
        type_wf(t),
        forall|i: int| 0 <= i < vs.len() ==> has_type(#[trigger] vs[i], t),
        async_parts_all(vs, Some(av)),
        match plan {
            None => planned(t, pat.push(None), None),
            Some(s) => s matches AsyncSubscription::List(b) && planned(t, pat.push(None), Some(*b)),
        },
    ensures
        plan matches Some(s) && forall|k: int|
            0 <= k < async_leaves_all(p, av, 0).len() ==> subscribes_on(
                s,
                #[trigger] async_leaves_all(p, av, 0)[k],
            ),
    decreases t, 2int,
{
    let i0 = choose|i: int| 0 <= i < av.len() && #[trigger] av[i] is Some;
    assert(path_matches(p.push(Some(element_index(i0))), pat.push(None)));
    if plan is None {
        lemma_parts_subscribed_at(t, vs[i0], av[i0], p.push(Some(element_index(i0))), pat.push(None), None);
        return;
    }
    let s = plan->Some_0;
    let b = match s {
        AsyncSubscription::List(b) => *b,
        _ => s,
    };
    assert forall|i: int, k: int|
        0 <= i < av.len() && av[i] is Some && 0 <= k < async_leaves(
            p.push(Some(element_index(i))),
            av[i]->Some_0,
        ).len() implies subscribes_on(
        s,
        #[trigger] async_leaves(p.push(Some(element_index(i))), av[i]->Some_0)[k],
    ) by {
        assert(path_matches(p.push(Some(element_index(i))), pat.push(None)));
        lemma_parts_subscribed_at(t, vs[i], av[i], p.push(Some(element_index(i))), pat.push(None), Some(b));
        assert(subscribes_on(b, async_leaves(p.push(Some(element_index(i))), av[i]->Some_0)[k]));
    }
    lemma_leaves_all_subscribed(p, av, 0, s);
}

proof fn lemma_fields_subscribed<H>(
    ts: Seq<Type>,
    vs: Seq<Value<H>>,
    av: Seq<Option<AsyncValue<H>>>,
    p: Seq<Option<u32>>,
    pat: Seq<Option<u32>>,
    plan: Option<AsyncSubscription<SubjectPath>>,
    record: bool,
)
    requires
        path_matches(p, pat),
        ts.len() <= u32::MAX,
        forall|i: int| 0 <= i < ts.len() ==> type_wf(#[trigger] ts[i]),
        vs.len() == ts.len(),
        forall|i: int| 0 <= i < vs.len() ==> has_type(#[trigger] vs[i], ts[i]),
        async_parts_all(vs, Some(av)),
        match plan {
            None => forall|i: int|
                0 <= i < ts.len() ==> planned(#[trigger] ts[i], pat.push(Some(i as u32)), None),
            Some(s) => (if record { s is Record } else { s is Tuple }) && match s {
                AsyncSubscription::Record(sv) => sv.len() == ts.len() && forall|i: int|
                    0 <= i < ts.len() ==> planned(#[trigger] ts[i], pat.push(Some(i as u32)), sv@[i]),
                AsyncSubscription::Tuple(sv) => sv.len() == ts.len() && forall|i: int|
                    0 <= i < ts.len() ==> planned(#[trigger] ts[i], pat.push(Some(i as u32)), sv@[i]),
                _ => false,
            },
        },
    ensures
        plan matches Some(s) && forall|k: int|
            0 <= k < async_leaves_all(p, av, 0).len() ==> subscribes_on(
                s,
                #[trigger] async_leaves_all(p, av, 0)[k],
            ),
    decreases ts, 0int,
{
    let i0 = choose|i: int| 0 <= i < av.len() && #[trigger] av[i] is Some;
    assert(element_index(i0) == i0 as u32);
    if plan is None {
        lemma_parts_subscribed_at(ts[i0], vs[i0], av[i0], p.push(Some(i0 as u32)), pat.push(Some(i0 as u32)), None);
        return;
    }
    let s = plan->Some_0;
    let sv: Seq<Option<AsyncSubscription<SubjectPath>>> = match s {
        AsyncSubscription::Record(sv) => sv@,
        AsyncSubscription::Tuple(sv) => sv@,
        _ => Seq::empty(),
    };
    assert forall|i: int, k: int|
        0 <= i < av.len() && av[i] is Some && 0 <= k < async_leaves(
            p.push(Some(element_index(i))),
            av[i]->Some_0,
        ).len() implies subscribes_on(
        s,
        #[trigger] async_leaves(p.push(Some(element_index(i))), av[i]->Some_0)[k],
    ) by {
        assert(element_index(i) == i as u32);
        lemma_parts_subscribed_at(ts[i], vs[i], av[i], p.push(Some(i as u32)), pat.push(Some(i as u32)), sv[i]);
        assert(sv[i] matches Some(m) && subscribes_on(m, async_leaves(p.push(Some(element_index(i))), av[i]->Some_0)[k]));
    }
    lemma_leaves_all_subscribed(p, av, 0, s);
}

proof fn lemma_leaves_all_subscribed<H>(
    p: Seq<Option<u32>>,
    av: Seq<Option<AsyncValue<H>>>,
    j: int,
    s: AsyncSubscription<SubjectPath>,
)
    requires
        0 <= j,
        forall|i: int, k: int|
            0 <= i < av.len() && av[i] is Some && 0 <= k < async_leaves(
                p.push(Some(element_index(i))),
                av[i]->Some_0,
            ).len() ==> subscribes_on(
                s,
                #[trigger] async_leaves(p.push(Some(element_index(i))), av[i]->Some_0)[k],
            ),
    ensures
        forall|k: int|
            0 <= k < async_leaves_all(p, av, j).len() ==> subscribes_on(
                s,
                #[trigger] async_leaves_all(p, av, j)[k],
            ),
    decreases av.len() - j,
{
    if j < av.len() {
        lemma_leaves_all_subscribed(p, av, j + 1, s);
        let head = match av[j] {
            None => Seq::empty(),
            Some(a) => async_leaves(p.push(Some(element_index(j))), a),
        };
        let tail = async_leaves_all(p, av, j + 1);
        assert(async_leaves_all(p, av, j) == head + tail);
        assert forall|k: int| 0 <= k < async_leaves_all(p, av, j).len() implies subscribes_on(
            s,
            #[trigger] async_leaves_all(p, av, j)[k],
        ) by {
            if k < head.len() {
                assert(async_leaves_all(p, av, j)[k] == head[k]);
            } else {
                assert(async_leaves_all(p, av, j)[k] == tail[k - head.len()]);
            }
        }
    }
}

/// Whether two values are the same value: equal scalars, strings with the
/// same characters, and composites whose parts are the same in turn.
pub open spec fn same_value<H>(v1: Value<H>, v2: Value<H>) -> bool
    decreases v1,
{
    match (v1, v2) {
        (Value::List(a), Value::List(c)) => a.len() == c.len() && forall|i: int|
            0 <= i < a.len() ==> same_value(#[trigger] a@[i], c@[i]),
        (Value::Record(a), Value::Record(c)) => a.len() == c.len() && forall|i: int|
            0 <= i < a.len() ==> same_value(#[trigger] a@[i], c@[i]),
        (Value::Tuple(a), Value::Tuple(c)) => a.len() == c.len() && forall|i: int|
            0 <= i < a.len() ==> same_value(#[trigger] a@[i], c@[i]),
        (
            Value::Variant { discriminant: d1, nested: n1 },
            Value::Variant { discriminant: d2, nested: n2 },
        ) => d1 == d2 && same_payload(n1, n2),
        (Value::Option(x1), Value::Option(x2)) => same_payload(x1, x2),
        (Value::Result(Ok(x1)), Value::Result(Ok(x2))) => same_payload(x1, x2),
        (Value::Result(Err(x1)), Value::Result(Err(x2))) => same_payload(x1, x2),
        (Value::String(s1), Value::String(s2)) => s1@ == s2@,
        _ => v1 == v2,
    }
}

/// `same_value` of optional payloads.
pub open spec fn same_payload<H>(x1: Option<Box<Value<H>>>, x2: Option<Box<Value<H>>>) -> bool
    decreases x1,
{
    match (x1, x2) {
        (None, None) => true,
        (Some(a), Some(c)) => same_value(*a, *c),
        _ => false,
    }
}

/// The bytes at a position denote at most one value of a type without
/// futures or streams.
pub proof fn lemma_reads_unique<T>(
    ty: Type,
    b: Seq<u8>,
    p: int,
    v1: Value<AsyncSubscription<T>>,
    v2: Value<AsyncSubscription<T>>,
)
    requires
        !is_async(ty),
        reads::<T>(ty, b, p, None, v1),
        reads::<T>(ty, b, p, None, v2),
    ensures
        same_value(v1, v2),
    decreases ty, 1int,
{
    assert(field_subs::<T>(None) == None::<Seq<Option<AsyncSubscription<T>>>>);
    assert(inner_sub::<T>(None, true) == None::<AsyncSubscription<T>>);
    assert(inner_sub::<T>(None, false) == None::<AsyncSubscription<T>>);
    match ty {
        Type::List(t) => {
            if let (Value::List(a), Value::List(c)) = (v1, v2) {
                assert forall|i: int| 0 <= i < a.len() implies same_value(#[trigger] a@[i], c@[i]) by {
                    lemma_reads_unique::<T>(
                        *t,
                        b,
                        list_pos::<T>(*t, b, uint_end_at(b, p), i as nat),
                        a@[i],
                        c@[i],
                    );
                }
            }
        },
        Type::Record(ts) => {
            if let (Value::Record(a), Value::Record(c)) = (v1, v2) {
                assert forall|i: int| 0 <= i < a.len() implies same_value(#[trigger] a@[i], c@[i]) by {
                    assert(!is_async(ts@[i]));
                    assert(field_sub::<T>(None, i) == None::<AsyncSubscription<T>>);
                    lemma_reads_unique::<T>(
                        ts@[i],
                        b,
                        field_pos::<T>(ts@, b, p, None, 0, i),
                        a@[i],
                        c@[i],
                    );
                }
            }
        },
        Type::Tuple(ts) => {
            if let (Value::Tuple(a), Value::Tuple(c)) = (v1, v2) {
                assert forall|i: int| 0 <= i < a.len() implies same_value(#[trigger] a@[i], c@[i]) by {
                    assert(!is_async(ts@[i]));
                    assert(field_sub::<T>(None, i) == None::<AsyncSubscription<T>>);
                    lemma_reads_unique::<T>(
                        ts@[i],
                        b,
                        field_pos::<T>(ts@, b, p, None, 0, i),
                        a@[i],
                        c@[i],
                    );
                }
            }
        },
        Type::Variant(_) => lemma_reads_unique_variant::<T>(ty, b, p, v1, v2),
        Type::Option(t) => {
            assert(same_payload::<AsyncSubscription<T>>(None, None));
            if let (Value::Option(Some(x1)), Value::Option(Some(x2))) = (v1, v2) {
                lemma_reads_unique::<T>(*t, b, p + 1, *x1, *x2);
                assert(same_payload(Some(x1), Some(x2)));
            }
        },
        Type::Result { ok, err } => {
            match (v1, v2) {
                (Value::Result(Ok(x1)), Value::Result(Ok(x2))) => {
                    assert(reads_payload::<T>(ok, b, p + 1, None, x1));
                    assert(reads_payload::<T>(ok, b, p + 1, None, x2));
                    lemma_payloads_unique::<T>(ty, ok, b, p + 1, x1, x2);
                },
                (Value::Result(Err(x1)), Value::Result(Err(x2))) => {
                    assert(reads_payload::<T>(err, b, p + 1, None, x1));
                    assert(reads_payload::<T>(err, b, p + 1, None, x2));
                    lemma_payloads_unique::<T>(ty, err, b, p + 1, x1, x2);
                },
                _ => {},
            }
        },
        Type::Char => {
            if let (Value::Char(c1), Value::Char(c2)) = (v1, v2) {
                assert(c1 as u32 == c2 as u32);
                assert(c1 == c2);
            }
        },
        _ => {
            assert(same_payload::<AsyncSubscription<T>>(None, None));
        },
    }
}

proof fn lemma_payloads_unique<T>(
    ty: Type,
    t: Option<Box<Type>>,
    b: Seq<u8>,
    p: int,
    x1: Option<Box<Value<AsyncSubscription<T>>>>,
    x2: Option<Box<Value<AsyncSubscription<T>>>>,
)
    requires
        t matches Some(u) ==> decreases_to!(ty => *u) && !is_async(*u),
        reads_payload::<T>(t, b, p, None, x1),
        reads_payload::<T>(t, b, p, None, x2),
    ensures
        same_payload(x1, x2),
    decreases ty, 0int,
{
    match (t, x1, x2) {
        (Some(u), Some(y1), Some(y2)) => {
            lemma_reads_unique::<T>(*u, b, p, *y1, *y2);
        },
        _ => {},
    }
}

proof fn lemma_reads_unique_variant<T>(
    ty: Type,
    b: Seq<u8>,
    p: int,
    v1: Value<AsyncSubscription<T>>,
    v2: Value<AsyncSubscription<T>>,
)
    requires
        ty is Variant,
        !is_async(ty),
        reads::<T>(ty, b, p, None, v1),
        reads::<T>(ty, b, p, None, v2),
    ensures
        same_value(v1, v2),
    decreases ty, 0int,
{
    if let (
        Type::Variant(cases),
        Value::Variant { discriminant: d, nested: n1 },
        Value::Variant { discriminant: d2, nested: n2 },
    ) = (ty, v1, v2) {
        assert(d == d2);
        assert(case_sub::<T>(None, d as int) == None::<AsyncSubscription<T>>);
        match cases@[d as int] {
            None => {
                assert(same_payload(n1, n2));
            },
            Some(t) => {
                if let (Some(x1), Some(x2)) = (n1, n2) {
                    assert(!is_async(t));
                    lemma_reads_unique::<T>(t, b, uint_end_at(b, p), *x1, *x2);
                    assert(same_payload(n1, n2));
                }
            },
        }
    }
}

/// Decoding the encoding of a value of a type without futures or streams
/// gives that value back: whatever value the decoder returns reads as the
/// bytes denote (as `decode` ensures), and it is then the same value.
pub proof fn lemma_decode_of_encoding_is_the_value<T>(
    ty: Type,
    v: Value<AsyncSubscription<T>>,
    rest: Seq<u8>,
    decoded: Value<AsyncSubscription<T>>,
)
    requires
        !is_async(ty),
        has_type(v, ty),
        lists_fit(v),
        encoding(v).len() + rest.len() <= u64::MAX,
        reads::<T>(ty, encoding(v) + rest, 0, None, decoded),
    ensures
        same_value(decoded, v),
{
    lemma_sync_round_trip::<T>(ty, v, rest);
    lemma_reads_unique::<T>(ty, encoding(v) + rest, 0, decoded, v);
}

/// The frames that publish the items `vs` of a stream, one after the other:
/// 1 and the item's encoding each.
pub open spec fn item_frames<H>(vs: Seq<Value<H>>) -> Seq<u8>
    decreases vs.len(),
{
    if vs.len() == 0 {
        Seq::empty()
    } else {
        seq![1u8] + encoding(vs[0]) + item_frames(vs.drop_first())
    }
}

proof fn lemma_item_frames_positions<T>(t: Type, vs: Seq<Value<AsyncSubscription<T>>>, b: Seq<u8>, p: int)
    requires
        !is_async(t),
        forall|i: int| 0 <= i < vs.len() ==> has_type(#[trigger] vs[i], t) && lists_fit(vs[i]),
        prefix_at(b, p, item_frames(vs) + seq![0u8]),
        b.len() <= u64::MAX,
    ensures
        forall|i: int|
            0 <= i < vs.len() ==> frame_read::<T>(
                Some(Box::new(t)),
                b,
                frame_pos::<T>(Some(Box::new(t)), b, p, i as nat),
                Some(#[trigger] vs[i]),
            ),
        frame_pos::<T>(Some(Box::new(t)), b, p, vs.len()) == p + item_frames(vs).len(),
    decreases vs.len(),
{
    let bt = Some(Box::new(t));
    if vs.len() == 0 {
        assert(item_frames(vs) =~= Seq::<u8>::empty());
    } else {
        let e0 = encoding(vs[0]);
        let rest = item_frames(vs.drop_first());
        assert(item_frames(vs) + seq![0u8] =~= seq![1u8] + (e0 + (rest + seq![0u8])));
        lemma_prefix_split(b, p, seq![1u8], e0 + (rest + seq![0u8]));
        lemma_prefix_split(b, p + 1, e0, rest + seq![0u8]);
        assert(b[p] == 1) by {
            assert(b.subrange(p, p + 1)[0] == 1u8);
        }
        lemma_sync_encoding_decodes::<T>(t, vs[0], b, p + 1);
        let q = p + 1 + e0.len();
        assert(item_end::<T>(bt, b, p) == Ok::<int, DecodeError>(q));
        assert forall|i: int| 0 <= i < vs.drop_first().len() implies has_type(
            #[trigger] vs.drop_first()[i],
            t,
        ) && lists_fit(vs.drop_first()[i]) by {
            assert(vs.drop_first()[i] == vs[i + 1]);
        }
        lemma_item_frames_positions::<T>(t, vs.drop_first(), b, q);
        assert forall|i: int| 0 <= i < vs.len() implies frame_read::<T>(
            bt,
            b,
            frame_pos::<T>(bt, b, p, i as nat),
            Some(#[trigger] vs[i]),
        ) by {
            if i > 0 {
                assert(frame_pos::<T>(bt, b, p, i as nat) == frame_pos::<T>(bt, b, q, (i - 1) as nat));
                assert(vs[i] == vs.drop_first()[i - 1]);
            } else {
                assert(reads_item::<T>(bt, b, p + 1, Some(vs[0])));
            }
        }
        assert(frame_pos::<T>(bt, b, p, vs.len()) == frame_pos::<T>(
            bt,
            b,
            q,
            vs.drop_first().len(),
        ));
    }
}

/// Stream items arrive in the order they were published: reading the frames
/// of a stream of a type without futures or streams that hold the items
/// `vs` and then the closing frame, as `receive_stream_frames` does, yields
/// exactly those items, in that order, and stops after the closing frame.
pub proof fn lemma_stream_frames_in_order<T>(
    t: Type,
    vs: Seq<Value<AsyncSubscription<T>>>,
    rest: Seq<u8>,
    items: Seq<Option<Value<AsyncSubscription<T>>>>,
    end: FramesEnd,
    q: int,
)
    requires
        !is_async(t),
        forall|i: int| 0 <= i < vs.len() ==> has_type(#[trigger] vs[i], t) && lists_fit(vs[i]),
        item_frames(vs).len() + 1 + rest.len() <= u64::MAX,
        frames_read::<T>(Some(Box::new(t)), item_frames(vs) + seq![0u8] + rest, 0, items),
        frames_stop::<T>(
            Some(Box::new(t)),
            item_frames(vs) + seq![0u8] + rest,
            0,
            items.len(),
            end,
            q,
        ),
    ensures
        end == FramesEnd::Closed,
        q == item_frames(vs).len() + 1,
        items.len() == vs.len(),
        forall|i: int|
            0 <= i < items.len() ==> (#[trigger] items[i] matches Some(y) && same_value(y, vs[i])),
{
    let bt = Some(Box::new(t));
    let b = item_frames(vs) + seq![0u8] + rest;
    let n = vs.len();
    assert(b.subrange(0, item_frames(vs).len() + 1int) =~= item_frames(vs) + seq![0u8]);
    lemma_item_frames_positions::<T>(t, vs, b, 0);
    let close = item_frames(vs).len() as int;
    assert(b[close] == 0);
    assert(item_end::<T>(bt, b, close) == Ok::<int, DecodeError>(close + 1));
    if items.len() < n {
        let k = items.len() as int;
        assert(frame_read::<T>(bt, b, frame_pos::<T>(bt, b, 0, k as nat), Some(vs[k])));
    }
    if items.len() > n {
        assert(frame_read::<T>(bt, b, frame_pos::<T>(bt, b, 0, n as nat), items[n as int]));
    }
    assert(items.len() == n);
    assert forall|i: int| 0 <= i < items.len() implies (#[trigger] items[i] matches Some(y)
        && same_value(y, vs[i])) by {
        let at = frame_pos::<T>(bt, b, 0, i as nat);
        assert(frame_read::<T>(bt, b, at, items[i]));
        assert(frame_read::<T>(bt, b, at, Some(vs[i])));
        if let Some(y) = items[i] {
            lemma_reads_unique::<T>(t, b, at + 1, y, vs[i]);
        }
    }
}

} // verus!
