//! The sending side of asynchronous parts: which child subject each part
//! goes to, and the framing of future payloads and stream items.
use vstd::prelude::*;

use crate::subject::SubjectPath;
use crate::value::{async_parts, encode, encoding, AsyncValue, StreamValue, Value};

verus! {

/// A part of a value that is sent on its own subject: a pending future, or a
/// stream whose items follow one by one.
#[derive(Debug)]
pub enum AsyncLeaf<H> {
    Future(H),
    Stream(StreamValue<H>),
}

/// The child index of element `i` of a composite value.
pub open spec fn element_index(i: int) -> u32 {
    (i % 0x1_0000_0000) as u32
}

/// The leaves of an asynchronous tree whose root goes to subject `p`, each
/// with the subject it goes to, in order.
pub open spec fn async_leaves<H>(p: Seq<Option<u32>>, a: AsyncValue<H>) -> Seq<(Seq<Option<u32>>, AsyncLeaf<H>)>
    decreases a,
{
    match a {
        AsyncValue::List(v) => async_leaves_all(p, v@, 0),
        AsyncValue::Record(v) => async_leaves_all(p, v@, 0),
        AsyncValue::Tuple(v) => async_leaves_all(p, v@, 0),
        AsyncValue::Variant { discriminant, nested } => async_leaves(
            p.push(Some(discriminant)),
            *nested,
        ),
        AsyncValue::Option(n) => async_leaves(p.push(Some(1u32)), *n),
        AsyncValue::ResultOk(n) => async_leaves(p.push(Some(0u32)), *n),
        AsyncValue::ResultErr(n) => async_leaves(p.push(Some(1u32)), *n),
        AsyncValue::ReadyFuture(n) => async_leaves(p.push(Some(0u32)), *n),
        AsyncValue::Future(h) => seq![(p, AsyncLeaf::Future(h))],
        AsyncValue::Stream(s) => seq![(p, AsyncLeaf::Stream(s))],
    }
}

/// The leaves of elements `i..` of a composite node at subject `p`.
pub open spec fn async_leaves_all<H>(
    p: Seq<Option<u32>>,
    v: Seq<Option<AsyncValue<H>>>,
    i: int,
) -> Seq<(Seq<Option<u32>>, AsyncLeaf<H>)>
    decreases v, v.len() - i,
{
    if i < 0 || i >= v.len() {
        Seq::empty()
    } else {
        let head = match v[i] {
            None => Seq::empty(),
            Some(a) => async_leaves(p.push(Some(element_index(i))), a),
        };
        head + async_leaves_all(p, v, i + 1)
    }
}

/// The subjects of a list of targets as paths.
pub open spec fn targets_view<H>(r: Seq<(SubjectPath, AsyncLeaf<H>)>) -> Seq<(Seq<Option<u32>>, AsyncLeaf<H>)> {
    r.map_values(|x: (SubjectPath, AsyncLeaf<H>)| (x.0@, x.1))
}

/// Walks the asynchronous parts of a value sent on `subject`: every future
/// and stream in it, each with the child subject it is sent on.
pub fn async_targets<H>(subject: &SubjectPath, a: AsyncValue<H>) -> (r: Vec<(SubjectPath, AsyncLeaf<H>)>)
    ensures
        targets_view(r@) == async_leaves(subject@, a),
    decreases a,
{
    let mut out: Vec<(SubjectPath, AsyncLeaf<H>)> = Vec::new();
    collect_targets(subject, a, &mut out);
    assert(out@.subrange(0, out@.len() as int) =~= out@);
    out
}

fn collect_targets<H>(subject: &SubjectPath, a: AsyncValue<H>, out: &mut Vec<(SubjectPath, AsyncLeaf<H>)>)
    ensures
        final(out)@.subrange(0, old(out)@.len() as int) == old(out)@,
        final(out)@.len() >= old(out)@.len(),
        targets_view(final(out)@.subrange(old(out)@.len() as int, final(out)@.len() as int))
            == async_leaves(subject@, a),
    decreases a, 1int,
{
    match a {
        AsyncValue::List(v) => collect_all(subject, v, out),
        AsyncValue::Record(v) => collect_all(subject, v, out),
        AsyncValue::Tuple(v) => collect_all(subject, v, out),
        AsyncValue::Variant { discriminant, nested } => collect_targets(
            &subject.child_path(Some(discriminant)),
            *nested,
            out,
        ),
        AsyncValue::Option(n) => collect_targets(&subject.child_path(Some(1)), *n, out),
        AsyncValue::ResultOk(n) => collect_targets(&subject.child_path(Some(0)), *n, out),
        AsyncValue::ResultErr(n) => collect_targets(&subject.child_path(Some(1)), *n, out),
        AsyncValue::ReadyFuture(n) => collect_targets(&subject.child_path(Some(0)), *n, out),
        AsyncValue::Future(h) => {
            out.push((subject.copied(), AsyncLeaf::Future(h)));
        },
        AsyncValue::Stream(s) => {
            out.push((subject.copied(), AsyncLeaf::Stream(s)));
        },
    }
}

fn collect_all<H>(subject: &SubjectPath, v: Vec<Option<AsyncValue<H>>>, out: &mut Vec<(SubjectPath, AsyncLeaf<H>)>)
    ensures
        final(out)@.subrange(0, old(out)@.len() as int) == old(out)@,
        final(out)@.len() >= old(out)@.len(),
        targets_view(final(out)@.subrange(old(out)@.len() as int, final(out)@.len() as int))
            == async_leaves_all(subject@, v@, 0),
    decreases v@, 0int,
{
    let ghost all = v@;
    let ghost start = old(out)@;
    let n: usize = v.len();
    let mut rest = v;
    let mut k: usize = 0;
    while rest.len() > 0
        invariant
            all == v@,
            n == all.len(),
            k + rest.len() == n,
            rest@ == all.subrange(k as int, n as int),
            out@.len() >= start.len(),
            out@.subrange(0, start.len() as int) == start,
            async_leaves_all(subject@, all, 0) == targets_view(
                out@.subrange(start.len() as int, out@.len() as int),
            ) + async_leaves_all(subject@, all, k as int),
        decreases rest.len(),
    {
        let x = rest.remove(0);
        assert(x == all[k as int]);
        let ghost before = out@;
        match x {
            None => {},
            Some(a) => {
                assert(decreases_to!(all => a));
                let idx = (k as u64 % 0x1_0000_0000) as u32;
                collect_targets(&subject.child_path(Some(idx)), a, out);
            },
        }
        proof {
            let added = out@.subrange(before.len() as int, out@.len() as int);
            assert(out@.subrange(start.len() as int, out@.len() as int) =~= before.subrange(
                start.len() as int,
                before.len() as int,
            ) + added);
            assert(out@.subrange(0, start.len() as int) =~= before.subrange(0, start.len() as int));
            assert(targets_view(added) =~= match all[k as int] {
                None => Seq::empty(),
                Some(a) => async_leaves(subject@.push(Some(element_index(k as int))), a),
            });
        }
        k = k + 1;
        assert(rest@ =~= all.subrange(k as int, n as int));
    }
    proof {
        let done = out@.subrange(start.len() as int, out@.len() as int);
        assert(async_leaves_all(subject@, all, k as int) =~= Seq::empty());
        assert(targets_view(done) =~= async_leaves_all(subject@, all, 0));
    }
}

/// The payload of a resolved future on its own subject: the encoding of its
/// value, or nothing for a future of unit. The returned parts travel below
/// the child subject 0 of the future's subject.
pub fn encode_future_payload<H>(v: Option<Value<H>>) -> (r: (Vec<u8>, Option<AsyncValue<H>>))
    ensures
        match v {
            None => r.0@ == Seq::<u8>::empty() && r.1 is None,
            Some(x) => r.0@ == encoding(x) && async_parts(x, r.1),
        },
{
    let mut buf: Vec<u8> = Vec::new();
    match v {
        None => (buf, None),
        Some(x) => {
            let a = encode(x, &mut buf);
            (buf, a)
        },
    }
}

/// The frame of one stream item on the stream's subject: 0 closes the
/// stream, 1 starts an item, followed by its value if it has one.
pub fn encode_stream_item<H>(item: Option<Option<Value<H>>>) -> (r: (Vec<u8>, Option<AsyncValue<H>>))
    ensures
        match item {
            None => r.0@ == seq![0u8] && r.1 is None,
            Some(None) => r.0@ == seq![1u8] && r.1 is None,
            Some(Some(x)) => r.0@ == seq![1u8] + encoding(x) && async_parts(x, r.1),
        },
{
    let mut buf: Vec<u8> = Vec::new();
    match item {
        None => {
            buf.push(0u8);
            (buf, None)
        },
        Some(None) => {
            buf.push(1u8);
            (buf, None)
        },
        Some(Some(x)) => {
            buf.push(1u8);
            let a = encode(x, &mut buf);
            (buf, a)
        },
    }
}

/// The subject of the asynchronous parts of the future on `subject`.
pub fn future_nested_subject(subject: &SubjectPath) -> (r: SubjectPath)
    ensures
        r@ == subject@.push(Some(0u32)),
{
    subject.child_path(Some(0))
}

/// The subject of the asynchronous parts of item `i` of the stream on
/// `subject`.
pub fn stream_item_subject(subject: &SubjectPath, i: u32) -> (r: SubjectPath)
    ensures
        r@ == subject@.push(Some(i)).push(Some(0u32)),
{
    subject.child_path(Some(i)).child_path(Some(0))
}

} // verus!
