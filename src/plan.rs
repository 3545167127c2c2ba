//! The subscription planner: from a type alone, the tree of child subjects
//! on which the asynchronous parts of a value of that type will arrive.
use vstd::prelude::*;

use crate::subject::SubjectPath;
use crate::subscription::AsyncSubscription;
use crate::types::{type_wf, Resource, Type};

verus! {

/// Whether `r` is the subscription plan of a value of type `ty` whose
/// primary subject is at path `p`.
pub open spec fn planned(ty: Type, p: Seq<Option<u32>>, r: Option<AsyncSubscription<SubjectPath>>) -> bool
    decreases ty,
{
    match ty {
        Type::List(t) => match r {
            None => planned(*t, p.push(None), None),
            Some(s) => s matches AsyncSubscription::List(b) && planned(*t, p.push(None), Some(*b)),
        },
        Type::Record(ts) => match r {
            None => forall|i: int|
                0 <= i < ts.len() ==> planned(#[trigger] ts@[i], p.push(Some(i as u32)), None),
            Some(s) => s matches AsyncSubscription::Record(v) && v.len() == ts.len() && (exists|
                i: int,
            | 0 <= i < v.len() && #[trigger] v@[i] is Some) && forall|i: int|
                0 <= i < ts.len() ==> planned(#[trigger] ts@[i], p.push(Some(i as u32)), v@[i]),
        },
        Type::Tuple(ts) => match r {
            None => forall|i: int|
                0 <= i < ts.len() ==> planned(#[trigger] ts@[i], p.push(Some(i as u32)), None),
            Some(s) => s matches AsyncSubscription::Tuple(v) && v.len() == ts.len() && (exists|
                i: int,
            | 0 <= i < v.len() && #[trigger] v@[i] is Some) && forall|i: int|
                0 <= i < ts.len() ==> planned(#[trigger] ts@[i], p.push(Some(i as u32)), v@[i]),
        },
        Type::Variant(ts) => match r {
            None => forall|i: int|
                0 <= i < ts.len() ==> match #[trigger] ts@[i] {
                    None => true,
                    Some(t) => planned(t, p.push(Some(i as u32)), None),
                },
            Some(s) => s matches AsyncSubscription::Variant(v) && v.len() == ts.len() && (exists|
                i: int,
            | 0 <= i < v.len() && #[trigger] v@[i] is Some) && forall|i: int|
                0 <= i < ts.len() ==> match #[trigger] ts@[i] {
                    None => v@[i] is None,
                    Some(t) => planned(t, p.push(Some(i as u32)), v@[i]),
                },
        },
        Type::Option(t) => match r {
            None => planned(*t, p.push(Some(1)), None),
            Some(s) => s matches AsyncSubscription::Option(b) && planned(
                *t,
                p.push(Some(1)),
                Some(*b),
            ),
        },
        Type::Result { ok, err } => match r {
            None => planned_opt(ok, p.push(Some(0)), None) && planned_opt(
                err,
                p.push(Some(1)),
                None,
            ),
            Some(s) => s matches AsyncSubscription::Result { ok: sok, err: serr } && (sok is Some
                || serr is Some) && planned_opt(ok, p.push(Some(0)), sok) && planned_opt(
                err,
                p.push(Some(1)),
                serr,
            ),
        },
        Type::Future(t) => r matches Some(AsyncSubscription::Future { subscriber, nested })
            && subscriber@ == p && planned_opt(t, p.push(Some(0)), nested),
        Type::Stream(t) => r matches Some(AsyncSubscription::Stream { subscriber, nested })
            && subscriber@ == p && planned_opt(t, p.push(None), nested),
        Type::Resource(Resource::Pollable) => r matches Some(
            AsyncSubscription::Future { subscriber, nested },
        ) && subscriber@ == p && nested is None,
        Type::Resource(Resource::InputStream) => r matches Some(
            AsyncSubscription::Stream { subscriber, nested },
        ) && subscriber@ == p && nested is None,
        _ => r is None,
    }
}

/// `planned` for an optional type whose plan, if any, is boxed.
pub open spec fn planned_opt(
    ty: Option<Box<Type>>,
    p: Seq<Option<u32>>,
    r: Option<Box<AsyncSubscription<SubjectPath>>>,
) -> bool
    decreases ty,
{
    match ty {
        None => r is None,
        Some(t) => match r {
            None => planned(*t, p, None),
            Some(b) => planned(*t, p, Some(*b)),
        },
    }
}

/// Plans the subscriptions for a value of type `ty` whose primary payload
/// arrives on `subject`: one leaf per future or stream, at the child subject
/// that carries it, and no node where nothing is asynchronous.
pub fn plan_subscriptions(subject: &SubjectPath, ty: &Type) -> (r: Option<
    AsyncSubscription<SubjectPath>,
>)
    requires
        type_wf(*ty),
    ensures
        planned(*ty, subject@, r),
    decreases ty,
{
    match ty {
        Type::List(t) => {
            let sub = plan_subscriptions(&subject.child_path(None), t);
            match sub {
                None => None,
                Some(s) => Some(AsyncSubscription::List(Box::new(s))),
            }
        },
        Type::Record(ts) => match plan_all(subject, ts) {
            None => None,
            Some(v) => Some(AsyncSubscription::Record(v)),
        },
        Type::Tuple(ts) => match plan_all(subject, ts) {
            None => None,
            Some(v) => Some(AsyncSubscription::Tuple(v)),
        },
        Type::Variant(ts) => match plan_cases(subject, ts) {
            None => None,
            Some(v) => Some(AsyncSubscription::Variant(v)),
        },
        Type::Option(t) => {
            let sub = plan_subscriptions(&subject.child_path(Some(1)), t);
            match sub {
                None => None,
                Some(s) => Some(AsyncSubscription::Option(Box::new(s))),
            }
        },
        Type::Result { ok, err } => {
            let ok = plan_opt(&subject.child_path(Some(0)), ok);
            let err = plan_opt(&subject.child_path(Some(1)), err);
            if ok.is_some() || err.is_some() {
                Some(AsyncSubscription::Result { ok, err })
            } else {
                None
            }
        },
        Type::Future(t) => {
            let nested = plan_opt(&subject.child_path(Some(0)), t);
            Some(AsyncSubscription::Future { subscriber: subject.copied(), nested })
        },
        Type::Stream(t) => {
            let nested = plan_opt(&subject.child_path(None), t);
            Some(AsyncSubscription::Stream { subscriber: subject.copied(), nested })
        },
        Type::Resource(Resource::Pollable) => Some(
            AsyncSubscription::Future { subscriber: subject.copied(), nested: None },
        ),
        Type::Resource(Resource::InputStream) => Some(
            AsyncSubscription::Stream { subscriber: subject.copied(), nested: None },
        ),
        _ => None,
    }
}

fn plan_opt(subject: &SubjectPath, ty: &Option<Box<Type>>) -> (r: Option<
    Box<AsyncSubscription<SubjectPath>>,
>)
    requires
        *ty matches Some(t) ==> type_wf(*t),
    ensures
        planned_opt(*ty, subject@, r),
    decreases ty,
{
    match ty {
        None => None,
        Some(t) => match plan_subscriptions(subject, t) {
            None => None,
            Some(s) => Some(Box::new(s)),
        },
    }
}

fn plan_all(subject: &SubjectPath, ts: &Vec<Type>) -> (r: Option<
    Vec<Option<AsyncSubscription<SubjectPath>>>,
>)
    requires
        ts.len() <= u32::MAX,
        forall|i: int| 0 <= i < ts.len() ==> type_wf(#[trigger] ts@[i]),
    ensures
        match r {
            None => forall|i: int|
                0 <= i < ts.len() ==> planned(#[trigger] ts@[i], subject@.push(Some(i as u32)), None),
            Some(v) => v.len() == ts.len() && (exists|i: int|
                0 <= i < v.len() && #[trigger] v@[i] is Some) && forall|i: int|
                0 <= i < ts.len() ==> planned(
                    #[trigger] ts@[i],
                    subject@.push(Some(i as u32)),
                    v@[i],
                ),
        },
    decreases ts,
{
    let mut subs: Vec<Option<AsyncSubscription<SubjectPath>>> = Vec::new();
    let mut any: bool = false;
    let mut k: usize = 0;
    while k < ts.len()
        invariant
            k <= ts.len() <= u32::MAX,
            forall|i: int| 0 <= i < ts.len() ==> type_wf(#[trigger] ts@[i]),
            subs.len() == k,
            any <==> exists|i: int| 0 <= i < k && #[trigger] subs@[i] is Some,
            forall|i: int|
                0 <= i < k ==> planned(#[trigger] ts@[i], subject@.push(Some(i as u32)), subs@[i]),
        decreases ts.len() - k,
    {
        let sub = plan_subscriptions(&subject.child_path(Some(k as u32)), &ts[k]);
        let found = sub.is_some();
        if found {
            any = true;
        }
        let ghost before = subs@;
        subs.push(sub);
        proof {
            assert(forall|i: int| 0 <= i < k ==> subs@[i] == before[i]);
            if found {
                assert(subs@[k as int] is Some);
            }
        }
        k = k + 1;
    }
    if any {
        Some(subs)
    } else {
        assert forall|i: int| 0 <= i < ts.len() implies planned(
            #[trigger] ts@[i],
            subject@.push(Some(i as u32)),
            None,
        ) by {
            assert(subs@[i] is None);
        }
        None
    }
}

fn plan_cases(subject: &SubjectPath, ts: &Vec<Option<Type>>) -> (r: Option<
    Vec<Option<AsyncSubscription<SubjectPath>>>,
>)
    requires
        ts.len() <= u32::MAX,
        forall|i: int| 0 <= i < ts.len() ==> (#[trigger] ts@[i] matches Some(t) ==> type_wf(t)),
    ensures
        match r {
            None => forall|i: int|
                0 <= i < ts.len() ==> match #[trigger] ts@[i] {
                    None => true,
                    Some(t) => planned(t, subject@.push(Some(i as u32)), None),
                },
            Some(v) => v.len() == ts.len() && (exists|i: int|
                0 <= i < v.len() && #[trigger] v@[i] is Some) && forall|i: int|
                0 <= i < ts.len() ==> match #[trigger] ts@[i] {
                    None => v@[i] is None,
                    Some(t) => planned(t, subject@.push(Some(i as u32)), v@[i]),
                },
        },
    decreases ts,
{
    let mut subs: Vec<Option<AsyncSubscription<SubjectPath>>> = Vec::new();
    let mut any: bool = false;
    let mut k: usize = 0;
    while k < ts.len()
        invariant
            k <= ts.len() <= u32::MAX,
            forall|i: int| 0 <= i < ts.len() ==> (#[trigger] ts@[i] matches Some(t) ==> type_wf(t)),
            subs.len() == k,
            any <==> exists|i: int| 0 <= i < k && #[trigger] subs@[i] is Some,
            forall|i: int|
                0 <= i < k ==> match #[trigger] ts@[i] {
                    None => subs@[i] is None,
                    Some(t) => planned(t, subject@.push(Some(i as u32)), subs@[i]),
                },
        decreases ts.len() - k,
    {
        let sub = match &ts[k] {
            None => None,
            Some(t) => plan_subscriptions(&subject.child_path(Some(k as u32)), t),
        };
        let found = sub.is_some();
        if found {
            any = true;
        }
        let ghost before = subs@;
        subs.push(sub);
        proof {
            assert(forall|i: int| 0 <= i < k ==> subs@[i] == before[i]);
            if found {
                assert(subs@[k as int] is Some);
            }
        }
        k = k + 1;
    }
    if any {
        Some(subs)
    } else {
        assert forall|i: int| 0 <= i < ts.len() implies match #[trigger] ts@[i] {
            None => true,
            Some(t) => planned(t, subject@.push(Some(i as u32)), None),
        } by {
            assert(subs@[i] is None);
        }
        None
    }
}

/// The subjects that the leaves of a subscription plan subscribe, in order.
pub open spec fn plan_subjects(s: AsyncSubscription<SubjectPath>) -> Seq<Seq<Option<u32>>>
    decreases s,
{
    match s {
        AsyncSubscription::List(b) => plan_subjects(*b),
        AsyncSubscription::Option(b) => plan_subjects(*b),
        AsyncSubscription::Record(v) => plan_subjects_all(v@, 0),
        AsyncSubscription::Tuple(v) => plan_subjects_all(v@, 0),
        AsyncSubscription::Variant(v) => plan_subjects_all(v@, 0),
        AsyncSubscription::Result { ok, err } => plan_subjects_opt(ok) + plan_subjects_opt(err),
        AsyncSubscription::Future { subscriber, nested } => seq![subscriber@] + plan_subjects_opt(
            nested,
        ),
        AsyncSubscription::Stream { subscriber, nested } => seq![subscriber@] + plan_subjects_opt(
            nested,
        ),
    }
}

/// `plan_subjects` of an optional boxed node.
pub open spec fn plan_subjects_opt(s: Option<Box<AsyncSubscription<SubjectPath>>>) -> Seq<Seq<Option<u32>>>
    decreases s,
{
    match s {
        None => Seq::empty(),
        Some(b) => plan_subjects(*b),
    }
}

/// `plan_subjects` of the nodes `i..` of a composite node.
pub open spec fn plan_subjects_all(v: Seq<Option<AsyncSubscription<SubjectPath>>>, i: int) -> Seq<Seq<Option<u32>>>
    decreases v, v.len() - i,
{
    if i < 0 || i >= v.len() {
        Seq::empty()
    } else {
        match v[i] {
            None => plan_subjects_all(v, i + 1),
            Some(n) => plan_subjects(n) + plan_subjects_all(v, i + 1),
        }
    }
}

/// The subjects of a list of subjects as paths.
pub open spec fn paths_view(r: Seq<SubjectPath>) -> Seq<Seq<Option<u32>>> {
    r.map_values(|x: SubjectPath| x@)
}

/// Every subject that a subscription plan subscribes, in order.
pub fn subscribed_subjects(s: &AsyncSubscription<SubjectPath>) -> (r: Vec<SubjectPath>)
    ensures
        paths_view(r@) == plan_subjects(*s),
{
    let mut out: Vec<SubjectPath> = Vec::new();
    push_subjects(s, &mut out);
    assert(out@.subrange(0, out@.len() as int) =~= out@);
    out
}

fn push_subjects(s: &AsyncSubscription<SubjectPath>, out: &mut Vec<SubjectPath>)
    ensures
        final(out)@.len() >= old(out)@.len(),
        final(out)@.subrange(0, old(out)@.len() as int) == old(out)@,
        paths_view(final(out)@.subrange(old(out)@.len() as int, final(out)@.len() as int))
            == plan_subjects(*s),
    decreases s, 1int,
{
    match s {
        AsyncSubscription::List(b) => push_subjects(b, out),
        AsyncSubscription::Option(b) => push_subjects(b, out),
        AsyncSubscription::Record(v) => push_subjects_all(v, out),
        AsyncSubscription::Tuple(v) => push_subjects_all(v, out),
        AsyncSubscription::Variant(v) => push_subjects_all(v, out),
        AsyncSubscription::Result { ok, err } => {
            let ghost start = out@;
            push_subjects_opt(ok, out);
            let ghost mid = out@;
            push_subjects_opt(err, out);
            assert(out@.subrange(start.len() as int, out@.len() as int) =~= mid.subrange(
                start.len() as int,
                mid.len() as int,
            ) + out@.subrange(mid.len() as int, out@.len() as int));
            assert(out@.subrange(0, start.len() as int) =~= mid.subrange(0, start.len() as int));
        },
        AsyncSubscription::Future { subscriber, nested } | AsyncSubscription::Stream {
            subscriber,
            nested,
        } => {
            let ghost start = out@;
            out.push(subscriber.copied());
            let ghost mid = out@;
            push_subjects_opt(nested, out);
            assert(out@.subrange(start.len() as int, out@.len() as int) =~= mid.subrange(
                start.len() as int,
                mid.len() as int,
            ) + out@.subrange(mid.len() as int, out@.len() as int));
            assert(out@.subrange(0, start.len() as int) =~= mid.subrange(0, start.len() as int));
            assert(paths_view(mid.subrange(start.len() as int, mid.len() as int)) =~= seq![subscriber@]);
        },
    }
}

fn push_subjects_opt(s: &Option<Box<AsyncSubscription<SubjectPath>>>, out: &mut Vec<SubjectPath>)
    ensures
        final(out)@.len() >= old(out)@.len(),
        final(out)@.subrange(0, old(out)@.len() as int) == old(out)@,
        paths_view(final(out)@.subrange(old(out)@.len() as int, final(out)@.len() as int))
            == plan_subjects_opt(*s),
    decreases s, 0int,
{
    match s {
        None => {
            assert(out@.subrange(out@.len() as int, out@.len() as int) =~= Seq::<SubjectPath>::empty());
            assert(out@.subrange(0, out@.len() as int) =~= out@);
        },
        Some(b) => push_subjects(b, out),
    }
}

fn push_subjects_all(v: &Vec<Option<AsyncSubscription<SubjectPath>>>, out: &mut Vec<SubjectPath>)
    ensures
        final(out)@.len() >= old(out)@.len(),
        final(out)@.subrange(0, old(out)@.len() as int) == old(out)@,
        paths_view(final(out)@.subrange(old(out)@.len() as int, final(out)@.len() as int))
            == plan_subjects_all(v@, 0),
    decreases v, 0int,
{
    let ghost start = old(out)@;
    let mut k: usize = 0;
    while k < v.len()
        invariant
            k <= v.len(),
            out@.len() >= start.len(),
            out@.subrange(0, start.len() as int) == start,
            plan_subjects_all(v@, 0) == paths_view(out@.subrange(start.len() as int, out@.len() as int))
                + plan_subjects_all(v@, k as int),
        decreases v.len() - k,
    {
        let ghost before = out@;
        match &v[k] {
            None => {},
            Some(n) => {
                push_subjects(n, out);
            },
        }
        proof {
            assert(out@.subrange(start.len() as int, out@.len() as int) =~= before.subrange(
                start.len() as int,
                before.len() as int,
            ) + out@.subrange(before.len() as int, out@.len() as int));
            assert(out@.subrange(0, start.len() as int) =~= before.subrange(0, start.len() as int));
            if v@[k as int] is None {
                assert(out@.subrange(before.len() as int, out@.len() as int) =~= Seq::<SubjectPath>::empty());
            }
        }
        k = k + 1;
    }
    assert(plan_subjects_all(v@, k as int) =~= Seq::<Seq<Option<u32>>>::empty());
}

} // verus!
