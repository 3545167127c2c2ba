//! Subscription trees: the receiver's plan of every child subject on which
//! asynchronous parts of a value arrive.
use vstd::prelude::*;


verus! {

/// A tree that mirrors the asynchronous skeleton of a type. Leaves hold the
/// subscription (of type `T`) of a future or a stream; inner nodes hold
/// `None` where a branch has nothing asynchronous.
#[derive(Debug)]
pub enum AsyncSubscription<T> {
    List(Box<AsyncSubscription<T>>),
    Record(Vec<Option<AsyncSubscription<T>>>),
    Tuple(Vec<Option<AsyncSubscription<T>>>),
    Variant(Vec<Option<AsyncSubscription<T>>>),
    Option(Box<AsyncSubscription<T>>),
    Result { ok: Option<Box<AsyncSubscription<T>>>, err: Option<Box<AsyncSubscription<T>>> },
    Future { subscriber: T, nested: Option<Box<AsyncSubscription<T>>> },
    Stream { subscriber: T, nested: Option<Box<AsyncSubscription<T>>> },
}

/// The kinds of subscription node.
#[derive(Debug, Clone, Copy, PartialEq, Eq, Structural)]
pub enum SubscriptionKind {
    List,
    Record,
    Tuple,
    Variant,
    Option,
    Result,
    Future,
    Stream,
}

/// Why a subscription tree could not be used.
#[derive(Debug, Clone, Copy, PartialEq, Eq, Structural)]
pub enum SubscriptionError {
    /// The node is not of the kind that was asked for.
    Mismatch(SubscriptionKind),
    /// The elements of a node of this kind cannot be demultiplexed yet.
    DemuxUnsupported(SubscriptionKind),
    /// Only list and stream nodes can be demultiplexed.
    NotDemultiplexable,
}

/// The error of demultiplexing a node.
pub open spec fn demux_error<T>(s: AsyncSubscription<T>) -> SubscriptionError {
    match s {
        AsyncSubscription::List(_) => SubscriptionError::DemuxUnsupported(SubscriptionKind::List),
        AsyncSubscription::Stream { .. } => SubscriptionError::DemuxUnsupported(
            SubscriptionKind::Stream,
        ),
        _ => SubscriptionError::NotDemultiplexable,
    }
}

/// A stream of the messages of one element of a demultiplexed subscription:
/// those whose indeterminate index is `index`.
#[derive(Debug, Clone, Copy, PartialEq, Eq, Structural)]
pub struct DemuxStream {
    pub index: u64,
}

/// A subscription whose elements are told apart by their index.
#[derive(Debug)]
pub enum AsyncSubscriptionDemux<T> {
    List(AsyncSubscription<T>),
    Stream { element: Option<AsyncSubscription<T>>, end: Option<AsyncSubscription<T>> },
}

/// Whether `r` has the shape of `s`, with every leaf subscription replaced
/// by the messages of element `i`.
pub open spec fn selects<T>(s: AsyncSubscription<T>, i: u64, r: AsyncSubscription<DemuxStream>) -> bool
    decreases s,
{
    match s {
        AsyncSubscription::List(b) => r matches AsyncSubscription::List(rb) && selects(*b, i, *rb),
        AsyncSubscription::Record(v) => r matches AsyncSubscription::Record(rv) && selects_all(
            v@,
            i,
            rv@,
        ),
        AsyncSubscription::Tuple(v) => r matches AsyncSubscription::Tuple(rv) && selects_all(
            v@,
            i,
            rv@,
        ),
        AsyncSubscription::Variant(v) => r matches AsyncSubscription::Variant(rv) && selects_all(
            v@,
            i,
            rv@,
        ),
        AsyncSubscription::Option(b) => r matches AsyncSubscription::Option(rb) && selects(
            *b,
            i,
            *rb,
        ),
        AsyncSubscription::Result { ok, err } => r matches AsyncSubscription::Result {
            ok: rok,
            err: rerr,
        } && selects_box(ok, i, rok) && selects_box(err, i, rerr),
        AsyncSubscription::Future { nested, .. } => r matches AsyncSubscription::Future {
            subscriber,
            nested: rn,
        } && subscriber == (DemuxStream { index: i }) && selects_box(nested, i, rn),
        AsyncSubscription::Stream { nested, .. } => r matches AsyncSubscription::Stream {
            subscriber,
            nested: rn,
        } && subscriber == (DemuxStream { index: i }) && selects_box(nested, i, rn),
    }
}

pub open spec fn selects_box<T>(
    s: Option<Box<AsyncSubscription<T>>>,
    i: u64,
    r: Option<Box<AsyncSubscription<DemuxStream>>>,
) -> bool
    decreases s,
{
    match s {
        None => r is None,
        Some(b) => r matches Some(rb) && selects(*b, i, *rb),
    }
}

pub open spec fn selects_all<T>(
    s: Seq<Option<AsyncSubscription<T>>>,
    i: u64,
    r: Seq<Option<AsyncSubscription<DemuxStream>>>,
) -> bool
    decreases s,
{
    &&& r.len() == s.len()
    &&& forall|j: int|
        0 <= j < s.len() ==> match #[trigger] s[j] {
            None => r[j] is None,
            Some(e) => r[j] matches Some(re) && selects(e, i, re),
        }
}

fn select_node<T>(s: &AsyncSubscription<T>, i: u64) -> (r: AsyncSubscription<DemuxStream>)
    ensures
        selects(*s, i, r),
    decreases s,
{
    match s {
        AsyncSubscription::List(b) => AsyncSubscription::List(Box::new(select_node(b, i))),
        AsyncSubscription::Record(v) => AsyncSubscription::Record(select_all(v, i)),
        AsyncSubscription::Tuple(v) => AsyncSubscription::Tuple(select_all(v, i)),
        AsyncSubscription::Variant(v) => AsyncSubscription::Variant(select_all(v, i)),
        AsyncSubscription::Option(b) => AsyncSubscription::Option(Box::new(select_node(b, i))),
        AsyncSubscription::Result { ok, err } => AsyncSubscription::Result {
            ok: select_box(ok, i),
            err: select_box(err, i),
        },
        AsyncSubscription::Future { nested, .. } => AsyncSubscription::Future {
            subscriber: DemuxStream { index: i },
            nested: select_box(nested, i),
        },
        AsyncSubscription::Stream { nested, .. } => AsyncSubscription::Stream {
            subscriber: DemuxStream { index: i },
            nested: select_box(nested, i),
        },
    }
}

fn select_box<T>(s: &Option<Box<AsyncSubscription<T>>>, i: u64) -> (r: Option<
    Box<AsyncSubscription<DemuxStream>>,
>)
    ensures
        selects_box(*s, i, r),
    decreases s,
{
    match s {
        None => None,
        Some(b) => Some(Box::new(select_node(b, i))),
    }
}

fn select_all<T>(v: &Vec<Option<AsyncSubscription<T>>>, i: u64) -> (r: Vec<
    Option<AsyncSubscription<DemuxStream>>,
>)
    ensures
        selects_all(v@, i, r@),
    decreases v,
{
    let mut r: Vec<Option<AsyncSubscription<DemuxStream>>> = Vec::new();
    let mut k: usize = 0;
    while k < v.len()
        invariant
            k <= v.len(),
            r.len() == k,
            forall|j: int|
                0 <= j < k ==> match #[trigger] v@[j] {
                    None => r@[j] is None,
                    Some(e) => r@[j] matches Some(re) && selects(e, i, re),
                },
        decreases v.len() - k,
    {
        match &v[k] {
            None => r.push(None),
            Some(e) => r.push(Some(select_node(e, i))),
        }
        k = k + 1;
    }
    r
}

impl<T> AsyncSubscriptionDemux<T> {
    /// The subscription of element `i`: the element subscription with each
    /// leaf narrowed to the messages of that element, if there is one.
    pub fn select(&mut self, i: u64) -> (r: Option<AsyncSubscription<DemuxStream>>)
        ensures
            *final(self) == *old(self),
            match *old(self) {
                AsyncSubscriptionDemux::List(s) => r matches Some(rs) && selects(s, i, rs),
                AsyncSubscriptionDemux::Stream { element, .. } => match element {
                    None => r is None,
                    Some(s) => r matches Some(rs) && selects(s, i, rs),
                },
            },
    {
        match self {
            AsyncSubscriptionDemux::List(s) => Some(select_node(s, i)),
            AsyncSubscriptionDemux::Stream { element, .. } => match element {
                None => None,
                Some(s) => Some(select_node(s, i)),
            },
        }
    }
}

impl<T> AsyncSubscription<T> {
    /// Splits a list or stream subscription by element.
    pub fn demux(self) -> (r: Result<AsyncSubscriptionDemux<T>, SubscriptionError>)
        ensures
            r matches Err(e) && e == demux_error(self),
    {
        match self {
            AsyncSubscription::List(_) => Err(
                SubscriptionError::DemuxUnsupported(SubscriptionKind::List),
            ),
            AsyncSubscription::Stream { .. } => Err(
                SubscriptionError::DemuxUnsupported(SubscriptionKind::Stream),
            ),
            _ => Err(SubscriptionError::NotDemultiplexable),
        }
    }

    /// The element subscription of a list node.
    pub fn try_unwrap_list(self) -> (r: Result<AsyncSubscriptionDemux<T>, SubscriptionError>)
        ensures
            match self {
                AsyncSubscription::List(b) => r == Err::<AsyncSubscriptionDemux<T>, _>(
                    demux_error(*b),
                ),
                _ => r == Err::<AsyncSubscriptionDemux<T>, _>(
                    SubscriptionError::Mismatch(SubscriptionKind::List),
                ),
            },
    {
        match self {
            AsyncSubscription::List(sub) => sub.demux(),
            _ => Err(SubscriptionError::Mismatch(SubscriptionKind::List)),
        }
    }

    /// The field subscriptions of a record node.
    pub fn try_unwrap_record(self) -> (r: Result<Vec<Option<AsyncSubscription<T>>>, SubscriptionError>)
        ensures
            match self {
                AsyncSubscription::Record(v) => r == Ok::<_, SubscriptionError>(v),
                _ => r == Err::<Vec<Option<AsyncSubscription<T>>>, _>(
                    SubscriptionError::Mismatch(SubscriptionKind::Record),
                ),
            },
    {
        match self {
            AsyncSubscription::Record(sub) => Ok(sub),
            _ => Err(SubscriptionError::Mismatch(SubscriptionKind::Record)),
        }
    }

    /// The element subscriptions of a tuple node.
    pub fn try_unwrap_tuple(self) -> (r: Result<Vec<Option<AsyncSubscription<T>>>, SubscriptionError>)
        ensures
            match self {
                AsyncSubscription::Tuple(v) => r == Ok::<_, SubscriptionError>(v),
                _ => r == Err::<Vec<Option<AsyncSubscription<T>>>, _>(
                    SubscriptionError::Mismatch(SubscriptionKind::Tuple),
                ),
            },
    {
        match self {
            AsyncSubscription::Tuple(sub) => Ok(sub),
            _ => Err(SubscriptionError::Mismatch(SubscriptionKind::Tuple)),
        }
    }

    /// The case subscriptions of a variant node.
    pub fn try_unwrap_variant(self) -> (r: Result<Vec<Option<AsyncSubscription<T>>>, SubscriptionError>)
        ensures
            match self {
                AsyncSubscription::Variant(v) => r == Ok::<_, SubscriptionError>(v),
                _ => r == Err::<Vec<Option<AsyncSubscription<T>>>, _>(
                    SubscriptionError::Mismatch(SubscriptionKind::Variant),
                ),
            },
    {
        match self {
            AsyncSubscription::Variant(sub) => Ok(sub),
            _ => Err(SubscriptionError::Mismatch(SubscriptionKind::Variant)),
        }
    }

    /// The `some` subscription of an option node.
    pub fn try_unwrap_option(self) -> (r: Result<AsyncSubscription<T>, SubscriptionError>)
        ensures
            match self {
                AsyncSubscription::Option(b) => r == Ok::<_, SubscriptionError>(*b),
                _ => r == Err::<AsyncSubscription<T>, _>(
                    SubscriptionError::Mismatch(SubscriptionKind::Option),
                ),
            },
    {
        match self {
            AsyncSubscription::Option(sub) => Ok(*sub),
            _ => Err(SubscriptionError::Mismatch(SubscriptionKind::Option)),
        }
    }

    /// The `ok` and `err` subscriptions of a result node.
    pub fn try_unwrap_result(self) -> (r: Result<
        (Option<AsyncSubscription<T>>, Option<AsyncSubscription<T>>),
        SubscriptionError,
    >)
        ensures
            match self {
                AsyncSubscription::Result { ok, err } => r matches Ok((rok, rerr)) && unbox(ok)
                    == rok && unbox(err) == rerr,
                _ => r == Err::<(Option<AsyncSubscription<T>>, Option<AsyncSubscription<T>>), _>(
                    SubscriptionError::Mismatch(SubscriptionKind::Result),
                ),
            },
    {
        match self {
            AsyncSubscription::Result { ok, err } => Ok((unbox_exec(ok), unbox_exec(err))),
            _ => Err(SubscriptionError::Mismatch(SubscriptionKind::Result)),
        }
    }

    /// The subscriber and nested subscription of a future node.
    pub fn try_unwrap_future(self) -> (r: Result<(T, Option<AsyncSubscription<T>>), SubscriptionError>)
        ensures
            match self {
                AsyncSubscription::Future { subscriber, nested } => r matches Ok((s, n)) && s
                    == subscriber && n == unbox(nested),
                _ => r == Err::<(T, Option<AsyncSubscription<T>>), _>(
                    SubscriptionError::Mismatch(SubscriptionKind::Future),
                ),
            },
    {
        match self {
            AsyncSubscription::Future { subscriber, nested } => Ok((subscriber, unbox_exec(nested))),
            _ => Err(SubscriptionError::Mismatch(SubscriptionKind::Future)),
        }
    }

    /// The subscriber of a stream node, with its element subscription split
    /// by element.
    pub fn try_unwrap_stream(self) -> (r: Result<
        (T, Option<AsyncSubscriptionDemux<T>>),
        SubscriptionError,
    >)
        ensures
            match self {
                AsyncSubscription::Stream { subscriber, nested } => match nested {
                    None => r matches Ok((s, n)) && s == subscriber && n is None,
                    Some(b) => r == Err::<(T, Option<AsyncSubscriptionDemux<T>>), _>(
                        demux_error(*b),
                    ),
                },
                _ => r == Err::<(T, Option<AsyncSubscriptionDemux<T>>), _>(
                    SubscriptionError::Mismatch(SubscriptionKind::Stream),
                ),
            },
    {
        match self {
            AsyncSubscription::Stream { subscriber, nested } => match nested {
                None => Ok((subscriber, None)),
                Some(sub) => match sub.demux() {
                    Ok(d) => Ok((subscriber, Some(d))),
                    Err(e) => Err(e),
                },
            },
            _ => Err(SubscriptionError::Mismatch(SubscriptionKind::Stream)),
        }
    }
}

/// The node inside an optional box.
pub open spec fn unbox<A>(b: Option<Box<A>>) -> Option<A> {
    match b {
        None => None,
        Some(x) => Some(*x),
    }
}

fn unbox_exec<A>(b: Option<Box<A>>) -> (r: Option<A>)
    ensures
        r == unbox(b),
{
    match b {
        None => None,
        Some(x) => Some(*x),
    }
}

/// The element subscriptions of an optional tuple node; none when there is
/// no node.
pub fn map_tuple_subscription<T>(sub: Option<AsyncSubscription<T>>) -> (r: Result<
    Vec<Option<AsyncSubscription<T>>>,
    SubscriptionError,
>)
    ensures
        match sub {
            None => r matches Ok(v) && v@.len() == 0,
            Some(AsyncSubscription::Tuple(v)) => r == Ok::<_, SubscriptionError>(v),
            Some(_) => r == Err::<Vec<Option<AsyncSubscription<T>>>, _>(
                SubscriptionError::Mismatch(SubscriptionKind::Tuple),
            ),
        },
{
    match sub {
        None => Ok(Vec::new()),
        Some(s) => s.try_unwrap_tuple(),
    }
}

} // verus!
