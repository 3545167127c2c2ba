//! A verified wire codec for structurally typed, asynchronous RPC values
//! over a publish/subscribe substrate: LEB128 primitives, the encoder and
//! decoder of values, the planner of child-subject subscriptions, the walk
//! of asynchronous parts to their subjects, and the decisions of an
//! invocation.
use vstd::prelude::*;

pub mod leb;
pub mod types;
pub mod subject;
pub mod subscription;
pub mod plan;
pub mod value;
pub mod decode;
pub mod transmit;
pub mod invoke;
pub mod laws;

verus! {

/// Version token of the wire protocol.
pub const PROTOCOL: &'static str = "wrpc.0.0.1";

} // verus!
