//! Fan-in aggregation: several workers each send a fixed sequence of integers
//! over one unbounded channel, and a single aggregator drains it.
//!
//! The decisions of both sides are verified here; threads, pauses and the
//! console belong to the program that drives them.

use vstd::prelude::*;
use crate::aggregator::{Aggregator, AggregatorView};
use crate::producer::{Plan, Producer, ProducerView};

pub mod aggregator;
pub mod channel;
pub mod decimal;
pub mod model;
pub mod producer;
pub mod squares;
pub mod trace;

verus! {

/// The worker that `plan` describes, before its first send.
pub open spec fn fresh_worker(plan: Plan) -> ProducerView {
    ProducerView::fresh(plan.name@, plan.values@, plan.pause_ms)
}

/// Opens one channel and makes a worker for each plan, in the order of the
/// plans, and the aggregator that drains the channel.
///
/// Each worker gets a sending handle of its own. No other handle is left when
/// this returns, so the channel closes once every worker has released its own.
pub fn assemble(plans: Vec<Plan>) -> (parts: (Vec<Producer>, Aggregator))
    ensures
        parts.0.len() == plans.len(),
        forall|i: int| 0 <= i < plans.len() ==> (#[trigger] parts.0[i])@ == fresh_worker(plans[i]),
        parts.1@ == AggregatorView::fresh(),
{
    let (sender, receiver) = channel::open();
    let mut workers: Vec<Producer> = Vec::new();
    for plan in it: plans.into_iter()
        invariant
            it.seq() == plans@,
            workers.len() == it.index(),
            forall|i: int| 0 <= i < workers.len() ==> (#[trigger] workers[i])@ == fresh_worker(plans[i]),
    {
        let handle = channel::another(&sender);
        workers.push(Producer::new(plan, handle));
    }
    (workers, Aggregator::new(receiver))
}

} // verus!
