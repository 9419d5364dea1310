//! A run of the whole system: the workers, the channel between them and the
//! aggregator, and what holds of every run.
//!
//! A worker and the aggregator move as their own contracts say. The channel
//! is taken to be what its documentation describes: it holds any number of
//! values and hands out the values of one sender in the order in which they
//! were sent. Nothing is assumed of the order between two senders.

use vstd::prelude::*;
use vstd::multiset::*;
use vstd::seq_lib::*;
use crate::aggregator::AggregatorView;
use crate::producer::ProducerView;

verus! {

/// One worker's side of the channel.
pub struct Lane {
    pub worker: ProducerView,
    /// Whether the worker still holds its sending handle.
    pub holding: bool,
    /// The values that the worker has sent and the aggregator has not yet
    /// received, oldest first.
    pub queued: Seq<i32>,
}

impl Lane {
    /// How many more events this lane can give rise to: a send and a receive
    /// for each value still to be sent, a receive for each value under way,
    /// and the release of the handle.
    pub open spec fn cost(self) -> int {
        2 * (self.worker.script.len() - self.worker.sent) + self.queued.len() + if self.holding {
            1int
        } else {
            0int
        }
    }

    /// What holds of a lane throughout a run, where `taken` is what the
    /// aggregator has received from it: what was taken and what is under way
    /// make up what was sent, and a worker without a handle has sent its
    /// whole script.
    pub open spec fn tidy(self, taken: Seq<i32>) -> bool {
        &&& self.worker.wf()
        &&& taken + self.queued == self.worker.done()
        &&& self.holding || self.worker.exhausted()
    }
}

/// What can happen in a run.
pub enum Event {
    /// The channel took the next value of a worker.
    Sent { worker: int },
    /// A worker gave up its sending handle.
    Released { worker: int },
    /// The aggregator received the oldest value under way from a worker.
    Received { worker: int },
    /// The aggregator found the channel closed and drained.
    Closed,
}

/// The state of the whole system at one moment.
pub struct Snapshot {
    pub lanes: Seq<Lane>,
    /// For each value that the aggregator has received, the worker that sent it.
    pub origins: Seq<int>,
    pub aggregator: AggregatorView,
}

/// The values among `values` whose origin is `p`, in their order.
pub open spec fn pick(values: Seq<i32>, origins: Seq<int>, p: int) -> Seq<i32>
    decreases values.len(),
{
    if values.len() == 0 {
        Seq::empty()
    } else {
        let earlier = pick(values.drop_last(), origins.drop_last(), p);
        if origins.last() == p {
            earlier.push(values.last())
        } else {
            earlier
        }
    }
}

/// All the values of all the `parts`, as a multiset.
pub open spec fn union_of(parts: Seq<Seq<i32>>) -> Multiset<i32>
    decreases parts.len(),
{
    if parts.len() == 0 {
        Multiset::empty()
    } else {
        union_of(parts.drop_last()).add(parts.last().to_multiset())
    }
}

/// The sum of the costs of the lanes.
pub open spec fn workload(lanes: Seq<Lane>) -> int
    decreases lanes.len(),
{
    if lanes.len() == 0 {
        0
    } else {
        workload(lanes.drop_last()) + lanes.last().cost()
    }
}

impl Snapshot {
    /// Whether `p` is one of the workers.
    pub open spec fn has(self, p: int) -> bool {
        0 <= p < self.lanes.len()
    }

    /// The state before anything has happened.
    pub open spec fn is_initial(self) -> bool {
        &&& forall|p: int|
            #![trigger self.lanes[p]]
            self.has(p) ==> self.lanes[p].worker.sent == 0 && self.lanes[p].holding
                && self.lanes[p].queued.len() == 0
        &&& self.origins.len() == 0
        &&& self.aggregator == AggregatorView::fresh()
    }

    /// Whether every handle is released and nothing is under way.
    pub open spec fn drained(self) -> bool {
        forall|p: int|
            #![trigger self.lanes[p]]
            self.has(p) ==> !self.lanes[p].holding && self.lanes[p].queued.len() == 0
    }

    /// The script of each worker.
    pub open spec fn scripts(self) -> Seq<Seq<i32>> {
        Seq::new(self.lanes.len(), |p: int| self.lanes[p].worker.script)
    }

    /// The received values that came from worker `p`, in the order of receipt.
    pub open spec fn attributed(self, p: int) -> Seq<i32> {
        pick(self.aggregator.received, self.origins, p)
    }

    /// Whether `event` can happen in this state.
    pub open spec fn enabled(self, event: Event) -> bool {
        match event {
            Event::Sent { worker } => {
                &&& self.has(worker)
                &&& self.lanes[worker].holding
                &&& !self.lanes[worker].worker.exhausted()
            },
            Event::Released { worker } => {
                &&& self.has(worker)
                &&& self.lanes[worker].holding
                &&& self.lanes[worker].worker.exhausted()
            },
            Event::Received { worker } => {
                &&& self.has(worker)
                &&& self.lanes[worker].queued.len() > 0
            },
            Event::Closed => self.drained() && !self.aggregator.closed,
        }
    }

    /// The state after `event`.
    pub open spec fn after(self, event: Event) -> Snapshot {
        match event {
            Event::Sent { worker } => {
                let lane = self.lanes[worker];
                let next = Lane {
                    worker: lane.worker.after_send(true),
                    queued: lane.queued.push(lane.worker.upcoming()),
                    ..lane
                };
                Snapshot { lanes: self.lanes.update(worker, next), ..self }
            },
            Event::Released { worker } => {
                let next = Lane { holding: false, ..self.lanes[worker] };
                Snapshot { lanes: self.lanes.update(worker, next), ..self }
            },
            Event::Received { worker } => {
                let lane = self.lanes[worker];
                let next = Lane { queued: lane.queued.drop_first(), ..lane };
                Snapshot {
                    lanes: self.lanes.update(worker, next),
                    origins: self.origins.push(worker),
                    aggregator: self.aggregator.after(Some(lane.queued.first())),
                }
            },
            Event::Closed => Snapshot { aggregator: self.aggregator.after(None), ..self },
        }
    }

    /// An upper bound on the number of events that can still happen.
    pub open spec fn steps_left(self) -> int {
        workload(self.lanes) + if self.aggregator.closed {
            0int
        } else {
            1int
        }
    }

    /// What holds of every state of a run.
    pub open spec fn consistent(self) -> bool {
        &&& self.origins.len() == self.aggregator.received.len()
        &&& forall|i: int| 0 <= i < self.origins.len() ==> self.has(#[trigger] self.origins[i])
        &&& forall|p: int|
            #![trigger self.lanes[p]]
            self.has(p) ==> self.lanes[p].tidy(self.attributed(p))
        &&& self.aggregator.closed ==> self.drained()
    }
}

/// Whether `run` is a run of the system with `events` as its events:
/// `run[0]` is an initial state, and each event can happen in the state
/// before it and leads to the state after it.
pub open spec fn is_run(run: Seq<Snapshot>, events: Seq<Event>) -> bool {
    &&& run.len() == events.len() + 1
    &&& run[0].is_initial()
    &&& forall|k: int|
        #![trigger events[k]]
        0 <= k < events.len() ==> run[k].enabled(events[k]) && run[k + 1] == run[k].after(
            events[k],
        )
}

proof fn lemma_pick_push(values: Seq<i32>, origins: Seq<int>, v: i32, q: int, p: int)
    requires
        values.len() == origins.len(),
    ensures
        pick(values.push(v), origins.push(q), p) == if q == p {
            pick(values, origins, p).push(v)
        } else {
            pick(values, origins, p)
        },
{
    assert(values.push(v).drop_last() =~= values);
    assert(origins.push(q).drop_last() =~= origins);
}

proof fn lemma_workload_update(lanes: Seq<Lane>, p: int, lane: Lane)
    requires
        0 <= p < lanes.len(),
    ensures
        workload(lanes.update(p, lane)) == workload(lanes) - lanes[p].cost() + lane.cost(),
    decreases lanes.len(),
{
    let changed = lanes.update(p, lane);
    if p == lanes.len() - 1 {
        assert(changed.drop_last() =~= lanes.drop_last());
    } else {
        assert(changed.drop_last() =~= lanes.drop_last().update(p, lane));
        lemma_workload_update(lanes.drop_last(), p, lane);
    }
}

proof fn lemma_workload_bounds(lanes: Seq<Lane>)
    requires
        forall|p: int| 0 <= p < lanes.len() ==> (#[trigger] lanes[p]).worker.wf(),
    ensures
        workload(lanes) >= 0,
        (forall|p: int|
            0 <= p < lanes.len() ==> !(#[trigger] lanes[p]).holding && lanes[p].queued.len() == 0
                && lanes[p].worker.exhausted()) ==> workload(lanes) == 0,
    decreases lanes.len(),
{
    if lanes.len() > 0 {
        let front = lanes.drop_last();
        assert forall|p: int| 0 <= p < front.len() implies (#[trigger] front[p]).worker.wf() by {
            assert(front[p] == lanes[p]);
        }
        lemma_workload_bounds(front);
        assert(lanes.last() == lanes[lanes.len() - 1]);
        if forall|p: int|
            0 <= p < lanes.len() ==> !(#[trigger] lanes[p]).holding && lanes[p].queued.len() == 0
                && lanes[p].worker.exhausted() {
            assert forall|p: int| 0 <= p < front.len() implies !(#[trigger] front[p]).holding
                && front[p].queued.len() == 0 && front[p].worker.exhausted() by {
                assert(front[p] == lanes[p]);
            }
        }
    }
}

/// One event keeps a consistent state consistent, leaves the scripts as
/// they are and uses up one of the steps that are left.
proof fn lemma_step(pre: Snapshot, event: Event)
    requires
        pre.consistent(),
        pre.enabled(event),
    ensures
        pre.after(event).consistent(),
        pre.after(event).scripts() == pre.scripts(),
        pre.after(event).lanes.len() == pre.lanes.len(),
        pre.after(event).steps_left() + 1 == pre.steps_left(),
{
    let post = pre.after(event);
    match event {
        Event::Sent { worker } => {
            let lane = pre.lanes[worker];
            let next = post.lanes[worker];
            lemma_workload_update(pre.lanes, worker, next);
            assert(next.worker.done() =~= lane.worker.done().push(lane.worker.upcoming()));
            assert(pre.attributed(worker) + next.queued =~= (pre.attributed(worker)
                + lane.queued).push(lane.worker.upcoming()));
            assert forall|p: int| #![trigger post.lanes[p]] post.has(p) implies post.lanes[p].tidy(
                post.attributed(p),
            ) by {
                if p != worker {
                    assert(post.lanes[p] == pre.lanes[p]);
                }
            }
            assert(!pre.aggregator.closed);
        },
        Event::Released { worker } => {
            let next = post.lanes[worker];
            lemma_workload_update(pre.lanes, worker, next);
            assert forall|p: int| #![trigger post.lanes[p]] post.has(p) implies post.lanes[p].tidy(
                post.attributed(p),
            ) by {
                if p != worker {
                    assert(post.lanes[p] == pre.lanes[p]);
                }
            }
            assert(!pre.aggregator.closed);
        },
        Event::Received { worker } => {
            let lane = pre.lanes[worker];
            let next = post.lanes[worker];
            let value = lane.queued.first();
            lemma_workload_update(pre.lanes, worker, next);
            assert(!pre.aggregator.closed);
            assert(post.aggregator.received == pre.aggregator.received.push(value));
            assert forall|p: int| #![trigger post.lanes[p]] post.has(p) implies post.lanes[p].tidy(
                post.attributed(p),
            ) by {
                lemma_pick_push(pre.aggregator.received, pre.origins, value, worker, p);
                if p != worker {
                    assert(post.lanes[p] == pre.lanes[p]);
                } else {
                    assert(pre.attributed(p).push(value) + lane.queued.drop_first()
                        =~= pre.attributed(p) + lane.queued);
                }
            }
            assert forall|i: int| 0 <= i < post.origins.len() implies post.has(
                #[trigger] post.origins[i],
            ) by {
                if i < pre.origins.len() {
                    assert(post.origins[i] == pre.origins[i]);
                }
            }
            assert(!post.aggregator.closed);
        },
        Event::Closed => {
            assert forall|p: int| #![trigger post.lanes[p]] post.has(p) implies post.lanes[p].tidy(
                post.attributed(p),
            ) by {
                assert(post.lanes[p] == pre.lanes[p]);
            }
        },
    }
    assert(post.scripts() =~= pre.scripts());
}

/// Every state of a run is consistent, has the scripts of the first state
/// and has as many steps left as the first state, less the events so far.
proof fn lemma_run_consistent(run: Seq<Snapshot>, events: Seq<Event>, k: int)
    requires
        is_run(run, events),
        0 <= k < run.len(),
    ensures
        run[k].consistent(),
        run[k].scripts() == run[0].scripts(),
        run[k].lanes.len() == run[0].lanes.len(),
        run[k].steps_left() + k == run[0].steps_left(),
    decreases k,
{
    if k == 0 {
        let first = run[0];
        assert forall|p: int| #![trigger first.lanes[p]] first.has(p) implies first.lanes[p].tidy(
            first.attributed(p),
        ) by {
            assert(first.attributed(p) + first.lanes[p].queued =~= first.lanes[p].worker.done());
        }
    } else {
        lemma_run_consistent(run, events, k - 1);
        let event = events[k - 1];
        assert(run[k - 1].enabled(event) && run[k - 1 + 1] == run[k - 1].after(event));
        lemma_step(run[k - 1], event);
    }
}

/// Adding a value to one part adds it to the union.
proof fn lemma_union_push(parts: Seq<Seq<i32>>, q: int, v: i32)
    requires
        0 <= q < parts.len(),
    ensures
        union_of(parts.update(q, parts[q].push(v))) =~= union_of(parts).insert(v),
    decreases parts.len(),
{
    let changed = parts.update(q, parts[q].push(v));
    if q == parts.len() - 1 {
        assert(changed.drop_last() =~= parts.drop_last());
        to_multiset_build(parts[q], v);
    } else {
        assert(changed.drop_last() =~= parts.drop_last().update(q, parts[q].push(v)));
        lemma_union_push(parts.drop_last(), q, v);
    }
}

/// The union of empty parts is empty.
proof fn lemma_union_of_empties(parts: Seq<Seq<i32>>)
    requires
        forall|p: int| 0 <= p < parts.len() ==> (#[trigger] parts[p]).len() == 0,
    ensures
        union_of(parts) =~= Multiset::empty(),
    decreases parts.len(),
{
    if parts.len() > 0 {
        let front = parts.drop_last();
        assert forall|p: int| 0 <= p < front.len() implies (#[trigger] front[p]).len() == 0 by {
            assert(front[p] == parts[p]);
        }
        lemma_union_of_empties(front);
        assert(parts.last() == parts[parts.len() - 1]);
        parts.last().to_multiset_ensures();
    }
}

/// Values sorted by origin are the same values.
proof fn lemma_partition(values: Seq<i32>, origins: Seq<int>, n: nat)
    requires
        values.len() == origins.len(),
        forall|i: int| 0 <= i < origins.len() ==> 0 <= #[trigger] origins[i] < n,
    ensures
        values.to_multiset() =~= union_of(Seq::new(n, |p: int| pick(values, origins, p))),
    decreases values.len(),
{
    let parts = Seq::new(n, |p: int| pick(values, origins, p));
    if values.len() == 0 {
        lemma_union_of_empties(parts);
        values.to_multiset_ensures();
    } else {
        let front = values.drop_last();
        let front_origins = origins.drop_last();
        let v = values.last();
        let q = origins.last();
        let before = Seq::new(n, |p: int| pick(front, front_origins, p));
        assert forall|i: int| 0 <= i < front_origins.len() implies 0
            <= #[trigger] front_origins[i] < n by {
            assert(front_origins[i] == origins[i]);
        }
        lemma_partition(front, front_origins, n);
        assert(0 <= q < n) by {
            assert(q == origins[origins.len() - 1]);
        }
        assert(parts =~= before.update(q, before[q].push(v)));
        lemma_union_push(before, q, v);
        to_multiset_build(front, v);
        assert(front.push(v) =~= values);
    }
}

/// A sequence holds each value at least as often as any of its prefixes.
proof fn lemma_prefix_multiset(part: Seq<i32>, whole: Seq<i32>)
    requires
        part.is_prefix_of(whole),
    ensures
        part.to_multiset().subset_of(whole.to_multiset()),
{
    let rest = whole.subrange(part.len() as int, whole.len() as int);
    assert(whole =~= part + rest);
    lemma_multiset_commutative(part, rest);
}

/// Where each part holds no more than its counterpart, the union holds no
/// more than the counterparts' union.
proof fn lemma_union_monotone(parts: Seq<Seq<i32>>, wholes: Seq<Seq<i32>>)
    requires
        parts.len() == wholes.len(),
        forall|p: int|
            0 <= p < parts.len() ==> (#[trigger] parts[p]).to_multiset().subset_of(
                wholes[p].to_multiset(),
            ),
    ensures
        union_of(parts).subset_of(union_of(wholes)),
    decreases parts.len(),
{
    if parts.len() > 0 {
        let front = parts.drop_last();
        let wide = wholes.drop_last();
        assert forall|p: int| 0 <= p < front.len() implies (#[trigger] front[p])
            .to_multiset().subset_of(wide[p].to_multiset()) by {
            assert(front[p] == parts[p]);
            assert(wide[p] == wholes[p]);
        }
        lemma_union_monotone(front, wide);
        let last = parts.len() - 1;
        assert(parts[last].to_multiset().subset_of(wholes[last].to_multiset()));
    }
}

/// The values received from a worker are the first values of its script, in
/// the script's order: at every moment of every run, for every worker.
pub proof fn lemma_order_preserved(run: Seq<Snapshot>, events: Seq<Event>, k: int, p: int)
    requires
        is_run(run, events),
        0 <= k < run.len(),
        run[0].has(p),
    ensures
        run[k].attributed(p).is_prefix_of(run[0].lanes[p].worker.script),
        run[k].attributed(p) + run[k].lanes[p].queued == run[k].lanes[p].worker.done(),
        run[k].lanes[p].worker.script == run[0].lanes[p].worker.script,
{
    lemma_run_consistent(run, events, k);
    let lane = run[k].lanes[p];
    assert(run[k].has(p));
    assert(lane.tidy(run[k].attributed(p)));
    assert(run[k].scripts()[p] == run[0].scripts()[p]);
    let taken = run[k].attributed(p);
    assert((taken + lane.queued).len() == lane.worker.done().len());
    assert forall|i: int| 0 <= i < taken.len() implies taken[i] == lane.worker.script[i] by {
        assert((taken + lane.queued)[i] == lane.worker.done()[i]);
    }
}

/// Once the aggregator has found the channel closed, it has received each
/// value of each script exactly as often as the scripts hold it: nothing is
/// lost and nothing comes twice.
pub proof fn lemma_nothing_lost_or_duplicated(run: Seq<Snapshot>, events: Seq<Event>, k: int)
    requires
        is_run(run, events),
        0 <= k < run.len(),
        run[k].aggregator.closed,
    ensures
        run[k].aggregator.received.to_multiset() == union_of(run[0].scripts()),
        forall|p: int| run[0].has(p) ==> run[k].attributed(p) == run[0].lanes[p].worker.script,
{
    lemma_run_consistent(run, events, k);
    let last = run[k];
    let n = last.lanes.len();
    let parts = Seq::new(n, |p: int| pick(last.aggregator.received, last.origins, p));
    lemma_partition(last.aggregator.received, last.origins, n);
    assert forall|p: int| 0 <= p < n implies last.attributed(p) == last.lanes[p].worker.script by {
        let lane = last.lanes[p];
        assert(last.has(p));
        assert(lane.tidy(last.attributed(p)));
        assert(last.attributed(p) + lane.queued =~= last.attributed(p));
        assert(lane.worker.done() =~= lane.worker.script);
    }
    assert(parts =~= last.scripts());
    assert forall|p: int| run[0].has(p) implies run[k].attributed(p) == run[0].lanes[p].worker.script by {
        assert(run[k].scripts()[p] == run[0].scripts()[p]);
    }
}

/// At every moment of every run, the aggregator has received no value more
/// often than the scripts hold it: nothing comes twice, and nothing comes that
/// no worker sent.
pub proof fn lemma_nothing_invented(run: Seq<Snapshot>, events: Seq<Event>, k: int)
    requires
        is_run(run, events),
        0 <= k < run.len(),
    ensures
        run[k].aggregator.received.to_multiset().subset_of(union_of(run[0].scripts())),
{
    lemma_run_consistent(run, events, k);
    let now = run[k];
    let n = now.lanes.len();
    let parts = Seq::new(n, |p: int| pick(now.aggregator.received, now.origins, p));
    lemma_partition(now.aggregator.received, now.origins, n);
    assert forall|p: int| 0 <= p < n implies (#[trigger] parts[p]).to_multiset().subset_of(
        run[0].scripts()[p].to_multiset(),
    ) by {
        assert(run[0].has(p));
        lemma_order_preserved(run, events, k, p);
        assert(parts[p] == now.attributed(p));
        lemma_prefix_multiset(parts[p], run[0].lanes[p].worker.script);
    }
    lemma_union_monotone(parts, run[0].scripts());
}

/// Every run ends. Each event uses up one of the steps that the first state
/// has left, so a run has no more events than that; as long as the
/// aggregator has not found the channel closed, something can still happen;
/// once every handle is released and nothing is under way, the one thing
/// that can happen is that the aggregator finds the channel closed; and after
/// that nothing happens at all, so no value is received any more.
pub proof fn lemma_run_ends(run: Seq<Snapshot>, events: Seq<Event>)
    requires
        is_run(run, events),
    ensures
        events.len() + run.last().steps_left() == run[0].steps_left(),
        run.last().steps_left() >= 0,
        !run.last().aggregator.closed ==> exists|event: Event| run.last().enabled(event),
        forall|k: int|
            0 <= k < events.len() && run[k].drained() ==> #[trigger] events[k] == Event::Closed,
        forall|k: int|
            #![trigger run[k]]
            0 <= k < run.len() && run[k].aggregator.closed ==> k == events.len(),
{
    let last = run.last();
    lemma_run_consistent(run, events, events.len() as int);
    assert(last.steps_left() >= 0) by {
        assert forall|p: int| 0 <= p < last.lanes.len() implies (#[trigger] last.lanes[p]).worker.wf() by {
            assert(last.has(p));
            assert(last.lanes[p].tidy(last.attributed(p)));
        }
        lemma_workload_bounds(last.lanes);
    }
    if !last.aggregator.closed {
        if last.drained() {
            assert(last.enabled(Event::Closed));
        } else {
            let p = choose|p: int|
                #![trigger last.lanes[p]]
                last.has(p) && !(!last.lanes[p].holding && last.lanes[p].queued.len() == 0);
            if last.lanes[p].holding {
                if last.lanes[p].worker.exhausted() {
                    assert(last.enabled(Event::Released { worker: p }));
                } else {
                    assert(last.enabled(Event::Sent { worker: p }));
                }
            } else {
                assert(last.enabled(Event::Received { worker: p }));
            }
        }
    }
    assert forall|k: int| 0 <= k < events.len() && run[k].drained() implies #[trigger] events[k]
        == Event::Closed by {
        assert(run[k].enabled(events[k]));
        match events[k] {
            Event::Sent { worker } => {
                assert(run[k].lanes[worker].holding);
            },
            Event::Released { worker } => {
                assert(run[k].lanes[worker].holding);
            },
            Event::Received { worker } => {
                assert(run[k].lanes[worker].queued.len() > 0);
            },
            Event::Closed => {},
        }
    }
    assert forall|k: int| #![trigger run[k]] 0 <= k < run.len() && run[k].aggregator.closed implies k
        == events.len() by {
        if k < events.len() {
            lemma_run_consistent(run, events, k);
            assert(run[k].drained());
            assert(run[k].enabled(events[k]));
            assert(events[k] == Event::Closed);
        }
    }
}

} // verus!
