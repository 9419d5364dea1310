//! The aggregator: it drains the channel and keeps what it received, in the
//! order of receipt.

use vstd::prelude::*;
use crossbeam::channel::Receiver;
use crate::channel;
use crate::trace::{received, received_line};

verus! {

/// The aggregator as the contracts see it.
pub struct AggregatorView {
    /// The values received so far, oldest first.
    pub received: Seq<i32>,
    /// Whether the aggregator has seen the channel closed and drained.
    pub closed: bool,
}

impl AggregatorView {
    /// An aggregator that has received nothing.
    pub open spec fn fresh() -> AggregatorView {
        AggregatorView { received: Seq::empty(), closed: false }
    }

    /// The aggregator after one receive: `Some` is a value that arrived,
    /// `None` is the closed and drained channel. Once it has seen the channel
    /// closed, nothing changes it.
    pub open spec fn after(self, arrival: Option<i32>) -> AggregatorView {
        if self.closed {
            self
        } else {
            match arrival {
                Some(value) => AggregatorView { received: self.received.push(value), ..self },
                None => AggregatorView { closed: true, ..self },
            }
        }
    }

    /// The line to print for one receive, if any.
    pub open spec fn line_for(self, arrival: Option<i32>) -> Option<Seq<char>> {
        if self.closed {
            None
        } else {
            match arrival {
                Some(value) => Some(received_line(value)),
                None => None,
            }
        }
    }
}

/// The receiving end of the channel with the log of what came out of it.
pub struct Aggregator {
    receiver: Receiver<i32>,
    log: Vec<i32>,
    closed: bool,
}

impl View for Aggregator {
    type V = AggregatorView;

    closed spec fn view(&self) -> AggregatorView {
        AggregatorView { received: self.log@, closed: self.closed }
    }
}

impl Aggregator {
    /// The receiving end of the channel that this aggregator drains.
    pub closed spec fn source(&self) -> Receiver<i32> {
        self.receiver
    }

    /// An aggregator that drains `receiver` and has received nothing yet.
    pub(crate) fn new(receiver: Receiver<i32>) -> (aggregator: Aggregator)
        ensures
            aggregator@ == AggregatorView::fresh(),
            aggregator.source() == receiver,
    {
        Aggregator { receiver, log: Vec::new(), closed: false }
    }

    /// Waits for the next value and records it.
    ///
    /// Returns the line to print for the value, or `None` once the channel is
    /// closed and drained. What arrives is up to the workers; after the
    /// channel was seen closed, no call waits or records again.
    pub fn receive(&mut self) -> (line: Option<String>)
        ensures
            final(self).source() == old(self).source(),
            old(self)@.closed ==> line is None && final(self)@ == old(self)@,
            line is None ==> final(self)@ == old(self)@.after(None),
            line matches Some(text) ==> {
                &&& final(self)@.received.len() == old(self)@.received.len() + 1
                &&& final(self)@ == old(self)@.after(Some(final(self)@.received.last()))
                &&& text@ == received_line(final(self)@.received.last())
            },
    {
        if self.closed {
            return None;
        }
        let arrival = channel::receive(&self.receiver);
        self.record(arrival)
    }

    /// Records one receive: a value that arrived, or the closed channel.
    pub fn record(&mut self, arrival: Option<i32>) -> (line: Option<String>)
        ensures
            final(self).source() == old(self).source(),
            final(self)@ == old(self)@.after(arrival),
            line is Some <==> old(self)@.line_for(arrival) is Some,
            line matches Some(text) ==> old(self)@.line_for(arrival) == Some(text@),
    {
        if self.closed {
            return None;
        }
        match arrival {
            Some(value) => {
                self.log.push(value);
                Some(received(value))
            },
            None => {
                self.closed = true;
                None
            },
        }
    }

    /// The values received so far, oldest first.
    pub fn received(&self) -> (log: &Vec<i32>)
        ensures
            log@ == self@.received,
    {
        &self.log
    }

    /// Whether the channel was seen closed and drained.
    pub fn is_closed(&self) -> (closed: bool)
        ensures
            closed == self@.closed,
    {
        self.closed
    }
}

} // verus!
