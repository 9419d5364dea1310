//! A worker: it sends a fixed sequence of integers, one at a time and in order.

use vstd::prelude::*;
use crossbeam::channel::Sender;
use crate::channel;
use crate::trace::{sending, sending_line};

verus! {

/// What a worker is to do: its name, the values it sends and the pause
/// before each of them.
#[derive(Debug, Clone)]
pub struct Plan {
    pub name: String,
    pub values: Vec<i32>,
    pub pause_ms: u64,
}

/// A send that failed because the receiving end of the channel is gone. It
/// holds the value that could not be sent.
#[derive(Debug, Clone, Copy, PartialEq, Eq)]
pub struct SendAfterClose {
    pub value: i32,
}

/// What a worker does before its next send.
#[derive(Debug)]
pub struct Notice {
    /// The line to print.
    pub line: String,
    /// How long to pause after printing, in milliseconds.
    pub pause_ms: u64,
    /// The value that is sent after the pause.
    pub value: i32,
}

/// A worker as the contracts see it.
pub struct ProducerView {
    pub name: Seq<char>,
    /// The values that the worker sends, in this order.
    pub script: Seq<i32>,
    pub pause_ms: u64,
    /// How many values of the script the channel has taken.
    pub sent: nat,
}

impl ProducerView {
    /// A worker that has sent nothing yet.
    pub open spec fn fresh(name: Seq<char>, script: Seq<i32>, pause_ms: u64) -> ProducerView {
        ProducerView { name, script, pause_ms, sent: 0 }
    }

    /// A worker never has sent more than its script holds.
    pub open spec fn wf(self) -> bool {
        self.sent <= self.script.len()
    }

    /// Whether the whole script has been sent.
    pub open spec fn exhausted(self) -> bool {
        self.sent >= self.script.len()
    }

    /// The next value to send.
    pub open spec fn upcoming(self) -> i32
        recommends
            !self.exhausted(),
    {
        self.script[self.sent as int]
    }

    /// The part of the script that has been sent.
    pub open spec fn done(self) -> Seq<i32> {
        self.script.take(self.sent as int)
    }

    /// The worker after the channel took its next value.
    pub open spec fn advanced(self) -> ProducerView {
        ProducerView { sent: self.sent + 1, ..self }
    }

    /// The worker after a send of its next value that the channel accepted or
    /// refused. A worker with nothing left sends nothing and stays as it is.
    pub open spec fn after_send(self, accepted: bool) -> ProducerView {
        if !self.exhausted() && accepted {
            self.advanced()
        } else {
            self
        }
    }

    /// What the worker reports for the channel's reply to a send of its next
    /// value: the value, where it went out; the failure with the value that
    /// came back, where it did not; `None`, where nothing was left to send.
    pub open spec fn report(self, reply: Result<(), i32>) -> Result<Option<i32>, SendAfterClose> {
        if self.exhausted() {
            Ok(None)
        } else {
            match reply {
                Ok(()) => Ok(Some(self.upcoming())),
                Err(back) => Err(SendAfterClose { value: back }),
            }
        }
    }
}

/// A worker with its sending handle of the channel.
pub struct Producer {
    name: String,
    values: Vec<i32>,
    pause_ms: u64,
    cursor: usize,
    sender: Sender<i32>,
}

impl View for Producer {
    type V = ProducerView;

    closed spec fn view(&self) -> ProducerView {
        ProducerView {
            name: self.name@,
            script: self.values@,
            pause_ms: self.pause_ms,
            sent: self.cursor as nat,
        }
    }
}

impl Producer {
    #[verifier::type_invariant]
    spec fn cursor_in_range(&self) -> bool {
        self.cursor <= self.values.len()
    }

    /// A worker that follows `plan` and sends through `sender`.
    pub(crate) fn new(plan: Plan, sender: Sender<i32>) -> (producer: Producer)
        ensures
            producer@ == ProducerView::fresh(plan.name@, plan.values@, plan.pause_ms),
    {
        Producer { name: plan.name, values: plan.values, pause_ms: plan.pause_ms, cursor: 0, sender }
    }

    /// Whether the worker has sent its whole script.
    pub fn is_exhausted(&self) -> (exhausted: bool)
        ensures
            self@.wf(),
            exhausted == self@.exhausted(),
    {
        proof {
            use_type_invariant(self);
        }
        self.cursor >= self.values.len()
    }

    /// How many values the worker has sent.
    pub fn sent(&self) -> (count: usize)
        ensures
            count == self@.sent,
    {
        self.cursor
    }

    /// What to do before the next send: the line to print and the pause to
    /// take, or `None` once the script is exhausted.
    pub fn announce(&self) -> (notice: Option<Notice>)
        ensures
            self@.exhausted() <==> notice is None,
            notice matches Some(n) ==> {
                &&& n.value == self@.upcoming()
                &&& n.pause_ms == self@.pause_ms
                &&& n.line@ == sending_line(self@.upcoming(), self@.name)
            },
    {
        if self.cursor >= self.values.len() {
            None
        } else {
            let value: i32 = self.values[self.cursor];
            Some(Notice { line: sending(value, self.name.as_str()), pause_ms: self.pause_ms, value })
        }
    }

    /// Sends the next value of the script, if one is left.
    ///
    /// Whether the channel takes the value is up to the channel. Where it
    /// does, the worker moves on by one; where it does not, the worker stays
    /// and the failure holds the value.
    pub fn emit(&mut self) -> (outcome: Result<Option<i32>, SendAfterClose>)
        ensures
            final(self)@.wf(),
            final(self)@ == old(self)@.after_send(outcome is Ok),
            old(self)@.exhausted() ==> outcome == Ok::<Option<i32>, SendAfterClose>(None),
            !old(self)@.exhausted() ==> outcome == old(self)@.report(Ok(()))
                || outcome == old(self)@.report(Err(old(self)@.upcoming())),
    {
        proof {
            use_type_invariant(&*self);
        }
        if self.cursor >= self.values.len() {
            return Ok(None);
        }
        let reply = channel::send(&self.sender, self.values[self.cursor]);
        self.settle(reply)
    }

    /// Takes the channel's reply to a send of the next value and reports it.
    pub fn settle(&mut self, reply: Result<(), i32>) -> (outcome: Result<Option<i32>, SendAfterClose>)
        ensures
            final(self)@.wf(),
            final(self)@ == old(self)@.after_send(reply is Ok),
            outcome == old(self)@.report(reply),
    {
        proof {
            use_type_invariant(&*self);
        }
        if self.cursor >= self.values.len() {
            return Ok(None);
        }
        match reply {
            Ok(()) => {
                let value: i32 = self.values[self.cursor];
                self.cursor = self.cursor + 1;
                Ok(Some(value))
            },
            Err(back) => Err(SendAfterClose { value: back }),
        }
    }

    /// Gives up the sending handle: the worker will send no more.
    pub fn release(self) {
    }
}

} // verus!
