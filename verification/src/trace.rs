//! The lines that a run leaves on the console.

use vstd::prelude::*;
use vstd::string::*;
use crate::decimal::{decimal, render};

verus! {

/// What a worker named `name` announces before it sends `value`.
pub open spec fn sending_line(value: i32, name: Seq<char>) -> Seq<char> {
    "Sending "@ + decimal(value as int) + " through "@ + name
}

/// What the aggregator reports for a `value` that it received.
pub open spec fn received_line(value: i32) -> Seq<char> {
    "received: "@ + decimal(value as int)
}

/// The line a worker prints before it sends `value`.
pub fn sending(value: i32, name: &str) -> (line: String)
    ensures
        line@ == sending_line(value, name@),
{
    let mut line = String::from_str("Sending ");
    let number = render(value);
    line.append(number.as_str());
    line.append(" through ");
    line.append(name);
    line
}

/// The line the aggregator prints for a `value` that it received.
pub fn received(value: i32) -> (line: String)
    ensures
        line@ == received_line(value),
{
    let mut line = String::from_str("received: ");
    let number = render(value);
    line.append(number.as_str());
    line
}

} // verus!
