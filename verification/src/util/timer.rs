//! Spans of time in words.

use vstd::prelude::*;
use vstd::string::*;
use crate::lang::text::{decimal, push_decimal};

verus! {

/// `std::time::Instant`: a reading of the clock. Nothing is known of what
/// it holds.
#[verifier::external_type_specification]
#[verifier::external_body]
pub struct ExInstant(std::time::Instant);

/// `Instant::now` reads the clock; nothing is promised of the reading.
pub assume_specification[ std::time::Instant::now ]() -> (now: std::time::Instant)
;

/// `Instant::elapsed` tells the time since the reading; nothing is
/// promised of it.
pub assume_specification[ std::time::Instant::elapsed ](start: &std::time::Instant) -> (elapsed:
    std::time::Duration)
;

/// `Duration::as_nanos` tells a span in nanoseconds; nothing is promised
/// of the number.
pub assume_specification[ std::time::Duration::as_nanos ](span: &std::time::Duration) -> (nanos:
    u128)
;

/// Time a function and return the elapsed time in nanoseconds and the
/// result of the function call as a tuple. The result is what the function
/// returns; the time is what the clock says.
pub fn time<F, R>(function: F) -> (r: (u128, R)) where F: FnOnce() -> R
    requires
        function.requires(()),
    ensures
        function.ensures((), r.1),
{
    let start = std::time::Instant::now();
    let result = function();
    let elapsed = start.elapsed().as_nanos();
    (elapsed, result)
}

/// The number of units of time that a span is told in.
pub open spec fn units() -> int {
    9
}

/// The nanoseconds in the unit of index `i`, from the year down to the
/// nanosecond. A year is 365.25 days, a month the twelfth part of it.
pub open spec fn unit_size(i: int) -> nat {
    if i == 0 {
        31_557_600_000_000_000
    } else if i == 1 {
        2_629_800_000_000_000
    } else if i == 2 {
        86_400_000_000_000
    } else if i == 3 {
        3_600_000_000_000
    } else if i == 4 {
        60_000_000_000
    } else if i == 5 {
        1_000_000_000
    } else if i == 6 {
        1_000_000
    } else if i == 7 {
        1_000
    } else {
        1
    }
}

/// The name of the unit of index `i`.
pub open spec fn unit_name(i: int) -> Seq<char> {
    if i == 0 {
        "year"@
    } else if i == 1 {
        "month"@
    } else if i == 2 {
        "day"@
    } else if i == 3 {
        "hour"@
    } else if i == 4 {
        "minute"@
    } else if i == 5 {
        "second"@
    } else if i == 6 {
        "millisecond"@
    } else if i == 7 {
        "microsecond"@
    } else {
        "nanosecond"@
    }
}

/// A number of units in words: the number, the name of the unit, and an
/// `s` where there is more than one.
pub open spec fn counted(count: nat, name: Seq<char>) -> Seq<char> {
    decimal(count) + " "@ + name + if count > 1 {
        "s"@
    } else {
        Seq::empty()
    }
}

/// The span of `nanos` nanoseconds in words, in the units from index `i`
/// on: every unit of which the span holds at least one, the greatest
/// first, with `, ` between each two, and before the first where `started`
/// says that something was written already.
pub open spec fn time_text(nanos: nat, i: int, started: bool) -> Seq<char>
    decreases units() - i,
{
    if 0 <= i < units() {
        let count = nanos / unit_size(i);
        let rest = nanos % unit_size(i);
        if count > 0 {
            (if started {
                ", "@
            } else {
                Seq::empty()
            }) + counted(count, unit_name(i)) + time_text(rest, i + 1, true)
        } else {
            time_text(rest, i + 1, started)
        }
    } else {
        Seq::empty()
    }
}

/// Appends the units of index `i` that `nanos` holds to `result`, and
/// returns what is left of `nanos`.
fn push_unit(
    result: &mut String,
    started: &mut bool,
    nanos: u128,
    size: u128,
    name: &str,
    Ghost(i): Ghost<int>,
) -> (rest: u128)
    requires
        0 <= i < units(),
        size == unit_size(i),
        name@ == unit_name(i),
    ensures
        rest == nanos % size,
        *final(started) == (*old(started) || nanos / size > 0),
        final(result)@ + time_text(rest as nat, i + 1, *final(started)) == old(result)@ + time_text(
            nanos as nat,
            i,
            *old(started),
        ),
{
    let count: u128 = nanos / size;
    let rest: u128 = nanos % size;
    let ghost before = result@;
    if count > 0 {
        if *started {
            result.append(", ");
        }
        push_decimal(result, count);
        result.append(" ");
        result.append(name);
        if count > 1 {
            result.append("s");
        }
        *started = true;
        assert(result@ + time_text(rest as nat, i + 1, true) =~= before + time_text(
            nanos as nat,
            i,
            *old(started),
        ));
    }
    rest
}

/// Format a time in nanoseconds into a human-readable string: the years,
/// months, days, hours, minutes, seconds, milliseconds, microseconds and
/// nanoseconds that it holds, as far as there is at least one of each.
/// Nothing is written for no time at all.
pub fn format_time(nanos: u128) -> (result: String)
    ensures
        result@ == time_text(nanos as nat, 0, false),
{
    let mut result = String::new();
    let mut started = false;
    let ghost whole = time_text(nanos as nat, 0, false);
    let mut rest: u128 = nanos;
    rest = push_unit(&mut result, &mut started, rest, 31_557_600_000_000_000, "year", Ghost(0));
    rest = push_unit(&mut result, &mut started, rest, 2_629_800_000_000_000, "month", Ghost(1));
    rest = push_unit(&mut result, &mut started, rest, 86_400_000_000_000, "day", Ghost(2));
    rest = push_unit(&mut result, &mut started, rest, 3_600_000_000_000, "hour", Ghost(3));
    rest = push_unit(&mut result, &mut started, rest, 60_000_000_000, "minute", Ghost(4));
    rest = push_unit(&mut result, &mut started, rest, 1_000_000_000, "second", Ghost(5));
    rest = push_unit(&mut result, &mut started, rest, 1_000_000, "millisecond", Ghost(6));
    rest = push_unit(&mut result, &mut started, rest, 1_000, "microsecond", Ghost(7));
    rest = push_unit(&mut result, &mut started, rest, 1, "nanosecond", Ghost(8));
    assert(result@ =~= whole) by {
        assert(time_text(rest as nat, 9, started) =~= Seq::<char>::empty());
    }
    result
}

} // verus!
