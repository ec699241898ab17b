//! Human-readable elapsed times.

use vstd::prelude::*;
use vstd::string::*;

use crate::text::{decimal, push_decimal};

verus! {

/// An elapsed time of `secs` whole seconds and `millis` milliseconds, as
/// shown to a user: minutes and seconds from a minute on, seconds with
/// tenths from a second on, else milliseconds; a zero millisecond part is
/// left out.
pub open spec fn duration_text(secs: nat, millis: nat) -> Seq<char> {
    if secs >= 60 {
        let m = decimal(secs / 60) + "m "@ + decimal(secs % 60) + "s"@;
        if millis > 0 {
            m + " "@ + decimal(millis) + "ms"@
        } else {
            m
        }
    } else if secs > 0 {
        if millis > 0 {
            decimal(secs) + "."@ + decimal(millis / 100) + "s"@
        } else {
            decimal(secs) + "s"@
        }
    } else {
        decimal(millis) + "ms"@
    }
}

/// Formats an elapsed time of `secs` seconds and `millis` milliseconds.
pub fn format_duration(secs: u64, millis: u32) -> (r: String)
    requires
        millis < 1000,
    ensures
        r@ == duration_text(secs as nat, millis as nat),
{
    let mut r = String::new();
    if secs >= 60 {
        push_decimal(&mut r, secs / 60);
        r.append("m ");
        push_decimal(&mut r, secs % 60);
        r.append("s");
        if millis > 0 {
            r.append(" ");
            push_decimal(&mut r, millis as u64);
            r.append("ms");
        }
    } else if secs > 0 {
        push_decimal(&mut r, secs);
        if millis > 0 {
            r.append(".");
            push_decimal(&mut r, (millis / 100) as u64);
        }
        r.append("s");
    } else {
        push_decimal(&mut r, millis as u64);
        r.append("ms");
    }
    r
}

} // verus!
