//! Rendering of a signed number of seconds as compact human-readable text,
//! as the day and range summaries print it.

use vstd::prelude::*;
use vstd::string::StringExecFns;

use crate::text::{render_u64, spec_dec_digits};

verus! {

/// The rendering of a nonnegative number of seconds: hours split off first
/// when asked for and present, then minutes, then bare seconds; the part
/// below the largest unit rendered without an hour split.
pub open spec fn spec_render_abs_seconds(a: int, show_hours: bool) -> Seq<char>
    recommends
        a >= 0,
    decreases (if a < 0 {
        0int
    } else {
        a
    }),
{
    if show_hours && a >= 3600 {
        spec_dec_digits(a / 3600) + "h "@ + spec_render_abs_seconds(a % 3600, false)
    } else if a >= 60 {
        spec_dec_digits(a / 60) + "m "@ + spec_dec_digits(a % 60) + "s"@
    } else {
        spec_dec_digits(a) + "s"@
    }
}

/// The rendering of a signed number of seconds: a leading minus sign, then
/// the rendering of the magnitude.
pub open spec fn spec_render_seconds(secs: int, show_hours: bool) -> Seq<char> {
    if secs < 0 {
        "-"@ + spec_render_abs_seconds(-secs, show_hours)
    } else {
        spec_render_abs_seconds(secs, show_hours)
    }
}

fn render_abs_seconds(a: i64, show_hours: bool) -> (r: String)
    requires
        a >= 0,
    ensures
        r@ == spec_render_abs_seconds(a as int, show_hours),
    decreases a,
{
    if show_hours && a >= 3600 {
        let mut s = render_u64((a as u64) / 3600);
        s.append("h ");
        let rest: i64 = ((a as u64) % 3600) as i64;
        let tail = render_abs_seconds(rest, false);
        s.append(tail.as_str());
        s
    } else if a >= 60 {
        let mut s = render_u64((a as u64) / 60);
        s.append("m ");
        let secs = render_u64((a as u64) % 60);
        s.append(secs.as_str());
        s.append("s");
        s
    } else {
        let mut s = render_u64(a as u64);
        s.append("s");
        s
    }
}

/// Renders a signed number of seconds, e.g. `-2h 3m 5s`, `7m 0s` or `42s`.
/// With `show_times_in_hours` false, hours are folded into the minutes.
pub fn render_seconds_human_readable(secs: i64, show_times_in_hours: bool) -> (r: String)
    requires
        secs > i64::MIN,
    ensures
        r@ == spec_render_seconds(secs as int, show_times_in_hours),
{
    if secs < 0 {
        let body = render_abs_seconds(-secs, show_times_in_hours);
        let mut s = String::from_str("-");
        s.append(body.as_str());
        s
    } else {
        render_abs_seconds(secs, show_times_in_hours)
    }
}

} // verus!
