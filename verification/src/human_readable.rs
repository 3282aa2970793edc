//! Rendering of a signed number of seconds with hours, minutes and seconds
//! always written out, as the per-day task tables print it.

use vstd::prelude::*;
use vstd::string::StringExecFns;

use crate::text::{render_u64, spec_dec_digits};

verus! {

/// The rendering of a nonnegative number of seconds with every unit shown:
/// `Hh Mm Ss` when hours are asked for and present, else `Mm Ss` with the
/// hours folded into the minutes, else bare `Ss`.
pub open spec fn spec_render_abs_hms(a: int, show_hours: bool) -> Seq<char>
    recommends
        a >= 0,
{
    let h = a / 3600;
    let m = (a % 3600) / 60;
    let s = a % 60;
    if show_hours && a >= 3600 {
        spec_dec_digits(h) + "h "@ + spec_dec_digits(m) + "m "@ + spec_dec_digits(s) + "s"@
    } else if a >= 60 {
        spec_dec_digits(h * 60 + m) + "m "@ + spec_dec_digits(s) + "s"@
    } else {
        spec_dec_digits(s) + "s"@
    }
}

/// The rendering of a signed number of seconds: a leading minus sign, then
/// the rendering of the magnitude.
pub open spec fn spec_render_hms(secs: int, show_hours: bool) -> Seq<char> {
    if secs < 0 {
        "-"@ + spec_render_abs_hms(-secs, show_hours)
    } else {
        spec_render_abs_hms(secs, show_hours)
    }
}

fn render_abs_hms(a: i64, show_hours: bool) -> (r: String)
    requires
        a >= 0,
    ensures
        r@ == spec_render_abs_hms(a as int, show_hours),
{
    let au: u64 = a as u64;
    let hours: u64 = au / 3600;
    let after_hours: u64 = au % 3600;
    let minutes: u64 = after_hours / 60;
    let seconds: u64 = au % 60;
    proof {
        assert((au as int) % 3600 % 60 == (au as int) % 60) by (nonlinear_arith);
        assert((au as int) / 3600 * 60 + (au as int) % 3600 / 60 <= au) by (nonlinear_arith);
    }
    if show_hours && a >= 3600 {
        let mut s = render_u64(hours);
        s.append("h ");
        let ms = render_u64(minutes);
        s.append(ms.as_str());
        s.append("m ");
        let ss = render_u64(seconds);
        s.append(ss.as_str());
        s.append("s");
        s
    } else if a >= 60 {
        let mut s = render_u64(hours * 60 + minutes);
        s.append("m ");
        let ss = render_u64(seconds);
        s.append(ss.as_str());
        s.append("s");
        s
    } else {
        let mut s = render_u64(seconds);
        s.append("s");
        s
    }
}

/// Renders a signed number of seconds with every unit written out, e.g.
/// `-2h 0m 5s`, `7m 0s` or `42s`. With `show_times_in_hours` false, hours
/// are folded into the minutes.
pub fn render_seconds_human_readable(secs: i64, show_times_in_hours: bool) -> (r: String)
    requires
        secs > i64::MIN,
    ensures
        r@ == spec_render_hms(secs as int, show_times_in_hours),
{
    if secs < 0 {
        let body = render_abs_hms(-secs, show_times_in_hours);
        let mut s = String::from_str("-");
        s.append(body.as_str());
        s
    } else {
        render_abs_hms(secs, show_times_in_hours)
    }
}

} // verus!
