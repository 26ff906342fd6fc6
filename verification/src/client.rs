//! Client-side decisions: naming a service to stop and reporting the
//! daemon's uptime.

use vstd::prelude::*;

use crate::strutil::{chars_to_string, dec_digits, string_to_chars};

verus! {

/// The uptime report for a duration of `secs` seconds: seconds under
/// a minute, minutes and seconds under an hour, hours and minutes
/// under a day, and days and hours beyond.
pub open spec fn spec_format_duration(secs: nat) -> Seq<char> {
    if secs < 60 {
        dec_digits(secs) + "s"@
    } else if secs < 3600 {
        dec_digits(secs / 60) + "m "@ + dec_digits(secs % 60) + "s"@
    } else if secs < 86400 {
        dec_digits(secs / 3600) + "h "@ + dec_digits((secs % 3600) / 60) + "m"@
    } else {
        dec_digits(secs / 86400) + "d "@ + dec_digits((secs % 86400) / 3600) + "h"@
    }
}

/// Render a duration of `secs` seconds for the status report.
pub fn format_duration(secs: u64) -> (r: String)
    ensures
        r@ == spec_format_duration(secs as nat),
{
    let mut out: Vec<char> = Vec::new();
    if secs < 60 {
        crate::codec::append_num(&mut out, secs);
        crate::codec::append_str(&mut out, "s");
    } else if secs < 3600 {
        crate::codec::append_num(&mut out, secs / 60);
        crate::codec::append_str(&mut out, "m ");
        crate::codec::append_num(&mut out, secs % 60);
        crate::codec::append_str(&mut out, "s");
    } else if secs < 86400 {
        crate::codec::append_num(&mut out, secs / 3600);
        crate::codec::append_str(&mut out, "h ");
        crate::codec::append_num(&mut out, (secs % 3600) / 60);
        crate::codec::append_str(&mut out, "m");
    } else {
        crate::codec::append_num(&mut out, secs / 86400);
        crate::codec::append_str(&mut out, "d ");
        crate::codec::append_num(&mut out, (secs % 86400) / 3600);
        crate::codec::append_str(&mut out, "h");
    }
    proof {
        assert(out@ =~= spec_format_duration(secs as nat));
    }
    chars_to_string(&out)
}

/// The full domain a stop request targets: a bare name gains the
/// `.localhost` suffix, a dotted one is used as given.
pub open spec fn spec_normalize_domain(d: Seq<char>) -> Seq<char> {
    if exists|i: int| 0 <= i < d.len() && d[i] == '.' {
        d
    } else {
        d + ".localhost"@
    }
}

/// Normalize the domain named on the command line.
pub fn normalize_domain(domain: &str) -> (r: String)
    ensures
        r@ == spec_normalize_domain(domain@),
{
    let v = string_to_chars(domain);
    let mut i: usize = 0;
    let mut dotted = false;
    while i < v.len()
        invariant
            0 <= i <= v.len(),
            v@ == domain@,
            dotted == exists|k: int| 0 <= k < i && v@[k] == '.',
        decreases v.len() - i,
    {
        if v[i] == '.' {
            dotted = true;
        }
        i += 1;
    }
    if dotted {
        domain.to_owned()
    } else {
        let mut s = domain.to_owned();
        s.append(".localhost");
        s
    }
}

} // verus!
