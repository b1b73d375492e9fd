use vstd::prelude::*;

use crate::text::text_opt;

verus! {

/// A lead time as spoken: calendar units, or a number of weeks.
#[derive(Debug, PartialEq, Eq, Structural, Clone, Copy)]
pub enum LeadDuration {
    Calendar {
        year: u32,
        month: u32,
        day: u32,
        hour: u32,
        minute: u32,
        second: u32,
        millisecond: u32,
    },
    Weeks(u32),
}

/// A duration in whole minutes, a year counting 365 days and a month 30;
/// seconds and milliseconds count in whole minutes each.
pub open spec fn duration_minutes(d: LeadDuration) -> nat {
    match d {
        LeadDuration::Calendar { year, month, day, hour, minute, second, millisecond } => (year
            * 525600 + month * 43200 + day * 1440 + hour * 60 + minute + second / 60 + millisecond
            / 60000) as nat,
        LeadDuration::Weeks(w) => (w * 10080) as nat,
    }
}

/// The ISO 8601 duration that a text denotes, if it denotes one.
pub uninterp spec fn iso_duration_of(s: Seq<char>) -> Option<LeadDuration>;

/// Relies on `iso8601::duration`: reads an ISO 8601 duration such as `PT10M`
/// or `P1W`; what it reads depends on the text alone.
#[verifier::external_body]
fn read_duration(s: &str) -> (r: Option<LeadDuration>)
    ensures
        r == iso_duration_of(s@),
{
    match iso8601::duration(s) {
        Ok(iso8601::Duration::YMDHMS { year, month, day, hour, minute, second, millisecond }) => {
            Some(LeadDuration::Calendar { year, month, day, hour, minute, second, millisecond })
        },
        Ok(iso8601::Duration::Weeks(w)) => Some(LeadDuration::Weeks(w)),
        Err(_) => None,
    }
}

/// The number of whole minutes in a lead time.
pub fn lead_minutes_of(d: LeadDuration) -> (r: u64)
    ensures
        r == duration_minutes(d),
{
    match d {
        LeadDuration::Calendar { year, month, day, hour, minute, second, millisecond } => {
            let y = year as u64;
            let mo = month as u64;
            let d = day as u64;
            let h = hour as u64;
            assert(y * 525600 <= 4294967295u64 * 525600) by (nonlinear_arith)
                requires
                    y <= 4294967295u64,
            ;
            assert(mo * 43200 <= 4294967295u64 * 43200) by (nonlinear_arith)
                requires
                    mo <= 4294967295u64,
            ;
            assert(d * 1440 <= 4294967295u64 * 1440) by (nonlinear_arith)
                requires
                    d <= 4294967295u64,
            ;
            assert(h * 60 <= 4294967295u64 * 60) by (nonlinear_arith)
                requires
                    h <= 4294967295u64,
            ;
            y * 525600 + mo * 43200 + d * 1440 + h * 60 + minute as u64 + second as u64 / 60
                + millisecond as u64 / 60000
        },
        LeadDuration::Weeks(w) => {
            assert((w as u64) * 10080 <= 4294967295u64 * 10080) by (nonlinear_arith)
                requires
                    w as u64 <= 4294967295u64,
            ;
            w as u64 * 10080
        },
    }
}

/// The lead time, in minutes, that a spoken duration slot asks for: none
/// where the slot is absent or is not a duration.
pub open spec fn slot_lead(slot: Option<Seq<char>>) -> nat {
    match slot {
        Some(s) => match iso_duration_of(s) {
            Some(d) => duration_minutes(d),
            None => 0,
        },
        None => 0,
    }
}

/// The lead time, in minutes, that a spoken duration slot asks for.
pub fn lead_minutes_from_slot(slot: &Option<String>) -> (r: u64)
    ensures
        r == slot_lead(text_opt(*slot)),
{
    match slot {
        Some(s) => match read_duration(s.as_str()) {
            Some(d) => lead_minutes_of(d),
            None => 0,
        },
        None => 0,
    }
}

} // verus!
