//! Instants as plain values: Unix seconds, a sub-second part and the local
//! UTC offset that was in force when the instant was taken.
use chrono::TimeZone;
use vstd::prelude::*;

verus! {

/// Seconds in a calendar day.
pub const SECS_PER_DAY: i64 = 86400;

/// Nanoseconds in a second.
pub const NANOS_PER_SEC: i64 = 1_000_000_000;

/// Bound on the magnitude of a stamp's Unix seconds; every date that chrono
/// can represent lies well inside it.
pub const MAX_STAMP_SECS: i64 = 10_000_000_000_000;

/// An instant together with the UTC offset of the zone it was observed in.
#[derive(Clone, Copy, Debug, PartialEq, Eq, Structural)]
pub struct Stamp {
    /// Whole seconds since 1970-01-01T00:00:00Z.
    pub secs: i64,
    /// Nanoseconds past `secs`.
    pub nanos: u32,
    /// Local time minus UTC, in seconds.
    pub offset: i32,
}

impl Stamp {
    /// Fields in the ranges that every chrono `DateTime` respects.
    pub open spec fn wf(self) -> bool {
        &&& -MAX_STAMP_SECS <= self.secs <= MAX_STAMP_SECS
        &&& self.nanos < NANOS_PER_SEC
        &&& -SECS_PER_DAY < self.offset < SECS_PER_DAY
    }

    /// The instant in nanoseconds since the Unix epoch.
    pub open spec fn instant(self) -> int {
        self.secs * NANOS_PER_SEC + self.nanos
    }

    /// Seconds since the epoch of the local wall-clock reading.
    pub open spec fn local_secs(self) -> int {
        self.secs + self.offset
    }

    /// The local calendar day, counted from 1970-01-01 (day 0).
    pub open spec fn local_day(self) -> int {
        self.local_secs() / (SECS_PER_DAY as int)
    }

    /// The stamp reads exactly 00:00:00 local time on day `day`.
    pub open spec fn is_local_midnight_of(self, day: int) -> bool {
        self.local_secs() == day * SECS_PER_DAY && self.nanos == 0
    }

    /// Builds a stamp; `None` when a field is out of range.
    pub fn new(secs: i64, nanos: u32, offset: i32) -> (r: Option<Stamp>)
        ensures
            r == (if (Stamp { secs, nanos, offset }).wf() {
                Some(Stamp { secs, nanos, offset })
            } else {
                None
            }),
    {
        let s = Stamp { secs, nanos, offset };
        if -MAX_STAMP_SECS <= secs && secs <= MAX_STAMP_SECS && (nanos as i64) < NANOS_PER_SEC
            && -SECS_PER_DAY < (offset as i64) && (offset as i64) < SECS_PER_DAY {
            Some(s)
        } else {
            None
        }
    }

    /// The local calendar day of this stamp (day 0 is 1970-01-01).
    pub fn day(&self) -> (r: i64)
        requires
            self.wf(),
        ensures
            r == self.local_day(),
    {
        let local: i64 = self.secs + self.offset as i64;
        if local >= 0 {
            local / SECS_PER_DAY
        } else {
            let q: i64 = (-local - 1) / SECS_PER_DAY;
            proof {
                let l = local as int;
                let d = SECS_PER_DAY as int;
                let m = (-l - 1) % d;
                vstd::arithmetic::div_mod::lemma_fundamental_div_mod(-l - 1, d);
                assert(-l - 1 == q * d + m);
                assert(l == (-q - 1) * d + (d - 1 - m)) by (nonlinear_arith)
                    requires -l - 1 == q * d + m;
                vstd::arithmetic::div_mod::lemma_fundamental_div_mod_converse(
                    l, d, -q - 1, d - 1 - m);
            }
            -q - 1
        }
    }

    /// Whether `self` is at or after `other`.
    pub fn at_or_after(&self, other: &Stamp) -> (r: bool)
        requires
            self.wf(),
            other.wf(),
        ensures
            r == (self.instant() >= other.instant()),
    {
        proof {
            let (a, an, b, bn) = (self.secs as int, self.nanos as int, other.secs as int, other.nanos as int);
            let g = NANOS_PER_SEC as int;
            assert(a > b ==> a * g + an >= b * g + bn) by (nonlinear_arith)
                requires 0 <= an < g, 0 <= bn < g;
            assert(a < b ==> a * g + an < b * g + bn) by (nonlinear_arith)
                requires 0 <= an < g, 0 <= bn < g;
        }
        self.secs > other.secs || (self.secs == other.secs && self.nanos >= other.nanos)
    }
}

/// Nanoseconds from `now` until `due`; negative once `due` has passed.
pub fn nanos_until(due: &Stamp, now: &Stamp) -> (r: i128)
    requires
        due.wf(),
        now.wf(),
    ensures
        r == due.instant() - now.instant(),
{
    let d: i128 = due.secs as i128 - now.secs as i128;
    let n: i128 = due.nanos as i128 - now.nanos as i128;
    proof {
        let g = NANOS_PER_SEC as int;
        assert(-2 * MAX_STAMP_SECS * g <= d * g <= 2 * MAX_STAMP_SECS * g) by (nonlinear_arith)
            requires -2 * MAX_STAMP_SECS <= d <= 2 * MAX_STAMP_SECS, g == NANOS_PER_SEC;
        assert(due.instant() - now.instant() == d * g + n) by (nonlinear_arith)
            requires d == due.secs - now.secs, n == due.nanos - now.nanos, g == NANOS_PER_SEC,
                due.instant() == due.secs * NANOS_PER_SEC + due.nanos,
                now.instant() == now.secs * NANOS_PER_SEC + now.nanos;
    }
    d * (NANOS_PER_SEC as i128) + n
}

/// `t` nanoseconds as whole seconds, rounded toward zero.
pub open spec fn whole_secs(t: int) -> int {
    if t >= 0 {
        t / (NANOS_PER_SEC as int)
    } else {
        -((-t) / (NANOS_PER_SEC as int))
    }
}

/// `t` nanoseconds as whole seconds, rounded toward zero.
pub fn whole_secs_of(t: i128) -> (r: i128)
    ensures
        r == whole_secs(t as int),
{
    if t >= 0 {
        t / (NANOS_PER_SEC as i128)
    } else {
        let m: u128 = (-(t + 1)) as u128 + 1;
        let q: u128 = m / (NANOS_PER_SEC as u128);
        proof {
            let g = NANOS_PER_SEC as int;
            vstd::arithmetic::div_mod::lemma_fundamental_div_mod(m as int, g);
            assert(q * 2 <= m) by (nonlinear_arith)
                requires m == q * g + (m as int) % g, (m as int) % g >= 0, g >= 2, q >= 0;
        }
        -(q as i128)
    }
}

/// Relies on chrono's `NaiveDate::from_epoch_days`, `NaiveDate::and_hms_opt`,
/// `TimeZone::from_local_datetime` for `Local` and `MappedLocalTime::single`:
/// the instant at which the machine's zone reads 00:00:00 on `day`, or `None`
/// when that reading does not exist, happens twice, or the date is out of
/// chrono's range. A chrono `DateTime` built from an offset stores
/// `local - offset` as its UTC reading and keeps the offset under a day.
#[verifier::external_body]
pub(crate) fn local_midnight(day: i32) -> (r: Option<Stamp>)
    ensures
        r matches Some(s) ==> s.wf() && s.is_local_midnight_of(day as int),
{
    let date = chrono::NaiveDate::from_epoch_days(day)?;
    let at = chrono::Local.from_local_datetime(&date.and_hms_opt(0, 0, 0)?).single()?;
    Some(Stamp { secs: at.timestamp(), nanos: at.timestamp_subsec_nanos(), offset: at.offset().local_minus_utc() })
}

} // verus!
