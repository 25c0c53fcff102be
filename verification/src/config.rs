//! Human-readable configuration units: byte sizes in binary magnitudes and
//! durations with second/nanosecond precision.

use vstd::prelude::*;

verus! {

/// Errors a configuration check can report.
#[derive(Debug)]
pub enum ConfigError {
    Limit(String),
    Address(String),
    StoreLabels(String),
    Value(String),
    FileSystem(String),
}

/// The format log lines are written in.
#[derive(Clone, Copy, Debug, PartialEq, Eq, Structural)]
pub enum LogFormat {
    Text,
    Json,
}

pub const B: u64 = 1;
pub const KIB: u64 = 1024;
pub const MIB: u64 = 1024 * 1024;
pub const GIB: u64 = 1024 * 1024 * 1024;
pub const TIB: u64 = 1024 * 1024 * 1024 * 1024;
pub const PIB: u64 = 1024 * 1024 * 1024 * 1024 * 1024;

/// A byte count, displayed and parsed in binary units elsewhere; here the
/// exact arithmetic on it.
#[derive(Clone, Copy, Debug, PartialEq, Eq, Structural, PartialOrd, Default)]
pub struct ReadableSize(pub u64);

impl ReadableSize {
    pub fn kb(count: u64) -> (r: ReadableSize)
        requires
            count * KIB <= u64::MAX,
        ensures
            r.0 == count * KIB,
    {
        ReadableSize(count * KIB)
    }

    pub fn mb(count: u64) -> (r: ReadableSize)
        requires
            count * MIB <= u64::MAX,
        ensures
            r.0 == count * MIB,
    {
        ReadableSize(count * MIB)
    }

    pub fn gb(count: u64) -> (r: ReadableSize)
        requires
            count * GIB <= u64::MAX,
        ensures
            r.0 == count * GIB,
    {
        ReadableSize(count * GIB)
    }

    pub fn as_mb(self) -> (r: u64)
        ensures
            r == self.0 / MIB,
    {
        self.0 / MIB
    }
}

impl core::ops::Div<u64> for ReadableSize {
    type Output = ReadableSize;

    fn div(self, rhs: u64) -> (r: ReadableSize) {
        ReadableSize(self.0 / rhs)
    }
}

impl vstd::std_specs::ops::DivSpecImpl<u64> for ReadableSize {
    open spec fn obeys_div_spec() -> bool {
        true
    }

    open spec fn div_req(self, rhs: u64) -> bool {
        rhs != 0
    }

    open spec fn div_spec(self, rhs: u64) -> ReadableSize {
        ReadableSize(self.0 / rhs)
    }
}

impl core::ops::Div<ReadableSize> for ReadableSize {
    type Output = u64;

    fn div(self, rhs: ReadableSize) -> (r: u64) {
        self.0 / rhs.0
    }
}

impl vstd::std_specs::ops::DivSpecImpl<ReadableSize> for ReadableSize {
    open spec fn obeys_div_spec() -> bool {
        true
    }

    open spec fn div_req(self, rhs: ReadableSize) -> bool {
        rhs.0 != 0
    }

    open spec fn div_spec(self, rhs: ReadableSize) -> u64 {
        self.0 / rhs.0
    }
}

impl core::ops::Sub<ReadableSize> for ReadableSize {
    type Output = ReadableSize;

    fn sub(self, rhs: ReadableSize) -> (r: ReadableSize) {
        ReadableSize(self.0 - rhs.0)
    }
}

impl vstd::std_specs::ops::SubSpecImpl<ReadableSize> for ReadableSize {
    open spec fn obeys_sub_spec() -> bool {
        true
    }

    open spec fn sub_req(self, rhs: ReadableSize) -> bool {
        self.0 >= rhs.0
    }

    open spec fn sub_spec(self, rhs: ReadableSize) -> ReadableSize {
        ReadableSize((self.0 - rhs.0) as u64)
    }
}

impl core::ops::Mul<u64> for ReadableSize {
    type Output = ReadableSize;

    fn mul(self, rhs: u64) -> (r: ReadableSize) {
        ReadableSize(self.0 * rhs)
    }
}

impl vstd::std_specs::ops::MulSpecImpl<u64> for ReadableSize {
    open spec fn obeys_mul_spec() -> bool {
        true
    }

    open spec fn mul_req(self, rhs: u64) -> bool {
        self.0 * rhs <= u64::MAX
    }

    open spec fn mul_spec(self, rhs: u64) -> ReadableSize {
        ReadableSize((self.0 * rhs) as u64)
    }
}

pub const NANOS_PER_SEC: u32 = 1_000_000_000;

/// A span of time as whole seconds plus a sub-second remainder in
/// nanoseconds, always normalized below one second.
#[derive(Clone, Copy, Debug, PartialEq, Eq, Structural, Hash, Default)]
pub struct DurationValue {
    pub secs: u64,
    pub nanos: u32,
}

impl DurationValue {
    /// Normalized: the nanosecond part never reaches a full second.
    pub open spec fn wf(self) -> bool {
        self.nanos < NANOS_PER_SEC
    }

    /// The span's exact length in nanoseconds.
    pub open spec fn total_nanos(self) -> int {
        self.secs * NANOS_PER_SEC + self.nanos
    }

    /// Builds a span from seconds and nanoseconds, carrying surplus whole
    /// seconds out of the nanosecond part.
    pub fn new(secs: u64, nanos: u32) -> (r: DurationValue)
        requires
            secs + nanos as u64 / NANOS_PER_SEC as u64 <= u64::MAX,
        ensures
            r.wf(),
            r.total_nanos() == secs * NANOS_PER_SEC + nanos,
    {
        let carry = nanos / NANOS_PER_SEC;
        let r = DurationValue { secs: secs + carry as u64, nanos: nanos % NANOS_PER_SEC };
        proof {
            assert(r.total_nanos() == secs * NANOS_PER_SEC + nanos) by (nonlinear_arith)
                requires
                    carry == nanos / NANOS_PER_SEC,
                    r.secs == secs + carry,
                    r.nanos == nanos % NANOS_PER_SEC,
                    NANOS_PER_SEC == 1_000_000_000,
            ;
        }
        r
    }
}

/// A duration, displayed and parsed in day/hour/minute units elsewhere; here
/// the exact arithmetic on it.
#[derive(Clone, Copy, Debug, PartialEq, Eq, Structural, Default)]
pub struct ReadableDuration(pub DurationValue);

impl ReadableDuration {
    pub fn micros(micros: u64) -> (r: ReadableDuration)
        ensures
            r.0.wf(),
            r.0.total_nanos() == micros * 1_000,
    {
        let r = ReadableDuration(
            DurationValue {
                secs: micros / 1_000_000,
                nanos: (micros % 1_000_000) as u32 * 1_000,
            },
        );
        proof {
            assert(r.0.nanos < NANOS_PER_SEC && r.0.total_nanos() == micros * 1_000)
                by (nonlinear_arith)
                requires
                    r.0.secs == micros / 1_000_000,
                    r.0.nanos == (micros % 1_000_000) * 1_000,
                    NANOS_PER_SEC == 1_000_000_000,
            ;
        }
        r
    }

    pub fn millis(millis: u64) -> (r: ReadableDuration)
        ensures
            r.0.wf(),
            r.0.total_nanos() == millis * 1_000_000,
    {
        let r = ReadableDuration(
            DurationValue {
                secs: millis / 1_000,
                nanos: (millis % 1_000) as u32 * 1_000_000,
            },
        );
        proof {
            assert(r.0.nanos < NANOS_PER_SEC && r.0.total_nanos() == millis * 1_000_000)
                by (nonlinear_arith)
                requires
                    r.0.secs == millis / 1_000,
                    r.0.nanos == (millis % 1_000) * 1_000_000,
                    NANOS_PER_SEC == 1_000_000_000,
            ;
        }
        r
    }

    pub fn secs(secs: u64) -> (r: ReadableDuration)
        ensures
            r.0.wf(),
            r.0.total_nanos() == secs * NANOS_PER_SEC,
    {
        ReadableDuration(DurationValue { secs, nanos: 0 })
    }

    pub fn minutes(minutes: u64) -> (r: ReadableDuration)
        requires
            minutes * 60 <= u64::MAX,
        ensures
            r.0.wf(),
            r.0.total_nanos() == minutes * 60 * NANOS_PER_SEC,
    {
        ReadableDuration::secs(minutes * 60)
    }

    pub fn hours(hours: u64) -> (r: ReadableDuration)
        requires
            hours * 3600 <= u64::MAX,
        ensures
            r.0.wf(),
            r.0.total_nanos() == hours * 3600 * NANOS_PER_SEC,
    {
        ReadableDuration::minutes(hours * 60)
    }

    pub fn days(days: u64) -> (r: ReadableDuration)
        requires
            days * 86400 <= u64::MAX,
        ensures
            r.0.wf(),
            r.0.total_nanos() == days * 86400 * NANOS_PER_SEC,
    {
        ReadableDuration::hours(days * 24)
    }

    pub fn as_secs(&self) -> (r: u64)
        ensures
            r == self.0.secs,
    {
        self.0.secs
    }

    pub fn as_millis(&self) -> (r: u64)
        requires
            self.0.secs * 1_000 + self.0.nanos / 1_000_000 <= u64::MAX,
        ensures
            r == self.0.secs * 1_000 + self.0.nanos / 1_000_000,
    {
        self.0.secs * 1_000 + (self.0.nanos / 1_000_000) as u64
    }

    pub fn as_micros(&self) -> (r: u64)
        requires
            self.0.secs * 1_000_000 + self.0.nanos / 1_000 <= u64::MAX,
        ensures
            r == self.0.secs * 1_000_000 + self.0.nanos / 1_000,
    {
        self.0.secs * 1_000_000 + (self.0.nanos / 1_000) as u64
    }

    pub fn is_zero(&self) -> (r: bool)
        ensures
            r == (self.0.total_nanos() == 0),
    {
        self.0.secs == 0 && self.0.nanos == 0
    }
}

} // verus!
