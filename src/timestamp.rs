//! Timestamps as `hours:minutes:seconds:milliseconds` and as a flat count of
//! milliseconds.
use vstd::prelude::*;

verus! {

pub const MS_PER_SECOND: u64 = 1000;

pub const MS_PER_MINUTE: u64 = 60000;

pub const MS_PER_HOUR: u64 = 3600000;

/// The largest millisecond count whose hour field still fits in eight bits:
/// `255:59:59:999`.
pub const MAX_TIMESTAMP_MS: u64 = 921599999;

/// A point in a subtitle track, as the four fields a person writes.
#[derive(Clone, Copy, Debug, PartialEq, Eq, Structural)]
pub struct Timestamp {
    pub hours: u8,
    pub minutes: u8,
    pub seconds: u8,
    pub milliseconds: u16,
}

/// The millisecond count of the four fields.
pub open spec fn components_ms(hours: int, minutes: int, seconds: int, milliseconds: int) -> int {
    hours * 3600000 + minutes * 60000 + seconds * 1000 + milliseconds
}

/// The fields recomputed from a millisecond count by division and remainder.
pub open spec fn timestamp_of_ms(ms: int) -> Timestamp {
    Timestamp {
        hours: (ms / 3600000) as u8,
        minutes: ((ms % 3600000) / 60000) as u8,
        seconds: ((ms % 60000) / 1000) as u8,
        milliseconds: (ms % 1000) as u16,
    }
}

impl Timestamp {
    /// The millisecond count this timestamp stands for.
    pub open spec fn ms(self) -> int {
        components_ms(
            self.hours as int,
            self.minutes as int,
            self.seconds as int,
            self.milliseconds as int,
        )
    }

    /// Minutes and seconds below 60, milliseconds below 1000.
    pub open spec fn is_canonical(self) -> bool {
        self.minutes < 60 && self.seconds < 60 && self.milliseconds < 1000
    }

    pub fn new(hours: u8, minutes: u8, seconds: u8, milliseconds: u16) -> (r: Timestamp)
        ensures
            r.hours == hours,
            r.minutes == minutes,
            r.seconds == seconds,
            r.milliseconds == milliseconds,
    {
        Timestamp { hours, minutes, seconds, milliseconds }
    }

    /// The four fields, in order.
    pub fn get(&self) -> (r: (u8, u8, u8, u16))
        ensures
            r == (self.hours, self.minutes, self.seconds, self.milliseconds),
    {
        (self.hours, self.minutes, self.seconds, self.milliseconds)
    }

    /// Flattens the timestamp to milliseconds; exact for every field value.
    pub fn to_ms(&self) -> (r: u64)
        ensures
            r == self.ms(),
    {
        self.hours as u64 * MS_PER_HOUR + self.minutes as u64 * MS_PER_MINUTE + self.seconds as u64
            * MS_PER_SECOND + self.milliseconds as u64
    }

    /// Splits a millisecond count into canonical fields.
    pub fn from_ms(ms: u64) -> (r: Timestamp)
        requires
            ms <= MAX_TIMESTAMP_MS,
        ensures
            r == timestamp_of_ms(ms as int),
            r.is_canonical(),
            r.ms() == ms,
    {
        proof {
            lemma_ms_round_trip(ms as int);
        }
        Timestamp {
            hours: (ms / MS_PER_HOUR) as u8,
            minutes: ((ms % MS_PER_HOUR) / MS_PER_MINUTE) as u8,
            seconds: ((ms % MS_PER_MINUTE) / MS_PER_SECOND) as u8,
            milliseconds: (ms % MS_PER_SECOND) as u16,
        }
    }
}

/// Splitting a millisecond count in range and flattening it again gives the
/// same count, and the fields are canonical.
pub proof fn lemma_ms_round_trip(ms: int)
    requires
        0 <= ms <= MAX_TIMESTAMP_MS,
    ensures
        timestamp_of_ms(ms).ms() == ms,
        timestamp_of_ms(ms).is_canonical(),
        timestamp_of_ms(ms).hours as int == ms / 3600000,
{
    let h = ms / 3600000;
    let r = ms % 3600000;
    let m = r / 60000;
    let r2 = ms % 60000;
    assert(r2 == r % 60000) by (nonlinear_arith)
        requires r == ms % 3600000, r2 == ms % 60000, 0 <= ms;
    let s = r2 / 1000;
    let x = ms % 1000;
    assert(x == r2 % 1000) by (nonlinear_arith)
        requires r2 == ms % 60000, x == ms % 1000, 0 <= ms;
    assert(ms == h * 3600000 + m * 60000 + s * 1000 + x) by (nonlinear_arith)
        requires
            h == ms / 3600000, r == ms % 3600000, m == r / 60000, r2 == r % 60000,
            s == r2 / 1000, x == r2 % 1000, 0 <= ms;
    assert(h <= 255) by (nonlinear_arith)
        requires h == ms / 3600000, 0 <= ms <= 921599999;
}

/// Flattening canonical fields and splitting the count again gives the same
/// fields back: `from_ms(t.to_ms()) == t` for every hour value, minutes and
/// seconds below 60 and milliseconds below 1000.
pub proof fn lemma_timestamp_round_trip(t: Timestamp)
    requires
        t.is_canonical(),
    ensures
        0 <= t.ms() <= MAX_TIMESTAMP_MS,
        timestamp_of_ms(t.ms()) == t,
{
    let h = t.hours as int;
    let m = t.minutes as int;
    let s = t.seconds as int;
    let x = t.milliseconds as int;
    let ms = t.ms();
    assert(ms / 3600000 == h && (ms % 3600000) / 60000 == m && (ms % 60000) / 1000 == s && ms
        % 1000 == x) by (nonlinear_arith)
        requires
            ms == h * 3600000 + m * 60000 + s * 1000 + x, 0 <= h <= 255, 0 <= m < 60, 0 <= s
                < 60, 0 <= x < 1000;
}

} // verus!
