//! Points in time on a calendar without a time zone, with the precision and the range of
//! `chrono::NaiveDateTime`, which does the reading and the reckoning.
use chrono::{DateTime, Duration, NaiveDateTime, Timelike};
use vstd::prelude::*;

verus! {

/// The first second that the calendar knows, counted from the start of the year 1970.
pub const FIRST_SECOND: i64 = -8334601228800;

/// The last second that the calendar knows, counted from the start of the year 1970.
pub const LAST_SECOND: i64 = 8210266876799;

/// A point in time: the seconds since the start of the year 1970, and the nanoseconds since the
/// start of that second. The nanoseconds pass one thousand million only within a leap second.
#[derive(Clone, Copy, Debug, PartialEq, Eq, Structural)]
pub struct Moment {
    pub seconds: i64,
    pub nanos: u32,
}

impl Moment {
    /// The calendar knows this point in time.
    pub open spec fn in_range(self) -> bool {
        FIRST_SECOND <= self.seconds <= LAST_SECOND && self.nanos < 2000000000
    }

    /// This point in time comes before the other.
    pub open spec fn before(self, other: Moment) -> bool {
        self.seconds < other.seconds || (self.seconds == other.seconds && self.nanos < other.nanos)
    }

    /// This point in time does not come after the other.
    pub open spec fn no_later(self, other: Moment) -> bool {
        !other.before(self)
    }

    /// This point in time lies in no leap second.
    pub open spec fn is_plain(self) -> bool {
        self.nanos < 1000000000
    }

    /// The day, counted from the start of the year 1970.
    pub open spec fn day(self) -> int {
        self.seconds as int / 86400
    }

    /// No leap second comes between this point in time and a later one: neither lies in one, they
    /// lie in the same second, both or neither in its leap second, or they are so far apart that
    /// it makes no difference.
    pub open spec fn passes_steadily_to(self, later: Moment) -> bool {
        ||| self.is_plain() && later.is_plain()
        ||| self.seconds == later.seconds && self.is_plain() == later.is_plain()
        ||| later.seconds - self.seconds >= 3
    }

    /// The second of the day.
    pub open spec fn second_of_day(self) -> int {
        self.seconds as int % 86400
    }

    /// The nanoseconds from the other point in time to this one. A leap second counts where it
    /// belongs to the earlier time of day of the two.
    pub open spec fn since(self, other: Moment) -> int {
        let leap: int = if self.second_of_day() > other.second_of_day() && other.nanos
            >= 1000000000 {
            1
        } else if self.second_of_day() < other.second_of_day() && self.nanos >= 1000000000 {
            -1
        } else {
            0
        };
        (self.seconds - other.seconds + leap) * 1000000000 + self.nanos - other.nanos
    }

    /// The point in time so many whole seconds later. It lies in no leap second.
    pub open spec fn later_by(self, seconds: int) -> Moment {
        Moment {
            seconds: (self.seconds + seconds) as i64,
            nanos: if self.nanos >= 1000000000 {
                (self.nanos - 1000000000) as u32
            } else {
                self.nanos
            },
        }
    }

    /// Whether the calendar knows this point in time.
    pub fn is_in_range(&self) -> (r: bool)
        ensures
            r == self.in_range(),
    {
        FIRST_SECOND <= self.seconds && self.seconds <= LAST_SECOND && self.nanos < 2000000000
    }

    /// Whether this point in time comes before the other.
    pub fn is_before(&self, other: &Moment) -> (r: bool)
        ensures
            r == self.before(*other),
    {
        self.seconds < other.seconds || (self.seconds == other.seconds && self.nanos < other.nanos)
    }

    /// The nanoseconds from the other point in time to this one.
    pub fn nanos_since(&self, other: &Moment) -> (r: i128)
        requires
            self.in_range(),
            other.in_range(),
        ensures
            r == self.since(*other),
    {
        let (seconds, nanos): (i64, i32) = time_between(*self, *other);
        seconds as i128 * 1000000000 + nanos as i128
    }

    /// The point in time so many whole seconds later.
    pub fn plus_seconds(&self, seconds: i64) -> (r: Moment)
        requires
            self.in_range(),
            0 < seconds,
            self.seconds + seconds <= LAST_SECOND,
        ensures
            r == self.later_by(seconds as int),
            r.in_range(),
            r.is_plain(),
    {
        add_seconds(*self, seconds)
    }
}

/// What `NaiveDateTime::parse_from_str` reads in a text by a format: the point in time, or
/// `None` where the text does not follow the format.
pub uninterp spec fn moment_in(text: Seq<char>, format: Seq<char>) -> Option<Moment>;

/// Calls `NaiveDateTime::parse_from_str`. What it reads depends on the text and the format
/// alone, and every date and time that it gives lies in the calendar's range.
#[verifier::external_body]
pub(crate) fn read_moment(text: &str, format: &str) -> (r: Option<Moment>)
    ensures
        r == moment_in(text@, format@),
        match r {
            Some(moment) => moment.in_range(),
            None => true,
        },
{
    let read = NaiveDateTime::parse_from_str(text, format).ok()?.and_utc();
    Some(Moment { seconds: read.timestamp(), nanos: read.timestamp_subsec_nanos() })
}

/// Calls `NaiveDateTime::signed_duration_since`. The seconds and the nanoseconds that it gives,
/// which have one sign, make up the time from `from` to `to`; a leap second is counted as
/// `Moment::since` says.
#[verifier::external_body]
fn time_between(to: Moment, from: Moment) -> (r: (i64, i32))
    requires
        to.in_range(),
        from.in_range(),
    ensures
        r.0 * 1000000000 + r.1 == to.since(from),
        -1000000000 < r.1 < 1000000000,
{
    let to_second = DateTime::from_timestamp(to.seconds, 0).unwrap().naive_utc();
    let from_second = DateTime::from_timestamp(from.seconds, 0).unwrap().naive_utc();
    let between = to_second
        .with_nanosecond(to.nanos)
        .unwrap()
        .signed_duration_since(from_second.with_nanosecond(from.nanos).unwrap());
    (between.num_seconds(), between.subsec_nanos())
}

/// Calls `+` on a `NaiveDateTime` and a `Duration` of whole seconds. The seconds go up by so
/// many, and a leap second is left: its nanoseconds come back below one thousand million.
#[verifier::external_body]
fn add_seconds(from: Moment, seconds: i64) -> (r: Moment)
    requires
        from.in_range(),
        0 < seconds,
        from.seconds + seconds <= LAST_SECOND,
    ensures
        r == from.later_by(seconds as int),
{
    let second = DateTime::from_timestamp(from.seconds, 0).unwrap().naive_utc();
    let later = second.with_nanosecond(from.nanos).unwrap() + Duration::seconds(seconds);
    let later = later.and_utc();
    Moment { seconds: later.timestamp(), nanos: later.timestamp_subsec_nanos() }
}

/// Of two points in time exactly one comes before the other, unless they are the same.
pub proof fn order_is_total(a: Moment, b: Moment)
    ensures
        a.before(b) || b.before(a) || a == b,
        !(a.before(b) && b.before(a)),
        !a.before(a),
{
}

/// A point in time that comes whole seconds later comes after the first, and so many seconds
/// lie between the two.
pub proof fn later_is_later(from: Moment, seconds: int)
    requires
        from.in_range(),
        from.is_plain(),
        0 < seconds,
        from.seconds + seconds <= LAST_SECOND,
    ensures
        from.before(from.later_by(seconds)),
        from.later_by(seconds).since(from) == seconds * 1000000000,
{
}

/// The order of time is by seconds, and within a second by nanoseconds.
pub proof fn seconds_come_first(a: Moment, b: Moment)
    ensures
        a.seconds < b.seconds ==> a.before(b) && a.no_later(b) && !b.no_later(a),
        a.seconds == b.seconds ==> a.before(b) == (a.nanos < b.nanos) && a.no_later(b) == (a.nanos
            <= b.nanos),
{
}

/// Between points in time that lie in no leap second, the time from one to another is the
/// difference of their nanoseconds; it is made up of the times between, and backwards it is the
/// same with the other sign.
pub proof fn time_between_adds_up(a: Moment, b: Moment, c: Moment)
    ensures
        a.since(b) == -b.since(a),
        a.is_plain() && b.is_plain() ==> a.since(b) == (a.seconds * 1000000000 + a.nanos) - (
        b.seconds * 1000000000 + b.nanos),
        a.is_plain() && b.is_plain() && c.is_plain() ==> a.since(c) == a.since(b) + b.since(c),
        a.is_plain() && b.is_plain() ==> (a.since(b) < 0) == a.before(b),
{
}

/// A point in time goes on by whole seconds, one after another, and leaves the leap second that
/// it lies in.
pub proof fn seconds_add_up(from: Moment, a: int, b: int)
    requires
        0 <= a,
        0 <= b,
        i64::MIN <= from.seconds + a,
        from.seconds + a + b <= i64::MAX,
        from.nanos < 2000000000,
    ensures
        from.later_by(a).seconds == from.seconds + a,
        from.later_by(a).is_plain(),
        from.later_by(a).later_by(b) == from.later_by(a + b),
        from.is_plain() ==> from.later_by(a).nanos == from.nanos,
        !from.is_plain() ==> from.later_by(a).nanos + 1000000000 == from.nanos,
{
}

/// A day has so many seconds, and the calendar begins and ends with a whole one.
pub proof fn days_are_whole(moment: Moment)
    ensures
        moment.day() * 24 * 60 * 60 + moment.second_of_day() == moment.seconds,
        0 <= moment.second_of_day() < 24 * 60 * 60,
        FIRST_SECOND as int % 86400 == 0,
        (LAST_SECOND + 1) % 86400 == 0,
        moment.in_range() == (-8334601228800 <= moment.seconds && moment.seconds < 8210266876800
            && moment.nanos < 2000000000),
{
}

} // verus!
