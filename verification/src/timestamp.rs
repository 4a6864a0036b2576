//! Points in time (UTC), and the calendar texts that `chrono` writes for them.
use vstd::prelude::*;

verus! {

/// Whether `chrono::DateTime::<Utc>::from_timestamp(secs, nanos)` gives a value:
/// the day lies in chrono's calendar (years -262143 to 262142), the
/// nanoseconds stay under two seconds, and they reach one second only in the
/// last second of a minute (a leap second).
pub open spec fn utc_datetime_exists(secs: i64, nanos: u32) -> bool {
    &&& -8_334_601_228_800 <= secs <= 8_210_266_876_799
    &&& nanos < 2_000_000_000
    &&& nanos >= 1_000_000_000 ==> (secs as int) % 60 == 59
}

/// Integer division rounded toward zero (Rust's `/` on integers).
pub open spec fn div_toward_zero(x: int, d: int) -> int {
    if x >= 0 {
        x / d
    } else {
        -((-x) / d)
    }
}

/// The whole days between two instants that are not leap seconds: their
/// difference in whole seconds, then in whole days, each rounded toward zero.
pub open spec fn plain_days_between(a_secs: i64, a_nanos: u32, b_secs: i64, b_nanos: u32) -> int {
    div_toward_zero(
        div_toward_zero((a_secs - b_secs) * 1_000_000_000 + a_nanos - b_nanos, 1_000_000_000),
        86_400,
    )
}

/// What `DateTime::to_rfc3339` writes for the instant `secs`/`nanos`.
pub uninterp spec fn rfc3339_text(secs: i64, nanos: u32) -> Seq<char>;

/// What `DateTime::format(fmt)` writes for the instant `secs`/`nanos`.
pub uninterp spec fn utc_format_text(secs: i64, nanos: u32, fmt: Seq<char>) -> Seq<char>;

/// What `(a - b).num_days()` gives for the two instants.
pub uninterp spec fn whole_days_between(a_secs: i64, a_nanos: u32, b_secs: i64, b_nanos: u32) -> i64;

/// `chrono::DateTime::<Utc>::from_timestamp(secs, nanos)`: whether the seconds
/// and nanoseconds name a representable UTC instant. Claimed: exactly when
/// `utc_datetime_exists` says so.
#[verifier::external_body]
fn chrono_from_timestamp_is_some(secs: i64, nanos: u32) -> (r: bool)
    ensures
        r == utc_datetime_exists(secs, nanos),
{
    chrono::DateTime::from_timestamp(secs, nanos).is_some()
}

/// `chrono::DateTime::<Utc>::to_rfc3339`. Claimed: the text is a function of the
/// instant alone; on a representable instant the call does not panic.
#[verifier::external_body]
fn chrono_to_rfc3339(secs: i64, nanos: u32) -> (r: String)
    requires
        utc_datetime_exists(secs, nanos),
    ensures
        r@ == rfc3339_text(secs, nanos),
{
    chrono::DateTime::from_timestamp(secs, nanos).unwrap().to_rfc3339()
}

/// `chrono::DateTime::<Utc>::format(fmt).to_string()`. Claimed: the text is a
/// function of the instant and the format string alone. Only the two formats
/// that the library writes are admitted; both are valid `strftime` items, on
/// which the call does not panic.
#[verifier::external_body]
fn chrono_format(secs: i64, nanos: u32, fmt: &str) -> (r: String)
    requires
        utc_datetime_exists(secs, nanos),
        fmt@ == minute_format() || fmt@ == date_format(),
    ensures
        r@ == utc_format_text(secs, nanos, fmt@),
{
    chrono::DateTime::from_timestamp(secs, nanos).unwrap().format(fmt).to_string()
}

/// `(a - b).num_days()` on two `chrono::DateTime<Utc>` values: the whole days in
/// their difference. Claimed: a function of the two instants alone and, where
/// neither is a leap second, `plain_days_between`. Across a leap second chrono
/// counts the extra second; that case is left to the name.
#[verifier::external_body]
fn chrono_num_days_between(a_secs: i64, a_nanos: u32, b_secs: i64, b_nanos: u32) -> (r: i64)
    requires
        utc_datetime_exists(a_secs, a_nanos),
        utc_datetime_exists(b_secs, b_nanos),
    ensures
        r == whole_days_between(a_secs, a_nanos, b_secs, b_nanos),
        a_nanos < 1_000_000_000 && b_nanos < 1_000_000_000 ==> r == plain_days_between(
            a_secs,
            a_nanos,
            b_secs,
            b_nanos,
        ),
{
    let a = chrono::DateTime::from_timestamp(a_secs, a_nanos).unwrap();
    let b = chrono::DateTime::from_timestamp(b_secs, b_nanos).unwrap();
    (a - b).num_days()
}

/// The format of a minute-precise UTC time: `%Y-%m-%d %H:%M UTC`.
pub open spec fn minute_format() -> Seq<char> {
    "%Y-%m-%d %H:%M UTC"@
}

/// The format of a calendar date: `%Y-%m-%d`.
pub open spec fn date_format() -> Seq<char> {
    "%Y-%m-%d"@
}

/// An instant in UTC: seconds since the Unix epoch and the nanoseconds past them.
#[derive(Clone, Copy, Debug, PartialEq, Eq)]
pub struct Timestamp {
    secs: i64,
    nanos: u32,
}

/// `a` comes strictly before `b` (the order of `DateTime<Utc>`).
pub open spec fn ts_before(a: (i64, u32), b: (i64, u32)) -> bool {
    a.0 < b.0 || (a.0 == b.0 && a.1 < b.1)
}

impl View for Timestamp {
    type V = (i64, u32);

    closed spec fn view(&self) -> (i64, u32) {
        (self.secs, self.nanos)
    }
}

impl Timestamp {
    #[verifier::type_invariant]
    spec fn representable(self) -> bool {
        utc_datetime_exists(self.secs, self.nanos)
    }

    /// The instant `secs`/`nanos`, where `chrono` can represent it.
    pub fn from_parts(secs: i64, nanos: u32) -> (r: Option<Timestamp>)
        ensures
            r is Some <==> utc_datetime_exists(secs, nanos),
            r matches Some(t) ==> t@ == (secs, nanos),
    {
        if chrono_from_timestamp_is_some(secs, nanos) {
            Some(Timestamp { secs, nanos })
        } else {
            None
        }
    }

    pub fn secs(&self) -> (r: i64)
        ensures
            r == self@.0,
    {
        self.secs
    }

    pub fn nanos(&self) -> (r: u32)
        ensures
            r == self@.1,
    {
        self.nanos
    }

    /// Whether `self` comes strictly before `other`.
    pub fn is_before(&self, other: &Timestamp) -> (r: bool)
        ensures
            r == ts_before(self@, other@),
    {
        self.secs < other.secs || (self.secs == other.secs && self.nanos < other.nanos)
    }

    /// RFC 3339 text of the instant (`DateTime::to_rfc3339`).
    pub fn to_rfc3339(&self) -> (r: String)
        ensures
            r@ == rfc3339_text(self@.0, self@.1),
    {
        proof {
            use_type_invariant(self);
        }
        chrono_to_rfc3339(self.secs, self.nanos)
    }

    /// The instant as `%Y-%m-%d %H:%M UTC` (`DateTime::format`).
    pub fn to_minute_text(&self) -> (r: String)
        ensures
            r@ == utc_format_text(self@.0, self@.1, minute_format()),
    {
        proof {
            use_type_invariant(self);
        }
        chrono_format(self.secs, self.nanos, "%Y-%m-%d %H:%M UTC")
    }

    /// The calendar date of the instant as `%Y-%m-%d` (`DateTime::format`).
    pub fn to_date_text(&self) -> (r: String)
        ensures
            r@ == utc_format_text(self@.0, self@.1, date_format()),
    {
        proof {
            use_type_invariant(self);
        }
        chrono_format(self.secs, self.nanos, "%Y-%m-%d")
    }

    /// Whole days from `earlier` to `self` (`(self - earlier).num_days()`).
    pub fn days_since(&self, earlier: &Timestamp) -> (r: i64)
        ensures
            r == whole_days_between(self@.0, self@.1, earlier@.0, earlier@.1),
            self@.1 < 1_000_000_000 && earlier@.1 < 1_000_000_000 ==> r == plain_days_between(
                self@.0,
                self@.1,
                earlier@.0,
                earlier@.1,
            ),
    {
        proof {
            use_type_invariant(self);
            use_type_invariant(earlier);
        }
        chrono_num_days_between(self.secs, self.nanos, earlier.secs, earlier.nanos)
    }
}

} // verus!
