use vstd::prelude::*;

verus! {

/// The number of nanoseconds in a second.
pub const NANOS_PER_SEC: u32 = 1_000_000_000;

/// The number of seconds in a day.
pub const SECS_PER_DAY: i64 = 86_400;

/// An instant as chrono stores it for UTC: whole seconds since the Unix
/// epoch, and the nanoseconds past that second (at or above one billion only
/// inside a leap second).
#[derive(Clone, Copy, Debug, PartialEq, Eq, Structural, PartialOrd, Ord)]
pub struct Timestamp {
    pub secs: i64,
    pub nanos: u32,
}

/// `a` comes strictly before `b`: the order of chrono's `DateTime<Utc>`,
/// which compares the seconds and then the nanoseconds.
pub open spec fn ts_lt(a: Timestamp, b: Timestamp) -> bool {
    a.secs < b.secs || (a.secs == b.secs && a.nanos < b.nanos)
}

/// The second of its day at which an instant falls.
pub open spec fn second_of_day(secs: int) -> int {
    secs % (SECS_PER_DAY as int)
}

/// The leap-second correction that chrono applies when it subtracts two
/// times of day: a leap second at the earlier instant, passed by a later
/// second of the day, counts one second more, and one at the later instant,
/// before an earlier second of the day, one second less.
pub open spec fn leap_correction(later: Timestamp, earlier: Timestamp) -> int {
    let sl = second_of_day(later.secs as int);
    let se = second_of_day(earlier.secs as int);
    if sl > se && earlier.nanos >= NANOS_PER_SEC {
        1
    } else if sl < se && later.nanos >= NANOS_PER_SEC {
        -1
    } else {
        0
    }
}

/// The seconds part of `later - earlier` as a chrono `TimeDelta`, whose
/// nanoseconds part is kept in `0 .. 1_000_000_000`.
pub open spec fn delta_secs(later: Timestamp, earlier: Timestamp) -> int {
    let frac = later.nanos - earlier.nanos;
    later.secs - earlier.secs + leap_correction(later, earlier) + frac / (NANOS_PER_SEC as int)
}

/// The nanoseconds part of `later - earlier` as a chrono `TimeDelta`.
pub open spec fn delta_nanos(later: Timestamp, earlier: Timestamp) -> int {
    (later.nanos - earlier.nanos) % (NANOS_PER_SEC as int)
}

/// `(later - earlier).num_seconds()`: the whole seconds, rounded toward zero.
pub open spec fn whole_seconds_between(later: Timestamp, earlier: Timestamp) -> int {
    let s = delta_secs(later, earlier);
    if s < 0 && delta_nanos(later, earlier) > 0 {
        s + 1
    } else {
        s
    }
}

/// Division rounded toward zero, as Rust's `/` on integers.
pub open spec fn div_toward_zero(a: int, b: int) -> int {
    if a >= 0 {
        a / b
    } else {
        -((-a) / b)
    }
}

/// `(later - earlier).num_days()`: the whole days, rounded toward zero.
pub open spec fn whole_days_between(later: Timestamp, earlier: Timestamp) -> int {
    div_toward_zero(whole_seconds_between(later, earlier), SECS_PER_DAY as int)
}

/// What `round_subsecs(0)` gives for an instant outside a leap second: the
/// nearest whole second, halves rounded up.
pub open spec fn rounded_to_second(t: Timestamp) -> Timestamp {
    if t.nanos >= NANOS_PER_SEC / 2 {
        Timestamp { secs: (t.secs + 1) as i64, nanos: 0 }
    } else {
        Timestamp { secs: t.secs, nanos: 0 }
    }
}

impl Timestamp {
    /// The Unix epoch, which is also what chrono's `Default` gives.
    pub fn epoch() -> (t: Timestamp)
        ensures
            t.secs == 0,
            t.nanos == 0,
    {
        Timestamp { secs: 0, nanos: 0 }
    }

    /// Whether `self` comes strictly before `other`.
    pub fn is_before(&self, other: &Timestamp) -> (r: bool)
        ensures
            r == ts_lt(*self, *other),
    {
        self.secs < other.secs || (self.secs == other.secs && self.nanos < other.nanos)
    }

    /// The instant rounded to the nearest whole second.
    pub fn round_to_second(&self) -> (r: Timestamp)
        requires
            self.nanos < NANOS_PER_SEC,
            self.secs < i64::MAX,
        ensures
            r == rounded_to_second(*self),
    {
        if self.nanos >= NANOS_PER_SEC / 2 {
            Timestamp { secs: self.secs + 1, nanos: 0 }
        } else {
            Timestamp { secs: self.secs, nanos: 0 }
        }
    }
}

fn second_of_day_exec(secs: i64) -> (r: i64)
    ensures
        r == second_of_day(secs as int),
        0 <= r < SECS_PER_DAY,
{
    let r = secs % SECS_PER_DAY;
    if r < 0 {
        r + SECS_PER_DAY
    } else {
        r
    }
}

/// Floor division and remainder of `x` by one billion.
fn floor_div_mod_nanos(x: i64) -> (r: (i128, i64))
    ensures
        r.0 == (x as int) / (NANOS_PER_SEC as int),
        r.1 == (x as int) % (NANOS_PER_SEC as int),
{
    let d: i64 = 1_000_000_000;
    if x >= 0 {
        let q = x / d;
        let m = x % d;
        proof {
            vstd::arithmetic::div_mod::lemma_fundamental_div_mod(x as int, d as int);
            vstd::arithmetic::div_mod::lemma_fundamental_div_mod_converse(
                x as int,
                d as int,
                q as int,
                m as int,
            );
        }
        (q as i128, m)
    } else {
        let y: i128 = -(x as i128);
        let q = y / (d as i128);
        let m = y % (d as i128);
        proof {
            vstd::arithmetic::div_mod::lemma_fundamental_div_mod(y as int, d as int);
        }
        if m == 0 {
            proof {
                vstd::arithmetic::div_mod::lemma_fundamental_div_mod_converse(
                    x as int,
                    d as int,
                    -q,
                    0,
                );
            }
            (-q, 0)
        } else {
            proof {
                vstd::arithmetic::div_mod::lemma_fundamental_div_mod_converse(
                    x as int,
                    d as int,
                    -q - 1,
                    d - m,
                );
            }
            (-q - 1, (d as i128 - m) as i64)
        }
    }
}

/// `(later - earlier).num_seconds()` as chrono computes it.
pub fn seconds_between(later: Timestamp, earlier: Timestamp) -> (r: i128)
    ensures
        r == whole_seconds_between(later, earlier),
{
    let sl = second_of_day_exec(later.secs);
    let se = second_of_day_exec(earlier.secs);
    let correction: i128 = if sl > se && earlier.nanos >= NANOS_PER_SEC {
        1
    } else if sl < se && later.nanos >= NANOS_PER_SEC {
        -1
    } else {
        0
    };
    let frac: i64 = later.nanos as i64 - earlier.nanos as i64;
    let (carry, rest) = floor_div_mod_nanos(frac);
    let s: i128 = later.secs as i128 - earlier.secs as i128 + correction + carry;
    if s < 0 && rest > 0 {
        s + 1
    } else {
        s
    }
}

/// `(later - earlier).num_days()` as chrono computes it.
pub fn days_between(later: Timestamp, earlier: Timestamp) -> (r: i64)
    ensures
        r == whole_days_between(later, earlier),
{
    let s = seconds_between(later, earlier);
    let d: i128 = if s >= 0 {
        s / (SECS_PER_DAY as i128)
    } else {
        -((-s) / (SECS_PER_DAY as i128))
    };
    d as i64
}

/// What chrono's `DateTime::parse_from_rfc2822` reads from a text, as the
/// instant it denotes; `None` where chrono refuses the text.
pub uninterp spec fn rfc2822_instant(text: Seq<char>) -> Option<Timestamp>;

/// What chrono's `DateTime::parse_from_rfc3339` reads from a text, as the
/// instant it denotes; `None` where chrono refuses the text.
pub uninterp spec fn rfc3339_instant(text: Seq<char>) -> Option<Timestamp>;

/// Calls chrono's `DateTime::parse_from_rfc2822` and keeps the instant (the
/// seconds and nanoseconds since the epoch, which do not depend on the offset
/// that the text gave). The contract only names the result: chrono's grammar
/// of dates is not restated here.
#[verifier::external_body]
pub(crate) fn parse_rfc2822(text: &str) -> (r: Option<Timestamp>)
    ensures
        r == rfc2822_instant(text@),
{
    match chrono::DateTime::parse_from_rfc2822(text) {
        Ok(d) => Some(Timestamp { secs: d.timestamp(), nanos: d.timestamp_subsec_nanos() }),
        Err(_) => None,
    }
}

/// Calls chrono's `DateTime::parse_from_rfc3339` and keeps the instant, as
/// `parse_rfc2822` does.
#[verifier::external_body]
pub(crate) fn parse_rfc3339(text: &str) -> (r: Option<Timestamp>)
    ensures
        r == rfc3339_instant(text@),
{
    match chrono::DateTime::parse_from_rfc3339(text) {
        Ok(d) => Some(Timestamp { secs: d.timestamp(), nanos: d.timestamp_subsec_nanos() }),
        Err(_) => None,
    }
}

/// Calls chrono's `Utc::now`. The instant depends on the clock, so nothing is
/// said of it but what chrono's source shows of every outcome: it is built
/// from the time since the epoch that std's `SystemTime` gives (chrono panics
/// before the epoch), with the nanoseconds of `Duration::subsec_nanos`, below
/// one billion, and `DateTime::from_timestamp` refuses (and chrono panics on)
/// seconds past the year 262143, far below nine trillion.
#[verifier::external_body]
pub(crate) fn now() -> (t: Timestamp)
    ensures
        0 <= t.secs < 9_000_000_000_000,
        t.nanos < NANOS_PER_SEC,
{
    let d = chrono::Utc::now();
    Timestamp { secs: d.timestamp(), nanos: d.timestamp_subsec_nanos() }
}

/// What displaying an instant with chrono's `Display` of `DateTime<Utc>`
/// gives (such as `2023-03-28 10:00:00 UTC`); `None` for seconds and
/// nanoseconds that chrono's `DateTime::from_timestamp` refuses.
pub uninterp spec fn utc_display(t: Timestamp) -> Option<Seq<char>>;

/// What chrono's `format("%Y-%m-%d %H:%M:%S")` of an instant in UTC gives;
/// `None` for seconds and nanoseconds that `DateTime::from_timestamp`
/// refuses.
pub uninterp spec fn utc_format_ymd_hms(t: Timestamp) -> Option<Seq<char>>;

/// Calls chrono's `DateTime::from_timestamp` and displays the instant with
/// `to_string()`. The contract only names the result: chrono's calendar is
/// not restated.
#[verifier::external_body]
pub(crate) fn display_utc(t: Timestamp) -> (r: Option<String>)
    ensures
        opt_text_view(r) == utc_display(t),
{
    match chrono::DateTime::from_timestamp(t.secs, t.nanos) {
        Some(d) => Some(d.to_string()),
        None => None,
    }
}

/// Calls chrono's `DateTime::from_timestamp` and formats the instant with
/// `format("%Y-%m-%d %H:%M:%S")`. The contract only names the result.
#[verifier::external_body]
pub(crate) fn format_utc_ymd_hms(t: Timestamp) -> (r: Option<String>)
    ensures
        opt_text_view(r) == utc_format_ymd_hms(t),
{
    match chrono::DateTime::from_timestamp(t.secs, t.nanos) {
        Some(d) => Some(d.format("%Y-%m-%d %H:%M:%S").to_string()),
        None => None,
    }
}

/// The view of an optional string.
pub open spec fn opt_text_view(o: Option<String>) -> Option<Seq<char>> {
    match o {
        Some(s) => Some(s@),
        None => None,
    }
}

/// An instant as chrono displays it in UTC; the empty text where chrono
/// cannot represent it.
pub open spec fn shown_utc(t: Timestamp) -> Seq<char> {
    match utc_display(t) {
        Some(s) => s,
        None => Seq::empty(),
    }
}

/// Displays an instant as chrono does in UTC.
pub fn show_utc(t: Timestamp) -> (r: String)
    ensures
        r@ == shown_utc(t),
{
    match display_utc(t) {
        Some(s) => s,
        None => String::new(),
    }
}

/// The text that `serialize_dt` hands to a serializer:
/// the instant as `%Y-%m-%d %H:%M:%S`; the empty text where chrono cannot
/// represent it.
pub open spec fn serialized_dt(t: Timestamp) -> Seq<char> {
    match utc_format_ymd_hms(t) {
        Some(s) => s,
        None => Seq::empty(),
    }
}

/// Formats an instant as `%Y-%m-%d %H:%M:%S` in UTC, the text that is
/// serialised for a date.
pub fn serialize_dt(t: &Timestamp) -> (r: String)
    ensures
        r@ == serialized_dt(*t),
{
    match format_utc_ymd_hms(*t) {
        Some(s) => s,
        None => String::new(),
    }
}

/// The instant that a feed's date text gives: an
/// RFC 2822 date in RSS, an RFC 3339 date in Atom, and the epoch (chrono's
/// default) where the text is not such a date.
pub open spec fn feed_date(text: Seq<char>, is_rss: bool) -> Timestamp {
    let parsed = if is_rss { rfc2822_instant(text) } else { rfc3339_instant(text) };
    match parsed {
        Some(t) => t,
        None => Timestamp { secs: 0, nanos: 0 },
    }
}

/// Reads a feed's date text: RFC 2822 in RSS, RFC 3339 in Atom, the epoch
/// where chrono refuses the text.
pub fn read_feed_date(text: &str, is_rss: bool) -> (t: Timestamp)
    ensures
        t == feed_date(text@, is_rss),
{
    let parsed = if is_rss { parse_rfc2822(text) } else { parse_rfc3339(text) };
    match parsed {
        Some(t) => t,
        None => Timestamp::epoch(),
    }
}

} // verus!
