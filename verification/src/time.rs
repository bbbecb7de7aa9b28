//! Instants in time as the plain values that `jiff::Timestamp` holds, and the
//! two things the library asks of `jiff` about them.
use vstd::prelude::*;

verus! {

/// The earliest second that `jiff::Timestamp` represents.
pub const MIN_SECOND: i64 = -377705023201;

/// The latest second that `jiff::Timestamp` represents.
pub const MAX_SECOND: i64 = 253402207200;

/// An instant: seconds since the Unix epoch and the nanoseconds within the
/// second, as `jiff::Timestamp::as_second` and `subsec_nanosecond` give them.
#[derive(Debug, Clone, Copy, PartialEq, Eq, Structural)]
pub struct Instant {
    pub second: i64,
    pub nanosecond: i32,
}

/// A pair that `jiff::Timestamp` can hold: both parts in range and of the
/// same sign.
pub open spec fn valid_instant(t: Instant) -> bool {
    &&& MIN_SECOND <= t.second <= MAX_SECOND
    &&& -999_999_999 <= t.nanosecond <= 999_999_999
    &&& (t.nanosecond == 0 || t.second == 0 || (t.second > 0) == (t.nanosecond > 0))
    &&& !(t.second == MIN_SECOND && t.nanosecond < 0)
}

/// The instant in nanoseconds since the Unix epoch.
pub open spec fn instant_nanos(t: Instant) -> int {
    t.second * 1_000_000_000 + t.nanosecond
}

/// The instants that `jiff::Timestamp` represents, in nanoseconds.
pub open spec fn in_range(nanos: int) -> bool {
    MIN_SECOND * 1_000_000_000 <= nanos <= MAX_SECOND * 1_000_000_000 + 999_999_999
}

/// The instant `seconds` after `t`, in nanoseconds.
pub open spec fn shifted(t: Instant, seconds: i64) -> int {
    instant_nanos(t) + seconds * 1_000_000_000
}

/// `r` is what adding `seconds` to `t` gives: the later instant when it is in
/// range, and otherwise `jiff`'s error.
pub open spec fn added(t: Instant, seconds: i64, r: Result<Instant, String>) -> bool {
    if in_range(shifted(t, seconds)) {
        r matches Ok(u) && valid_instant(u) && instant_nanos(u) == shifted(t, seconds)
    } else {
        r is Err
    }
}

/// `a` is earlier than `b`, in the order of `jiff::Timestamp`, which compares
/// the seconds and then the nanoseconds.
pub open spec fn instant_lt(a: Instant, b: Instant) -> bool {
    a.second < b.second || (a.second == b.second && a.nanosecond < b.nanosecond)
}

impl Instant {
    /// `self` is earlier than `other`.
    pub fn lt(&self, other: &Instant) -> (r: bool)
        ensures
            r == instant_lt(*self, *other),
    {
        self.second < other.second || (self.second == other.second && self.nanosecond
            < other.nanosecond)
    }
}

/// What `jiff` prints for the timestamp `(second, nanosecond)`.
pub uninterp spec fn timestamp_display(second: i64, nanosecond: i32) -> Seq<char>;

/// What `jiff` reports when `seconds` cannot be added to the timestamp
/// `(second, nanosecond)`.
pub uninterp spec fn timestamp_add_error(second: i64, nanosecond: i32, seconds: i64) -> Seq<char>;

/// The instant as `jiff::Timestamp`'s `Display` prints it (RFC 3339 in UTC).
/// The contract names the text; it states nothing of its form.
#[verifier::external_body]
pub fn instant_text(t: Instant) -> (r: String)
    requires
        valid_instant(t),
    ensures
        r@ == timestamp_display(t.second, t.nanosecond),
{
    match jiff::Timestamp::new(t.second, t.nanosecond) {
        Ok(ts) => ts.to_string(),
        Err(e) => e.to_string(),
    }
}

/// `jiff::Timestamp::checked_add` of a duration of whole seconds: the instant
/// that many seconds later (earlier when negative), or `jiff`'s error when it
/// falls outside the range of `jiff::Timestamp`.
#[verifier::external_body]
pub fn add_seconds(t: Instant, seconds: i64) -> (r: Result<Instant, String>)
    requires
        valid_instant(t),
        -1_000_000_000_000 <= seconds <= 1_000_000_000_000,
    ensures
        added(t, seconds, r),
        r is Err ==> r->Err_0@ == timestamp_add_error(t.second, t.nanosecond, seconds),
{
    match jiff::Timestamp::new(t.second, t.nanosecond) {
        Ok(ts) => match ts.checked_add(jiff::SignedDuration::from_secs(seconds)) {
            Ok(u) => Ok(Instant { second: u.as_second(), nanosecond: u.subsec_nanosecond() }),
            Err(e) => Err(e.to_string()),
        },
        Err(e) => Err(e.to_string()),
    }
}

/// Two valid instants compare as their nanosecond counts do.
pub proof fn lemma_instant_order(a: Instant, b: Instant)
    requires
        valid_instant(a),
        valid_instant(b),
    ensures
        instant_lt(a, b) == (instant_nanos(a) < instant_nanos(b)),
        (a == b) == (instant_nanos(a) == instant_nanos(b)),
{
    assert(instant_lt(a, b) == (instant_nanos(a) < instant_nanos(b))) by (nonlinear_arith)
        requires
            -999_999_999 <= a.nanosecond <= 999_999_999,
            -999_999_999 <= b.nanosecond <= 999_999_999,
            (a.nanosecond == 0 || a.second == 0 || (a.second > 0) == (a.nanosecond > 0)),
            (b.nanosecond == 0 || b.second == 0 || (b.second > 0) == (b.nanosecond > 0)),
    ;
    assert((a == b) == (instant_nanos(a) == instant_nanos(b))) by (nonlinear_arith)
        requires
            -999_999_999 <= a.nanosecond <= 999_999_999,
            -999_999_999 <= b.nanosecond <= 999_999_999,
            (a.nanosecond == 0 || a.second == 0 || (a.second > 0) == (a.nanosecond > 0)),
            (b.nanosecond == 0 || b.second == 0 || (b.second > 0) == (b.nanosecond > 0)),
    ;
}

} // verus!
