use vstd::prelude::*;

verus! {

/// Exclusive upper bound of the representable instant range:
/// the first second of year 10000, so every representable instant
/// formats as a four-digit-year RFC 3339 string.
pub const TS_MAX_SECS: i64 = 253402300800;

/// An absolute UTC instant, counted in whole seconds since the Unix epoch.
#[derive(Clone, Copy, PartialEq, Eq, Structural, Debug)]
pub struct Timestamp {
    pub secs: i64,
}

/// The instants this library can persist: from the Unix epoch up to
/// (excluding) year 10000.
pub open spec fn ts_in_range(secs: i64) -> bool {
    0 <= secs < TS_MAX_SECS
}

/// The RFC 3339 text (`YYYY-MM-DDTHH:MM:SSZ`) of an instant, as chrono
/// renders it; a function of the second count alone.
pub uninterp spec fn rfc3339_of(secs: i64) -> Seq<char>;

/// The second count that chrono reads out of a candidate RFC 3339 string,
/// or `None` where the string does not parse; a function of the string alone.
pub uninterp spec fn rfc3339_parse_of(s: Seq<char>) -> Option<i64>;

/// Relies on `chrono::DateTime::from_timestamp` and
/// `chrono::DateTime::to_rfc3339_opts(SecondsFormat::Secs, true)`:
/// renders the instant as its UTC RFC 3339 text, deterministically.
#[verifier::external_body]
fn chrono_format_rfc3339(secs: i64) -> (r: String)
    requires
        ts_in_range(secs),
    ensures
        r@ == rfc3339_of(secs),
{
    let dt = chrono::DateTime::from_timestamp(secs, 0).unwrap();
    dt.to_rfc3339_opts(chrono::SecondsFormat::Secs, true)
}

/// Relies on `chrono::DateTime::parse_from_rfc3339` and
/// `chrono::DateTime::timestamp`: reads an RFC 3339 string back into its
/// second count; in particular it inverts the rendering of any in-range
/// instant.
#[verifier::external_body]
fn chrono_parse_rfc3339(s: &str) -> (r: Option<i64>)
    ensures
        r == rfc3339_parse_of(s@),
        forall|n: i64| ts_in_range(n) && s@ == rfc3339_of(n) ==> r == Some(n),
{
    chrono::DateTime::parse_from_rfc3339(s).ok().map(|dt| dt.timestamp())
}

/// Relies on `chrono::Utc::now` and `chrono::DateTime::timestamp`: the
/// wall-clock second count of the executing machine, about which nothing
/// is promised.
#[verifier::external_body]
fn chrono_now_secs() -> i64 {
    chrono::Utc::now().timestamp()
}

impl Timestamp {
    /// The current wall-clock instant, clamped into the representable range.
    pub fn now() -> (r: Timestamp)
        ensures
            ts_in_range(r.secs),
    {
        let n = chrono_now_secs();
        let secs: i64 = if n < 0 {
            0
        } else if n >= TS_MAX_SECS {
            TS_MAX_SECS - 1
        } else {
            n
        };
        Timestamp { secs }
    }

    /// Render this instant as its RFC 3339 text.
    pub fn to_rfc3339(&self) -> (r: String)
        requires
            ts_in_range(self.secs),
        ensures
            r@ == rfc3339_of(self.secs),
    {
        chrono_format_rfc3339(self.secs)
    }
}

/// What parsing a timestamp field of a record yields: the second count of
/// an in-range RFC 3339 string, `None` otherwise.
pub open spec fn ts_parse_spec(s: Seq<char>) -> Option<Timestamp> {
    match rfc3339_parse_of(s) {
        Some(n) => if ts_in_range(n) {
            Some(Timestamp { secs: n })
        } else {
            None
        },
        None => None,
    }
}

/// Parse an RFC 3339 string into an in-range instant.
pub fn ts_from_rfc3339(s: &str) -> (r: Option<Timestamp>)
    ensures
        r == ts_parse_spec(s@),
        forall|n: i64| ts_in_range(n) && s@ == rfc3339_of(n) ==> r == Some(Timestamp { secs: n }),
{
    match chrono_parse_rfc3339(s) {
        Some(n) => if 0 <= n && n < TS_MAX_SECS {
            Some(Timestamp { secs: n })
        } else {
            None
        },
        None => None,
    }
}

} // verus!
