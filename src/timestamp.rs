use vstd::prelude::*;

verus! {

/// Earliest second that a timestamp can hold: -262143-01-01T00:00:00Z.
pub const MIN_SECS: i64 = -8334601228800;

/// Latest second that a timestamp can hold: 262142-12-31T23:59:59Z.
pub const MAX_SECS: i64 = 8210266876799;

/// First second of year 0000, the earliest that RFC 3339 can write.
pub const FOUR_DIGIT_MIN_SECS: i64 = -62167219200;

/// Last second of year 9999, the latest that RFC 3339 can write.
pub const FOUR_DIGIT_MAX_SECS: i64 = 253402300799;

/// Space-separated date and time with fractional seconds and a numeric offset.
pub const FRACTIONAL_OFFSET_FORMAT: &'static str = "%Y-%m-%d %H:%M:%S%.f %z";

/// Space-separated date and time with a numeric offset and whole seconds.
pub const WHOLE_OFFSET_FORMAT: &'static str = "%Y-%m-%d %H:%M:%S %z";

/// Space-separated date and time with no offset.
pub const NAIVE_FORMAT: &'static str = "%Y-%m-%d %H:%M:%S";

/// An instant in UTC: whole seconds since 1970-01-01T00:00:00Z and the
/// nanoseconds past them (past one billion only within a leap second).
#[derive(Clone, Copy, Debug, PartialEq, Eq, Structural)]
pub struct Timestamp {
    pub secs: i64,
    pub nanos: u32,
}

impl Timestamp {
    /// The instant lies in the range of dates that can be written, and its
    /// nanoseconds pass one billion only in the last second of a minute.
    pub open spec fn wf(self) -> bool {
        &&& MIN_SECS <= self.secs <= MAX_SECS
        &&& self.nanos < 2_000_000_000
        &&& self.nanos >= 1_000_000_000 ==> (self.secs as int) % 60 == 59
    }

    /// The instant falls in years 0000 to 9999 and is no leap second.
    pub open spec fn writable_year(self) -> bool {
        &&& FOUR_DIGIT_MIN_SECS <= self.secs <= FOUR_DIGIT_MAX_SECS
        &&& self.nanos < 1_000_000_000
    }

    /// The instant of `secs` seconds and `nanos` nanoseconds after the epoch,
    /// if a timestamp can hold it.
    pub fn from_unix(secs: i64, nanos: u32) -> (r: Option<Timestamp>)
        ensures
            r matches Some(t) ==> t.secs == secs && t.nanos == nanos,
            r is Some <==> (Timestamp { secs, nanos }).wf(),
    {
        if secs < MIN_SECS || secs > MAX_SECS || nanos >= 2_000_000_000 {
            return None;
        }
        if nanos >= 1_000_000_000 {
            let rem = secs % 60;
            if rem != 59 && rem != -1 {
                return None;
            }
        }
        Some(Timestamp { secs, nanos })
    }
}

/// The RFC 3339 text of an instant, as chrono writes it.
pub uninterp spec fn rfc3339_text(t: Timestamp) -> Seq<char>;

/// The instant that chrono reads from RFC 3339 text, if it reads one.
pub uninterp spec fn rfc3339_parse(s: Seq<char>) -> Option<Timestamp>;

/// The instant that chrono reads from `s` under a format with an offset.
pub uninterp spec fn offset_parse(s: Seq<char>, fmt: Seq<char>) -> Option<Timestamp>;

/// The instant that chrono reads from `s` under a format without an offset,
/// taken as UTC.
pub uninterp spec fn naive_parse(s: Seq<char>, fmt: Seq<char>) -> Option<Timestamp>;

/// Relies on `DateTime::from_timestamp`, which accepts exactly the values that
/// `wf` describes, and `DateTime::to_rfc3339`, which writes through
/// `write_rfc3339` with `SecondsFormat::AutoSi`: the date, `T`, the time, every
/// nonzero nanosecond in 3, 6 or 9 digits, and `+00:00`. The text holds only
/// digits and `-`, `:`, `T`, `+`, `.`; for a four-digit year and no leap second
/// `DateTime::parse_from_rfc3339` reads it back as the same instant.
#[verifier::external_body]
pub(crate) fn format_rfc3339(t: Timestamp) -> (r: String)
    requires
        t.wf(),
    ensures
        r@ == rfc3339_text(t),
        forall|i: int| 0 <= i < r@.len() ==> r@[i] != '\n',
        t.writable_year() ==> rfc3339_parse(r@) == Some(t),
{
    chrono::DateTime::from_timestamp(t.secs, t.nanos).unwrap().to_rfc3339()
}

/// Relies on `DateTime::parse_from_rfc3339`, read as an instant through
/// `timestamp` and `timestamp_subsec_nanos`, which round-trip through
/// `DateTime::from_timestamp`.
#[verifier::external_body]
pub(crate) fn parse_rfc3339(s: &str) -> (r: Option<Timestamp>)
    ensures
        r == rfc3339_parse(s@),
        r matches Some(t) ==> t.wf(),
{
    match chrono::DateTime::parse_from_rfc3339(s) {
        Ok(d) => Some(Timestamp { secs: d.timestamp(), nanos: d.timestamp_subsec_nanos() }),
        Err(_) => None,
    }
}

/// Relies on `DateTime::parse_from_str`, read as an instant as above.
#[verifier::external_body]
pub(crate) fn parse_with_offset(s: &str, fmt: &str) -> (r: Option<Timestamp>)
    ensures
        r == offset_parse(s@, fmt@),
        r matches Some(t) ==> t.wf(),
{
    match chrono::DateTime::parse_from_str(s, fmt) {
        Ok(d) => Some(Timestamp { secs: d.timestamp(), nanos: d.timestamp_subsec_nanos() }),
        Err(_) => None,
    }
}

/// Relies on `NaiveDateTime::parse_from_str` and
/// `DateTime::from_naive_utc_and_offset`, read as an instant as above.
#[verifier::external_body]
pub(crate) fn parse_naive_utc(s: &str, fmt: &str) -> (r: Option<Timestamp>)
    ensures
        r == naive_parse(s@, fmt@),
        r matches Some(t) ==> t.wf(),
{
    match chrono::NaiveDateTime::parse_from_str(s, fmt) {
        Ok(n) => {
            let d = chrono::DateTime::<chrono::Utc>::from_naive_utc_and_offset(n, chrono::Utc);
            Some(Timestamp { secs: d.timestamp(), nanos: d.timestamp_subsec_nanos() })
        },
        Err(_) => None,
    }
}

/// Relies on `Utc::now`: the time now, which is some instant that chrono holds
/// (chrono panics where the system clock reads before 1970).
#[verifier::external_body]
pub(crate) fn now() -> (r: Timestamp)
    ensures
        r.wf(),
{
    let d = chrono::Utc::now();
    Timestamp { secs: d.timestamp(), nanos: d.timestamp_subsec_nanos() }
}

/// The first of the four readings that succeeded, in the order given.
pub open spec fn first_reading(
    rfc: Option<Timestamp>,
    fractional: Option<Timestamp>,
    whole: Option<Timestamp>,
    naive: Option<Timestamp>,
) -> Option<Timestamp> {
    if rfc is Some {
        rfc
    } else if fractional is Some {
        fractional
    } else if whole is Some {
        whole
    } else {
        naive
    }
}

/// The instant that a stored timestamp text denotes: read as RFC 3339, else
/// with fractional seconds and an offset, else with whole seconds and an
/// offset, else as a naive date and time in UTC.
pub open spec fn timestamp_of(s: Seq<char>) -> Option<Timestamp> {
    first_reading(
        rfc3339_parse(s),
        offset_parse(s, FRACTIONAL_OFFSET_FORMAT@),
        offset_parse(s, WHOLE_OFFSET_FORMAT@),
        naive_parse(s, NAIVE_FORMAT@),
    )
}

/// Picks the first reading that succeeded, in the order given.
pub fn resolve_timestamp(
    rfc: Option<Timestamp>,
    fractional: Option<Timestamp>,
    whole: Option<Timestamp>,
    naive: Option<Timestamp>,
) -> (r: Option<Timestamp>)
    ensures
        r == first_reading(rfc, fractional, whole, naive),
{
    if rfc.is_some() {
        rfc
    } else if fractional.is_some() {
        fractional
    } else if whole.is_some() {
        whole
    } else {
        naive
    }
}

/// Reads a stored timestamp text, trying the four formats in turn.
pub fn parse_timestamp(s: &str) -> (r: Option<Timestamp>)
    ensures
        r == timestamp_of(s@),
        r matches Some(t) ==> t.wf(),
{
    let rfc = parse_rfc3339(s);
    if rfc.is_some() {
        return rfc;
    }
    let fractional = parse_with_offset(s, FRACTIONAL_OFFSET_FORMAT);
    if fractional.is_some() {
        return fractional;
    }
    let whole = parse_with_offset(s, WHOLE_OFFSET_FORMAT);
    if whole.is_some() {
        return whole;
    }
    let naive = parse_naive_utc(s, NAIVE_FORMAT);
    resolve_timestamp(rfc, fractional, whole, naive)
}

} // verus!
