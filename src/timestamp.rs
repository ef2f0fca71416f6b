use vstd::prelude::*;

verus! {

/// Timestamps before 2010-01-01 00:00:00 UTC are taken not to be real ones.
pub const MIN_REASONABLE_UNIXTIME: i64 = 1262304000;

/// Whether chrono can represent the instant `secs` seconds after the Unix
/// epoch: from -262143-01-01 00:00:00 through 262142-12-31 23:59:59 UTC.
pub open spec fn utc_representable(secs: int) -> bool {
    -8334601228800 <= secs <= 8210266876799
}

/// Relies on chrono::DateTime::from_timestamp: it returns `Some` exactly for
/// the seconds whose date lies between chrono's MIN_YEAR (-262143) and
/// MAX_YEAR (262142).
#[verifier::external_body]
fn representable(secs: i64) -> (r: bool)
    ensures
        r == utc_representable(secs as int),
{
    chrono::DateTime::from_timestamp(secs, 0).is_some()
}

/// chrono's `%Y-%m-%d %H:%M:%S` text of the instant `secs` seconds after the
/// epoch, read in UTC.
pub uninterp spec fn utc_text(secs: int) -> Seq<char>;

/// Relies on chrono's DateTime<Utc>::format with `%Y-%m-%d %H:%M:%S`: the text
/// depends on the instant alone, and its year has at least four digits.
#[verifier::external_body]
fn format_utc(secs: i64) -> (r: String)
    requires
        utc_representable(secs as int),
    ensures
        r@ == utc_text(secs as int),
        r@.len() >= 19,
{
    let utc = chrono::DateTime::from_timestamp(secs, 0).unwrap_or_default();
    utc.format("%Y-%m-%d %H:%M:%S").to_string()
}

/// Relies on chrono's Local time zone: the offset from UTC, in seconds, that
/// it gives the instant. The offset is a FixedOffset, which lies strictly
/// between -86400 and 86400; which one comes from the machine, so it gets no
/// name.
#[verifier::external_body]
fn local_offset(secs: i64) -> (off: i32)
    requires
        utc_representable(secs as int),
    ensures
        -86400 < off < 86400,
{
    let utc = chrono::DateTime::from_timestamp(secs, 0).unwrap_or_default();
    chrono::DateTime::<chrono::Local>::from(utc).offset().local_minus_utc()
}

/// Relies on chrono: converts the instant to the local time zone and formats it
/// with `%Y-%m-%d %H:%M:%S`, whose year has at least four digits. The zone comes
/// from the machine, so nothing more is stated of the text. Used only at the
/// ends of chrono's range, where the shifted instant cannot be represented.
#[verifier::external_body]
fn format_local(secs: i64) -> (r: String)
    requires
        utc_representable(secs as int),
    ensures
        r@.len() >= 19,
{
    let utc = chrono::DateTime::from_timestamp(secs, 0).unwrap_or_default();
    chrono::DateTime::<chrono::Local>::from(utc).format("%Y-%m-%d %H:%M:%S").to_string()
}

/// `text` is the time `unix` read `off` seconds east of UTC, whenever that
/// shifted instant can be represented; the offset is under a day.
pub open spec fn local_text_with(unix: int, off: int, text: Seq<char>) -> bool {
    -86400 < off < 86400 && (utc_representable(unix + off) ==> text == utc_text(unix + off))
}

/// `text` is the time `unix` in some time zone less than a day from UTC.
pub open spec fn is_local_text(unix: int, text: Seq<char>) -> bool {
    exists|off: int| #[trigger] local_text_with(unix, off, text)
}

/// A point in time, in whole seconds since the Unix epoch (UTC).
#[derive(Clone, Copy, PartialEq, Eq, Debug)]
pub struct Timestamp {
    secs: i64,
}

impl Timestamp {
    #[verifier::type_invariant]
    spec fn inv(self) -> bool {
        utc_representable(self.secs as int)
    }

    /// Seconds since the Unix epoch.
    pub closed spec fn unix(self) -> int {
        self.secs as int
    }

    /// The instant `secs` seconds after the epoch, if it can be represented.
    pub fn from_unix(secs: i64) -> (r: Option<Timestamp>)
        ensures
            r is Some <==> utc_representable(secs as int),
            r matches Some(t) ==> t.unix() == secs,
    {
        if representable(secs) {
            Some(Timestamp { secs })
        } else {
            None
        }
    }

    pub fn unix_secs(&self) -> (r: i64)
        ensures
            r == self.unix(),
    {
        self.secs
    }

    /// The instant in local time, as `YYYY-MM-DD HH:MM:SS`: the UTC text of
    /// the instant moved by the local offset.
    pub fn to_local_string(&self) -> (r: String)
        ensures
            is_local_text(self.unix(), r@),
            r@.len() >= 19,
    {
        proof {
            use_type_invariant(self);
        }
        let off = local_offset(self.secs);
        let shifted = self.secs + off as i64;
        let r = if representable(shifted) {
            format_utc(shifted)
        } else {
            format_local(self.secs)
        };
        proof {
            assert(local_text_with(self.unix(), off as int, r@));
        }
        r
    }
}

/// The timestamp of entries that no timestamp line precedes.
pub fn default_ts() -> (r: Timestamp)
    ensures
        r.unix() == MIN_REASONABLE_UNIXTIME,
{
    Timestamp { secs: MIN_REASONABLE_UNIXTIME }
}

} // verus!
