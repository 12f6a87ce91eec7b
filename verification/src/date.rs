//! The date of a page: an instant and the offset from UTC that it was written
//! with.

use vstd::prelude::*;

verus! {

/// The text of the instant `unix_nanos` (nanoseconds since the Unix epoch) at
/// `offset_seconds` east of UTC in ISO 8601, with whole seconds, as the `time`
/// crate writes it; `None` where the crate does not represent or format it.
pub uninterp spec fn iso8601_text(unix_nanos: int, offset_seconds: int) -> Option<Seq<char>>;

/// The text of the instant `unix_nanos` at `offset_seconds` east of UTC under
/// the format description `description`, as the `time` crate writes it; `None`
/// where the crate does not represent or format it, or refuses the description.
pub uninterp spec fn described_text(
    unix_nanos: int,
    offset_seconds: int,
    description: Seq<char>,
) -> Option<Seq<char>>;

/// The configuration of the `time` crate's ISO 8601 format that writes date,
/// time and offset with separators, the time to whole seconds and the offset to
/// the minute, in the encoding that the format takes as its parameter.
pub const ISO8601_WHOLE_SECONDS: u128 = 0x0501_0000_0200_0100_0000_0000_0000_0000;

/// Calls `OffsetDateTime::format` of the `time` crate with its well-known
/// ISO 8601 format, set to whole seconds, on the date-time built from the
/// arguments. Claimed: the result is a function of the arguments alone.
#[verifier::external_body]
fn time_format_iso8601(unix_nanos: i128, offset_seconds: i32) -> (r: Option<String>)
    ensures
        match r {
            Some(text) => iso8601_text(unix_nanos as int, offset_seconds as int) == Some(text@),
            None => iso8601_text(unix_nanos as int, offset_seconds as int) is None,
        },
{
    let offset = time::UtcOffset::from_whole_seconds(offset_seconds).ok()?;
    let utc = time::OffsetDateTime::from_unix_timestamp_nanos(unix_nanos).ok()?;
    let local = utc.checked_to_offset(offset)?;
    local.format(&time::format_description::well_known::Iso8601::<ISO8601_WHOLE_SECONDS>).ok()
}

/// Calls `OffsetDateTime::format` of the `time` crate with the format
/// description that `format_description::parse` makes of `description`, on the
/// date-time built from the arguments. Claimed: the result is a function of
/// the arguments alone.
#[verifier::external_body]
fn time_format_described(unix_nanos: i128, offset_seconds: i32, description: &str) -> (r: Option<
    String,
>)
    ensures
        match r {
            Some(text) => described_text(unix_nanos as int, offset_seconds as int, description@)
                == Some(text@),
            None => described_text(unix_nanos as int, offset_seconds as int, description@) is None,
        },
{
    let items = time::format_description::parse(description).ok()?;
    let offset = time::UtcOffset::from_whole_seconds(offset_seconds).ok()?;
    let utc = time::OffsetDateTime::from_unix_timestamp_nanos(unix_nanos).ok()?;
    let local = utc.checked_to_offset(offset)?;
    local.format(&items).ok()
}

/// The format in which dates are shown: the date and the minute, in UTC.
pub open spec fn display_format() -> Seq<char> {
    "[year]-[month]-[day] [hour]:[minute]Z"@
}

/// The date of a page. Only dates that can be written in both formats exist.
#[derive(Clone, Copy, Debug)]
pub struct PageDate {
    unix_nanos: i128,
    offset_seconds: i32,
}

impl PageDate {
    /// Whether both texts of this date exist.
    #[verifier::type_invariant]
    pub closed spec fn can_be_written(&self) -> bool {
        &&& iso8601_text(self.unix_nanos as int, self.offset_seconds as int) is Some
        &&& described_text(self.unix_nanos as int, 0, display_format()) is Some
    }

    /// Nanoseconds since the Unix epoch.
    pub closed spec fn nanos(&self) -> int {
        self.unix_nanos as int
    }

    /// Seconds east of UTC.
    pub closed spec fn offset(&self) -> int {
        self.offset_seconds as int
    }

    /// The date at `unix_nanos` nanoseconds since the Unix epoch, written with
    /// the offset `offset_seconds`; `None` where it cannot be written.
    pub fn new(unix_nanos: i128, offset_seconds: i32) -> (r: Option<PageDate>)
        ensures
            r is Some <==> iso8601_text(unix_nanos as int, offset_seconds as int) is Some
                && described_text(unix_nanos as int, 0, display_format()) is Some,
            r matches Some(date) ==> date.nanos() == unix_nanos && date.offset() == offset_seconds,
    {
        if time_format_iso8601(unix_nanos, offset_seconds).is_none() {
            return None;
        }
        if time_format_described(unix_nanos, 0, "[year]-[month]-[day] [hour]:[minute]Z").is_none() {
            return None;
        }
        Some(PageDate { unix_nanos, offset_seconds })
    }

    /// Nanoseconds since the Unix epoch.
    pub fn unix_timestamp_nanos(&self) -> (n: i128)
        ensures
            n == self.nanos(),
    {
        self.unix_nanos
    }

    /// Seconds east of UTC.
    pub fn offset_whole_seconds(&self) -> (s: i32)
        ensures
            s == self.offset(),
    {
        self.offset_seconds
    }
}

/// The text of `date` for the `datetime` attribute of an HTML `time` element.
pub open spec fn date_iso8601(date: PageDate) -> Seq<char> {
    iso8601_text(date.nanos(), date.offset())->0
}

/// The text of `date` as it is shown: in UTC, to the minute.
pub open spec fn date_utc(date: PageDate) -> Seq<char> {
    described_text(date.nanos(), 0, display_format())->0
}

/// Writes `date` in ISO 8601 with whole seconds.
pub fn format_date_iso8601(date: &PageDate) -> (text: String)
    ensures
        text@ == date_iso8601(*date),
{
    proof {
        use_type_invariant(date);
    }
    match time_format_iso8601(date.unix_nanos, date.offset_seconds) {
        Some(text) => text,
        None => String::new(),
    }
}

/// Writes `date` in UTC, to the minute.
pub fn format_date_utc(date: &PageDate) -> (text: String)
    ensures
        text@ == date_utc(*date),
{
    proof {
        use_type_invariant(date);
    }
    match time_format_described(date.unix_nanos, 0, "[year]-[month]-[day] [hour]:[minute]Z") {
        Some(text) => text,
        None => String::new(),
    }
}

} // verus!
