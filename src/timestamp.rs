//! Instants, their calendar reading, and the embedded capture-time tag.
use vstd::prelude::*;

verus! {

/// Where a resolved timestamp came from.
#[derive(Clone, Copy, Debug, PartialEq, Eq, Structural)]
pub enum TimestampSource {
    SidecarMetadata,
    EmbeddedCaptureTag,
    FilesystemTime,
}

/// A UTC instant in whole seconds since the Unix epoch, with its source.
#[derive(Clone, Copy, Debug, PartialEq, Eq, Structural)]
pub struct ResolvedTimestamp {
    pub epoch_secs: i64,
    pub source: TimestampSource,
}

/// Calendar year and month (1 to 12) in UTC of an epoch second, or `None`
/// outside the range of dates that chrono represents.
pub uninterp spec fn civil_year_month_of(secs: i64) -> Option<(i32, u32)>;

/// Relies on chrono's `DateTime::from_timestamp(secs, 0)` (`None` out of
/// range) and on `Datelike::year` and `Datelike::month` of its result; the
/// month is documented to lie in 1 to 12.
#[verifier::external_body]
pub(crate) fn civil_year_month(secs: i64) -> (r: Option<(i32, u32)>)
    ensures
        r == civil_year_month_of(secs),
        r matches Some((_, m)) ==> 1 <= m <= 12,
{
    chrono::DateTime::from_timestamp(secs, 0).map(
        |d| (chrono::Datelike::year(&d), chrono::Datelike::month(&d)),
    )
}

/// The epoch second of a text parsed by chrono as a date and time in the
/// strftime format `fmt` and read as UTC, or `None` where chrono rejects it.
pub uninterp spec fn naive_utc_secs_of(text: Seq<char>, fmt: Seq<char>) -> Option<i64>;

/// Relies on chrono's `NaiveDateTime::parse_from_str`, and on
/// `and_utc().timestamp()` to read the result as UTC without any time zone
/// conversion.
#[verifier::external_body]
fn parse_naive_utc(text: &str, fmt: &str) -> (r: Option<i64>)
    ensures
        r == naive_utc_secs_of(text@, fmt@),
{
    chrono::NaiveDateTime::parse_from_str(text, fmt).ok().map(|t| t.and_utc().timestamp())
}

/// The layout of an embedded capture time: `%Y-%m-%d %H:%M:%S`.
pub open spec fn capture_format() -> Seq<char> {
    seq!['%', 'Y', '-', '%', 'm', '-', '%', 'd', ' ', '%', 'H', ':', '%', 'M', ':', '%', 'S']
}

/// The instant of a capture-time text read as UTC.
pub open spec fn capture_time_of(text: Seq<char>) -> Option<i64> {
    naive_utc_secs_of(text, capture_format())
}

/// Parses a capture-time text in the capture layout, as UTC.
pub fn parse_capture_time(text: &str) -> (r: Option<i64>)
    ensures
        r == capture_time_of(text@),
{
    proof {
        reveal_strlit("%Y-%m-%d %H:%M:%S");
    }
    let fmt: &str = "%Y-%m-%d %H:%M:%S";
    assert(fmt@ =~= capture_format());
    parse_naive_utc(text, fmt)
}

/// The displayed value of the `DateTimeOriginal` tag of the primary image in
/// a file's bytes, as kamadak-exif reads it, or `None` where the bytes hold
/// no readable container or no such tag.
pub uninterp spec fn exif_date_time_original(bytes: Seq<u8>) -> Option<Seq<char>>;

/// Relies on kamadak-exif's `Reader::read_from_container`,
/// `Exif::get_field(Tag::DateTimeOriginal, In::PRIMARY)` and
/// `Field::display_value`.
#[verifier::external_body]
fn read_date_time_original(bytes: &Vec<u8>) -> (r: Option<String>)
    ensures
        match r {
            Some(t) => exif_date_time_original(bytes@) == Some(t@),
            None => exif_date_time_original(bytes@) is None,
        },
{
    let mut cursor = std::io::Cursor::new(bytes.as_slice());
    let exif = exif::Reader::new().read_from_container(&mut cursor).ok()?;
    let field = exif.get_field(exif::Tag::DateTimeOriginal, exif::In::PRIMARY)?;
    Some(field.display_value().to_string())
}

/// The capture instant recorded in a file's own metadata, if any.
pub open spec fn embedded_time_of(bytes: Seq<u8>) -> Option<i64> {
    match exif_date_time_original(bytes) {
        Some(text) => capture_time_of(text),
        None => None,
    }
}

/// Reads the embedded capture tag of a file's bytes as a UTC instant.
pub fn embedded_capture_time(bytes: &Vec<u8>) -> (r: Option<i64>)
    ensures
        r == embedded_time_of(bytes@),
{
    match read_date_time_original(bytes) {
        Some(text) => parse_capture_time(text.as_str()),
        None => None,
    }
}

/// Creation time where the filesystem gives one, else modification time.
pub open spec fn filesystem_time_of(created: Option<i64>, modified: Option<i64>) -> Option<i64> {
    match created {
        Some(c) => Some(c),
        None => modified,
    }
}

/// The first source that yields an instant, in the order sidecar entry,
/// embedded capture tag, filesystem time.
pub open spec fn resolution(
    sidecar: Option<i64>,
    embedded: Option<i64>,
    created: Option<i64>,
    modified: Option<i64>,
) -> Option<ResolvedTimestamp> {
    match sidecar {
        Some(s) => Some(ResolvedTimestamp { epoch_secs: s, source: TimestampSource::SidecarMetadata }),
        None => match embedded {
            Some(e) => Some(
                ResolvedTimestamp { epoch_secs: e, source: TimestampSource::EmbeddedCaptureTag },
            ),
            None => match filesystem_time_of(created, modified) {
                Some(f) => Some(
                    ResolvedTimestamp { epoch_secs: f, source: TimestampSource::FilesystemTime },
                ),
                None => None,
            },
        },
    }
}

/// Picks the timestamp of a file from the instants each source gave.
/// `None` only where no source gave one.
pub fn resolve_from_sources(
    sidecar: Option<i64>,
    embedded: Option<i64>,
    created: Option<i64>,
    modified: Option<i64>,
) -> (r: Option<ResolvedTimestamp>)
    ensures
        r == resolution(sidecar, embedded, created, modified),
        r is None <==> (sidecar is None && embedded is None && created is None && modified is None),
{
    if let Some(s) = sidecar {
        return Some(ResolvedTimestamp { epoch_secs: s, source: TimestampSource::SidecarMetadata });
    }
    if let Some(e) = embedded {
        return Some(ResolvedTimestamp { epoch_secs: e, source: TimestampSource::EmbeddedCaptureTag });
    }
    let fs = match created {
        Some(c) => Some(c),
        None => modified,
    };
    match fs {
        Some(f) => Some(ResolvedTimestamp { epoch_secs: f, source: TimestampSource::FilesystemTime }),
        None => None,
    }
}

} // verus!
