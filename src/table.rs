use vstd::prelude::*;
use crate::amount::{chars_of, trim, trim_bounds};
use crate::instant::{Instant, NANOS_PER_SECOND};
use crate::text::text_equal;

verus! {

#[verifier::external_type_specification]
#[verifier::external_body]
pub struct ExCsvError(csv::Error);

/// The rows of a CSV document, header row included, each as its field texts,
/// as the csv crate reads them with fields trimmed of whitespace when `trim`
/// holds; `None` where the crate reports an error.
pub uninterp spec fn csv_rows(data: Seq<u8>, trim: bool) -> Option<Seq<Seq<Seq<char>>>>;

/// Seconds since the epoch and nanoseconds past that second of a timestamp
/// text, as chrono reads it; `None` where chrono rejects the text.
pub uninterp spec fn timestamp_parts(text: Seq<char>) -> Option<(int, int)>;

/// The field texts of rows of strings.
pub open spec fn rows_view(rows: Seq<Vec<String>>) -> Seq<Seq<Seq<char>>> {
    rows.map_values(|row: Vec<String>| row@.map_values(|field: String| field@))
}

/// Relies on csv's `ReaderBuilder` (header row read as an ordinary row, all
/// rows of one length) and `Reader::records`: every row of `data` in order, or
/// the crate's error.
#[verifier::external_body]
pub(crate) fn read_csv_rows(data: &[u8], trim: bool) -> (r: Result<Vec<Vec<String>>, csv::Error>)
    ensures
        match r {
            Ok(rows) => csv_rows(data@, trim) == Some(rows_view(rows@)),
            Err(_) => csv_rows(data@, trim) is None,
        },
{
    let mode = if trim { csv::Trim::All } else { csv::Trim::None };
    let mut reader = csv::ReaderBuilder::new().has_headers(false).trim(mode).from_reader(data);
    reader.records().map(|row| row.map(|fields| fields.iter().map(String::from).collect())).collect()
}

/// Relies on chrono's `FromStr for DateTime<Utc>` (RFC 3339 with `T` or a
/// space between date and time, any offset converted to UTC), then
/// `DateTime::timestamp` and `DateTime::timestamp_subsec_nanos`.
#[verifier::external_body]
fn read_timestamp(text: &str) -> (r: Option<(i64, u32)>)
    ensures
        match r {
            Some(parts) => timestamp_parts(text@) == Some((parts.0 as int, parts.1 as int)),
            None => timestamp_parts(text@) is None,
        },
{
    match text.parse::<chrono::DateTime<chrono::Utc>>() {
        Ok(t) => Some((t.timestamp(), t.timestamp_subsec_nanos())),
        Err(_) => None,
    }
}

/// Nanoseconds since the epoch of a timestamp field, trimmed of surrounding
/// ASCII whitespace; `None` where the text is no timestamp or names a leap
/// second.
pub open spec fn instant_value(text: Seq<char>) -> Option<int> {
    match timestamp_parts(trim(text)) {
        Some(parts) => if 0 <= parts.1 < NANOS_PER_SECOND {
            Some(parts.0 * NANOS_PER_SECOND + parts.1)
        } else {
            None
        },
        None => None,
    }
}

/// Reads an instant from timestamp text such as `2021-01-01T00:00:00Z`.
pub fn parse_instant(text: &str) -> (r: Option<Instant>)
    ensures
        match r {
            Some(t) => instant_value(text@) == Some(t.nanos as int) && t.in_range(),
            None => instant_value(text@) is None,
        },
{
    let cs = chars_of(text);
    let (lo, hi) = trim_bounds(&cs);
    let trimmed = text.substring_char(lo, hi);
    match read_timestamp(trimmed) {
        Some((secs, nanos)) => if nanos < 1_000_000_000 {
            Some(Instant::from_unix(secs, nanos))
        } else {
            None
        },
        None => None,
    }
}

/// Index of the first field of `header` equal to `name`.
pub open spec fn first_index(header: Seq<Seq<char>>, name: Seq<char>) -> Option<int>
    decreases header.len(),
{
    if header.len() == 0 {
        None
    } else {
        match first_index(header.drop_last(), name) {
            Some(i) => Some(i),
            None => if header.last() == name {
                Some(header.len() - 1)
            } else {
                None
            },
        }
    }
}

/// Position of the column named `name` in a header row.
pub fn find_column(header: &Vec<String>, name: &str) -> (r: Option<usize>)
    ensures
        match r {
            Some(i) => first_index(header@.map_values(|f: String| f@), name@) == Some(i as int),
            None => first_index(header@.map_values(|f: String| f@), name@) is None,
        },
{
    let ghost names = header@.map_values(|f: String| f@);
    let mut i: usize = 0;
    while i < header.len()
        invariant
            i <= header.len(),
            names == header@.map_values(|f: String| f@),
            first_index(names.take(i as int), name@) is None,
        decreases header.len() - i,
    {
        assert(names.take(i + 1).drop_last() == names.take(i as int));
        assert(names.take(i + 1).last() == header@[i as int]@);
        if text_equal(header[i].as_str(), name) {
            proof {
                lemma_first_index_prefix(names, name@, i + 1);
            }
            return Some(i);
        }
        i = i + 1;
    }
    assert(names.take(header.len() as int) == names);
    None
}

proof fn lemma_first_index_prefix(header: Seq<Seq<char>>, name: Seq<char>, k: int)
    requires
        0 <= k <= header.len(),
        first_index(header.take(k), name) is Some,
    ensures
        first_index(header, name) == first_index(header.take(k), name),
    decreases header.len() - k,
{
    if k < header.len() {
        assert(header.take(k + 1).drop_last() == header.take(k));
        lemma_first_index_prefix(header, name, k + 1);
    } else {
        assert(header.take(k) == header);
    }
}

} // verus!
