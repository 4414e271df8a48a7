//! The text that tracks and playlists are stored as: tag lists kept as
//! JSON arrays and timestamps kept as RFC 3339 text, decoded when a row is
//! read and encoded before one is written.

use vstd::prelude::*;

verus! {

/// The error chrono reports for text that is not an RFC 3339 timestamp.
#[verifier::external_type_specification]
#[verifier::external_body]
pub struct ExParseError(chrono::ParseError);

/// The error serde_json reports when it cannot encode or decode.
#[verifier::external_type_specification]
#[verifier::external_body]
pub struct ExJsonError(serde_json::Error);

/// What serde_json decodes `text` to as a list of strings, or `None` when
/// `text` is not a JSON array of strings.
pub uninterp spec fn spec_tag_list_json(text: Seq<char>) -> Option<Seq<Seq<char>>>;

/// Lower-case hexadecimal digit for `d` in `0..16`.
pub open spec fn hex_digit(d: int) -> char {
    if d < 10 { (48 + d) as char } else { (87 + d) as char }
}

/// How serde_json writes one character inside a JSON string: quote and
/// backslash are escaped, the control characters below 0x20 get their
/// short escape or `\u00XX`, and every other character is written as is.
pub open spec fn json_char(c: char) -> Seq<char> {
    let n = c as int;
    if c == '"' {
        seq!['\\', '"']
    } else if c == '\\' {
        seq!['\\', '\\']
    } else if n == 8 {
        seq!['\\', 'b']
    } else if n == 9 {
        seq!['\\', 't']
    } else if n == 10 {
        seq!['\\', 'n']
    } else if n == 12 {
        seq!['\\', 'f']
    } else if n == 13 {
        seq!['\\', 'r']
    } else if n < 32 {
        seq!['\\', 'u', '0', '0', hex_digit(n / 16), hex_digit(n % 16)]
    } else {
        seq![c]
    }
}

/// The escaped characters of a string, without the surrounding quotes.
pub open spec fn json_chars(s: Seq<char>) -> Seq<char>
    decreases s.len(),
{
    if s.len() == 0 {
        Seq::empty()
    } else {
        json_chars(s.drop_last()) + json_char(s.last())
    }
}

/// A string as a JSON string literal.
pub open spec fn json_string(s: Seq<char>) -> Seq<char> {
    seq!['"'] + json_chars(s) + seq!['"']
}

/// The JSON string literals of the tags, separated by commas.
pub open spec fn json_items(tags: Seq<Seq<char>>) -> Seq<char>
    decreases tags.len(),
{
    if tags.len() == 0 {
        Seq::empty()
    } else if tags.len() == 1 {
        json_string(tags[0])
    } else {
        json_items(tags.drop_last()) + seq![','] + json_string(tags.last())
    }
}

/// A list of strings as compact JSON: `[`, the items separated by commas
/// with no spaces, `]`.
pub open spec fn json_tag_list(tags: Seq<Seq<char>>) -> Seq<char> {
    seq!['['] + json_items(tags) + seq![']']
}

/// The instant an RFC 3339 timestamp denotes, as whole seconds since the
/// Unix epoch and the nanoseconds past that second, or `None` when chrono
/// does not accept the text.
pub uninterp spec fn spec_rfc3339_instant(text: Seq<char>) -> Option<(i64, u32)>;

/// Calls `serde_json::from_str::<Vec<String>>` and drops the error. The
/// contract claims only that the result is the name `spec_tag_list_json`
/// applied to the text: the JSON grammar is not written out here.
#[verifier::external_body]
fn parse_tag_list_json(text: &str) -> (r: Option<Vec<String>>)
    ensures
        r is Some <==> spec_tag_list_json(text@) is Some,
        r matches Some(v) ==> spec_tag_list_json(text@) == Some(v.deep_view()),
{
    serde_json::from_str::<Vec<String>>(text).ok()
}

/// Calls `serde_json::to_string` on a list of strings. The contract claims
/// that it succeeds (serde_json fails only for a `Serialize` impl that
/// fails or a map with non-string keys, and writing to its in-memory
/// buffer cannot fail), that the text is the compact JSON `json_tag_list`
/// describes, and that serde_json decodes that text back to the same list.
#[verifier::external_body]
fn tags_to_json(tags: &Vec<String>) -> (r: Result<String, serde_json::Error>)
    ensures
        r is Ok,
        r matches Ok(s) ==> s@ == json_tag_list(tags.deep_view()),
        r matches Ok(s) ==> spec_tag_list_json(s@) == Some(tags.deep_view()),
{
    serde_json::to_string(tags)
}

/// Calls `chrono::DateTime::parse_from_rfc3339` and turns the parsed
/// instant into seconds since the epoch and nanoseconds past that second
/// (`timestamp`, `timestamp_subsec_nanos`). The contract claims only that
/// the outcome is the name `spec_rfc3339_instant` applied to the text; the
/// RFC 3339 grammar is not written out here.
#[verifier::external_body]
fn parse_rfc3339_instant(text: &str) -> (r: Result<(i64, u32), chrono::ParseError>)
    ensures
        r is Ok <==> spec_rfc3339_instant(text@) is Some,
        r matches Ok(p) ==> spec_rfc3339_instant(text@) == Some(p),
{
    chrono::DateTime::parse_from_rfc3339(text).map(|t| (t.timestamp(), t.timestamp_subsec_nanos()))
}

/// The RFC 3339 text chrono writes (`to_rfc3339`, UTC offset `+00:00`,
/// only as many fractional digits as needed) for the instant `secs`
/// seconds and `nanos` nanoseconds after the Unix epoch, or `None` when
/// chrono cannot represent that instant.
pub uninterp spec fn spec_rfc3339_text(secs: i64, nanos: u32) -> Option<Seq<char>>;

/// Whether the instant falls in the years 0 to 9999, which chrono writes
/// with four-digit years, and is not inside a leap second.
pub open spec fn four_digit_year_instant(secs: i64, nanos: u32) -> bool {
    -62167219200 <= secs <= 253402300799 && nanos < 1_000_000_000
}

/// Calls `chrono::DateTime::from_timestamp` and then `to_rfc3339` on the
/// result. The contract claims that the text is the name
/// `spec_rfc3339_text` of the instant, and that for an instant in the
/// years 0 to 9999, outside a leap second, chrono represents it, and
/// `parse_from_rfc3339` reads the text back as the same seconds and
/// nanoseconds. Other instants are left unsaid.
#[verifier::external_body]
fn format_rfc3339_instant(secs: i64, nanos: u32) -> (r: Option<String>)
    ensures
        r is Some <==> spec_rfc3339_text(secs, nanos) is Some,
        r matches Some(s) ==> spec_rfc3339_text(secs, nanos) == Some(s@),
        four_digit_year_instant(secs, nanos) ==> r is Some,
        r matches Some(s) ==> (four_digit_year_instant(secs, nanos) ==> spec_rfc3339_instant(s@) == Some(
            (secs, nanos),
        )),
{
    match chrono::DateTime::from_timestamp(secs, nanos) {
        Some(t) => Some(t.to_rfc3339()),
        None => None,
    }
}

/// A stored tag list as read back: the decoded list, or no tags when the
/// text is not a JSON array of strings.
pub open spec fn decoded_tags(text: Seq<char>) -> Seq<Seq<char>> {
    match spec_tag_list_json(text) {
        Some(v) => v,
        None => Seq::empty(),
    }
}

/// Decodes a stored tag list; text that is not a JSON array of strings
/// reads as no tags.
pub fn decode_tags(text: &str) -> (r: Vec<String>)
    ensures
        r.deep_view() == decoded_tags(text@),
{
    match parse_tag_list_json(text) {
        Some(v) => v,
        None => Vec::new(),
    }
}

/// Encodes a tag list for storage as compact JSON; the stored text reads
/// back as the same list.
pub fn encode_tags(tags: &Vec<String>) -> (r: String)
    ensures
        r@ == json_tag_list(tags.deep_view()),
        decoded_tags(r@) == tags.deep_view(),
{
    match tags_to_json(tags) {
        Ok(s) => s,
        Err(_) => String::new(),
    }
}

/// Writes an instant, given as seconds since the Unix epoch and
/// nanoseconds past that second, as RFC 3339 text for storage; an instant
/// chrono cannot represent is written as empty text. An instant in the
/// years 0 to 9999, outside a leap second, reads back as itself.
pub fn encode_timestamp(secs: i64, nanos: u32) -> (r: String)
    ensures
        r@ == match spec_rfc3339_text(secs, nanos) {
            Some(t) => t,
            None => Seq::empty(),
        },
        four_digit_year_instant(secs, nanos) ==> spec_rfc3339_instant(r@) == Some((secs, nanos)),
{
    match format_rfc3339_instant(secs, nanos) {
        Some(t) => t,
        None => String::new(),
    }
}

/// A stored timestamp that could not be read back.
pub struct TimestampError {
    /// The column of the row the text came from.
    pub column: usize,
    /// chrono's reason.
    pub cause: chrono::ParseError,
}

/// Reads a stored timestamp from column `column` of a row.
pub fn decode_timestamp(text: &str, column: usize) -> (r: Result<(i64, u32), TimestampError>)
    ensures
        r is Ok <==> spec_rfc3339_instant(text@) is Some,
        r matches Ok(p) ==> spec_rfc3339_instant(text@) == Some(p),
        r matches Err(e) ==> e.column == column,
{
    match parse_rfc3339_instant(text) {
        Ok(p) => Ok(p),
        Err(cause) => Err(TimestampError { column, cause }),
    }
}

/// Column of a track row that holds the time the track was added.
pub const ADDED_AT_COLUMN: usize = 17;

/// Column of a playlist row that holds its creation time.
pub const CREATED_AT_COLUMN: usize = 4;

/// Column of a playlist row that holds its last update time.
pub const UPDATED_AT_COLUMN: usize = 5;

/// The text columns of a stored track row.
pub struct StoredTrackText {
    pub mood_tags: String,
    pub activity_tags: String,
    pub genres: String,
    pub added_at: String,
}

/// The text columns of a track row, decoded.
pub struct TrackTextFields {
    pub mood_tags: Vec<String>,
    pub activity_tags: Vec<String>,
    pub genres: Vec<String>,
    /// Seconds since the Unix epoch and nanoseconds past that second.
    pub added_at: (i64, u32),
}

/// Decodes the text columns of a stored track: its three tag lists and the
/// time it was added. Only an unreadable time is an error.
pub fn decode_track_text(stored: &StoredTrackText) -> (r: Result<TrackTextFields, TimestampError>)
    ensures
        r is Ok <==> spec_rfc3339_instant(stored.added_at@) is Some,
        r matches Ok(f) ==> {
            &&& f.mood_tags.deep_view() == decoded_tags(stored.mood_tags@)
            &&& f.activity_tags.deep_view() == decoded_tags(stored.activity_tags@)
            &&& f.genres.deep_view() == decoded_tags(stored.genres@)
            &&& spec_rfc3339_instant(stored.added_at@) == Some(f.added_at)
        },
        r matches Err(e) ==> e.column == ADDED_AT_COLUMN,
{
    let mood_tags = decode_tags(stored.mood_tags.as_str());
    let activity_tags = decode_tags(stored.activity_tags.as_str());
    let genres = decode_tags(stored.genres.as_str());
    match decode_timestamp(stored.added_at.as_str(), ADDED_AT_COLUMN) {
        Ok(added_at) => Ok(TrackTextFields { mood_tags, activity_tags, genres, added_at }),
        Err(e) => Err(e),
    }
}

} // verus!
