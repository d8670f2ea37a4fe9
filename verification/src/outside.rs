//! Calls into the standard library and into other crates, each with what is taken for granted of it.
use vstd::prelude::*;
use vstd::utf8::*;

use crate::redis_mgr;
use crate::text;

verus! {

// ---------------------------------------------------------------------------------------------
// The standard library
// ---------------------------------------------------------------------------------------------
/// What `{:?}` writes for a string.
pub uninterp spec fn debug_text(s: Seq<char>) -> Seq<char>;

/// Whether a text is made of printable ASCII characters, none of which is a double quote or a
/// backslash.
pub open spec fn is_plain(s: Seq<char>) -> bool {
    is_printable_ascii(s) && !s.contains('"') && !s.contains('\\')
}

/// A text in double quotes.
pub open spec fn quoted(s: Seq<char>) -> Seq<char> {
    seq!['"'] + s + seq!['"']
}

/// `format!("{:?}", s)` of the standard library: the string in double quotes, with escapes where
/// they are needed. Its text is given a name; plain ASCII needs no escapes.
#[verifier::external_body]
pub(crate) fn debug_of(s: &str) -> (r: String)
    ensures
        r@ == debug_text(s@),
        is_plain(s@) ==> r@ == quoted(s@),
{
    format!("{:?}", s)
}

/// Whether a character is a letter or a number in Unicode.
pub uninterp spec fn alphanumeric(c: char) -> bool;

/// Whether a character is an ASCII letter or an ASCII digit.
pub open spec fn ascii_alphanumeric(c: char) -> bool {
    ||| 48 <= c as int <= 57
    ||| 65 <= c as int <= 90
    ||| 97 <= c as int <= 122
}

/// `char::is_alphanumeric` tells whether a character is alphabetic or numeric in Unicode. Which
/// characters beyond ASCII are is given a name; in ASCII they are the letters and the digits.
pub assume_specification[ char::is_alphanumeric ](c: char) -> (r: bool)
    ensures
        r == alphanumeric(c),
        (c as int) < 128 ==> r == ascii_alphanumeric(c),
;

/// A text in lower case by the rules of Unicode.
pub uninterp spec fn lowercase(s: Seq<char>) -> Seq<char>;

/// `str::to_lowercase` gives the text in lower case by the rules of Unicode, which are given a
/// name; of an ASCII text each capital letter becomes its small letter and the rest stays.
pub assume_specification[ str::to_lowercase ](s: &str) -> (r: String)
    ensures
        r@ == lowercase(s@),
        is_ascii_chars(s@) ==> r@ == text::ascii_lowered(s@),
;

/// The text of bytes that need not be valid UTF-8.
pub uninterp spec fn lossy_text(bytes: Seq<u8>) -> Seq<char>;

/// `String::from_utf8_lossy` reads bytes as UTF-8. Valid bytes give the text that they encode; what
/// replaces invalid ones is given a name.
#[verifier::external_body]
pub(crate) fn text_of_bytes(bytes: &[u8]) -> (r: String)
    ensures
        r@ == lossy_text(bytes@),
        valid_utf8(bytes@) ==> r@ == decode_utf8(bytes@),
{
    String::from_utf8_lossy(bytes).into_owned()
}

// ---------------------------------------------------------------------------------------------
// ratatui
// ---------------------------------------------------------------------------------------------
/// How many columns of a terminal a text takes.
pub uninterp spec fn columns(s: Seq<char>) -> nat;

/// Whether a text is made of printable ASCII characters.
pub open spec fn is_printable_ascii(s: Seq<char>) -> bool {
    forall|k: int| 0 <= k < s.len() ==> 32 <= (#[trigger] s[k]) as int <= 126
}

/// `ratatui::text::Span::width` is the number of columns that a text takes. The widths of other
/// characters are given a name; a printable ASCII character takes one column.
#[verifier::external_body]
pub(crate) fn columns_of(s: &str) -> (r: usize)
    ensures
        r == columns(s@),
        is_printable_ascii(s@) ==> r == s@.len(),
{
    ratatui::text::Span::raw(s).width()
}

// ---------------------------------------------------------------------------------------------
// chrono
// ---------------------------------------------------------------------------------------------
/// A moment, in seconds since 1970 and nanoseconds, written by a format; nothing where the moment
/// is out of range.
pub uninterp spec fn formatted_time(secs: i64, nanos: u32, format: Seq<char>) -> Option<Seq<char>>;

/// The format of the moment in a log line.
pub open spec fn line_time_format() -> Seq<char> {
    "%Y-%m-%dT%H:%M:%S%.6fZ"@
}

/// The format of the moment in the name of a log file.
pub open spec fn file_time_format() -> Seq<char> {
    "%Y-%m-%d-%H-%M-%S"@
}

/// `chrono::DateTime::format` of the moment that `chrono::DateTime::from_timestamp` makes, with one
/// of the two formats in use. The text is given a name, and so is when there is none.
#[verifier::external_body]
pub(crate) fn format_time(secs: i64, nanos: u32, format: &str) -> (r: Option<String>)
    requires
        format@ == line_time_format() || format@ == file_time_format(),
    ensures
        crate::config::option_text(r) == formatted_time(secs, nanos, format@),
{
    chrono::DateTime::from_timestamp(secs, nanos).map(|t| t.format(format).to_string())
}

// ---------------------------------------------------------------------------------------------
// redis
// ---------------------------------------------------------------------------------------------
#[verifier::external_type_specification]
#[verifier::external_body]
pub struct ExRedisClient(redis::Client);

#[verifier::external_type_specification]
#[verifier::external_body]
pub struct ExRedisError(redis::RedisError);

/// What the address of a Redis server says of how to connect to it, written as a text; nothing where
/// it is no such address.
pub uninterp spec fn redis_target(url: Seq<char>) -> Option<Seq<char>>;

/// How a client connects to its server, written as a text.
pub uninterp spec fn client_target(client: redis::Client) -> Seq<char>;

/// `redis::Client::open` reads the address of a server and makes a client that holds what it read,
/// without connecting. How an address is read is given a name; an address with a port of this
/// machine is always taken. What the error says is not stated.
#[verifier::external_body]
pub(crate) fn open_client(url: &str) -> (r: Result<redis::Client, redis::RedisError>)
    ensures
        match r {
            Ok(client) => redis_target(url@) == Some(client_target(client)),
            Err(_) => redis_target(url@) is None,
        },
        forall|port: u16| url@ == #[trigger] redis_mgr::redis_address("127.0.0.1"@, port) ==> r is Ok,
{
    redis::Client::open(url)
}

/// The text of a `redis::RedisError` by its `Display`. Nothing is stated of it: where the error comes
/// from the operating system, so does its text, in the language that is set there.
#[verifier::external_body]
pub(crate) fn redis_error_text(e: &redis::RedisError) -> (r: String) {
    e.to_string()
}

} // verus!
