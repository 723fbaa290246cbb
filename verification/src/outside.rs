use std::collections::hash_map::DefaultHasher;
use std::hash::Hash;
use std::str::FromStr;
use vstd::prelude::*;

verus! {

/// The state of a `DefaultHasher` after it has taken in one more piece of text.
pub uninterp spec fn absorbed(before: Seq<Seq<u8>>, text: Seq<char>) -> Seq<Seq<u8>>;

/// The media type that `mime_guess` finds for a file name, as text.
pub uninterp spec fn guessed_media_type(name: Seq<char>) -> Seq<char>;

/// What `mime` makes of a piece of text: the media type it reads, as text, or nothing.
pub uninterp spec fn parsed_media_type(text: Seq<char>) -> Option<Seq<char>>;

/// Calls `<str as Hash>::hash` on a `DefaultHasher`. Trusted: the hasher's
/// new state depends on its old state and on the text alone.
#[verifier::external_body]
pub(crate) fn absorb(state: &mut DefaultHasher, text: &str)
    ensures
        final(state)@ == absorbed(old(state)@, text@),
{
    text.hash(state)
}

/// Compares two string slices with `str::eq`. Trusted: the result says
/// whether they hold the same characters.
#[verifier::external_body]
pub(crate) fn same_text(a: &str, b: &str) -> (r: bool)
    ensures
        r == (a@ == b@),
{
    a == b
}

/// Reads `mime::TEXT_PLAIN` as text. Trusted: it reads `text/plain`.
#[verifier::external_body]
pub(crate) fn plain_text_media_type() -> (r: String)
    ensures
        r@ == "text/plain"@,
{
    mime::TEXT_PLAIN.to_string()
}

/// Reads `mime::APPLICATION_OCTET_STREAM` as text. Trusted: it reads
/// `application/octet-stream`.
#[verifier::external_body]
pub(crate) fn octet_stream_media_type() -> (r: String)
    ensures
        r@ == "application/octet-stream"@,
{
    mime::APPLICATION_OCTET_STREAM.to_string()
}

/// Calls `mime_guess::from_path` and takes `first_or_octet_stream` of the
/// guess. Trusted: the media type found depends on the name alone: the crate
/// looks the extension of the name up in a fixed table and reads no file. The
/// extension is cut from the name by the path rules of the platform, so a
/// name that holds a backslash may be read otherwise on Windows than
/// elsewhere.
#[verifier::external_body]
pub(crate) fn guess_media_type(name: &str) -> (r: String)
    ensures
        r@ == guessed_media_type(name@),
{
    mime_guess::from_path(name).first_or_octet_stream().to_string()
}

/// Calls `mime::Mime::from_str`. Trusted: whether the text is read as a media
/// type, and as which, depends on the text alone.
#[verifier::external_body]
pub(crate) fn parse_media_type(text: &str) -> (r: Option<String>)
    ensures
        match r {
            Some(m) => parsed_media_type(text@) == Some(m@),
            None => parsed_media_type(text@) is None,
        },
{
    mime::Mime::from_str(text).ok().map(|m| m.to_string())
}

/// Calls `nanoid::format` with the crate's default generator and alphabet, for
/// 21 symbols. Trusted: the token has 21 characters; which ones is left open.
#[verifier::external_body]
pub(crate) fn random_token() -> (r: String)
    ensures
        r@.len() == 21,
{
    nanoid::format(nanoid::rngs::default, &nanoid::alphabet::SAFE, 21)
}

/// Calls `SystemTime::elapsed` on the Unix epoch and gives the whole seconds
/// that have passed since, or nothing where the clock stands before the
/// epoch. Trusted: nothing is claimed of the result.
#[verifier::external_body]
pub(crate) fn unix_seconds() -> (r: Option<u64>) {
    std::time::UNIX_EPOCH.elapsed().ok().map(|d| d.as_secs())
}

} // verus!
