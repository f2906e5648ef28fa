//! Movie details from the OMDb service: the record it returns and the
//! address of a lookup.
use vstd::prelude::*;
use crate::text::{joined, same_text};

verus! {

/// One rating of a movie: who gave it and what it is.
#[derive(Clone, Debug)]
pub struct Rating {
    pub source: String,
    pub value: String,
}

/// A movie's details as the OMDb service describes them.
#[derive(Clone, Debug)]
pub struct Welcome {
    pub title: String,
    pub year: String,
    pub rated: String,
    pub released: String,
    pub runtime: String,
    pub genre: String,
    pub director: String,
    pub writer: String,
    pub actors: String,
    pub plot: String,
    pub language: String,
    pub country: String,
    pub awards: String,
    pub poster: String,
    pub ratings: Vec<Rating>,
    pub metascore: String,
    pub imdb_rating: String,
    pub imdb_votes: String,
    pub imdb_id: String,
    pub welcome_type: String,
    pub dvd: String,
    pub box_office: String,
    pub production: String,
    pub website: String,
    pub response: String,
}

/// A movie's details, in the shape of the service's movie record.
#[derive(Clone, Debug)]
pub struct Movie {
    pub title: String,
    pub year: String,
    pub rated: String,
    pub released: String,
    pub runtime: String,
    pub genre: String,
    pub director: String,
    pub writer: String,
    pub actors: String,
    pub plot: String,
    pub language: String,
    pub country: String,
    pub awards: String,
    pub poster: String,
    pub ratings: Vec<Rating>,
    pub metascore: String,
    pub imdb_rating: String,
    pub imdb_votes: String,
    pub imdb_id: String,
    pub media_type: String,
    pub dvd: String,
    pub box_office: String,
    pub production: String,
    pub website: String,
    pub response: String,
}

/// What a detail lookup hands to the foreground.
pub enum MovieDetailMessage {
    Complete(Welcome),
    Error(String),
}

/// The service's lookup address, up to the key.
pub const OMDB_URL: &'static str = "http://www.omdbapi.com/?apikey=";

/// The text between the key and the title in a lookup address.
pub const TITLE_PARAM: &'static str = "&t=";

/// Whether a byte stands for itself in a percent-encoded text: ASCII letters
/// and digits, `-`, `.`, `_` and `~`.
pub open spec fn is_unreserved(b: u8) -> bool {
    (48 <= b <= 57) || (65 <= b <= 90) || (97 <= b <= 122) || b == 45 || b == 46 || b == 95 || b == 126
}

/// The upper-case hexadecimal digit of a value below 16.
pub open spec fn hex_digit(v: u8) -> char {
    if v < 10 {
        ((48 + v) as u8) as char
    } else {
        ((55 + v) as u8) as char
    }
}

/// Bytes percent-encoded: each unreserved byte as itself, every other one as
/// `%` and two upper-case hexadecimal digits.
pub open spec fn percent_encoded(b: Seq<u8>) -> Seq<char>
    decreases b.len(),
{
    if b.len() == 0 {
        seq![]
    } else {
        let head = b[0];
        let piece = if is_unreserved(head) {
            seq![head as char]
        } else {
            seq!['%', hex_digit(head / 16), hex_digit(head % 16)]
        };
        piece + percent_encoded(b.drop_first())
    }
}

/// Relies on urlencoding's `encode`: the text's UTF-8 bytes percent-encoded,
/// every byte but ASCII letters, digits, `-`, `.`, `_` and `~`.
#[verifier::external_body]
fn encode_component(s: &str) -> (r: String)
    ensures
        r@ == percent_encoded(vstd::utf8::encode_utf8(s@)),
{
    urlencoding::encode(s).into_owned()
}

/// The address that looks up the movie titled `title` with key `api_key`.
pub open spec fn detail_url_of(api_key: Seq<char>, title: Seq<char>) -> Seq<char> {
    OMDB_URL@ + api_key + TITLE_PARAM@ + percent_encoded(vstd::utf8::encode_utf8(title))
}

/// The address that looks up the movie titled `title` with key `api_key`.
pub fn detail_url(api_key: &str, title: &str) -> (r: String)
    ensures
        r@ == detail_url_of(api_key@, title@),
{
    let head = joined(joined(OMDB_URL, api_key).as_str(), TITLE_PARAM);
    let encoded = encode_component(title);
    joined(head.as_str(), encoded.as_str())
}

/// The service's word, in a record's `response`, for a title it does not
/// know.
pub const NOT_FOUND_RESPONSE: &'static str = "False";

/// The message that a decoded record makes: the record, unless the service
/// said it found no such movie.
pub fn detail_outcome(details: Welcome, title: &str) -> (r: MovieDetailMessage)
    ensures
        match r {
            MovieDetailMessage::Error(e) => details.response@ == NOT_FOUND_RESPONSE@ && e@
                == "Movie not found: "@ + title@,
            MovieDetailMessage::Complete(w) => details.response@ != NOT_FOUND_RESPONSE@ && w
                == details,
        },
{
    if same_text(details.response.as_str(), NOT_FOUND_RESPONSE) {
        MovieDetailMessage::Error(joined("Movie not found: ", title))
    } else {
        MovieDetailMessage::Complete(details)
    }
}

/// A poster address worth fetching: neither empty nor the service's `N/A`.
pub fn poster_wanted(poster: &str) -> (r: bool)
    ensures
        r == (poster@.len() > 0 && poster@ != "N/A"@),
{
    poster.unicode_len() > 0 && !same_text(poster, "N/A")
}

} // verus!
