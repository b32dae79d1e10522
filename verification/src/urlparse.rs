//! The bridge to the outside URL parser: the request line's URL token
//! is validated by the `url` crate, and the library records the raw
//! token together with the scheme the parser derived from it.

use vstd::prelude::*;

use crate::model::Url;

verus! {

/// The scheme that `url::Url::parse` derives from `s` — lower-cased
/// ASCII, without the trailing `:` — or the empty string when `s`
/// does not parse as an absolute URL. A successful parse always
/// starts with an ASCII-alphabetic scheme of at least one character,
/// so the derived scheme is empty exactly when parsing fails.
pub uninterp spec fn url_scheme_of(s: Seq<char>) -> Seq<char>;

/// Relies on `url::Url::parse` to decide whether the token is an
/// absolute URL, and on `url::Url::scheme` for the scheme it derived;
/// both depend on the input text alone.
#[verifier::external_body]
pub(crate) fn parse_absolute_url(s: &str) -> (r: Option<Url>)
    ensures
        r is Some <==> url_scheme_of(s@).len() > 0,
        r matches Some(u) ==> u@.raw == s@ && u@.scheme == url_scheme_of(s@),
{
    match url::Url::parse(s) {
        Ok(u) => Some(Url { raw: s.to_owned(), scheme: u.scheme().to_owned() }),
        Err(_) => None,
    }
}

} // verus!
