//! Validated URIs: a string that `http`'s URI parser accepts.
use crate::error::UriParseError;
use vstd::prelude::*;

verus! {

/// Whether `http::Uri` parses `s`.
pub uninterp spec fn uri_accepts(s: Seq<char>) -> bool;

#[verifier::external_type_specification]
#[verifier::external_body]
pub struct ExHttpUri(http::Uri);

/// Relies on `<http::Uri as FromStr>::from_str`: whether it accepts a string
/// depends on the string alone. The error is rendered by its `Display`.
#[verifier::external_body]
fn parse_http_uri(s: &str) -> (r: Result<http::Uri, String>)
    ensures
        r is Ok <==> uri_accepts(s@),
{
    s.parse::<http::Uri>().map_err(|e| e.to_string())
}

/// A string that the URI parser accepts.
#[derive(Debug, PartialEq, Eq)]
pub struct ValidUri {
    text: String,
}

impl View for ValidUri {
    type V = Seq<char>;

    closed spec fn view(&self) -> Seq<char> {
        self.text@
    }
}

/// `r` is what validating `t` gives: the URI `t` where the parser accepts it,
/// else an error that carries `t`.
pub open spec fn validated(r: Result<ValidUri, UriParseError>, t: Seq<char>) -> bool {
    match r {
        Ok(u) => uri_accepts(t) && u@ == t,
        Err(e) => !uri_accepts(t) && e.uri@ == t,
    }
}

impl ValidUri {
    #[verifier::type_invariant]
    spec fn accepted(self) -> bool {
        uri_accepts(self.text@)
    }

    /// Validates `s` as a URI.
    pub fn parse(s: &str) -> (r: Result<ValidUri, UriParseError>)
        ensures
            validated(r, s@),
    {
        match parse_http_uri(s) {
            Ok(_) => {
                let text = s.to_owned();
                assert(uri_accepts(text@));
                Ok(ValidUri { text })
            },
            Err(cause) => Err(UriParseError { uri: s.to_owned(), cause }),
        }
    }

    /// The URI as written; the parser accepts it.
    pub fn as_str(&self) -> (r: &str)
        ensures
            r@ == self@,
            uri_accepts(r@),
    {
        proof {
            use_type_invariant(self);
        }
        self.text.as_str()
    }

    /// The URI as written.
    pub fn to_string(&self) -> (r: String)
        ensures
            r@ == self@,
    {
        self.text.clone()
    }
}

} // verus!
