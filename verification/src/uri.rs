//! Request targets that are sent to an upstream server.
use hyper::Uri;
use vstd::prelude::*;

verus! {

/// `http::Uri`, a parsed request target.
#[verifier::external_type_specification]
#[verifier::external_body]
pub struct ExUri(hyper::Uri);

/// What `Uri::from_str` makes of a text: a request target if it accepts it, else
/// the text of the error.
pub uninterp spec fn parsed_uri(text: Seq<char>) -> Result<Uri, Seq<char>>;

/// Calls `Uri::from_str`. The contract claims that whether a text is accepted, the
/// target if it is, and the text of the error if it is not, follow from the text
/// alone.
#[verifier::external_body]
fn parse_uri(text: &str) -> (res: Result<Uri, String>)
    ensures
        match res {
            Ok(uri) => parsed_uri(text@) == Ok::<Uri, Seq<char>>(uri),
            Err(error) => parsed_uri(text@) == Err::<Uri, Seq<char>>(error@),
        },
{
    match text.parse::<Uri>() {
        Ok(uri) => Ok(uri),
        Err(error) => Err(error.to_string()),
    }
}

/// A request target with the text that it was parsed from.
#[derive(Debug)]
pub struct UpstreamUri {
    text: String,
    parsed: Uri,
}

impl UpstreamUri {
    /// The text that the target was parsed from.
    pub closed spec fn text(&self) -> Seq<char> {
        self.text@
    }

    /// The parsed target.
    pub closed spec fn parsed(&self) -> Uri {
        self.parsed
    }

    /// The target is the one that its text parses to.
    #[verifier::type_invariant]
    spec fn inv(&self) -> bool {
        parsed_uri(self.text@) == Ok::<Uri, Seq<char>>(self.parsed)
    }

    /// The request target of a text, else the text of the error in it.
    pub fn parse(text: &str) -> (res: Result<UpstreamUri, String>)
        ensures
            match res {
                Ok(uri) => {
                    &&& uri.text() == text@
                    &&& parsed_uri(text@) == Ok::<Uri, Seq<char>>(uri.parsed())
                },
                Err(error) => parsed_uri(text@) == Err::<Uri, Seq<char>>(error@),
            },
    {
        match parse_uri(text) {
            Ok(parsed) => Ok(UpstreamUri { text: text.to_owned(), parsed }),
            Err(error) => Err(error),
        }
    }

    /// The text that the target was parsed from.
    pub fn as_str(&self) -> (res: &str)
        ensures
            res@ == self.text(),
    {
        self.text.as_str()
    }

    /// The parsed target.
    pub fn as_uri(&self) -> (res: &Uri)
        ensures
            *res == self.parsed(),
            parsed_uri(self.text()) == Ok::<Uri, Seq<char>>(*res),
    {
        proof {
            use_type_invariant(self);
        }
        &self.parsed
    }
}

} // verus!
