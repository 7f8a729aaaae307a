//! Remote addresses. The `url` crate parses and resolves them; this module
//! names what it returns and hands the text of the result on.

use vstd::prelude::*;

use crate::source::Source;
use crate::text::join2;

verus! {

/// The `url` crate accepts no such address.
#[derive(Clone, Copy, Debug, PartialEq, Eq, Structural)]
pub struct UrlRejected;

/// The text of the URL that `url::Url::parse` makes of `input`; `None` where
/// it turns `input` down.
pub uninterp spec fn parsed_url(input: Seq<char>) -> Option<Seq<char>>;

/// The text of the URL that `url::Url::join` makes of `reference`, resolved
/// against the URL that `url::Url::parse` makes of `base`; `None` where
/// either call fails.
pub uninterp spec fn joined_url(base: Seq<char>, reference: Seq<char>) -> Option<Seq<char>>;

/// Calls `url::Url::parse` on `input` and hands back the serialization of the
/// URL (`String::from`, the text that `Url::as_str` shows), or `None` where
/// the crate returns an error. Nothing is proved of it: the contract only
/// gives the outcome its name, `parsed_url`, which the crate computes from
/// `input` alone.
#[verifier::external_body]
fn parse_url(input: &str) -> (parsed: Option<String>)
    ensures
        match parsed {
            Some(text) => parsed_url(input@) == Some(text@),
            None => parsed_url(input@) is None,
        },
{
    match url::Url::parse(input) {
        Ok(url) => Some(String::from(url)),
        Err(_) => None,
    }
}

/// Calls `url::Url::parse` on `base` and `url::Url::join` on the result, with
/// `reference`, and hands back the serialization of the joined URL, or `None`
/// where either call returns an error. Nothing is proved of it: the contract
/// only gives the outcome its name, `joined_url`, which the crate computes
/// from the two texts alone.
#[verifier::external_body]
pub(crate) fn join_url(base: &str, reference: &str) -> (joined: Option<String>)
    ensures
        match joined {
            Some(text) => joined_url(base@, reference@) == Some(text@),
            None => joined_url(base@, reference@) is None,
        },
{
    match url::Url::parse(base) {
        Ok(url) => match url.join(reference) {
            Ok(joined) => Some(String::from(joined)),
            Err(_) => None,
        },
        Err(_) => None,
    }
}

/// The outcome of a call into the `url` crate as a `Result`.
pub(crate) fn accepted(outcome: Option<String>) -> (address: Result<String, UrlRejected>)
    ensures
        match address {
            Ok(text) => outcome == Some(text),
            Err(_) => outcome is None,
        },
{
    match outcome {
        Some(text) => Ok(text),
        None => Err(UrlRejected),
    }
}

/// What has a remote address.
pub trait ToUrl {
    /// The text of the address, as the `url` crate writes it; `None` where
    /// the crate accepts no such address.
    spec fn address(&self) -> Option<Seq<char>>;

    /// The remote address, as text.
    fn to_url(&self) -> (address: Result<String, UrlRejected>)
        ensures
            match address {
                Ok(text) => self.address() == Some(text@),
                Err(_) => self.address() is None,
            },
    ;
}

impl ToUrl for Source {
    open spec fn address(&self) -> Option<Seq<char>> {
        parsed_url(self.base_address())
    }

    /// The address of the service itself: what the `url` crate makes of
    /// `https://` and the host name.
    fn to_url(&self) -> (address: Result<String, UrlRejected>) {
        let base = join2("https://", self.host_str());
        accepted(parse_url(base.as_str()))
    }
}

} // verus!
