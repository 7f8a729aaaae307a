//! The hosting services that a project can come from.

use vstd::prelude::*;
use vstd::string::*;

use crate::text::same_text;

verus! {

/// Why a shorthand identifier was turned down.
#[derive(Clone, Copy, Debug, PartialEq, Eq, Structural)]
pub enum ParseError {
    /// What stands before the first `:` is none of the known tokens.
    UnknownSource,
    /// What follows the token is not a non-empty user, a `/` and a non-empty
    /// repository.
    MalformedPath,
}

/// A hosting service. Each one has a short token, used in shorthand
/// identifiers and in directory names, and a host name, used in URLs.
#[derive(Clone, Copy, Debug, PartialEq, Eq, Structural)]
pub enum Source {
    BitBucket,
    GitLab,
    GitHub,
}

impl Source {
    /// The short token of the service.
    pub open spec fn token(self) -> Seq<char> {
        match self {
            Source::BitBucket => "bb"@,
            Source::GitLab => "gl"@,
            Source::GitHub => "gh"@,
        }
    }

    /// The host name of the service.
    pub open spec fn host(self) -> Seq<char> {
        match self {
            Source::BitBucket => "bitbucket.com"@,
            Source::GitLab => "gitlab.com"@,
            Source::GitHub => "github.com"@,
        }
    }

    /// The service that a token stands for, if it is a token at all.
    pub open spec fn from_token(token: Seq<char>) -> Option<Source> {
        if token == "gh"@ {
            Some(Source::GitHub)
        } else if token == "gl"@ {
            Some(Source::GitLab)
        } else if token == "bb"@ {
            Some(Source::BitBucket)
        } else {
            None
        }
    }

    /// The text of the address of the service itself: `https://` and the host.
    pub open spec fn base_address(self) -> Seq<char> {
        "https://"@ + self.host()
    }

    /// The token, as borrowed text.
    pub fn token_str(&self) -> (token: &'static str)
        ensures
            token@ == self.token(),
    {
        match self {
            Source::BitBucket => "bb",
            Source::GitLab => "gl",
            Source::GitHub => "gh",
        }
    }

    /// The host name, as borrowed text.
    pub fn host_str(&self) -> (host: &'static str)
        ensures
            host@ == self.host(),
    {
        match self {
            Source::BitBucket => "bitbucket.com",
            Source::GitLab => "gitlab.com",
            Source::GitHub => "github.com",
        }
    }

    /// The token of the service.
    pub fn to_string(&self) -> (token: String)
        ensures
            token@ == self.token(),
    {
        String::from_str(self.token_str())
    }

    /// Reads a token. Exactly the three tokens are accepted; anything else,
    /// the empty text included, is an unknown source.
    pub fn from_str(s: &str) -> (parsed: Result<Source, ParseError>)
        ensures
            parsed == match Source::from_token(s@) {
                Some(source) => Ok::<Source, ParseError>(source),
                None => Err(ParseError::UnknownSource),
            },
    {
        if same_text(s, "gh") {
            Ok(Source::GitHub)
        } else if same_text(s, "gl") {
            Ok(Source::GitLab)
        } else if same_text(s, "bb") {
            Ok(Source::BitBucket)
        } else {
            Err(ParseError::UnknownSource)
        }
    }
}

/// Reading a service's token gives the service back: no two services share
/// a token.
pub proof fn lemma_token_round_trip(source: Source)
    ensures
        Source::from_token(source.token()) == Some(source),
{
    reveal_strlit("gh");
    reveal_strlit("gl");
    reveal_strlit("bb");
    assert("gl"@[1] != "gh"@[1]);
    assert("bb"@[0] != "gh"@[0]);
    assert("bb"@[0] != "gl"@[0]);
}

/// A text that reads as a service is that service's token: the tokens and
/// the services correspond one to one.
pub proof fn lemma_token_is_exact(token: Seq<char>)
    ensures
        Source::from_token(token) matches Some(source) ==> source.token() == token,
{
}

/// Every token is two characters long and holds neither `:` nor `/` nor `-`.
pub proof fn lemma_token_shape(source: Source)
    ensures
        source.token().len() == 2,
        forall|i: int|
            0 <= i < 2 ==> {
                let c = #[trigger] source.token()[i];
                c != ':' && c != '/' && c != '-'
            },
{
    reveal_strlit("gh");
    reveal_strlit("gl");
    reveal_strlit("bb");
}

/// No two services share a host name.
pub proof fn lemma_host_is_exact(a: Source, b: Source)
    ensures
        a.host() == b.host() ==> a == b,
{
    reveal_strlit("bitbucket.com");
    reveal_strlit("gitlab.com");
    reveal_strlit("github.com");
    assert("bitbucket.com"@[0] != "gitlab.com"@[0]);
    assert("bitbucket.com"@[0] != "github.com"@[0]);
    assert("gitlab.com"@[3] != "github.com"@[3]);
}

} // verus!
