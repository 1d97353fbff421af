//! The errors of the redirector, by the stage that produces them.
use vstd::prelude::*;

verus! {

/// Why a request's query holds no command.
#[derive(Clone, Copy, Debug, PartialEq, Eq, Structural)]
pub enum ParseError {
    /// The query has no parameter named `q`.
    MissingQueryParam,
    /// The value of `q` does not percent-decode to UTF-8.
    DecodeError,
    /// The value of `q` names no command.
    MalformedQuery,
}

/// A rule produced a string that is not a URI.
#[derive(Clone, Debug, PartialEq, Eq)]
pub struct UriParseError {
    /// The string that was produced.
    pub uri: String,
    /// Why the URI parser refused it.
    pub cause: String,
}

/// Why a request could not be redirected.
#[derive(Clone, Debug, PartialEq, Eq)]
pub enum RedirectError {
    BadRequest(ParseError),
    RuleFailure(UriParseError),
    /// No rule has the command's name and there is no default rule.
    NoRuleForCommand(String),
}

/// Why a rule source could not be loaded.
#[derive(Clone, Debug, PartialEq, Eq)]
pub enum ConfigError {
    /// A non-blank line that is not of the form `keyword = template`.
    MalformedConfigLine(String),
}

} // verus!
