//! An address-bar redirector: a typed command line such as `npm file finder`
//! is parsed from a request's query, matched against a table of URI-producing
//! rules, and turned into the URI to redirect to.
use vstd::prelude::*;

pub mod codec;
pub mod command;
pub mod config;
pub mod error;
pub mod redirector;
pub mod req_timer;
pub mod rules;
pub mod table;
pub mod text;
pub mod uri;

pub use command::{Command, CommandParser, RequestUri};
pub use config::parse_rules_from;
pub use error::{ConfigError, ParseError, RedirectError, UriParseError};
pub use redirector::Redirector;
pub use req_timer::get_request_uid;
pub use rules::{Builtin, ConfigRule, Rule, DEFAULT_RULE_KEY};
pub use table::RuleTable;
pub use uri::ValidUri;

verus! {

} // verus!
