//! The redirector: from a request's query to the URI to redirect to.
use crate::command::{query_command, CommandParser, RequestUri};
use crate::config::{holds_rules_of, first_malformed, parse_rules_from};
use crate::error::{ConfigError, RedirectError, UriParseError};
use crate::rules::{reads_name, target, Rule};
use crate::table::RuleTable;
use crate::text::{split, views};
use crate::uri::{uri_accepts, ValidUri};
use vstd::prelude::*;

verus! {

/// `r` is what a rule's outcome for the URI text `t` becomes: the URI, or a
/// rule failure that carries `t`.
pub open spec fn redirected(r: Result<ValidUri, RedirectError>, t: Seq<char>) -> bool {
    match r {
        Ok(u) => uri_accepts(t) && u@ == t,
        Err(RedirectError::RuleFailure(e)) => !uri_accepts(t) && e.uri@ == t,
        Err(_) => false,
    }
}

/// The arguments the default rule gets for an unmatched command: the name
/// goes in front of them, unless the rule puts the name in its URI itself.
pub open spec fn fallback_args(rule: Rule, name: Seq<char>, args: Seq<Seq<char>>) -> Seq<
    Seq<char>,
> {
    if reads_name(rule) {
        args
    } else {
        seq![name] + args
    }
}

/// `r` is what redirecting a request with `query` through `table` gives.
pub open spec fn evaluated(
    r: Result<ValidUri, RedirectError>,
    table: RuleTable,
    query: Option<Seq<char>>,
) -> bool {
    match query_command(query) {
        Err(e) => r matches Err(RedirectError::BadRequest(e2)) && e2 == e,
        Ok((name, args)) => if table.keyword_rules().contains_key(name) {
            redirected(r, target(table.keyword_rules()[name], name, args))
        } else {
            match table.fallback() {
                Some(d) => redirected(r, target(d, name, fallback_args(d, name, args))),
                None => r matches Err(RedirectError::NoRuleForCommand(n)) && n@ == name,
            }
        },
    }
}

/// A command whose name has no rule resolves to what the default rule gives
/// for the name followed by the arguments, where that rule does not put the
/// name in its URI on its own; the name it is handed then makes no difference.
pub proof fn lemma_unmatched_name_falls_back(
    table: RuleTable,
    query: Option<Seq<char>>,
    r: Result<ValidUri, RedirectError>,
    any_name: Seq<char>,
)
    requires
        evaluated(r, table, query),
        query_command(query) is Ok,
        !table.keyword_rules().contains_key(query_command(query)->Ok_0.0),
        table.fallback() is Some,
        !reads_name(table.fallback()->0),
    ensures
        redirected(
            r,
            target(
                table.fallback()->0,
                any_name,
                seq![query_command(query)->Ok_0.0] + query_command(query)->Ok_0.1,
            ),
        ),
{
}

fn rule_outcome(r: Result<ValidUri, UriParseError>) -> (o: Result<ValidUri, RedirectError>)
    ensures
        match r {
            Ok(u) => o == Ok::<ValidUri, RedirectError>(u),
            Err(e) => o == Err::<ValidUri, RedirectError>(RedirectError::RuleFailure(e)),
        },
{
    match r {
        Ok(u) => Ok(u),
        Err(e) => Err(RedirectError::RuleFailure(e)),
    }
}

/// Turns requests into redirect targets through a rule table.
#[derive(Clone, Debug)]
pub struct Redirector {
    cmd_parser: CommandParser,
    rules: RuleTable,
}

impl Redirector {
    pub closed spec fn table(&self) -> RuleTable {
        self.rules
    }

    pub fn with_rules(rules: RuleTable) -> (r: Redirector)
        ensures
            r.table() == rules,
    {
        Redirector { rules, cmd_parser: CommandParser::new() }
    }

    /// A redirector over the rules of a rule source.
    pub fn with_config(source: &str) -> (r: Result<Redirector, ConfigError>)
        ensures
            match r {
                Ok(d) => first_malformed(split(source@, '\n')) is None && holds_rules_of(
                    d.table(),
                    split(source@, '\n'),
                ),
                Err(ConfigError::MalformedConfigLine(l)) => first_malformed(
                    split(source@, '\n'),
                ) == Some(l@),
            },
    {
        match parse_rules_from(source) {
            Ok(rules) => Ok(Redirector::with_rules(rules)),
            Err(e) => Err(e),
        }
    }

    /// The URI to redirect the request to: the rule of the command's name
    /// applied to the command; or, where the name has no rule, the default
    /// rule, with the name put in front of the arguments unless the rule
    /// already writes the name into its URI (a template with `{ALL}`), so
    /// that the whole typed phrase reaches it once.
    pub fn evaluate(&self, uri: &RequestUri) -> (r: Result<ValidUri, RedirectError>)
        ensures
            evaluated(r, self.table(), uri.query_spec()),
    {
        let cmd = match self.cmd_parser.parse(uri) {
            Ok(c) => c,
            Err(e) => return Err(RedirectError::BadRequest(e)),
        };
        let name = cmd.name();
        let args = cmd.args();
        match self.rules.get(name) {
            Some(rule) => rule_outcome(rule.produce_uri(name, args)),
            None => match self.rules.default_rule() {
                Some(d) => {
                    if d.reads_name() {
                        rule_outcome(d.produce_uri(name, args))
                    } else {
                        let mut phrase: Vec<String> = Vec::new();
                        phrase.push(name.to_owned());
                        let mut i: usize = 0;
                        while i < args.len()
                            invariant
                                i <= args@.len(),
                                views(phrase@) == seq![name@] + views(args@).take(i as int),
                            decreases args@.len() - i,
                        {
                            let ghost before = views(phrase@);
                            let a = args[i].clone();
                            phrase.push(a);
                            assert(views(phrase@) =~= before.push(a@));
                            i = i + 1;
                            assert(views(phrase@) =~= seq![name@] + views(args@).take(i as int));
                        }
                        assert(views(args@).take(i as int) =~= views(args@));
                        rule_outcome(d.produce_uri(name, phrase.as_slice()))
                    }
                },
                None => Err(RedirectError::NoRuleForCommand(name.to_owned())),
            },
        }
    }
}

} // verus!
