//! Rules: what turns a command name and its arguments into a URI.
use crate::codec::{encode, percent_encode};
use crate::error::UriParseError;
use crate::text::{
    chars_of, contains, join, join_chars, lemma_replace_once, occurs, push_all, replace_all,
    replace_all_chars, string_of, views,
};
use crate::uri::{validated, ValidUri};
use vstd::prelude::*;

verus! {

/// The keyword under which a rule source names the default rule.
pub const DEFAULT_RULE_KEY: &'static str = "_";

pub open spec fn default_key() -> Seq<char> {
    seq!['_']
}

/// The placeholder for the whole command line.
pub open spec fn all_marker() -> Seq<char> {
    seq!['{', 'A', 'L', 'L', '}']
}

/// The placeholder for the arguments.
pub open spec fn args_marker() -> Seq<char> {
    seq!['{', 'A', 'R', 'G', 'S', '}']
}

/// The command line `cmd args...`, with one space between the name and the
/// joined arguments.
pub open spec fn command_line(cmd: Seq<char>, args: Seq<Seq<char>>) -> Seq<char> {
    cmd + seq![' '] + join(args, ' ')
}

/// What a template becomes for a command: `{ALL}` replaced by the encoded
/// command line where it occurs; else `{ARGS}` replaced by the encoded
/// arguments where it occurs; else the template itself.
pub open spec fn expand(template: Seq<char>, cmd: Seq<char>, args: Seq<Seq<char>>) -> Seq<char> {
    if occurs(template, all_marker()) {
        replace_all(template, all_marker(), percent_encode(command_line(cmd, args)))
    } else if occurs(template, args_marker()) {
        replace_all(template, args_marker(), percent_encode(join(args, ' ')))
    } else {
        template
    }
}

/// A template with `{ARGS}` once and no `{ALL}` becomes the template with the
/// encoded, space-joined arguments in place of `{ARGS}`, and nothing else changed.
pub proof fn lemma_args_substituted(
    pre: Seq<char>,
    post: Seq<char>,
    cmd: Seq<char>,
    args: Seq<Seq<char>>,
)
    requires
        !occurs(pre, args_marker()),
        !occurs(post, args_marker()),
        !occurs(pre + args_marker() + post, all_marker()),
    ensures
        expand(pre + args_marker() + post, cmd, args) == pre + percent_encode(join(args, ' '))
            + post,
{
    let p = args_marker();
    let t = pre + p + post;
    assert(forall|k: int| 1 <= k < p.len() ==> #[trigger] p[k] != p[0]);
    assert(t.subrange(pre.len() as int, (pre.len() + p.len()) as int) =~= p);
    assert(crate::text::occurs_at(t, p, pre.len() as int));
    lemma_replace_once(pre, p, post, percent_encode(join(args, ' ')));
}

/// A template with `{ALL}` once becomes the template with the encoded command
/// line `cmd args...` in place of `{ALL}`, and nothing else changed.
pub proof fn lemma_all_substituted(
    pre: Seq<char>,
    post: Seq<char>,
    cmd: Seq<char>,
    args: Seq<Seq<char>>,
)
    requires
        !occurs(pre, all_marker()),
        !occurs(post, all_marker()),
    ensures
        expand(pre + all_marker() + post, cmd, args) == pre + percent_encode(
            command_line(cmd, args),
        ) + post,
{
    let p = all_marker();
    let t = pre + p + post;
    assert(forall|k: int| 1 <= k < p.len() ==> #[trigger] p[k] != p[0]);
    assert(t.subrange(pre.len() as int, (pre.len() + p.len()) as int) =~= p);
    assert(crate::text::occurs_at(t, p, pre.len() as int));
    lemma_replace_once(pre, p, post, percent_encode(command_line(cmd, args)));
}

/// A rule read from one line `keyword = template` of a rule source.
#[derive(Clone, Debug)]
pub struct ConfigRule {
    kw: String,
    uri: String,
}

impl ConfigRule {
    pub closed spec fn keyword(&self) -> Seq<char> {
        self.kw@
    }

    pub closed spec fn template(&self) -> Seq<char> {
        self.uri@
    }

    pub fn new(kw: &str, uri: &str) -> (r: ConfigRule)
        ensures
            r.keyword() == kw@,
            r.template() == uri@,
    {
        ConfigRule { kw: kw.to_owned(), uri: uri.to_owned() }
    }

    pub fn kw(&self) -> (r: &str)
        ensures
            r@ == self.keyword(),
    {
        self.kw.as_str()
    }

    /// The template expanded for `cmd` and `args`, validated as a URI.
    pub fn produce_uri(&self, cmd: &str, args: &[String]) -> (r: Result<ValidUri, UriParseError>)
        ensures
            validated(r, expand(self.template(), cmd@, views(args@))),
    {
        let t = chars_of(self.uri.as_str());
        let all: Vec<char> = vec!['{', 'A', 'L', 'L', '}'];
        let args_m: Vec<char> = vec!['{', 'A', 'R', 'G', 'S', '}'];
        assert(all@ =~= all_marker());
        assert(args_m@ =~= args_marker());
        let text: Vec<char> = if contains(&t, &all) {
            let mut line = chars_of(cmd);
            line.push(' ');
            let joined = join_chars(args, ' ');
            push_all(&mut line, &joined);
            assert(line@ =~= command_line(cmd@, views(args@)));
            let enc = encode(string_of(&line).as_str());
            replace_all_chars(&t, &all, &chars_of(enc.as_str()))
        } else if contains(&t, &args_m) {
            let joined = join_chars(args, ' ');
            let enc = encode(string_of(&joined).as_str());
            replace_all_chars(&t, &args_m, &chars_of(enc.as_str()))
        } else {
            t
        };
        assert(text@ == expand(self.template(), cmd@, views(args@)));
        ValidUri::parse(string_of(&text).as_str())
    }
}

/// Rules that need no template: each reads only the arguments.
#[derive(Clone, Copy, Debug, PartialEq, Eq, Structural)]
pub enum Builtin {
    /// A web search for the arguments.
    Search,
    /// The mailbox; the arguments are ignored.
    Mail,
    /// The calendar; the arguments are ignored.
    Calendar,
    /// The package registry, or a search in it when there are arguments.
    Packages,
    /// The video site, or a search in it when there are arguments.
    Videos,
}

/// The URI a built-in rule produces for `args`.
pub open spec fn builtin_target(b: Builtin, args: Seq<Seq<char>>) -> Seq<char> {
    let q = percent_encode(join(args, ' '));
    match b {
        Builtin::Search => "https://www.google.com/search?q="@ + q,
        Builtin::Mail => "https://mail.google.com/"@,
        Builtin::Calendar => "https://calendar.google.com/"@,
        Builtin::Packages => if args.len() == 0 {
            "https://www.npmjs.com/"@
        } else {
            "https://www.npmjs.com/search?q="@ + q
        },
        Builtin::Videos => if args.len() == 0 {
            "https://www.youtube.com/"@
        } else {
            "https://www.youtube.com/results?search_query="@ + q
        },
    }
}

/// `prefix` followed by the encoded, space-joined `args`.
fn with_encoded_args(prefix: &str, args: &[String]) -> (r: String)
    ensures
        r@ == prefix@ + percent_encode(join(views(args@), ' ')),
{
    let joined = join_chars(args, ' ');
    let enc = encode(string_of(&joined).as_str());
    let mut r = prefix.to_owned();
    r.append(enc.as_str());
    r
}

impl Builtin {
    /// The built-in target for `args`, validated as a URI.
    pub fn produce_uri(&self, args: &[String]) -> (r: Result<ValidUri, UriParseError>)
        ensures
            validated(r, builtin_target(*self, views(args@))),
    {
        let text: String = match self {
            Builtin::Search => with_encoded_args("https://www.google.com/search?q=", args),
            Builtin::Mail => "https://mail.google.com/".to_owned(),
            Builtin::Calendar => "https://calendar.google.com/".to_owned(),
            Builtin::Packages => if args.len() == 0 {
                "https://www.npmjs.com/".to_owned()
            } else {
                with_encoded_args("https://www.npmjs.com/search?q=", args)
            },
            Builtin::Videos => if args.len() == 0 {
                "https://www.youtube.com/".to_owned()
            } else {
                with_encoded_args("https://www.youtube.com/results?search_query=", args)
            },
        };
        ValidUri::parse(text.as_str())
    }
}

/// A rule of the table: read from a rule source, or built in.
#[derive(Clone, Debug)]
pub enum Rule {
    Config(ConfigRule),
    Builtin(Builtin),
}

/// The URI `rule` produces for the command `cmd` with `args`.
pub open spec fn target(rule: Rule, cmd: Seq<char>, args: Seq<Seq<char>>) -> Seq<char> {
    match rule {
        Rule::Config(c) => expand(c.template(), cmd, args),
        Rule::Builtin(b) => builtin_target(b, args),
    }
}

/// Whether the command's name is part of what `rule` produces.
pub open spec fn reads_name(rule: Rule) -> bool {
    match rule {
        Rule::Config(c) => occurs(c.template(), all_marker()),
        Rule::Builtin(_) => false,
    }
}

impl Rule {
    /// The URI this rule produces for the command `cmd` with `args`.
    pub fn produce_uri(&self, cmd: &str, args: &[String]) -> (r: Result<ValidUri, UriParseError>)
        ensures
            validated(r, target(*self, cmd@, views(args@))),
    {
        match self {
            Rule::Config(c) => c.produce_uri(cmd, args),
            Rule::Builtin(b) => b.produce_uri(args),
        }
    }

    /// Whether the command's name is part of what this rule produces.
    pub fn reads_name(&self) -> (b: bool)
        ensures
            b == reads_name(*self),
    {
        match self {
            Rule::Config(c) => {
                let t = chars_of(c.uri.as_str());
                let all: Vec<char> = vec!['{', 'A', 'L', 'L', '}'];
                assert(all@ =~= all_marker());
                contains(&t, &all)
            },
            Rule::Builtin(_) => false,
        }
    }
}

} // verus!
