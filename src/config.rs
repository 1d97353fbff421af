//! Rule sources: one rule per line, `keyword = template`.
use crate::error::ConfigError;
use crate::rules::{all_marker, args_marker, default_key, target, Rule};
use crate::table::RuleTable;
use crate::text::{
    chars_of, copy_range, find, first_at, lemma_split_plain, occurs, occurs_at, split, split_chars,
    trim, trim_chars,
};
pub use crate::rules::ConfigRule;
use vstd::prelude::*;

verus! {

/// What parts a line into keyword and template.
pub open spec fn separator() -> Seq<char> {
    seq![' ', '=', ' ']
}

/// Where the first separator of `line` stands.
pub open spec fn split_point(line: Seq<char>) -> int {
    choose|i: int| first_at(line, separator(), i)
}

/// The keyword of a rule line: what precedes the first separator, trimmed.
pub open spec fn line_keyword(line: Seq<char>) -> Seq<char> {
    trim(line.subrange(0, split_point(line)))
}

/// The template of a rule line: what follows the first separator, trimmed.
pub open spec fn line_template(line: Seq<char>) -> Seq<char> {
    trim(line.subrange(split_point(line) + 3, line.len() as int))
}

/// A line that holds a separator with a keyword before it and a template after it.
pub open spec fn is_rule_line(line: Seq<char>) -> bool {
    occurs(line, separator()) && line_keyword(line).len() > 0 && line_template(line).len() > 0
}

pub open spec fn is_blank(line: Seq<char>) -> bool {
    trim(line).len() == 0
}

/// A line that is neither blank nor a rule line.
pub open spec fn is_malformed(line: Seq<char>) -> bool {
    !is_blank(line) && !is_rule_line(line)
}

/// The first malformed line, if any.
pub open spec fn first_malformed(lines: Seq<Seq<char>>) -> Option<Seq<char>>
    decreases lines.len(),
{
    if lines.len() == 0 {
        None
    } else {
        match first_malformed(lines.drop_last()) {
            Some(l) => Some(l),
            None => if is_malformed(lines.last()) {
                Some(lines.last())
            } else {
                None
            },
        }
    }
}

/// The template of the last rule line whose keyword is `kw`, if any.
pub open spec fn last_template(lines: Seq<Seq<char>>, kw: Seq<char>) -> Option<Seq<char>>
    decreases lines.len(),
{
    if lines.len() == 0 {
        None
    } else if is_rule_line(lines.last()) && line_keyword(lines.last()) == kw {
        Some(line_template(lines.last()))
    } else {
        last_template(lines.drop_last(), kw)
    }
}

/// `rule` is the rule read from a line `kw = template`.
pub open spec fn is_config_rule(rule: Rule, kw: Seq<char>, template: Seq<char>) -> bool {
    match rule {
        Rule::Config(c) => c.keyword() == kw && c.template() == template,
        Rule::Builtin(_) => false,
    }
}

/// `t` holds the rules of `lines`: for each keyword the rule of its last
/// line, with the default keyword's rule as the default rule.
pub open spec fn holds_rules_of(t: RuleTable, lines: Seq<Seq<char>>) -> bool {
    &&& forall|kw: Seq<char>|
        kw != default_key() ==> (#[trigger] t.keyword_rules().contains_key(kw) <==> last_template(
            lines,
            kw,
        ) is Some)
    &&& forall|kw: Seq<char>|
        kw != default_key() && #[trigger] t.keyword_rules().contains_key(kw) ==> is_config_rule(
            t.keyword_rules()[kw],
            kw,
            last_template(lines, kw)->0,
        )
    &&& !t.keyword_rules().contains_key(default_key())
    &&& match last_template(lines, default_key()) {
        None => t.fallback() is None,
        Some(template) => t.fallback() is Some && is_config_rule(
            t.fallback()->0,
            default_key(),
            template,
        ),
    }
}

/// `r` is what loading `source` gives: the table of its rules where no line
/// is malformed, else the first malformed line.
pub open spec fn loaded(r: Result<RuleTable, ConfigError>, source: Seq<char>) -> bool {
    let lines = split(source, '\n');
    match r {
        Ok(t) => first_malformed(lines) is None && holds_rules_of(t, lines),
        Err(ConfigError::MalformedConfigLine(l)) => first_malformed(lines) == Some(l@),
    }
}

proof fn lemma_malformed_found(lines: Seq<Seq<char>>, i: int)
    requires
        0 <= i < lines.len(),
        is_malformed(lines[i]),
    ensures
        first_malformed(lines) is Some,
    decreases lines.len(),
{
    if i < lines.len() - 1 {
        lemma_malformed_found(lines.drop_last(), i);
    } else {
        assert(lines.last() == lines[i]);
    }
}

/// A source with a non-blank line that holds no ` = ` does not load: no
/// table comes of it, only the error.
pub proof fn lemma_line_without_separator_fails(
    source: Seq<char>,
    i: int,
    r: Result<RuleTable, ConfigError>,
)
    requires
        loaded(r, source),
        0 <= i < split(source, '\n').len(),
        !is_blank(split(source, '\n')[i]),
        !occurs(split(source, '\n')[i], separator()),
    ensures
        r is Err,
{
    lemma_malformed_found(split(source, '\n'), i);
}

/// Loading the one line `kw = uri` makes a rule that gives, for `kw` and no
/// arguments, `uri` itself, where `uri` holds neither placeholder.
pub proof fn lemma_plain_template_unchanged(
    kw: Seq<char>,
    uri: Seq<char>,
    r: Result<RuleTable, ConfigError>,
)
    requires
        first_at(kw + separator() + uri, separator(), kw.len() as int),
        kw.len() > 0,
        trim(kw) == kw,
        uri.len() > 0,
        trim(uri) == uri,
        !(kw + separator() + uri).contains('\n'),
        !occurs(uri, all_marker()),
        !occurs(uri, args_marker()),
        loaded(r, kw + separator() + uri),
    ensures
        r is Ok,
        kw != default_key() ==> r->Ok_0.keyword_rules().contains_key(kw) && target(
            r->Ok_0.keyword_rules()[kw],
            kw,
            Seq::empty(),
        ) == uri,
        kw == default_key() ==> r->Ok_0.fallback() is Some && target(
            r->Ok_0.fallback()->0,
            kw,
            Seq::empty(),
        ) == uri,
{
    let line = kw + separator() + uri;
    lemma_split_plain(line, '\n');
    let lines = split(line, '\n');
    assert(lines.last() == line);
    assert(lines.drop_last() =~= Seq::<Seq<char>>::empty());
    let j = split_point(line);
    let k = kw.len() as int;
    assert(first_at(line, separator(), j));
    if j < k {
        assert(!first_at(line, separator(), k));
    } else if k < j {
        assert(!first_at(line, separator(), j));
    }
    assert(occurs_at(line, separator(), k));
    assert(line.subrange(0, k) =~= kw);
    assert(line.subrange(k + 3, line.len() as int) =~= uri);
    assert(is_rule_line(line));
    assert(!is_malformed(line)) by {
        assert(is_rule_line(line));
    }
    assert(first_malformed(lines.drop_last()) is None);
    assert(first_malformed(lines) is None);
    assert(last_template(lines, kw) == Some(uri));
}

proof fn lemma_first_malformed_prefix(lines: Seq<Seq<char>>, i: int)
    requires
        0 <= i <= lines.len(),
        first_malformed(lines.take(i)) is Some,
    ensures
        first_malformed(lines) == first_malformed(lines.take(i)),
    decreases lines.len(),
{
    if i == lines.len() {
        assert(lines.take(i) =~= lines);
    } else {
        let init = lines.drop_last();
        assert(init.take(i) =~= lines.take(i));
        lemma_first_malformed_prefix(init, i);
    }
}

/// The rule of one line, or `None` where the line is not a rule line.
pub fn parse_config_line(line: &str) -> (r: Option<ConfigRule>)
    ensures
        match r {
            Some(c) => is_rule_line(line@) && c.keyword() == line_keyword(line@) && c.template()
                == line_template(line@),
            None => !is_rule_line(line@),
        },
{
    let s = chars_of(line);
    let n = s.len();
    let sep: Vec<char> = vec![' ', '=', ' '];
    assert(sep@ =~= separator());
    match find(&s, &sep) {
        None => None,
        Some(i) => {
            proof {
                let j = split_point(line@);
                assert(first_at(line@, separator(), j));
                if j < i {
                    assert(!first_at(line@, separator(), i as int));
                } else if i < j {
                    assert(!first_at(line@, separator(), j));
                }
            }
            let kw = trim_chars(&copy_range(&s, 0, i));
            let template = trim_chars(&copy_range(&s, i + 3, n));
            if kw.len() == 0 || template.len() == 0 {
                None
            } else {
                let kw_s = crate::text::string_of(&kw);
                let template_s = crate::text::string_of(&template);
                Some(ConfigRule::new(kw_s.as_str(), template_s.as_str()))
            }
        },
    }
}

/// Whether `kw` is the default keyword.
fn is_default_key(kw: &str) -> (b: bool)
    ensures
        b == (kw@ == default_key()),
{
    let k = chars_of(kw);
    let b = k.len() == 1 && k[0] == '_';
    assert(b ==> k@ =~= default_key());
    b
}

/// The rule table of a rule source, or the first of its lines that is
/// neither blank nor of the form `keyword = template`.
pub fn parse_rules_from(source: &str) -> (r: Result<RuleTable, ConfigError>)
    ensures
        loaded(r, source@),
{
    let lines = split_chars(&chars_of(source), '\n');
    let ghost ls = split(source@, '\n');
    let mut table = RuleTable::new();
    let mut i: usize = 0;
    while i < lines.len()
        invariant
            i <= lines@.len() == ls.len(),
            forall|j: int| 0 <= j < ls.len() ==> #[trigger] ls[j] == lines@[j]@,
            ls == split(source@, '\n'),
            first_malformed(ls.take(i as int)) is None,
            holds_rules_of(table, ls.take(i as int)),
        decreases lines@.len() - i,
    {
        let ghost before = ls.take(i as int);
        let ghost after = ls.take(i + 1);
        assert(after.drop_last() =~= before);
        assert(after.last() == lines@[i as int]@);
        let line = lines[i].as_str();
        match parse_config_line(line) {
            Some(c) => {
                let kw = c.kw().to_owned();
                let ghost template = c.template();
                if is_default_key(kw.as_str()) {
                    table.set_default(Rule::Config(c));
                } else {
                    table.insert(kw.as_str(), Rule::Config(c));
                }
                assert(last_template(after, kw@) == Some(template));
            },
            None => {
                if trim_chars(&chars_of(line)).len() != 0 {
                    proof {
                        lemma_first_malformed_prefix(ls, i + 1);
                    }
                    return Err(ConfigError::MalformedConfigLine(lines[i].clone()));
                }
            },
        }
        i = i + 1;
    }
    assert(ls.take(i as int) =~= ls);
    Ok(table)
}

} // verus!
