//! Commands and the parser that reads them from a request's query.
use crate::codec::{decode, lemma_decode_encode, lemma_encoded_chars, percent_decode, percent_encode};
use crate::error::ParseError;
use crate::text::{
    chars_of, join, lemma_split_concat, lemma_split_join, lemma_split_plain, split, split_chars,
    string_of, views,
};
use vstd::prelude::*;

verus! {

/// The `&`-separated pieces of a query that hold an `=`, each as the text
/// before its first `=` and the text between that and the next `=`.
pub open spec fn pairs_of(pieces: Seq<Seq<char>>) -> Seq<(Seq<char>, Seq<char>)>
    decreases pieces.len(),
{
    if pieces.len() == 0 {
        Seq::empty()
    } else {
        let rest = pairs_of(pieces.drop_last());
        let parts = split(pieces.last(), '=');
        if parts.len() >= 2 {
            rest.push((parts[0], parts[1]))
        } else {
            rest
        }
    }
}

/// The key-value pairs of a query string.
pub open spec fn query_pairs(query: Seq<char>) -> Seq<(Seq<char>, Seq<char>)> {
    pairs_of(split(query, '&'))
}

/// The value of the first pair whose key is `key`.
pub open spec fn first_value(pairs: Seq<(Seq<char>, Seq<char>)>, key: Seq<char>) -> Option<
    Seq<char>,
>
    decreases pairs.len(),
{
    if pairs.len() == 0 {
        None
    } else if pairs[0].0 == key {
        Some(pairs[0].1)
    } else {
        first_value(pairs.drop_first(), key)
    }
}

/// The name of the parameter that holds the command line.
pub open spec fn command_key() -> Seq<char> {
    seq!['q']
}

/// `s` with each `+` read as a space.
pub open spec fn plus_to_space(s: Seq<char>) -> Seq<char> {
    s.map_values(
        |c: char|
            if c == '+' {
                ' '
            } else {
                c
            },
    )
}

/// The command line a request's query carries: the name and the arguments,
/// or why there is none.
pub open spec fn query_command(query: Option<Seq<char>>) -> Result<
    (Seq<char>, Seq<Seq<char>>),
    ParseError,
> {
    match query {
        None => Err(ParseError::MissingQueryParam),
        Some(q) => match first_value(query_pairs(q), command_key()) {
            None => Err(ParseError::MissingQueryParam),
            Some(v) => match percent_decode(plus_to_space(v)) {
                None => Err(ParseError::DecodeError),
                Some(line) => {
                    let words = split(line, ' ');
                    if words[0].len() == 0 {
                        Err(ParseError::MalformedQuery)
                    } else {
                        Ok((words[0], words.drop_first()))
                    }
                },
            },
        },
    }
}

/// A command line whose words hold no space, percent-encoded as the value of
/// `q`, reads back as the same name and arguments.
pub proof fn lemma_query_round_trip(words: Seq<Seq<char>>)
    requires
        words.len() >= 1,
        words[0].len() > 0,
        forall|i: int| 0 <= i < words.len() ==> !(#[trigger] words[i]).contains(' '),
    ensures
        query_command(Some(seq!['q', '='] + percent_encode(join(words, ' ')))) == Ok::<
            _,
            ParseError,
        >((words[0], words.drop_first())),
{
    let line = join(words, ' ');
    let enc = percent_encode(line);
    lemma_encoded_chars(line);
    assert forall|i: int| 0 <= i < enc.len() implies {
        let c = #[trigger] enc[i];
        c != '&' && c != '=' && c != '+'
    } by {
        assert((enc[i] as u32) < 128);
    }
    let q = seq!['q', '='] + enc;
    assert(!q.contains('&')) by {
        if q.contains('&') {
            let k = choose|k: int| 0 <= k < q.len() && q[k] == '&';
            if k >= 2 {
                assert(q[k] == enc[k - 2]);
            }
        }
    }
    lemma_split_plain(q, '&');
    assert(!enc.contains('=')) by {
        if enc.contains('=') {
            let k = choose|k: int| 0 <= k < enc.len() && enc[k] == '=';
        }
    }
    assert(q =~= seq!['q'] + seq!['='] + enc);
    lemma_split_concat(seq!['q'], enc, '=');
    lemma_split_plain(seq!['q'], '=');
    lemma_split_plain(enc, '=');
    let parts = split(q, '=');
    assert(parts =~= seq![seq!['q'], enc]);
    let pieces = split(q, '&');
    assert(pieces == seq![q]);
    assert(pieces.drop_last() =~= Seq::<Seq<char>>::empty());
    assert(pieces.last() == q);
    assert(pairs_of(pieces.drop_last()) == Seq::<(Seq<char>, Seq<char>)>::empty());
    assert(parts.len() == 2 && parts[0] == seq!['q'] && parts[1] == enc);
    assert(query_pairs(q) =~= seq![(seq!['q'], enc)]);
    assert(plus_to_space(enc) =~= enc);
    lemma_decode_encode(line);
    lemma_split_join(words, ' ');
}

/// Relies on `querystring::querify`: the pairs of `query` as `query_pairs`
/// says, in order.
#[verifier::external_body]
fn querify(query: &str) -> (r: Vec<(String, String)>)
    ensures
        r@.len() == query_pairs(query@).len(),
        forall|i: int|
            0 <= i < r@.len() ==> (#[trigger] r@[i]).0@ == query_pairs(query@)[i].0 && r@[i].1@
                == query_pairs(query@)[i].1,
{
    querystring::querify(query).into_iter().map(|(k, v)| (k.to_owned(), v.to_owned())).collect()
}

/// What the parser reads of a request URI: its query component, if any.
#[derive(Clone, Debug, PartialEq, Eq)]
pub struct RequestUri {
    query: Option<String>,
}

impl RequestUri {
    pub closed spec fn query_spec(&self) -> Option<Seq<char>> {
        match self.query {
            Some(q) => Some(q@),
            None => None,
        }
    }

    pub fn new(query: Option<&str>) -> (r: RequestUri)
        ensures
            r.query_spec() == match query {
                Some(q) => Some(q@),
                None => None::<Seq<char>>,
            },
    {
        match query {
            Some(q) => RequestUri { query: Some(q.to_owned()) },
            None => RequestUri { query: None },
        }
    }
}

/// A command: a non-empty name and its arguments.
#[derive(Debug, PartialEq, Eq)]
pub struct Command {
    name: String,
    args: Vec<String>,
}

impl View for Command {
    type V = (Seq<char>, Seq<Seq<char>>);

    closed spec fn view(&self) -> (Seq<char>, Seq<Seq<char>>) {
        (self.name@, views(self.args@))
    }
}

impl Command {
    #[verifier::type_invariant]
    spec fn named(self) -> bool {
        self.name@.len() > 0
    }

    /// The name, never empty.
    pub fn name(&self) -> (r: &str)
        ensures
            r@ == self@.0,
            r@.len() > 0,
    {
        proof {
            use_type_invariant(self);
        }
        self.name.as_str()
    }

    pub fn args(&self) -> (r: &[String])
        ensures
            views(r@) == self@.1,
    {
        self.args.as_slice()
    }
}

/// The value of the first pair keyed `q`.
fn command_value(pairs: &Vec<(String, String)>, Ghost(spec_pairs): Ghost<
    Seq<(Seq<char>, Seq<char>)>,
>) -> (r: Option<&String>)
    requires
        pairs@.len() == spec_pairs.len(),
        forall|i: int|
            0 <= i < pairs@.len() ==> (#[trigger] pairs@[i]).0@ == spec_pairs[i].0 && pairs@[i].1@
                == spec_pairs[i].1,
    ensures
        match r {
            Some(v) => first_value(spec_pairs, command_key()) == Some(v@),
            None => first_value(spec_pairs, command_key()) is None,
        },
{
    let key: Vec<char> = vec!['q'];
    let key = string_of(&key);
    let mut i: usize = 0;
    assert(spec_pairs.subrange(0, spec_pairs.len() as int) =~= spec_pairs);
    while i < pairs.len()
        invariant
            i <= pairs@.len() == spec_pairs.len(),
            key@ == command_key(),
            forall|j: int|
                0 <= j < pairs@.len() ==> (#[trigger] pairs@[j]).0@ == spec_pairs[j].0
                    && pairs@[j].1@ == spec_pairs[j].1,
            first_value(spec_pairs, command_key()) == first_value(
                spec_pairs.subrange(i as int, spec_pairs.len() as int),
                command_key(),
            ),
        decreases pairs@.len() - i,
    {
        let ghost rest = spec_pairs.subrange(i as int, spec_pairs.len() as int);
        assert(rest[0] == spec_pairs[i as int]);
        if pairs[i].0 == key {
            return Some(&pairs[i].1);
        }
        assert(rest.drop_first() =~= spec_pairs.subrange(i + 1, spec_pairs.len() as int));
        i = i + 1;
    }
    None
}

/// `s` with each `+` replaced by a space.
fn pluses_to_spaces(s: &str) -> (r: String)
    ensures
        r@ == plus_to_space(s@),
{
    let cs = chars_of(s);
    let mut out: Vec<char> = Vec::new();
    let mut i: usize = 0;
    while i < cs.len()
        invariant
            i <= cs@.len(),
            cs@ == s@,
            out@ == plus_to_space(cs@.take(i as int)),
        decreases cs@.len() - i,
    {
        let c = cs[i];
        if c == '+' {
            out.push(' ');
        } else {
            out.push(c);
        }
        i = i + 1;
        assert(out@ =~= plus_to_space(cs@.take(i as int)));
    }
    assert(cs@.take(i as int) =~= cs@);
    string_of(&out)
}

/// Reads commands from request queries.
#[derive(Clone, Copy, Debug, Default)]
pub struct CommandParser {}

impl CommandParser {
    pub fn new() -> CommandParser {
        CommandParser {  }
    }

    /// The command the query parameter `q` carries: `+` read as a space,
    /// then percent-decoded, then split at single spaces into the name and
    /// the arguments.
    pub fn parse(&self, uri: &RequestUri) -> (r: Result<Command, ParseError>)
        ensures
            match r {
                Ok(c) => query_command(uri.query_spec()) == Ok::<_, ParseError>(c@) && c@.0.len()
                    > 0,
                Err(e) => query_command(uri.query_spec()) == Err::<(Seq<char>, Seq<Seq<char>>), _>(
                    e,
                ),
            },
    {
        let query = match &uri.query {
            Some(q) => q,
            None => return Err(ParseError::MissingQueryParam),
        };
        let pairs = querify(query.as_str());
        let value = match command_value(&pairs, Ghost(query_pairs(query@))) {
            Some(v) => v,
            None => return Err(ParseError::MissingQueryParam),
        };
        let spaced = pluses_to_spaces(value.as_str());
        let line = match decode(spaced.as_str()) {
            Some(line) => line,
            None => return Err(ParseError::DecodeError),
        };
        let mut words = split_chars(&chars_of(line.as_str()), ' ');
        proof {
            crate::text::lemma_split_len(line@, ' ');
        }
        let ghost all = views(words@);
        let name = words.remove(0);
        assert(views(words@) =~= all.drop_first());
        let empty = name.as_str().is_empty();
        if empty {
            return Err(ParseError::MalformedQuery);
        }
        assert(name@.len() > 0);
        Ok(Command { name, args: words })
    }
}

} // verus!
