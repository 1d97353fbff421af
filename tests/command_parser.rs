use ezproxy::codec::{decode, encode};
use ezproxy::{CommandParser, ParseError, RequestUri};

fn parse(query: Option<&str>) -> Result<(String, Vec<String>), ParseError> {
    let parser = CommandParser::new();
    parser
        .parse(&RequestUri::new(query))
        .map(|c| (c.name().to_string(), c.args().to_vec()))
}

#[test]
fn single_word_has_no_args() {
    assert_eq!(parse(Some("q=m")), Ok(("m".to_string(), vec![])));
}

#[test]
fn plus_separated_words() {
    assert_eq!(
        parse(Some("q=npm+file+finder")),
        Ok(("npm".to_string(), vec!["file".to_string(), "finder".to_string()]))
    );
}

#[test]
fn percent_encoded_spaces() {
    assert_eq!(
        parse(Some("q=npm%20file%20finder")),
        Ok(("npm".to_string(), vec!["file".to_string(), "finder".to_string()]))
    );
}

#[test]
fn encoded_plus_is_kept() {
    assert_eq!(
        parse(Some("q=calc+1%2B1")),
        Ok(("calc".to_string(), vec!["1+1".to_string()]))
    );
}

#[test]
fn other_params_are_ignored_and_first_q_wins() {
    assert_eq!(
        parse(Some("lang=en&q=a+b&q=c")),
        Ok(("a".to_string(), vec!["b".to_string()]))
    );
}

#[test]
fn missing_query_is_an_error() {
    assert_eq!(parse(None), Err(ParseError::MissingQueryParam));
}

#[test]
fn missing_q_param_is_an_error() {
    assert_eq!(parse(Some("x=1&qq=2")), Err(ParseError::MissingQueryParam));
    assert_eq!(parse(Some("q")), Err(ParseError::MissingQueryParam));
}

#[test]
fn invalid_utf8_is_a_decode_error() {
    assert_eq!(parse(Some("q=%FF")), Err(ParseError::DecodeError));
}

#[test]
fn empty_command_is_malformed() {
    assert_eq!(parse(Some("q=")), Err(ParseError::MalformedQuery));
    assert_eq!(parse(Some("q=+m")), Err(ParseError::MalformedQuery));
}

#[test]
fn double_space_gives_empty_argument() {
    assert_eq!(
        parse(Some("q=a++b")),
        Ok(("a".to_string(), vec!["".to_string(), "b".to_string()]))
    );
}

#[test]
fn encoded_command_line_reads_back() {
    let words = ["search", "a&b=c", "50%", "x+y", "café"];
    let line = words.join(" ");
    let query = format!("q={}", encode(&line));
    let (name, args) = parse(Some(&query)).unwrap();
    assert_eq!(name, "search");
    assert_eq!(args, vec!["a&b=c", "50%", "x+y", "café"]);
}

#[test]
fn encode_escapes_reserved_bytes() {
    assert_eq!(encode("a b"), "a%20b");
    assert_eq!(encode("+&=/?"), "%2B%26%3D%2F%3F");
    assert_eq!(encode("Az09-._~"), "Az09-._~");
    assert_eq!(encode("é"), "%C3%A9");
    assert_eq!(encode(""), "");
}

#[test]
fn decode_reads_escapes() {
    assert_eq!(decode("%41%62c"), Some("Abc".to_string()));
    assert_eq!(decode("%c3%a9"), Some("é".to_string()));
    assert_eq!(decode("100%"), Some("100%".to_string()));
    assert_eq!(decode("%zz%4"), Some("%zz%4".to_string()));
    assert_eq!(decode("%C3"), None);
}

#[test]
fn decode_undoes_encode() {
    let s = "best restaurants & bars = 100% \u{1F600}";
    assert_eq!(decode(&encode(s)), Some(s.to_string()));
}
