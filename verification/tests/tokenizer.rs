use codecrafters_shell::parser::primitives::is_whitespace;
use codecrafters_shell::parser::tokenize;
use codecrafters_shell::token::{Token, TokenPart};

fn texts(tokens: &[Token]) -> Vec<String> {
    tokens.iter().map(|t| t.to_string()).collect()
}

fn parts(token: &Token) -> Vec<(char, String)> {
    token
        .parts
        .iter()
        .map(|p| match p {
            TokenPart::Unquoted(s) => ('u', s.clone()),
            TokenPart::SingleQuoted(s) => ('s', s.clone()),
            TokenPart::DoubleQuoted(s) => ('d', s.clone()),
        })
        .collect()
}

#[test]
fn whitespace_is_unicode_white_space() {
    for c in (0u32..=0x10FFFF).filter_map(char::from_u32) {
        assert_eq!(is_whitespace(c), c.is_whitespace(), "{:?}", c);
    }
}

#[test]
fn splits_words_on_whitespace() {
    let (rest, tokens) = tokenize("echo  hello\tworld").unwrap();
    assert_eq!(rest, "");
    assert_eq!(texts(&tokens), vec!["echo", "hello", "world"]);
}

#[test]
fn trailing_whitespace_is_left_unread() {
    let (rest, tokens) = tokenize("  ls -l  ").unwrap();
    assert_eq!(rest, "  ");
    assert_eq!(texts(&tokens), vec!["ls", "-l"]);
}

#[test]
fn single_quotes_are_literal() {
    let (rest, tokens) = tokenize("echo 'a  b\\n'").unwrap();
    assert_eq!(rest, "");
    assert_eq!(tokens.len(), 2);
    assert_eq!(parts(&tokens[1]), vec![('s', "a  b\\n".to_string())]);
}

#[test]
fn double_quotes_escape_only_some_characters() {
    let (rest, tokens) = tokenize(r#""a\"b\\c\$d\`e\xf""#).unwrap();
    assert_eq!(rest, "");
    assert_eq!(parts(&tokens[0]), vec![('d', "a\"b\\c$d`e\\xf".to_string())]);
}

#[test]
fn backslash_escapes_anything_unquoted() {
    let (_, tokens) = tokenize(r"a\ b\'c\n").unwrap();
    assert_eq!(tokens.len(), 1);
    assert_eq!(parts(&tokens[0]), vec![('u', "a b'cn".to_string())]);
}

#[test]
fn trailing_backslash_stands_for_itself() {
    let (_, tokens) = tokenize(r"ab\").unwrap();
    assert_eq!(parts(&tokens[0]), vec![('u', "ab\\".to_string())]);
}

#[test]
fn adjacent_parts_make_one_token() {
    let (_, tokens) = tokenize(r#"ab'cd'"ef"g"#).unwrap();
    assert_eq!(tokens.len(), 1);
    assert_eq!(
        parts(&tokens[0]),
        vec![
            ('u', "ab".to_string()),
            ('s', "cd".to_string()),
            ('d', "ef".to_string()),
            ('u', "g".to_string())
        ]
    );
    assert_eq!(tokens[0].to_string(), "abcdefg");
}

#[test]
fn empty_quotes_are_empty_parts() {
    let (_, tokens) = tokenize("'' \"\"").unwrap();
    assert_eq!(parts(&tokens[0]), vec![('s', String::new())]);
    assert_eq!(parts(&tokens[1]), vec![('d', String::new())]);
}

#[test]
fn operators_glued_to_words_are_not_split() {
    let (rest, tokens) = tokenize("ls|wc sleep&  echo hi>f").unwrap();
    assert_eq!(rest, "");
    assert_eq!(texts(&tokens), vec!["ls|wc", "sleep&", "echo", "hi>f"]);
    assert_eq!(parts(&tokens[0]), vec![('u', "ls|wc".to_string())]);
}

#[test]
fn unterminated_quote_stops_the_tokens() {
    let (rest, tokens) = tokenize("echo 'abc").unwrap();
    assert_eq!(rest, " 'abc");
    assert_eq!(texts(&tokens), vec!["echo"]);
    let (rest, tokens) = tokenize("echo \"abc").unwrap();
    assert_eq!(rest, " \"abc");
    assert_eq!(texts(&tokens), vec!["echo"]);
}

#[test]
fn no_token_is_an_error_with_the_whole_input() {
    assert_eq!(tokenize("").unwrap_err(), "");
    assert_eq!(tokenize("   ").unwrap_err(), "   ");
    assert_eq!(tokenize("'abc").unwrap_err(), "'abc");
}

#[test]
fn non_ascii_text_is_kept() {
    let (rest, tokens) = tokenize("écho\u{3000}'日本'").unwrap();
    assert_eq!(rest, "");
    assert_eq!(texts(&tokens), vec!["écho", "日本"]);
}

#[test]
fn content_gives_the_part_text() {
    let (_, tokens) = tokenize(r#"a'b'"c""#).unwrap();
    let contents: Vec<&str> = tokens[0].parts.iter().map(|p| p.content()).collect();
    assert_eq!(contents, vec!["a", "b", "c"]);
}
