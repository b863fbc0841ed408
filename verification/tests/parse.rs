use micro::cursor::{Cursor, ParseError};
use micro::token::{Delim, Token};
use micro::visibility::Visibility;

fn ident(s: &str) -> Token {
    Token::Ident(s.to_string())
}

fn punct(c: char) -> Token {
    Token::Punct(c)
}

fn group(d: Delim, inner: Vec<Token>) -> Token {
    Token::Group(d, inner)
}

/// `pub(crate) struct Point<'a> { x, y }` as a flat token sequence.
fn point_tokens() -> Vec<Token> {
    vec![
        ident("pub"),
        group(Delim::Paren, vec![ident("crate")]),
        ident("struct"),
        ident("Point"),
        punct('<'),
        punct('\''),
        ident("a"),
        punct('>'),
        group(Delim::Brace, vec![ident("x"), punct(','), ident("y")]),
    ]
}

#[test]
fn scenario_point_visibility() {
    let parsed = Cursor::new(point_tokens()).parse().unwrap();
    assert_eq!(parsed.visibility, Visibility::PubCrate);
    assert_eq!(parsed.visibility.to_str(), Some("pub(crate)"));
}

#[test]
fn scenario_point_name() {
    let parsed = Cursor::new(point_tokens()).parse().unwrap();
    assert_eq!(parsed.name(), "Point".to_string());
}

#[test]
fn scenario_point_lifetimes() {
    let parsed = Cursor::new(point_tokens()).parse().unwrap();
    assert_eq!(parsed.lifetime(), Some(vec!["a".to_string()]));
}

#[test]
fn scenario_point_member_heads() {
    let parsed = Cursor::new(point_tokens()).parse().unwrap();
    assert_eq!(parsed.fields(), Some(vec![ident("x"), ident("y")]));
}

#[test]
fn scenario_point_generics_text() {
    let parsed = Cursor::new(point_tokens()).parse().unwrap();
    assert_eq!(parsed.generics(), Some("'a".to_string()));
}

#[test]
fn scenario_empty_enum() {
    let tokens = vec![ident("enum"), ident("E"), group(Delim::Brace, vec![])];
    let parsed = Cursor::new(tokens).parse().unwrap();
    assert_eq!(parsed.name(), "E".to_string());
    // Splitting empty body content yields one empty member group.
    assert_eq!(parsed.data, Some(vec![Vec::<Token>::new()]));
    assert_eq!(parsed.fields(), Some(vec![]));
}

#[test]
fn no_marker_gives_private() {
    let tokens = vec![ident("struct"), ident("Foo"), group(Delim::Brace, vec![])];
    let parsed = Cursor::new(tokens).parse().unwrap();
    assert_eq!(parsed.visibility, Visibility::Private);
    assert_eq!(parsed.visibility.to_str(), None);
}

#[test]
fn keyword_then_identifier_names() {
    let tokens = vec![ident("struct"), ident("Foo")];
    let parsed = Cursor::new(tokens).parse().unwrap();
    assert_eq!(parsed.name(), "Foo".to_string());
    assert_eq!(parsed.generics, None);
    assert_eq!(parsed.data, None);
}

#[test]
fn no_keyword_identifier_fails() {
    let tokens = vec![ident("x"), punct(';')];
    assert_eq!(Cursor::new(tokens).parse(), Err(ParseError::IdentNotFound));
}

#[test]
fn keyword_at_end_fails() {
    let tokens = vec![ident("struct")];
    assert_eq!(Cursor::new(tokens).parse(), Err(ParseError::IdentNotFound));
}

#[test]
fn keyword_then_group_skips_silently() {
    // The token after the keyword is not an identifier: no name is
    // captured, the group still becomes the body, and the parse fails.
    let tokens = vec![ident("struct"), group(Delim::Brace, vec![ident("x")])];
    assert_eq!(Cursor::new(tokens).parse(), Err(ParseError::IdentNotFound));
}

#[test]
fn generics_text_and_lifetimes() {
    // <A, 'x, B> after the name.
    let tokens = vec![
        ident("struct"),
        ident("Foo"),
        punct('<'),
        ident("A"),
        punct(','),
        punct('\''),
        ident("x"),
        punct(','),
        ident("B"),
        punct('>'),
    ];
    let parsed = Cursor::new(tokens).parse().unwrap();
    assert_eq!(parsed.generics(), Some("A,'x,B".to_string()));
    assert_eq!(parsed.lifetime(), Some(vec!["x".to_string()]));
}

#[test]
fn member_heads_split_on_commas() {
    // Body tokens `a: T, b: U`.
    let body = vec![
        ident("a"),
        punct(':'),
        ident("T"),
        punct(','),
        ident("b"),
        punct(':'),
        ident("U"),
    ];
    let tokens = vec![ident("struct"), ident("Foo"), group(Delim::Brace, body)];
    let parsed = Cursor::new(tokens).parse().unwrap();
    assert_eq!(parsed.fields(), Some(vec![ident("a"), ident("b")]));
    let members = parsed.data.unwrap();
    assert_eq!(members.len(), 2);
    assert_eq!(members[0], vec![ident("a"), punct(':'), ident("T")]);
    assert_eq!(members[1], vec![ident("b"), punct(':'), ident("U")]);
}

#[test]
fn parse_is_idempotent() {
    let first = Cursor::new(point_tokens()).parse();
    let second = Cursor::new(point_tokens()).parse();
    assert_eq!(first, second);
}

#[test]
fn plain_pub_marker() {
    let tokens = vec![ident("pub"), ident("struct"), ident("Foo")];
    let parsed = Cursor::new(tokens).parse().unwrap();
    assert_eq!(parsed.visibility, Visibility::Pub);
    assert_eq!(parsed.visibility.to_str(), Some("pub"));
}

#[test]
fn pub_super_marker() {
    let tokens = vec![
        ident("pub"),
        group(Delim::Paren, vec![ident("super")]),
        ident("enum"),
        ident("Foo"),
    ];
    let parsed = Cursor::new(tokens).parse().unwrap();
    assert_eq!(parsed.visibility, Visibility::PubSuper);
    assert_eq!(parsed.visibility.to_str(), Some("pub(super)"));
}

#[test]
fn unrecognized_paren_content_keeps_prior_visibility() {
    let tokens = vec![
        ident("pub"),
        group(Delim::Paren, vec![ident("in"), ident("path")]),
        ident("struct"),
        ident("Foo"),
    ];
    let parsed = Cursor::new(tokens).parse().unwrap();
    assert_eq!(parsed.visibility, Visibility::Private);
}

#[test]
fn unmatched_open_angle_leaves_generics_absent() {
    let tokens = vec![ident("struct"), ident("Foo"), punct('<'), ident("A")];
    let parsed = Cursor::new(tokens).parse().unwrap();
    assert_eq!(parsed.generics, None);
    assert_eq!(parsed.generics(), None);
    assert_eq!(parsed.lifetime(), None);
}

#[test]
fn later_body_group_overwrites_earlier() {
    // The parenthesized visibility group is itself a delimited group and
    // becomes the body when scanned; a later body group overwrites it.
    let tokens = vec![
        ident("pub"),
        group(Delim::Paren, vec![ident("crate")]),
        ident("struct"),
        ident("Foo"),
    ];
    let parsed = Cursor::new(tokens).parse().unwrap();
    assert_eq!(parsed.data, Some(vec![vec![ident("crate")]]));

    let parsed = Cursor::new(point_tokens()).parse().unwrap();
    assert_eq!(
        parsed.data,
        Some(vec![vec![ident("x")], vec![ident("y")]])
    );
}

#[test]
fn group_token_renders_with_delimiters() {
    // A bracketed group inside the generic list keeps its delimiters in
    // the generics text.
    let tokens = vec![
        ident("struct"),
        ident("Foo"),
        punct('<'),
        group(Delim::Bracket, vec![ident("A"), punct(','), ident("B")]),
        punct('>'),
    ];
    let parsed = Cursor::new(tokens).parse().unwrap();
    assert_eq!(parsed.generics(), Some("[A,B]".to_string()));
}

#[test]
fn visibility_rendering_covers_all_variants() {
    assert_eq!(Visibility::Pub.to_str(), Some("pub"));
    assert_eq!(Visibility::PubCrate.to_str(), Some("pub(crate)"));
    assert_eq!(Visibility::PubSuper.to_str(), Some("pub(super)"));
    assert_eq!(Visibility::Private.to_str(), None);
}

#[test]
fn cursor_consumes_whole_buffer() {
    let mut cursor = Cursor::new(point_tokens());
    assert_eq!(cursor.offset, 0);
    let _ = cursor.parse();
    assert_eq!(cursor.offset, cursor.buffer.len());
}
