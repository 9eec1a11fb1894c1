use bracket::lexer::{Block as B, Lexer, Parameters as P, Token};
use bracket::parser::ast::{Node, Text, TextBlock};
use bracket::parser::{Parser, ParserOptions};
use bracket::render::node::node_output;
use bracket::trim::{TrimHint, TrimState};

fn statement<'a>(source: &'a str, tokens: Vec<Token>) -> Node<'a> {
    let lexer = Lexer::new(source, tokens).unwrap();
    match Parser::new(lexer, ParserOptions::default()).parse().unwrap() {
        Node::Document(mut doc) => doc.1.remove(0),
        _ => panic!("expecting a document"),
    }
}

#[test]
fn text_output_and_trim() {
    let source = "  hi  ";
    let text = Node::Text(Text::new(source, 0..6, 0..1));
    let plain = TrimState { start: false, end: false };
    assert_eq!((plain, Some("  hi  "), false), node_output(&text, plain, None, None));
    let both = TrimState { start: true, end: true };
    assert_eq!((both, Some("hi"), false), node_output(&text, both, None, None));
    let hint = Some(TrimHint { before: false, after: true });
    let start = TrimState { start: true, end: false };
    assert_eq!((start, Some("hi  "), false), node_output(&text, plain, hint, None));

    let blank = Node::Text(Text::new(" \n ", 0..3, 0..2));
    assert_eq!((both, None, false), node_output(&blank, both, None, None));
}

#[test]
fn raw_statement_drops_backslash() {
    let source = r"\{{y}}";
    let raw = Node::RawStatement(TextBlock::new(source, Text::new(source, 3..4, 0..1), 0..3, 4..6));
    let plain = TrimState { start: false, end: false };
    assert_eq!((plain, Some("{{y}}"), false), node_output(&raw, plain, None, None));
    let comment = Node::Comment(TextBlock::new(source, Text::new(source, 3..4, 0..1), 0..3, 4..6));
    assert_eq!((plain, None, false), node_output(&comment, plain, None, None));
}

#[test]
fn statement_output_is_escaped_unless_triple() {
    let plain = TrimState { start: false, end: false };
    let escaped = statement(
        "{{x}}",
        vec![Token::Block(B::StartStatement, 0..2), Token::Parameters(P::Identifier, 2..3), Token::Parameters(P::End, 3..5)],
    );
    assert_eq!((plain, Some("a<b"), true), node_output(&escaped, plain, None, Some("a<b")));
    assert_eq!((plain, None, false), node_output(&escaped, plain, None, None));
    let raw = statement(
        "{{{x}}}",
        vec![Token::Block(B::StartStatement, 0..3), Token::Parameters(P::Identifier, 3..4), Token::Parameters(P::End, 4..7)],
    );
    assert_eq!((plain, Some("a<b"), false), node_output(&raw, plain, None, Some("a<b")));
}
