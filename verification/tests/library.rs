use bracket::error::{SyntaxError, SyntaxErrorKind};
use bracket::lexer::{
    Block as B, Comment as C, DoubleQuoteString as Dq, Lexer, Link as L, Parameters as P,
    RawComment as Rc, Token,
};
use bracket::parser::ast::{CallTarget, Element, Json, Lines, Node, ParameterValue, Slice};
use bracket::parser::iter::BranchIter;
use bracket::parser::{link, path, ParseState, Parser, ParserOptions};
use bracket::render::type_assert::{assert_kind, assert_types, Type};
use bracket::trim::{TrimHint, TrimState};

fn b(k: B, a: usize, z: usize) -> Token {
    Token::Block(k, a..z)
}

fn p(k: P, a: usize, z: usize) -> Token {
    Token::Parameters(k, a..z)
}

fn parse<'a>(source: &'a str, tokens: Vec<Token>) -> Result<Node<'a>, SyntaxError> {
    let lexer = Lexer::new(source, tokens).expect("the tokens fit the source");
    let mut parser = Parser::new(lexer, ParserOptions::default());
    parser.parse()
}

fn doc_nodes<'a, 'n>(node: &'n Node<'a>) -> &'n Vec<Node<'a>> {
    match node {
        Node::Document(doc) => doc.nodes(),
        _ => panic!("expecting a document"),
    }
}

/// `{{#if x}}` starting at byte `at`, with the given lengths.
fn open_if(at: usize) -> Vec<Token> {
    vec![
        b(B::StartBlockScope, at, at + 3),
        p(P::Identifier, at + 3, at + 5),
        p(P::WhiteSpace, at + 5, at + 6),
        p(P::Identifier, at + 6, at + 7),
        p(P::End, at + 7, at + 9),
    ]
}

#[test]
fn text_tokens_merge_into_one_node() {
    let source = "a\nb";
    let node = parse(source, vec![b(B::Text, 0, 1), b(B::Newline, 1, 2), b(B::Text, 2, 3)]).unwrap();
    let nodes = doc_nodes(&node);
    assert_eq!(1, nodes.len());
    match &nodes[0] {
        Node::Text(text) => {
            assert_eq!("a\nb", text.as_str());
            assert_eq!(&(0..2), text.lines());
        }
        _ => panic!("expecting text"),
    }
}

#[test]
fn text_then_statement_keeps_both() {
    let source = "ab{{x}}";
    let node = parse(
        source,
        vec![b(B::Text, 0, 1), b(B::Text, 1, 2), b(B::StartStatement, 2, 4), p(P::Identifier, 4, 5), p(P::End, 5, 7)],
    )
    .unwrap();
    let nodes = doc_nodes(&node);
    assert_eq!(2, nodes.len());
    match (&nodes[0], &nodes[1]) {
        (Node::Text(text), Node::Statement(call)) => {
            assert_eq!("ab", text.as_str());
            assert_eq!("{{x}}", call.as_str());
            assert!(call.is_escaped());
        }
        _ => panic!("expecting text then a statement"),
    }
}

#[test]
fn block_with_else_condition() {
    let source = "{{#if x}}a{{else}}b{{/if}}";
    let mut tokens = open_if(0);
    tokens.extend(vec![
        b(B::Text, 9, 10),
        b(B::StartStatement, 10, 12),
        p(P::ElseKeyword, 12, 16),
        p(P::End, 16, 18),
        b(B::Text, 18, 19),
        b(B::EndBlockScope, 19, 22),
        p(P::Identifier, 22, 24),
        p(P::End, 24, 26),
    ]);
    let node = parse(source, tokens).unwrap();
    let nodes = doc_nodes(&node);
    assert_eq!(1, nodes.len());
    match &nodes[0] {
        Node::Block(block) => {
            assert_eq!(Some("if"), block.name());
            assert_eq!(1, block.nodes().len());
            assert_eq!(1, block.conditions().len());
            assert_eq!(source, block.as_str());
            assert_eq!("a", block.to_string());
            assert_eq!(&Some(19..26), block.close_span());
            match &block.conditions()[0] {
                Node::Block(cond) => {
                    assert_eq!(1, cond.nodes().len());
                    assert_eq!("b", cond.to_string());
                    assert!(cond.call().is_conditional());
                    assert_eq!(&Some(19..26), cond.close_span());
                }
                _ => panic!("expecting a conditional block"),
            }
        }
        _ => panic!("expecting a block"),
    }
}

#[test]
fn end_tag_name_mismatch() {
    let source = "{{#if x}}y{{/each}}";
    let mut tokens = open_if(0);
    tokens.extend(vec![b(B::Text, 9, 10), b(B::EndBlockScope, 10, 13), p(P::Identifier, 13, 17), p(P::End, 17, 19)]);
    let err = parse(source, tokens).unwrap_err();
    assert_eq!(SyntaxErrorKind::TagNameMismatch, err.kind);
    assert_eq!(vec![String::from("opening name is 'if'")], err.info.notes);
}

#[test]
fn end_tag_without_open_block() {
    let source = "{{/if}}";
    let err = parse(source, vec![b(B::EndBlockScope, 0, 3), p(P::Identifier, 3, 5), p(P::End, 5, 7)]).unwrap_err();
    assert_eq!(SyntaxErrorKind::BlockNotOpen, err.kind);
    assert_eq!(0, err.info.byte);
    assert_eq!(vec![String::from("perhaps open the block 'if'")], err.info.notes);
    assert_eq!("unknown", err.info.file_name);
}

#[test]
fn collected_errors_do_not_stop_parsing() {
    let source = "{{/if}}ok";
    let lexer = Lexer::new(
        source,
        vec![b(B::EndBlockScope, 0, 3), p(P::Identifier, 3, 5), p(P::End, 5, 7), b(B::Text, 7, 9)],
    )
    .unwrap();
    let mut parser = Parser::new(lexer, ParserOptions::default());
    parser.set_errors(Vec::new());
    let node = parser.parse().unwrap();
    assert_eq!(1, doc_nodes(&node).len());
    let errors = parser.errors().unwrap();
    assert_eq!(1, errors.len());
    assert_eq!(SyntaxErrorKind::BlockNotOpen, errors[0].kind);
}

#[test]
fn raw_block_keeps_inner_text() {
    let source = "{{{{raw}}}}{{x}}{{{{/raw}}}}";
    let node = parse(
        source,
        vec![
            b(B::StartRawBlock, 0, 4),
            p(P::Identifier, 4, 7),
            p(P::End, 7, 11),
            b(B::Text, 11, 16),
            b(B::EndRawBlock, 16, 21),
            p(P::Identifier, 21, 24),
            p(P::End, 24, 28),
        ],
    )
    .unwrap();
    match &doc_nodes(&node)[0] {
        Node::Block(block) => {
            assert!(block.is_raw());
            assert_eq!(1, block.nodes().len());
            match &block.nodes()[0] {
                Node::Text(text) => assert_eq!("{{x}}", text.as_str()),
                _ => panic!("expecting text"),
            }
            assert_eq!(&Some(16..28), block.close_span());
            assert_eq!("{{x}}", block.to_string());
        }
        _ => panic!("expecting a block"),
    }
    assert_eq!("{{x}}", doc_nodes(&node)[0].to_string());
}

#[test]
fn raw_block_name_mismatch() {
    let source = "{{{{raw}}}}x{{{{/war}}}}";
    let err = parse(
        source,
        vec![
            b(B::StartRawBlock, 0, 4),
            p(P::Identifier, 4, 7),
            p(P::End, 7, 11),
            b(B::Text, 11, 12),
            b(B::EndRawBlock, 12, 17),
            p(P::Identifier, 17, 20),
            p(P::End, 20, 24),
        ],
    )
    .unwrap_err();
    assert_eq!(SyntaxErrorKind::TagNameMismatch, err.kind);
    assert_eq!(vec![String::from("opening name is 'raw'")], err.info.notes);
}

#[test]
fn raw_block_not_terminated() {
    let source = "{{{{raw}}}}x";
    let err = parse(source, vec![b(B::StartRawBlock, 0, 4), p(P::Identifier, 4, 7), p(P::End, 7, 11), b(B::Text, 11, 12)])
        .unwrap_err();
    assert_eq!(SyntaxErrorKind::RawBlockNotTerminated, err.kind);
}

#[test]
fn comment_node() {
    let source = "{{! hi }}";
    let node = parse(
        source,
        vec![b(B::StartComment, 0, 3), Token::Comment(C::Text, 3..7), Token::Comment(C::End, 7..9)],
    )
    .unwrap();
    match &doc_nodes(&node)[0] {
        Node::Comment(block) => assert_eq!(" hi ", block.text().as_str()),
        _ => panic!("expecting a comment"),
    }
    assert_eq!("{{! hi }}", doc_nodes(&node)[0].to_string());
}

#[test]
fn raw_comment_not_terminated() {
    let source = "{{!-- hi";
    let err = parse(source, vec![b(B::StartRawComment, 0, 5), Token::RawComment(Rc::Text, 5..8)]).unwrap_err();
    assert_eq!(SyntaxErrorKind::RawCommentNotTerminated, err.kind);
}

#[test]
fn later_hash_key_replaces_earlier() {
    let source = "{{foo a=1 a=2}}";
    let node = parse(
        source,
        vec![
            b(B::StartStatement, 0, 2),
            p(P::Identifier, 2, 5),
            p(P::WhiteSpace, 5, 6),
            p(P::HashKey, 6, 8),
            p(P::Number, 8, 9),
            p(P::WhiteSpace, 9, 10),
            p(P::HashKey, 10, 12),
            p(P::Number, 12, 13),
            p(P::End, 13, 15),
        ],
    )
    .unwrap();
    match &doc_nodes(&node)[0] {
        Node::Statement(call) => {
            let hash = call.parameters();
            assert_eq!(1, hash.len());
            assert_eq!("a", hash[0].0);
            assert_eq!(ParameterValue::from((Json::Number(String::from("2")), 12..13, 0..1)), hash[0].1);
        }
        _ => panic!("expecting a statement"),
    }
}

#[test]
fn escaped_quote_in_string_argument() {
    let source = r#"{{f "a\"b"}}"#;
    let node = parse(
        source,
        vec![
            b(B::StartStatement, 0, 2),
            p(P::Identifier, 2, 3),
            p(P::WhiteSpace, 3, 4),
            p(P::DoubleQuoteString, 4, 5),
            Token::DoubleQuoteString(Dq::Text, 5..6),
            Token::DoubleQuoteString(Dq::Escaped, 6..8),
            Token::DoubleQuoteString(Dq::Text, 8..9),
            Token::DoubleQuoteString(Dq::End, 9..10),
            p(P::End, 10, 12),
        ],
    )
    .unwrap();
    match &doc_nodes(&node)[0] {
        Node::Statement(call) => {
            assert_eq!(
                ParameterValue::from((Json::String(String::from("a\"b")), 4..10, 0..1)),
                call.arguments()[0]
            );
        }
        _ => panic!("expecting a statement"),
    }
}

#[test]
fn sub_expression_not_terminated() {
    let source = "{{f (g}}";
    let err = parse(
        source,
        vec![
            b(B::StartStatement, 0, 2),
            p(P::Identifier, 2, 3),
            p(P::WhiteSpace, 3, 4),
            p(P::StartSubExpression, 4, 5),
            p(P::Identifier, 5, 6),
            p(P::End, 6, 8),
        ],
    )
    .unwrap_err();
    assert_eq!(SyntaxErrorKind::SubExpressionNotTerminated, err.kind);
}

#[test]
fn statement_errors() {
    let cases: Vec<(&str, Vec<Token>, SyntaxErrorKind)> = vec![
        ("{{}}", vec![b(B::StartStatement, 0, 2), p(P::End, 2, 4)], SyntaxErrorKind::ExpectedIdentifier),
        (
            "{{f >}}",
            vec![b(B::StartStatement, 0, 2), p(P::Identifier, 2, 3), p(P::WhiteSpace, 3, 4), p(P::Partial, 4, 5), p(P::End, 5, 7)],
            SyntaxErrorKind::PartialPosition,
        ),
        (
            "{{f )}}",
            vec![b(B::StartStatement, 0, 2), p(P::Identifier, 2, 3), p(P::WhiteSpace, 3, 4), p(P::EndSubExpression, 4, 5), p(P::End, 5, 7)],
            SyntaxErrorKind::SubExprNotOpen,
        ),
        (
            "{{.f}}",
            vec![b(B::StartStatement, 0, 2), p(P::PathDelimiter, 2, 3), p(P::Identifier, 3, 4), p(P::End, 4, 6)],
            SyntaxErrorKind::UnexpectedPathDelimiter,
        ),
        (
            "{{f ?}}",
            vec![b(B::StartStatement, 0, 2), p(P::Identifier, 2, 3), p(P::WhiteSpace, 3, 4), p(P::Error, 4, 5), p(P::End, 5, 7)],
            SyntaxErrorKind::TokenError,
        ),
        (
            "{{f a=b c}}",
            vec![
                b(B::StartStatement, 0, 2),
                p(P::Identifier, 2, 3),
                p(P::WhiteSpace, 3, 4),
                p(P::HashKey, 4, 6),
                p(P::Identifier, 6, 7),
                p(P::WhiteSpace, 7, 8),
                p(P::Identifier, 8, 9),
                p(P::End, 9, 11),
            ],
            SyntaxErrorKind::TokenHashKeyValue,
        ),
        (
            "{{ }}",
            vec![b(B::StartStatement, 0, 2), p(P::WhiteSpace, 2, 3), p(P::End, 3, 5)],
            SyntaxErrorKind::ExpectedIdentifier,
        ),
    ];
    for (source, tokens, kind) in cases {
        let err = parse(source, tokens).unwrap_err();
        assert_eq!(kind, err.kind, "{}", source);
    }
}

#[test]
fn lexer_rejects_tokens_that_do_not_fit() {
    let source = "{{x}}";
    assert!(Lexer::new(source, vec![b(B::StartStatement, 0, 2), p(P::Identifier, 1, 3)]).is_none());
    assert!(Lexer::new(source, vec![b(B::Text, 0, 9)]).is_none());
    assert!(Lexer::new(source, vec![b(B::Text, 2, 2)]).is_none());
    assert!(Lexer::new("1x", vec![p(P::Number, 0, 2)]).is_none());
    assert!(Lexer::new("12", vec![p(P::Number, 0, 2)]).is_some());
    assert!(Lexer::new("é", vec![b(B::Text, 0, 1)]).is_none());
}

#[test]
fn lexer_skips_to_top_level_token() {
    let source = "{{x}}y";
    let mut lexer = Lexer::new(
        source,
        vec![b(B::StartStatement, 0, 2), p(P::Identifier, 2, 3), p(P::End, 3, 5), b(B::Text, 5, 6)],
    )
    .unwrap();
    assert!(lexer.next().is_some());
    match lexer.until_mode() {
        Some(Token::Block(B::Text, span)) => assert_eq!(5..6, span),
        other => panic!("unexpected {:?}", other),
    }
    assert!(lexer.next().is_none());
}

#[test]
fn path_from_tokens() {
    let source = "../../foo.bar";
    let lexer = Lexer::new(
        source,
        vec![
            p(P::ParentRef, 0, 3),
            p(P::ParentRef, 3, 6),
            p(P::Identifier, 6, 9),
            p(P::PathDelimiter, 9, 10),
            p(P::Identifier, 10, 13),
        ],
    )
    .unwrap();
    let path = path::from_str(lexer).unwrap().unwrap();
    assert_eq!(2, path.parents());
    assert_eq!(2, path.components().len());
    assert_eq!("../../foo.bar", path.as_str());
    assert_eq!("bar", path.components()[1].as_value());
    assert!(!path.is_simple());
}

#[test]
fn path_raw_identifier_unescaped() {
    let source = r"foo.[a\]b]";
    let lexer = Lexer::new(
        source,
        vec![
            p(P::Identifier, 0, 3),
            p(P::PathDelimiter, 3, 4),
            p(P::StartArray, 4, 5),
            Token::Array(bracket::lexer::Array::Text, 5..6),
            Token::Array(bracket::lexer::Array::Escaped, 6..8),
            Token::Array(bracket::lexer::Array::Text, 8..9),
            Token::Array(bracket::lexer::Array::End, 9..10),
        ],
    )
    .unwrap();
    let path = path::from_str(lexer).unwrap().unwrap();
    assert_eq!(2, path.components().len());
    assert_eq!("a]b", path.components()[1].as_value());
}

#[test]
fn link_parts_fall_back() {
    let source = "[[Foo]]";
    let mut lexer = Lexer::new(source, vec![Token::Link(L::Text, 2..5), Token::Link(L::End, 5..7)]).unwrap();
    let mut state = ParseState::new();
    let link = link::parse(source, &mut lexer, &mut state, 0..2).unwrap();
    assert_eq!("Foo", link.href());
    assert_eq!("Foo", link.label());
    assert_eq!("Foo", link.title());
}

#[test]
fn link_with_label_and_title() {
    let source = "[[Foo|Bar|Baz]]";
    let mut lexer = Lexer::new(
        source,
        vec![
            Token::Link(L::Text, 2..5),
            Token::Link(L::Pipe, 5..6),
            Token::Link(L::Text, 6..9),
            Token::Link(L::Pipe, 9..10),
            Token::Link(L::Text, 10..13),
            Token::Link(L::End, 13..15),
        ],
    )
    .unwrap();
    let mut state = ParseState::new();
    let link = link::parse(source, &mut lexer, &mut state, 0..2).unwrap();
    assert_eq!("Foo", link.href());
    assert_eq!("Bar", link.label());
    assert_eq!("Baz", link.title());
    assert_eq!("[[Foo|Bar|Baz]]", link.as_str());
}

#[test]
fn events_carry_trim_state() {
    let source = "{{a~}} x {{~b}}";
    let node = parse(
        source,
        vec![
            b(B::StartStatement, 0, 2),
            p(P::Identifier, 2, 3),
            p(P::End, 3, 6),
            b(B::Text, 6, 9),
            b(B::StartStatement, 9, 12),
            p(P::Identifier, 12, 13),
            p(P::End, 13, 15),
        ],
    )
    .unwrap();
    let events = BranchIter::new(&node).event(Some(TrimHint { before: false, after: true })).events();
    assert_eq!(3, events.len());
    assert_eq!(TrimState { start: true, end: false }, events[0].trim);
    assert_eq!(TrimState { start: true, end: true }, events[1].trim);
    assert_eq!(TrimState { start: false, end: false }, events[2].trim);
    assert!(events[0].first && !events[0].last);
    assert!(!events[1].first && !events[1].last);
    assert!(!events[2].first && events[2].last);
    assert_eq!(3, BranchIter::new(&node).nodes().len());

    // The same events, one call at a time.
    let mut it = BranchIter::new(&node).event(Some(TrimHint { before: false, after: true }));
    let e0 = it.next().unwrap();
    assert_eq!(TrimState { start: true, end: false }, e0.trim);
    assert!(e0.first && !e0.last);
    let e1 = it.next().unwrap();
    assert_eq!(TrimState { start: true, end: true }, e1.trim);
    assert_eq!("x", e1.node.as_str().trim());
    let e2 = it.next().unwrap();
    assert_eq!(TrimState { start: false, end: false }, e2.trim);
    assert!(!e2.first && e2.last);
    assert!(it.next().is_none());

    let mut branch = BranchIter::new(&node);
    assert!(matches!(branch.next(), Some(Node::Statement(_))));
    assert!(matches!(branch.next(), Some(Node::Text(_))));
    assert!(matches!(branch.next(), Some(Node::Statement(_))));
    assert!(branch.next().is_none());
    // A walk that ended starts again from the first child.
    assert!(matches!(branch.next(), Some(Node::Statement(_))));
}

#[test]
fn type_assertions() {
    assert_eq!((true, None), assert_kind(&Type::Number, &[Type::String, Type::Number]));
    assert_eq!((false, Some(String::from("number"))), assert_kind(&Type::Number, &[Type::String]));
    assert_eq!((false, Some(String::from("null"))), assert_kind(&Type::Null, &[]));
    assert_eq!("boolean", Type::Bool.to_string());
    assert_eq!("array", Type::Array.to_string());
}

#[test]
fn trim_state_from_pair() {
    assert_eq!(TrimState { start: true, end: false }, TrimState::from_pair((true, false)));
}

#[test]
fn statement_spanning_lines() {
    let source = "{{f\ng}}";
    let node = parse(
        source,
        vec![
            b(B::StartStatement, 0, 2),
            p(P::Identifier, 2, 3),
            p(P::Newline, 3, 4),
            p(P::Identifier, 4, 5),
            p(P::End, 5, 7),
        ],
    )
    .unwrap();
    match &doc_nodes(&node)[0] {
        Node::Statement(call) => {
            assert_eq!(&(0..2), call.lines());
            match call.target() {
                CallTarget::Path(path) => assert_eq!("f", path.as_str()),
                _ => panic!("expecting a path"),
            }
            assert_eq!(1, call.arguments().len());
        }
        _ => panic!("expecting a statement"),
    }
}

#[test]
fn parser_options_set_file_name_and_offsets() {
    let source = "{{/x}}";
    let lexer = Lexer::new(source, vec![b(B::EndBlockScope, 0, 3), p(P::Identifier, 3, 4), p(P::End, 4, 6)]).unwrap();
    let mut parser = Parser::new(lexer, ParserOptions::new(String::from("page.hbs"), 10, 100));
    let err = parser.parse().unwrap_err();
    assert_eq!("page.hbs", err.info.file_name);
    assert_eq!(10, err.info.line);
}

#[test]
fn block_displays_its_children() {
    // {{#if x}}a{{y}}b{{/if}}c
    let source = "{{#if x}}a{{y}}b{{/if}}c";
    let mut tokens = open_if(0);
    tokens.extend(vec![
        b(B::Text, 9, 10),
        b(B::StartStatement, 10, 12),
        p(P::Identifier, 12, 13),
        p(P::End, 13, 15),
        b(B::Text, 15, 16),
        b(B::EndBlockScope, 16, 19),
        p(P::Identifier, 19, 21),
        p(P::End, 21, 23),
        b(B::Text, 23, 24),
    ]);
    let node = parse(source, tokens).unwrap();
    assert_eq!(source, node.to_string());
    let nodes = doc_nodes(&node);
    assert_eq!(2, nodes.len());
    assert_eq!("a{{y}}b", nodes[0].to_string());
    assert_eq!("c", nodes[1].to_string());
    match &nodes[0] {
        Node::Block(block) => assert_eq!("a{{y}}b", block.to_string()),
        _ => panic!("expecting a block"),
    }
}

#[test]
fn type_assertions_on_json_values() {
    let text = serde_json::Value::String("x".to_string());
    assert_eq!(Type::String, Type::from(&text));
    assert_eq!(Type::Null, Type::from(&serde_json::Value::Null));
    assert_eq!(Type::Array, Type::from(&serde_json::Value::Array(vec![])));
    assert_eq!(Type::Object, Type::from(&serde_json::Value::Object(serde_json::Map::new())));
    assert_eq!((true, None), assert_types(&text, &[Type::Number, Type::String]));
    assert_eq!((false, Some(String::from("string"))), assert_types(&text, &[Type::Bool]));
    assert_eq!((false, Some(String::from("boolean"))), assert_types(&serde_json::Value::Bool(true), &[]));
}

#[test]
fn registry_parse_and_lint() {
    let source = "{{/if}}";
    let tokens = || vec![b(B::EndBlockScope, 0, 3), p(P::Identifier, 3, 5), p(P::End, 5, 7)];
    let err = bracket::registry::parse("t.hbs", Lexer::new(source, tokens()).unwrap()).unwrap_err();
    assert_eq!(SyntaxErrorKind::BlockNotOpen, err.kind);
    assert_eq!("t.hbs", err.info.file_name);
    let errors = bracket::registry::lint("t.hbs", Lexer::new(source, tokens()).unwrap());
    assert_eq!(1, errors.len());
    assert_eq!(SyntaxErrorKind::BlockNotOpen, errors[0].kind);
    let ok = bracket::registry::lint("ok", Lexer::new("a", vec![b(B::Text, 0, 1)]).unwrap());
    assert!(ok.is_empty());
}
