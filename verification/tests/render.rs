use bracket::lexer::{Block as B, Lexer, Parameters as P, Token};
use bracket::parser::ast::{Block, Call, CallTarget, Json, Node, Path};
use bracket::render::value::json_value;
use bracket::parser::{path, Parser, ParserOptions};
use bracket::render::block::BlockTemplate;
use bracket::render::dispatch::{block_action, partial_name, BlockAction, PartialName};
use bracket::render::lookup::{find_field, lookup};
use bracket::render::scope::Scope;
use bracket::trim::TrimHint;
use serde_json::Value;

fn p(k: P, a: usize, z: usize) -> Token {
    Token::Parameters(k, a..z)
}

fn b(k: B, a: usize, z: usize) -> Token {
    Token::Block(k, a..z)
}

fn json(text: &str) -> Value {
    serde_json::from_str(text).unwrap()
}

fn path_of<'a>(source: &'a str, tokens: Vec<Token>) -> Path<'a> {
    let lexer = Lexer::new(source, tokens).unwrap();
    path::from_str(lexer).unwrap().unwrap()
}

fn root() -> Value {
    json(r#"{"foo": {"bar": [10, 20]}, "x": 1}"#)
}

#[test]
fn lookup_walks_objects_and_arrays() {
    let root = root();
    let scopes: Vec<Scope> = Vec::new();
    let source = "foo.bar.1";
    let path = path_of(
        source,
        vec![
            p(P::Identifier, 0, 3),
            p(P::PathDelimiter, 3, 4),
            p(P::Identifier, 4, 7),
            p(P::PathDelimiter, 7, 8),
            p(P::Identifier, 8, 9),
        ],
    );
    assert_eq!(Some(&json("20")), lookup(&root, &scopes, &path));
    let source = "foo.bar.2";
    let path = path_of(
        source,
        vec![
            p(P::Identifier, 0, 3),
            p(P::PathDelimiter, 3, 4),
            p(P::Identifier, 4, 7),
            p(P::PathDelimiter, 7, 8),
            p(P::Identifier, 8, 9),
        ],
    );
    assert_eq!(None, lookup(&root, &scopes, &path));
}

#[test]
fn find_field_in_values() {
    let root = root();
    assert_eq!(Some(&json("1")), find_field(&root, "x"));
    assert_eq!(None, find_field(&root, "y"));
    let list = json("[1, 2, 3]");
    assert_eq!(Some(&json("2")), find_field(&list, "1"));
    assert_eq!(Some(&json("3")), find_field(&list, "+2"));
    assert_eq!(None, find_field(&list, "3"));
    assert_eq!(None, find_field(&list, "a"));
    assert_eq!(None, find_field(&json("7"), "0"));
}

#[test]
fn lookup_prefers_inner_scope_values() {
    let root = root();
    let mut scope = Scope::new();
    scope.set_base_value(json(r#"{"foo": 5}"#));
    let scopes = vec![scope];
    let foo = path_of("foo", vec![p(P::Identifier, 0, 3)]);
    assert_eq!(Some(&json("5")), lookup(&root, &scopes, &foo));
    let x = path_of("x", vec![p(P::Identifier, 0, 1)]);
    assert_eq!(Some(&json("1")), lookup(&root, &scopes, &x));
}

#[test]
fn lookup_root_this_local_and_parents() {
    let root = root();
    let mut scope = Scope::new();
    scope.set_base_value(json(r#"{"x": 2}"#));
    scope.set_local("index", json("3"));
    let scopes = vec![scope];

    let at_root = path_of(
        "@root.x",
        vec![p(P::LocalIdentifier, 0, 5), p(P::PathDelimiter, 5, 6), p(P::Identifier, 6, 7)],
    );
    assert!(at_root.is_root());
    assert_eq!(Some(&json("1")), lookup(&root, &scopes, &at_root));

    let this = path_of("this", vec![p(P::ExplicitThisKeyword, 0, 4)]);
    assert_eq!(Some(&json(r#"{"x": 2}"#)), lookup(&root, &scopes, &this));
    let this_x = path_of(
        "this.x",
        vec![p(P::ExplicitThisKeyword, 0, 4), p(P::PathDelimiter, 4, 5), p(P::Identifier, 5, 6)],
    );
    assert_eq!(Some(&json("2")), lookup(&root, &scopes, &this_x));

    let local = path_of("@index", vec![p(P::LocalIdentifier, 0, 6)]);
    assert_eq!(Some(&json("3")), lookup(&root, &scopes, &local));
    assert_eq!(None, lookup(&root, &Vec::new(), &local));

    let parent = path_of("../x", vec![p(P::ParentRef, 0, 3), p(P::Identifier, 3, 4)]);
    assert_eq!(Some(&json("1")), lookup(&root, &scopes, &parent));
    assert_eq!(None, lookup(&root, &Vec::new(), &parent));
}

fn parse<'a>(source: &'a str, tokens: Vec<Token>) -> Node<'a> {
    let lexer = Lexer::new(source, tokens).unwrap();
    Parser::new(lexer, ParserOptions::default()).parse().unwrap()
}

fn first_block<'n, 'a>(node: &'n Node<'a>) -> &'n Block<'a> {
    match node {
        Node::Document(doc) => match &doc.nodes()[0] {
            Node::Block(block) => block,
            _ => panic!("expecting a block"),
        },
        _ => panic!("expecting a document"),
    }
}

#[test]
fn block_action_for_helpers() {
    let source = "{{#if x}}a{{/if}}";
    let node = parse(
        source,
        vec![
            b(B::StartBlockScope, 0, 3),
            p(P::Identifier, 3, 5),
            p(P::WhiteSpace, 5, 6),
            p(P::Identifier, 6, 7),
            p(P::End, 7, 9),
            b(B::Text, 9, 10),
            b(B::EndBlockScope, 10, 13),
            p(P::Identifier, 13, 15),
            p(P::End, 15, 17),
        ],
    );
    let block = first_block(&node);
    assert_eq!(BlockAction::Helper { name: "if", text: None, end_hint: None }, block_action(block, true));
    assert_eq!(BlockAction::Missing { name: "if", text: None, end_hint: None }, block_action(block, false));
}

#[test]
fn block_action_for_raw_blocks() {
    let source = "{{{{raw}}}}{{x}}{{{{/raw}}}}";
    let node = parse(
        source,
        vec![
            b(B::StartRawBlock, 0, 4),
            p(P::Identifier, 4, 7),
            p(P::End, 7, 11),
            b(B::Text, 11, 16),
            b(B::EndRawBlock, 16, 21),
            p(P::Identifier, 21, 24),
            p(P::End, 24, 28),
        ],
    );
    let block = first_block(&node);
    assert_eq!(
        BlockAction::Helper {
            name: "raw",
            text: Some("{{x}}"),
            end_hint: Some(TrimHint { before: false, after: false })
        },
        block_action(block, true)
    );
}

#[test]
fn block_action_errors_and_partials() {
    let source = "foo.bar";
    let path = path_of(
        source,
        vec![p(P::Identifier, 0, 3), p(P::PathDelimiter, 3, 4), p(P::Identifier, 4, 7)],
    );
    let mut call = Call::new(source, 0..0, 0..1);
    call.set_target(CallTarget::Path(path));
    let mut block = Block::new(source, 0..0, false, 0..1);
    block.set_call(call);
    assert_eq!(BlockAction::NotIdentifier("foo.bar"), block_action(&block, true));

    let mut call = Call::new(source, 0..0, 0..1);
    call.set_target(CallTarget::SubExpr(Box::new(Call::new(source, 0..0, 0..1))));
    let mut block = Block::new(source, 0..0, false, 0..1);
    block.set_call(call);
    assert_eq!(BlockAction::SubExprTarget, block_action(&block, true));

    let mut call = Call::new(source, 0..0, 0..1);
    call.set_partial(true);
    let mut block = Block::new(source, 0..0, false, 0..1);
    block.set_call(call);
    assert_eq!(BlockAction::Partial, block_action(&block, true));
}

#[test]
fn literal_values() {
    assert_eq!(Value::Null, json_value(&Json::Null));
    assert_eq!(Value::Bool(true), json_value(&Json::Bool(true)));
    assert_eq!(json("12.5"), json_value(&Json::Number("12.5".to_string())));
    assert_eq!(Value::String("a\"b".to_string()), json_value(&Json::String("a\"b".to_string())));
}

#[test]
fn block_template_inverse_picks_else() {

    let source = "{{#if x}}a{{else}}b{{/if}}";
    let node = parse(
        source,
        vec![
            b(B::StartBlockScope, 0, 3),
            p(P::Identifier, 3, 5),
            p(P::WhiteSpace, 5, 6),
            p(P::Identifier, 6, 7),
            p(P::End, 7, 9),
            b(B::Text, 9, 10),
            b(B::StartStatement, 10, 12),
            p(P::ElseKeyword, 12, 16),
            p(P::End, 16, 18),
            b(B::Text, 18, 19),
            b(B::EndBlockScope, 19, 22),
            p(P::Identifier, 22, 24),
            p(P::End, 24, 26),
        ],
    );
    let block = match &node {
        Node::Document(doc) => &doc.nodes()[0],
        _ => panic!("expecting a document"),
    };
    let template = BlockTemplate::new(block);
    let chosen = template.inverse(&vec![false]).unwrap();
    assert_eq!("b", chosen.to_string());
    let text = Node::Text(bracket::parser::ast::Text::new(source, 9..10, 0..1));
    assert!(BlockTemplate::new(&text).inverse(&vec![]).is_none());
}

#[test]
fn partial_names() {
    let pb = "@partial-block";
    let mut call = Call::new(pb, 0..0, 0..1);
    call.set_target(CallTarget::Path(path_of(pb, vec![p(P::LocalIdentifier, 0, 14)])));
    assert_eq!(PartialName::Name("@partial-block"), partial_name(&call));

    let mut call = Call::new("foo", 0..0, 0..1);
    call.set_target(CallTarget::Path(path_of("foo", vec![p(P::Identifier, 0, 3)])));
    assert_eq!(PartialName::Name("foo"), partial_name(&call));

    let source = "foo.bar";
    let mut call = Call::new(source, 0..0, 0..1);
    call.set_target(CallTarget::Path(path_of(
        source,
        vec![p(P::Identifier, 0, 3), p(P::PathDelimiter, 3, 4), p(P::Identifier, 4, 7)],
    )));
    assert_eq!(PartialName::NotIdentifier("foo.bar"), partial_name(&call));

    let mut call = Call::new(source, 0..0, 0..1);
    call.set_target(CallTarget::SubExpr(Box::new(Call::new(source, 0..0, 0..1))));
    assert_eq!(PartialName::SubExpr, partial_name(&call));
}
