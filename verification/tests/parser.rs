use bracket::error::SyntaxError;
use bracket::lexer::{Block as B, DoubleQuoteString as Dq, Lexer, Parameters as P, Token};
use bracket::parser::ast::{CallTarget, Json, Node, ParameterValue, Slice};
use bracket::parser::{Parser, ParserOptions};

type Result<T> = std::result::Result<T, SyntaxError>;

fn b(k: B, a: usize, z: usize) -> Token {
    Token::Block(k, a..z)
}

fn p(k: P, a: usize, z: usize) -> Token {
    Token::Parameters(k, a..z)
}

fn dq(k: Dq, a: usize, z: usize) -> Token {
    Token::DoubleQuoteString(k, a..z)
}

fn parse<'a>(source: &'a str, tokens: Vec<Token>) -> Result<Node<'a>> {
    let lexer = Lexer::new(source, tokens).expect("the tokens fit the source");
    let mut parser = Parser::new(lexer, ParserOptions::default());
    parser.parse()
}

/// `{{foo ARG}}` where the argument token spans `6..end`.
fn one_arg<'a>(source: &'a str, arg: P, end: usize) -> Result<Node<'a>> {
    parse(
        source,
        vec![
            b(B::StartStatement, 0, 2),
            p(P::Identifier, 2, 5),
            p(P::WhiteSpace, 5, 6),
            p(arg, 6, end),
            p(P::End, end, end + 2),
        ],
    )
}

fn first_arg<'a, 'n>(node: &'n Node<'a>) -> &'n ParameterValue<'a> {
    match node {
        Node::Document(doc) => {
            assert_eq!(1, doc.nodes().len());
            match doc.nodes().first().unwrap() {
                Node::Statement(call) => {
                    assert_eq!(1, call.arguments().len());
                    call.arguments().first().unwrap()
                }
                _ => panic!("Expecting statement node."),
            }
        }
        _ => panic!("Bad root node type for parser()."),
    }
}

fn number_arg(node: &Node<'_>) -> (serde_json::Number, std::ops::Range<usize>, std::ops::Range<usize>) {
    match first_arg(node) {
        ParameterValue::Json { value: Json::Number(text), span, line } => {
            (text.parse().unwrap(), span.clone(), line.clone())
        }
        _ => panic!("Expecting a number argument"),
    }
}

#[test]
fn parse_statement() -> Result<()> {
    let value = "{{foo}}";
    let node = parse(value, vec![b(B::StartStatement, 0, 2), p(P::Identifier, 2, 5), p(P::End, 5, 7)])?;
    match node {
        Node::Document(doc) => {
            assert_eq!(1, doc.nodes().len());
            let node = doc.nodes().first().unwrap();
            assert_eq!(false, node.trim().before);
            assert_eq!(false, node.trim().after);
        }
        _ => panic!("Bad root node type for parser()."),
    }
    Ok(())
}

#[test]
fn parse_statement_sub_expr() -> Result<()> {
    let value = "{{log (json this)}}";
    let node = parse(
        value,
        vec![
            b(B::StartStatement, 0, 2),
            p(P::Identifier, 2, 5),
            p(P::WhiteSpace, 5, 6),
            p(P::StartSubExpression, 6, 7),
            p(P::Identifier, 7, 11),
            p(P::WhiteSpace, 11, 12),
            p(P::ExplicitThisKeyword, 12, 16),
            p(P::EndSubExpression, 16, 17),
            p(P::End, 17, 19),
        ],
    )?;
    match node {
        Node::Document(doc) => {
            assert_eq!(1, doc.nodes().len());
            let node = doc.nodes().first().unwrap();
            match node {
                Node::Statement(ref call) => {
                    assert_eq!("log", call.target().as_str());
                    assert_eq!(1, call.arguments().len());
                    let param = call.arguments().first().unwrap();
                    match param {
                        ParameterValue::SubExpr(ref call) => {
                            assert_eq!("json", call.target().as_str());
                            assert_eq!(1, call.arguments().len());
                        }
                        _ => panic!("Expecting sub expression call"),
                    }
                }
                _ => panic!("Expecting call statement"),
            }
        }
        _ => panic!("Bad root node type for parser()."),
    }
    Ok(())
}

fn statement_path<'a, 'n>(node: &'n Node<'a>) -> &'n bracket::parser::ast::Path<'a> {
    match node {
        Node::Document(doc) => {
            assert_eq!(1, doc.nodes().len());
            match doc.nodes().first().unwrap() {
                Node::Statement(ref call) => match call.target() {
                    CallTarget::Path(ref path) => path,
                    _ => panic!("Expecting path call target"),
                },
                _ => panic!("Expecting statement node."),
            }
        }
        _ => panic!("Bad root node type for parser()."),
    }
}

#[test]
fn parse_statement_path_root() -> Result<()> {
    let value = "{{@root.foo}}";
    let node = parse(
        value,
        vec![
            b(B::StartStatement, 0, 2),
            p(P::LocalIdentifier, 2, 7),
            p(P::PathDelimiter, 7, 8),
            p(P::Identifier, 8, 11),
            p(P::End, 11, 13),
        ],
    )?;
    assert_eq!(true, statement_path(&node).is_root());
    Ok(())
}

#[test]
fn parse_statement_path_parents() -> Result<()> {
    let value = "{{../../../foo}}";
    let node = parse(
        value,
        vec![
            b(B::StartStatement, 0, 2),
            p(P::ParentRef, 2, 5),
            p(P::ParentRef, 5, 8),
            p(P::ParentRef, 8, 11),
            p(P::Identifier, 11, 14),
            p(P::End, 14, 16),
        ],
    )?;
    assert_eq!(3, statement_path(&node).parents());
    Ok(())
}

#[test]
fn parse_statement_path_explicit_this() -> Result<()> {
    let value = "{{this.foo}}";
    let node = parse(
        value,
        vec![
            b(B::StartStatement, 0, 2),
            p(P::ExplicitThisKeyword, 2, 6),
            p(P::PathDelimiter, 6, 7),
            p(P::Identifier, 7, 10),
            p(P::End, 10, 12),
        ],
    )?;
    assert_eq!(true, statement_path(&node).is_explicit());
    Ok(())
}

#[test]
fn parse_statement_path_explicit_dot() -> Result<()> {
    let value = "{{./foo}}";
    let node = parse(
        value,
        vec![
            b(B::StartStatement, 0, 2),
            p(P::ExplicitThisDotSlash, 2, 4),
            p(P::Identifier, 4, 7),
            p(P::End, 7, 9),
        ],
    )?;
    assert_eq!(true, statement_path(&node).is_explicit());
    Ok(())
}

#[test]
fn parse_statement_partial() -> Result<()> {
    let value = "foo {{ > bar }} baz";
    let node = parse(
        value,
        vec![
            b(B::Text, 0, 4),
            b(B::StartStatement, 4, 6),
            p(P::WhiteSpace, 6, 7),
            p(P::Partial, 7, 8),
            p(P::WhiteSpace, 8, 9),
            p(P::Identifier, 9, 12),
            p(P::WhiteSpace, 12, 13),
            p(P::End, 13, 15),
            b(B::Text, 15, 19),
        ],
    )?;
    match node {
        Node::Document(doc) => {
            assert_eq!(3, doc.nodes().len());
            let node = doc.nodes().get(1).unwrap();
            match node {
                Node::Statement(ref call) => {
                    assert_eq!(true, call.is_partial());
                }
                _ => panic!("Expecting statement node."),
            }
        }
        _ => panic!("Bad root node type for parser()."),
    }
    Ok(())
}

#[test]
fn parse_arg_path() -> Result<()> {
    let value = r#"{{foo ../../bar}}"#;
    let node = parse(
        value,
        vec![
            b(B::StartStatement, 0, 2),
            p(P::Identifier, 2, 5),
            p(P::WhiteSpace, 5, 6),
            p(P::ParentRef, 6, 9),
            p(P::ParentRef, 9, 12),
            p(P::Identifier, 12, 15),
            p(P::End, 15, 17),
        ],
    )?;
    match first_arg(&node) {
        ParameterValue::Path(ref path) => {
            assert_eq!(2, path.parents());
            assert_eq!(false, path.is_explicit());
            assert_eq!(false, path.is_root());
            assert_eq!(1, path.components().len());
            let component = path.components().first().unwrap();
            assert_eq!(true, component.is_identifier());
            assert_eq!(false, component.is_local());
        }
        _ => panic!("Expecting path parameter"),
    }
    Ok(())
}

#[test]
fn parse_arg_string() -> Result<()> {
    let value = r#"{{foo "bar\nbaz"}}"#;
    let node = parse(
        value,
        vec![
            b(B::StartStatement, 0, 2),
            p(P::Identifier, 2, 5),
            p(P::WhiteSpace, 5, 6),
            p(P::DoubleQuoteString, 6, 7),
            dq(Dq::Text, 7, 10),
            dq(Dq::EscapedNewline, 10, 12),
            dq(Dq::Text, 12, 15),
            dq(Dq::End, 15, 16),
            p(P::End, 16, 18),
        ],
    )?;
    assert_eq!(
        &ParameterValue::from((Json::String(String::from("bar\nbaz")), 6..16, 0..1)),
        first_arg(&node)
    );
    Ok(())
}

#[test]
fn parse_hash_string() -> Result<()> {
    let value = r#"{{foo bar="baz"}}"#;
    let node = parse(
        value,
        vec![
            b(B::StartStatement, 0, 2),
            p(P::Identifier, 2, 5),
            p(P::WhiteSpace, 5, 6),
            p(P::HashKey, 6, 10),
            p(P::DoubleQuoteString, 10, 11),
            dq(Dq::Text, 11, 14),
            dq(Dq::End, 14, 15),
            p(P::End, 15, 17),
        ],
    )?;
    match node {
        Node::Document(doc) => {
            assert_eq!(1, doc.nodes().len());
            let node = doc.nodes().first().unwrap();
            match node {
                Node::Statement(ref call) => {
                    let hash = call.parameters();
                    assert_eq!(1, hash.len());
                    let (key, value) = hash.first().unwrap();
                    assert_eq!("bar", *key);
                    assert_eq!(
                        &ParameterValue::from((Json::String(String::from(r"baz")), 10..15, 0..1)),
                        value
                    );
                }
                _ => panic!("Expecting statement node."),
            }
        }
        _ => panic!("Bad root node type for parser()."),
    }
    Ok(())
}

#[test]
fn parse_arg_bool_true() -> Result<()> {
    let value = r#"{{foo true}}"#;
    let node = one_arg(value, P::True, 10)?;
    assert_eq!(&ParameterValue::from((Json::Bool(true), 6..10, 0..1)), first_arg(&node));
    Ok(())
}

#[test]
fn parse_arg_bool_false() -> Result<()> {
    let value = r#"{{foo false}}"#;
    let node = one_arg(value, P::False, 11)?;
    assert_eq!(&ParameterValue::from((Json::Bool(false), 6..11, 0..1)), first_arg(&node));
    Ok(())
}

#[test]
fn parse_arg_null() -> Result<()> {
    let value = r#"{{foo null}}"#;
    let node = one_arg(value, P::Null, 10)?;
    assert_eq!(&ParameterValue::from((Json::Null, 6..10, 0..1)), first_arg(&node));
    Ok(())
}

#[test]
fn parse_arg_num_int() -> Result<()> {
    let value = r#"{{foo 10}}"#;
    let node = one_arg(value, P::Number, 8)?;
    let expected = serde_json::Number::from(10);
    assert_eq!((expected, 6..8, 0..1), number_arg(&node));
    Ok(())
}

#[test]
fn parse_arg_num_int_signed() -> Result<()> {
    let value = r#"{{foo -10}}"#;
    let node = one_arg(value, P::Number, 9)?;
    let expected = serde_json::Number::from(-10);
    assert_eq!((expected, 6..9, 0..1), number_arg(&node));
    Ok(())
}

#[test]
fn parse_arg_num_int_signed_exponent() -> Result<()> {
    let value = r#"{{foo -2e+2}}"#;
    let node = one_arg(value, P::Number, 11)?;
    let expected: serde_json::Number = "-2e+2".parse().unwrap();
    assert_eq!((expected, 6..11, 0..1), number_arg(&node));
    Ok(())
}

#[test]
fn parse_arg_num_float() -> Result<()> {
    let value = r#"{{foo 3.14}}"#;
    let node = one_arg(value, P::Number, 10)?;
    let expected: serde_json::Number = "3.14".parse().unwrap();
    assert_eq!((expected, 6..10, 0..1), number_arg(&node));
    Ok(())
}

#[test]
fn parse_arg_num_float_signed() -> Result<()> {
    let value = r#"{{foo -0.5}}"#;
    let node = one_arg(value, P::Number, 10)?;
    let expected: serde_json::Number = "-0.5".parse().unwrap();
    assert_eq!((expected, 6..10, 0..1), number_arg(&node));
    Ok(())
}

#[test]
fn parse_arg_num_float_signed_exponent() -> Result<()> {
    let value = r#"{{foo -0.5E-2}}"#;
    let node = one_arg(value, P::Number, 13)?;
    let expected: serde_json::Number = "-0.5E-2".parse().unwrap();
    assert_eq!((expected, 6..13, 0..1), number_arg(&node));
    Ok(())
}

#[test]
fn parse_statement_trim() -> Result<()> {
    let value = "{{~foo~}}";
    let node = parse(value, vec![b(B::StartStatement, 0, 3), p(P::Identifier, 3, 6), p(P::End, 6, 9)])?;
    match node {
        Node::Document(doc) => {
            assert_eq!(1, doc.nodes().len());
            let node = doc.nodes().first().unwrap();
            assert_eq!(true, node.trim().before);
            assert_eq!(true, node.trim().after);
        }
        _ => panic!("Bad root node type for parser()."),
    }
    Ok(())
}

#[test]
fn parse_block_trim() -> Result<()> {
    let value = "{{~#foo~}}bar{{~/foo~}}";
    let node = parse(
        value,
        vec![
            b(B::StartBlockScope, 0, 4),
            p(P::Identifier, 4, 7),
            p(P::End, 7, 10),
            b(B::Text, 10, 13),
            b(B::EndBlockScope, 13, 17),
            p(P::Identifier, 17, 20),
            p(P::End, 20, 23),
        ],
    )?;
    match node {
        Node::Document(doc) => {
            assert_eq!(1, doc.nodes().len());
            let node = doc.nodes().first().unwrap();
            assert_eq!(true, node.trim().before);
            assert_eq!(true, node.trim().after);
            match node {
                Node::Block(ref b) => {
                    assert_eq!(true, b.trim_close().before);
                    assert_eq!(true, b.trim_close().after);
                }
                _ => panic!("Expecting block node."),
            }
        }
        _ => panic!("Bad root node type for parser()."),
    }
    Ok(())
}

#[test]
fn parse_raw_block() -> Result<()> {
    let value = "{{{{~raw~}}}}foo{{{{~/raw~}}}}";
    let node = parse(
        value,
        vec![
            b(B::StartRawBlock, 0, 5),
            p(P::Identifier, 5, 8),
            p(P::End, 8, 13),
            b(B::Text, 13, 16),
            b(B::EndRawBlock, 16, 22),
            p(P::Identifier, 22, 25),
            p(P::End, 25, 30),
        ],
    )?;
    match node {
        Node::Document(doc) => {
            assert_eq!(1, doc.nodes().len());
            let node = doc.nodes().first().unwrap();
            assert_eq!(true, node.trim().before);
            assert_eq!(true, node.trim().after);
            match node {
                Node::Block(ref block) => {
                    assert_eq!(true, block.is_raw());
                    assert_eq!(true, block.trim_close().before);
                    assert_eq!(true, block.trim_close().after);
                }
                _ => panic!("Expecting block node."),
            }
        }
        _ => panic!("Bad root node type for parser()."),
    }
    Ok(())
}

#[test]
fn string_literal_span_covers_trailing_escape() -> Result<()> {
    let source = r#"{{foo "bar\n"}}"#;
    let node = parse(
        source,
        vec![
            b(B::StartStatement, 0, 2),
            p(P::Identifier, 2, 5),
            p(P::WhiteSpace, 5, 6),
            p(P::DoubleQuoteString, 6, 7),
            dq(Dq::Text, 7, 10),
            dq(Dq::EscapedNewline, 10, 12),
            dq(Dq::End, 12, 13),
            p(P::End, 13, 15),
        ],
    )?;
    match first_arg(&node) {
        ParameterValue::Json { value: Json::String(s), span, .. } => {
            assert_eq!(&(6..13), span);
            assert_eq!("bar\n", s.as_str());
        }
        _ => panic!("Expecting a string argument."),
    }
    // The inner value, without the quotes, ends after the escape.
    let mut lexer = Lexer::new(
        source,
        vec![dq(Dq::Text, 7, 10), dq(Dq::EscapedNewline, 10, 12), dq(Dq::End, 12, 13), p(P::End, 13, 15)],
    )
    .unwrap();
    let mut state = bracket::parser::ParseState::new();
    let (inner, flags) = bracket::parser::string::parse(
        source,
        &mut lexer,
        &mut state,
        (P::DoubleQuoteString, 6..7),
        bracket::parser::string::RawLiteralType::Double,
    )?;
    assert_eq!(7..12, inner);
    assert!(flags.newline && !flags.delimiter);
    Ok(())
}

#[test]
fn slice_path_parents() -> Result<()> {
    let source = r"{{../../../foo/bar.txt}}";
    let node = parse(
        source,
        vec![
            b(B::StartStatement, 0, 2),
            p(P::ParentRef, 2, 5),
            p(P::ParentRef, 5, 8),
            p(P::ParentRef, 8, 11),
            p(P::Identifier, 11, 14),
            p(P::PathDelimiter, 14, 15),
            p(P::Identifier, 15, 22),
            p(P::End, 22, 24),
        ],
    )?;
    match &node {
        Node::Document(doc) => match &doc.nodes()[0] {
            Node::Statement(call) => match call.target() {
                CallTarget::Path(path) => {
                    assert_eq!(3, path.parents());
                    assert_eq!("../../../foo/bar.txt", path.as_str());
                }
                _ => panic!("Expecting path call target!"),
            },
            _ => panic!("Expecting statement node!"),
        },
        _ => panic!("Expecting a document!"),
    }
    Ok(())
}
