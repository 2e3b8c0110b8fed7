use tree_model::model::{Expression, ModelError};
use tree_model::node::{NodeKind, ParseNode, SNode};
use tree_model::testcase::TestCase;

fn node(kind: NodeKind, text: &str, children: Vec<SNode>) -> SNode {
    SNode { kind, text: text.to_owned(), children }
}

fn rule_name(name: &str) -> SNode {
    node(NodeKind::RuleName, name, vec![])
}

fn expr(children: Vec<SNode>) -> SNode {
    node(NodeKind::Expression, "", children)
}

fn sub_expressions(children: Vec<SNode>) -> SNode {
    node(NodeKind::SubExpressions, "", children)
}

fn value_str(children: Vec<SNode>) -> SNode {
    node(NodeKind::RuleValueStr, "", children)
}

fn value(text: &str) -> SNode {
    node(NodeKind::RuleValue, text, vec![])
}

fn terminal_expr(name: &str, v: Option<&str>) -> SNode {
    match v {
        None => expr(vec![rule_name(name)]),
        Some(text) => expr(vec![rule_name(name), value_str(vec![value(text)])]),
    }
}

fn assert_nonterminal<'a>(expression: &'a Expression, expected_name: &'a str) -> &'a Vec<Expression> {
    match expression {
        Expression::NonTerminal { name, children } => {
            assert_eq!(name, expected_name);
            children
        }
        _ => panic!("Expected non-terminal expression but found {expression:?}"),
    }
}

fn assert_terminal(expression: &Expression, expected_name: &str, expected_value: Option<&str>) {
    match expression {
        Expression::Terminal { name, value } => {
            assert_eq!(name, expected_name);
            match (value, expected_value) {
                (Some(actual), Some(expected)) => assert_eq!(actual, expected),
                (Some(actual), None) => {
                    panic!("Terminal node has value {actual} but there is no expected value")
                }
                (None, Some(expected)) => {
                    panic!("Terminal node has no value but expected {expected}")
                }
                _ => (),
            }
        }
        _ => panic!("Expected non-terminal expression but found {expression:?}"),
    }
}

#[test]
fn test_parse_into() {
    let expression_section = expr(vec![
        rule_name("source_file"),
        sub_expressions(vec![expr(vec![
            rule_name("function_definition"),
            sub_expressions(vec![
                terminal_expr("identifier", Some("x")),
                terminal_expr("parameter_list", None),
                terminal_expr("primitive_type", Some("int")),
                expr(vec![
                    rule_name("block"),
                    sub_expressions(vec![expr(vec![
                        rule_name("return_statement"),
                        sub_expressions(vec![terminal_expr("number", Some("1"))]),
                    ])]),
                ]),
            ]),
        ])]),
    ]);
    let root = node(
        NodeKind::TestCase,
        "",
        vec![
            node(NodeKind::TestName, "My Test\n\n", vec![]),
            node(
                NodeKind::CodeBlock,
                "",
                vec![
                    node(NodeKind::Div, "=======", vec![]),
                    node(NodeKind::Code, "\n\nfn x() int {\n  return 1;\n}\n\n", vec![]),
                ],
            ),
            expression_section,
        ],
    );
    let test_case: TestCase = TestCase::try_from_pair(&root).unwrap();
    assert_eq!(test_case.name, "My Test");
    assert_eq!(test_case.code, "fn x() int {\n  return 1;\n}");
    let expression = test_case.expression;
    let children = assert_nonterminal(&expression, "source_file");
    assert_eq!(children.len(), 1);
    let children = assert_nonterminal(&children[0], "function_definition");
    assert_eq!(children.len(), 4);
    assert_terminal(&children[0], "identifier", Some("x"));
    assert_terminal(&children[1], "parameter_list", None);
    assert_terminal(&children[2], "primitive_type", Some("int"));
    let children = assert_nonterminal(&children[3], "block");
    assert_eq!(children.len(), 1);
    let children = assert_nonterminal(&children[0], "return_statement");
    assert_eq!(children.len(), 1);
    assert_terminal(&children[0], "number", Some("1"));
}

#[test]
fn decode_no_second_child_gives_valueless_terminal() {
    let e = Expression::try_from_sexpr(&expr(vec![rule_name("leaf")])).unwrap();
    assert_terminal(&e, "leaf", None);
}

#[test]
fn decode_empty_sub_expressions_gives_empty_nonterminal() {
    let e = Expression::try_from_sexpr(&expr(vec![rule_name("list"), sub_expressions(vec![])]))
        .unwrap();
    let children = assert_nonterminal(&e, "list");
    assert!(children.is_empty());
}

#[test]
fn decode_value_without_inner_token_gives_explicit_empty_string() {
    let e = Expression::try_from_sexpr(&expr(vec![rule_name("t"), value_str(vec![])])).unwrap();
    assert_terminal(&e, "t", Some(""));
}

#[test]
fn decode_value_with_inner_token_gives_its_text() {
    let e = Expression::try_from_sexpr(&terminal_expr("t", Some("hello"))).unwrap();
    assert_terminal(&e, "t", Some("hello"));
}

#[test]
fn decode_missing_rule_name() {
    let err = Expression::try_from_sexpr(&expr(vec![])).unwrap_err();
    assert_eq!(err.message(), "Missing rule name");
}

#[test]
fn decode_first_child_of_wrong_kind() {
    let err = Expression::try_from_sexpr(&expr(vec![node(NodeKind::Div, "====", vec![])]))
        .unwrap_err();
    assert_eq!(err.message(), "Expected node div(====) kind to be rule_name");
}

#[test]
fn decode_unexpected_second_child_kind() {
    let err = Expression::try_from_sexpr(&expr(vec![
        rule_name("a"),
        node(NodeKind::Code, "zzz", vec![]),
    ]))
    .unwrap_err();
    assert_eq!(err.message(), "Unexpected rule code(zzz)");
}

#[test]
fn decode_value_inner_token_of_wrong_kind() {
    let err = Expression::try_from_sexpr(&expr(vec![
        rule_name("a"),
        value_str(vec![rule_name("oops")]),
    ]))
    .unwrap_err();
    assert_eq!(err.message(), "Expected node rule_name(oops) kind to be rule_value");
}

#[test]
fn decode_error_in_nested_child_propagates() {
    let err = Expression::try_from_sexpr(&expr(vec![
        rule_name("a"),
        sub_expressions(vec![terminal_expr("ok", None), expr(vec![])]),
    ]))
    .unwrap_err();
    assert_eq!(err.message(), "Missing rule name");
}

#[test]
fn adapt_leaf_gives_terminal_with_matched_text() {
    let e = Expression::try_from_code(&ParseNode {
        name: "identifier".to_owned(),
        text: "x".to_owned(),
        children: vec![],
    });
    assert_terminal(&e, "identifier", Some("x"));
}

#[test]
fn adapt_leaf_with_empty_text_still_has_a_value() {
    let e = Expression::try_from_code(&ParseNode {
        name: "eof".to_owned(),
        text: "".to_owned(),
        children: vec![],
    });
    assert_terminal(&e, "eof", Some(""));
}

#[test]
fn adapt_single_child_is_not_collapsed() {
    let e = Expression::try_from_code(&ParseNode {
        name: "wrapper".to_owned(),
        text: "x".to_owned(),
        children: vec![ParseNode {
            name: "inner".to_owned(),
            text: "x".to_owned(),
            children: vec![],
        }],
    });
    let children = assert_nonterminal(&e, "wrapper");
    assert_eq!(children.len(), 1);
    assert_terminal(&children[0], "inner", Some("x"));
}

#[test]
fn expression_name_of_both_variants() {
    let t = Expression::Terminal { name: "a".to_owned(), value: None };
    let n = Expression::NonTerminal { name: "b".to_owned(), children: vec![] };
    assert_eq!(t.name(), "a");
    assert_eq!(n.name(), "b");
}

#[test]
fn model_error_carries_its_message() {
    let err = ModelError::from_str("boom");
    assert_eq!(err.message(), "boom");
}

#[test]
fn assemble_missing_sections() {
    let err = TestCase::try_from_pair(&node(NodeKind::TestCase, "", vec![])).unwrap_err();
    assert_eq!(err.message(), "Missing test name");

    let only_name = node(NodeKind::TestCase, "", vec![node(NodeKind::TestName, "n", vec![])]);
    assert_eq!(TestCase::try_from_pair(&only_name).unwrap_err().message(), "Missing code block");

    let empty_block = node(
        NodeKind::TestCase,
        "",
        vec![
            node(NodeKind::TestName, "n", vec![]),
            node(NodeKind::CodeBlock, "", vec![]),
        ],
    );
    assert_eq!(TestCase::try_from_pair(&empty_block).unwrap_err().message(), "Missing div");

    let only_div = node(
        NodeKind::TestCase,
        "",
        vec![
            node(NodeKind::TestName, "n", vec![]),
            node(NodeKind::CodeBlock, "", vec![node(NodeKind::Div, "==", vec![])]),
        ],
    );
    assert_eq!(TestCase::try_from_pair(&only_div).unwrap_err().message(), "Missing code");

    let no_expression = node(
        NodeKind::TestCase,
        "",
        vec![
            node(NodeKind::TestName, "n", vec![]),
            node(
                NodeKind::CodeBlock,
                "",
                vec![
                    node(NodeKind::Div, "==", vec![]),
                    node(NodeKind::Code, "c", vec![]),
                ],
            ),
        ],
    );
    assert_eq!(TestCase::try_from_pair(&no_expression).unwrap_err().message(), "Missing expression");
}

#[test]
fn assemble_wrong_section_kind() {
    let swapped = node(
        NodeKind::TestCase,
        "",
        vec![node(NodeKind::Code, "oops", vec![])],
    );
    assert_eq!(
        TestCase::try_from_pair(&swapped).unwrap_err().message(),
        "Expected node code(oops) kind to be test_name"
    );
}

#[test]
fn assemble_trims_name_and_code() {
    let root = node(
        NodeKind::TestCase,
        "",
        vec![
            node(NodeKind::TestName, "\t padded name \n", vec![]),
            node(
                NodeKind::CodeBlock,
                "",
                vec![
                    node(NodeKind::Div, "====", vec![]),
                    node(NodeKind::Code, "\u{a0} let y = 2; \r\n", vec![]),
                ],
            ),
            terminal_expr("unit", None),
        ],
    );
    let test_case = TestCase::try_from_pair(&root).unwrap();
    assert_eq!(test_case.name, "padded name");
    assert_eq!(test_case.code, "let y = 2;");
}
