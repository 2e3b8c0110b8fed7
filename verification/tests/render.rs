use colored::Color;
use tree_model::model::Expression;
use tree_model::render::ExpressionFormatter;

fn terminal(name: &str, value: Option<&str>) -> Expression {
    Expression::Terminal { name: name.to_owned(), value: value.map(|v| v.to_owned()) }
}

fn nonterminal(name: &str, children: Vec<Expression>) -> Expression {
    Expression::NonTerminal { name: name.to_owned(), children }
}

fn render_plain(e: &Expression) -> String {
    let mut f = ExpressionFormatter::from_defaults();
    let mut out = String::new();
    f.fmt(e, &mut out);
    out
}

#[test]
fn terminal_without_value() {
    assert_eq!(render_plain(&terminal("name", None)), "(name)");
}

#[test]
fn terminal_with_value() {
    assert_eq!(render_plain(&terminal("identifier", Some("x"))), "(identifier: x)");
}

#[test]
fn terminal_with_explicit_empty_value() {
    assert_eq!(render_plain(&terminal("blank", Some(""))), "(blank: )");
}

#[test]
fn empty_nonterminal_collapses_to_terminal_form() {
    let as_terminal = render_plain(&terminal("name", None));
    let as_nonterminal = render_plain(&nonterminal("name", vec![]));
    assert_eq!(as_terminal, "(name)");
    assert_eq!(as_terminal, as_nonterminal);
}

#[test]
fn nested_tree_renders_with_indentation() {
    let tree = nonterminal(
        "a",
        vec![
            terminal("b", Some("1")),
            nonterminal("c", vec![terminal("d", None)]),
        ],
    );
    assert_eq!(render_plain(&tree), "(a\n  (b: 1)\n  (c\n    (d)\n  )\n)");
}

#[test]
fn child_lines_are_indented_one_unit_per_level() {
    let tree = nonterminal(
        "root",
        vec![nonterminal("mid", vec![terminal("leaf", None)])],
    );
    let out = render_plain(&tree);
    let lines: Vec<&str> = out.lines().collect();
    assert_eq!(lines[0], "(root");
    // The direct child sits at level 1: one two-space indent unit.
    assert!(lines[1].starts_with("  ("));
    assert!(!lines[1].starts_with("   ("));
    // The grandchild sits at level 2: two units, four characters.
    assert!(lines[2].starts_with("    ("));
    assert!(!lines[2].starts_with("     ("));
    assert_eq!(lines[3], "  )");
    assert_eq!(lines[4], ")");
}

#[test]
fn formatter_starts_at_a_custom_level() {
    let mut f = ExpressionFormatter::from_defaults();
    f.level = 2;
    let mut out = String::new();
    f.fmt(&terminal("name", None), &mut out);
    assert_eq!(out, "    (name)");
    assert_eq!(f.level, 2);
}

#[test]
fn formatter_uses_a_custom_indent_unit() {
    let mut f = ExpressionFormatter::from_defaults();
    f.indent = "\t".to_owned();
    let mut out = String::new();
    f.fmt(&nonterminal("a", vec![terminal("b", None)]), &mut out);
    assert_eq!(out, "(a\n\t(b)\n)");
}

#[test]
fn formatter_appends_to_the_sink() {
    let mut f = ExpressionFormatter::from_defaults();
    let mut out = String::from("before|");
    f.fmt(&terminal("name", None), &mut out);
    assert_eq!(out, "before|(name)");
}

#[test]
fn color_wraps_every_piece_and_keeps_structure() {
    colored::control::set_override(true);
    let mut f = ExpressionFormatter::from_defaults();
    f.color = Some(Color::Red);
    let mut out = String::new();
    f.fmt(&nonterminal("a", vec![terminal("b", Some("1"))]), &mut out);
    colored::control::unset_override();
    // Every piece is wrapped in the red foreground style and a reset.
    assert!(out.contains("\u{1b}[31m"));
    assert!(out.contains("\u{1b}[0m"));
    assert!(out.contains("a"));
    assert!(out.contains("b"));
    assert!(out.contains("1"));
    // Indentation and line breaks stay plain: the second line still starts
    // with the two-space indent unit.
    let lines: Vec<&str> = out.lines().collect();
    assert!(lines[1].starts_with("  "));
    assert_ne!(out, "(a\n  (b: 1)\n)");
}

#[test]
fn color_disabled_matches_plain_output() {
    colored::control::set_override(false);
    let mut f = ExpressionFormatter::from_defaults();
    f.color = Some(Color::Blue);
    let mut out = String::new();
    f.fmt(&nonterminal("a", vec![terminal("b", Some("1"))]), &mut out);
    colored::control::unset_override();
    assert_eq!(out, "(a\n  (b: 1)\n)");
}

#[test]
fn to_text_renders_with_defaults() {
    let tree = nonterminal("a", vec![terminal("b", None)]);
    assert_eq!(tree.to_text(), "(a\n  (b)\n)");
}
