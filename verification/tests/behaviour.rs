use surgeist_template::expr::parse_variable_path;
use surgeist_template::render::{expr_source, render_string, variable_path_source};
use surgeist_template::validate::validate_node;
use surgeist_template::{FloatLiteral, PathField, PathIndex, PathSegment, VariablePath};
use surgeist_template::{
    parse_simple_expr, parse_template, render_to_rust, validate_template, AttrValue,
    AttributeKind, AttributeName, AttributeRule, AttributeSpec, BinaryOp, ComponentName,
    ComponentRegistry, ComponentSpec, Expr, Literal, NameError, NativeElementName,
    NativeElementRegistry, NativeElementSpec, Node, ParseErrorKind, SourcePos, SourceSpan,
    SpanError, UnaryOp, ValidatedNode, VariableName,
};

fn registries(
    native: &[&str],
    components: Vec<(&str, Vec<AttributeSpec>)>,
) -> (NativeElementRegistry, ComponentRegistry) {
    let native = NativeElementRegistry::try_from_specs(
        native
            .iter()
            .map(|name| NativeElementSpec::try_new(name, Vec::new()).expect("valid native spec"))
            .collect(),
    )
    .expect("valid native registry");
    let components = ComponentRegistry::try_from_specs(
        components
            .into_iter()
            .map(|(name, attrs)| ComponentSpec::try_new(name, attrs).expect("valid component spec"))
            .collect(),
    )
    .expect("valid component registry");
    (native, components)
}

// ---------------------------------------------------------------------------
// Parse errors, one input per kind
// ---------------------------------------------------------------------------

#[test]
fn unexpected_eof_inside_start_tag() {
    let error = parse_template("<div").expect_err("unterminated start tag");
    assert!(matches!(error.kind(), ParseErrorKind::UnexpectedEof));
    assert_eq!(error.span().start().byte(), 4);
    assert_eq!(error.span().len_bytes(), 0);
}

#[test]
fn unexpected_eof_in_comment_and_block() {
    let comment = parse_template("{* never closed").expect_err("open comment");
    assert!(matches!(comment.kind(), ParseErrorKind::UnexpectedEof));
    assert_eq!(comment.span().start().byte(), 2);

    let block = parse_template("{if $x}<div />").expect_err("open if block");
    assert!(matches!(block.kind(), ParseErrorKind::UnexpectedEof));
    assert_eq!(block.span().start().byte(), 14);
}

#[test]
fn stray_close_tag_at_top_level_is_unexpected() {
    let error = parse_template("</div>").expect_err("stray close tag");
    assert!(matches!(
        error.kind(),
        ParseErrorKind::UnexpectedToken {
            expected: "template node"
        }
    ));
    assert_eq!(error.span().start().byte(), 0);
}

#[test]
fn unclosed_element_reports_its_name_and_extent() {
    let error = parse_template("<div>text").expect_err("unclosed element");
    assert!(matches!(
        error.kind(),
        ParseErrorKind::UnclosedElement { name } if name == "div"
    ));
    assert_eq!(error.span().start().byte(), 0);
    assert_eq!(error.span().end().byte(), 9);
}

#[test]
fn invalid_element_name_is_reported() {
    let error = parse_template("<9lives />").expect_err("digit-led name");
    assert!(matches!(
        error.kind(),
        ParseErrorKind::InvalidName { name } if name == "9lives"
    ));
    assert_eq!(error.span().start().column(), 2);
    assert_eq!(error.span().end().column(), 8);

    let attr = parse_template("<div -x />").expect_err("dash-led attribute");
    assert!(matches!(
        attr.kind(),
        ParseErrorKind::InvalidName { name } if name == "-x"
    ));
}

#[test]
fn invalid_expression_carries_reason() {
    let error = parse_template("<div>{$items[]}</div>").expect_err("empty index");
    assert!(matches!(error.kind(), ParseErrorKind::InvalidExpression { .. }));
    assert_eq!(error.span().start().byte(), 6);
    assert_eq!(error.span().end().byte(), 14);
}

#[test]
fn open_tag_slash_and_missing_names() {
    let slash = parse_template("<div></div></div>").expect_err("extra close");
    assert!(matches!(
        slash.kind(),
        ParseErrorKind::UnexpectedToken {
            expected: "template node"
        }
    ));
    let no_name = parse_template("< div/>").expect_err("space before name");
    assert!(matches!(
        no_name.kind(),
        ParseErrorKind::UnexpectedToken {
            expected: "element name"
        }
    ));
    let no_close_name = parse_template("<div></ >").expect_err("empty close name");
    assert!(matches!(
        no_close_name.kind(),
        ParseErrorKind::UnexpectedToken {
            expected: "close tag name"
        }
    ));
    let no_value = parse_template("<div a= />").expect_err("missing value");
    assert!(matches!(
        no_value.kind(),
        ParseErrorKind::UnexpectedToken {
            expected: "attribute value"
        }
    ));
}

#[test]
fn unsupported_expression_power_is_an_invalid_expression() {
    for source in [
        "<Text>{$format($name)}</Text>",
        "<Text>{$user->name}</Text>",
        "<Text>{$user.name = \"Ada\"}</Text>",
        "<Text>{$[$a, $b]}</Text>",
        "<Text>{$enabled ? \"yes\" : \"no\"}</Text>",
        "<Text>{$value ?? \"fallback\"}</Text>",
        "<Text>{$items[0.name}</Text>",
        "<Text>{$items.[0]}</Text>",
    ] {
        let error = parse_template(source).expect_err(source);
        assert!(
            matches!(error.kind(), ParseErrorKind::InvalidExpression { .. }),
            "{source}"
        );
    }
}

#[test]
fn elseif_without_condition_is_unsupported() {
    let error = parse_template("{if $a}x{elseif}y{/if}").expect_err("bare elseif");
    assert!(matches!(
        error.kind(),
        ParseErrorKind::UnsupportedTemplateTag { tag } if tag == "elseif"
    ));
}

#[test]
fn else_branch_requires_closing_if() {
    let error = parse_template("{if $a}x{else}y").expect_err("no closing if");
    assert!(matches!(
        error.kind(),
        ParseErrorKind::UnexpectedToken { expected: "{/if}" }
    ));
}

// ---------------------------------------------------------------------------
// Laws on concrete values
// ---------------------------------------------------------------------------

#[test]
fn comments_are_invisible() {
    let document = parse_template("{* only a note *}").expect("comment only");
    assert!(document.nodes().is_empty());

    let document = parse_template("{* a *}{*b*}<div></div>").expect("comments then element");
    assert_eq!(document.nodes().len(), 1);
    let Node::Element(div) = &document.nodes()[0] else {
        panic!("expected element");
    };
    assert_eq!(div.span().start().byte(), 12);
    assert_eq!(div.span().end().byte(), 23);
}

#[test]
fn node_spans_cover_exactly_what_was_read() {
    let document = parse_template("<div>hi</div>{$x}{if $y}a{/if}").expect("parses");
    let nodes = document.nodes();
    assert_eq!(nodes.len(), 3);
    let Node::Element(div) = &nodes[0] else {
        panic!("expected element");
    };
    assert_eq!((div.span().start().byte(), div.span().end().byte()), (0, 13));
    let Node::Text(text) = &div.children()[0] else {
        panic!("expected text");
    };
    assert_eq!(text.value(), "hi");
    assert_eq!((text.span().start().byte(), text.span().end().byte()), (5, 7));
    let Node::Interpolation(interp) = &nodes[1] else {
        panic!("expected interpolation");
    };
    assert_eq!(
        (interp.span().start().byte(), interp.span().end().byte()),
        (13, 17)
    );
    let Node::If(block) = &nodes[2] else {
        panic!("expected if");
    };
    assert_eq!(
        (block.span().start().byte(), block.span().end().byte()),
        (17, 30)
    );
}

#[test]
fn positions_count_characters_and_bytes() {
    let document = parse_template("é\n<b />").expect("parses");
    let Node::Element(b) = &document.nodes()[1] else {
        panic!("expected element");
    };
    assert_eq!(b.span().start().line(), 2);
    assert_eq!(b.span().start().column(), 1);
    assert_eq!(b.span().start().byte(), 3);
}

#[test]
fn validation_preserves_the_authored_tree() {
    let document =
        parse_template(r#"<Panel title="Hi"><div>x</div></Panel>"#).expect("template parses");
    let title = AttributeSpec::try_new("title", AttributeRule::one(AttributeKind::Static))
        .expect("valid attr spec");
    let (native, components) = registries(&["div"], vec![("Panel", vec![title])]);
    let validated = validate_template(&document, &native, &components).expect("validates");
    let ValidatedNode::ComponentElement(panel) = &validated.nodes()[0] else {
        panic!("expected component");
    };
    assert_eq!(panel.name().as_str(), "Panel");
    assert_eq!(panel.attributes().len(), 1);
    assert_eq!(panel.attributes()[0].name().as_str(), "title");
    let ValidatedNode::NativeElement(div) = &panel.children()[0] else {
        panic!("expected native");
    };
    assert_eq!(div.name().as_str(), "div");
    let Node::Element(authored) = &document.nodes()[0] else {
        panic!("expected element");
    };
    assert_eq!(panel.span(), authored.span());
}

#[test]
fn first_error_in_document_order_wins() {
    let document =
        parse_template("<div><Missing /></div><section />").expect("template parses");
    let (native, components) = registries(&["div"], Vec::new());
    let error = validate_template(&document, &native, &components).expect_err("fails");
    assert!(matches!(
        error.kind(),
        surgeist_template::ValidationErrorKind::UnknownComponent { name } if name == "Missing"
    ));
}

// ---------------------------------------------------------------------------
// Expressions and rendering
// ---------------------------------------------------------------------------

#[test]
fn operators_bind_by_precedence_and_associate_left() {
    let expr = parse_simple_expr("1 - 2 - 3").expect("parses");
    assert_eq!(expr_source(&expr), "((1 - 2) - 3)");

    let expr = parse_simple_expr("$a || $b && !$c == $d * 2").expect("parses");
    assert_eq!(expr_source(&expr), "($a || ($b && ((!$c) == ($d * 2))))");

    let expr = parse_simple_expr("($a + 1) % 4 >= 2").expect("parses");
    assert!(matches!(
        expr,
        Expr::Binary {
            op: BinaryOp::Ge,
            ..
        }
    ));
}

#[test]
fn prefix_operators_nest() {
    let expr = parse_simple_expr("!!$x").expect("parses");
    let Expr::Unary {
        op: UnaryOp::Not,
        expr: inner,
    } = expr
    else {
        panic!("expected not");
    };
    assert!(matches!(
        *inner,
        Expr::Unary {
            op: UnaryOp::Not,
            ..
        }
    ));
}

#[test]
fn literals_render_as_authored() {
    let expr = parse_simple_expr("3.50").expect("float");
    assert!(matches!(&expr, Expr::Literal(Literal::Float(f)) if f.as_str() == "3.50"));
    assert_eq!(expr_source(&expr), "3.50");

    let expr = parse_simple_expr("'it\\'s'").expect("single-quoted string");
    assert!(matches!(&expr, Expr::Literal(Literal::String(s)) if s == "it's"));
    assert_eq!(expr_source(&expr), "\"it's\"");

    assert!(matches!(
        parse_simple_expr("9223372036854775807").expect("max i64"),
        Expr::Literal(Literal::Int(i64::MAX))
    ));
    assert!(parse_simple_expr("9223372036854775808").is_err());
    assert!(parse_simple_expr("").is_err());
    assert!(parse_simple_expr("   ").is_err());
}

#[test]
fn render_string_escapes_specials_and_controls() {
    assert_eq!(render_string("a\"b\\c"), "\"a\\\"b\\\\c\"");
    assert_eq!(render_string("\t\r\n"), "\"\\t\\r\\n\"");
    assert_eq!(render_string("\u{1}\u{7f}"), "\"\\u{1}\\u{7f}\"");
    assert_eq!(render_string("héllo"), "\"héllo\"");
}

#[test]
fn renders_blocks_and_native_elements() {
    let document = parse_template(
        r#"{if $a}<div>x</div>{else}{foreach $items as $item}{$item}{foreachelse}none{/foreach}{/if}"#,
    )
    .expect("template parses");
    let (native, components) = registries(&["div"], Vec::new());
    let validated = validate_template(&document, &native, &components).expect("validates");
    assert_eq!(
        render_to_rust(&validated),
        r#"::surgeist::template::template(vec![::surgeist::template::if_else(vec![::surgeist::template::if_branch("$a", vec![::surgeist::template::native("div", vec![], vec![::surgeist::template::text("x")])])], vec![::surgeist::template::for_each("$items", "item", vec![::surgeist::template::expr("$item")], vec![::surgeist::template::text("none")])])])"#
    );
}

#[test]
fn renders_interpolated_attributes() {
    let document =
        parse_template(r#"<Panel title="Hi {$name}!" />"#).expect("template parses");
    let title = AttributeSpec::try_new("title", AttributeRule::one(AttributeKind::Interpolated))
        .expect("valid attr spec");
    let (native, components) = registries(&[], vec![("Panel", vec![title])]);
    let validated = validate_template(&document, &native, &components).expect("validates");
    assert_eq!(
        render_to_rust(&validated),
        r#"::surgeist::template::template(vec![::surgeist::template::component("Panel", vec![::surgeist::template::attr_interpolated("title", vec![::surgeist::template::attr_text("Hi "), ::surgeist::template::attr_expr_part("$name"), ::surgeist::template::attr_text("!")])], vec![])])"#
    );
}

#[test]
fn quoted_attribute_values_collapse_to_their_shape() {
    let document = parse_template(r#"<div a="" b="x" c="{$y}" d='q' />"#).expect("parses");
    let Node::Element(div) = &document.nodes()[0] else {
        panic!("expected element");
    };
    assert_eq!(div.attributes()[0].value(), &AttrValue::Static(String::new()));
    assert_eq!(div.attributes()[1].value(), &AttrValue::Static("x".to_owned()));
    assert!(matches!(
        div.attributes()[2].value(),
        AttrValue::Interpolated(parts) if parts.len() == 1
    ));
    assert_eq!(div.attributes()[3].value(), &AttrValue::Static("q".to_owned()));
}

// ---------------------------------------------------------------------------
// Names, spans and rules
// ---------------------------------------------------------------------------

#[test]
fn name_errors_name_the_rejected_text() {
    assert!(matches!(
        VariableName::try_new("2x"),
        Err(NameError::InvalidVariableName { name }) if name == "2x"
    ));
    assert!(matches!(
        AttributeName::try_new(""),
        Err(NameError::InvalidAttributeName { name }) if name.is_empty()
    ));
    assert!(matches!(
        NativeElementName::try_new("Div"),
        Err(NameError::InvalidNativeElementName { name }) if name == "Div"
    ));
    assert!(matches!(
        ComponentName::try_new("panel"),
        Err(NameError::InvalidComponentName { name }) if name == "panel"
    ));
}

#[test]
fn span_errors_distinguish_order_and_zero_length() {
    let start = SourcePos::new_unchecked(2, 5, 14);
    assert!(matches!(
        SourceSpan::try_new(start, SourcePos::new_unchecked(2, 4, 14)),
        Err(SpanError::EndBeforeStart { .. })
    ));
    assert!(matches!(
        SourceSpan::try_new(start, SourcePos::new_unchecked(3, 1, 14)),
        Err(SpanError::InconsistentZeroLengthSpan { .. })
    ));
    let empty = SourceSpan::try_new(start, start).expect("empty span");
    assert_eq!(empty.len_bytes(), 0);
}

#[test]
fn attribute_rules_accept_their_kinds() {
    let one = AttributeRule::one(AttributeKind::Bool);
    assert!(one.accepts(AttributeKind::Bool));
    assert!(!one.accepts(AttributeKind::Static));
    let any = AttributeRule::any(AttributeKind::Static, [AttributeKind::Expression]);
    assert!(any.accepts(AttributeKind::Static));
    assert!(any.accepts(AttributeKind::Expression));
    assert!(!any.accepts(AttributeKind::Interpolated));
}

#[test]
fn rendered_expression_source_parses_back() {
    for source in [
        "$a.b[3].c",
        "!($x && $y) || $z >= 2",
        "'a\\\"b' == \"c\\\\d\\n\"",
        "-$n * (1 - 2.5e3) % -7",
        "null != true",
        "--1",
    ] {
        let expr = parse_simple_expr(source).expect(source);
        let rendered = expr_source(&expr);
        let again = parse_simple_expr(&rendered).expect(&rendered);
        assert_eq!(again, expr, "{source}");
        assert_eq!(expr_source(&again), rendered);
    }
}

#[test]
fn negated_unsigned_numbers_do_not_read_back() {
    let expr = Expr::Unary {
        op: UnaryOp::Neg,
        expr: Box::new(Expr::Literal(Literal::Int(5))),
    };
    let rendered = expr_source(&expr);
    assert_eq!(rendered, "(-5)");
    assert!(matches!(
        parse_simple_expr(&rendered).expect("parses"),
        Expr::Literal(Literal::Int(-5))
    ));
}

#[test]
fn text_nodes_hold_their_source_text() {
    let document = parse_template("a b<i/>c\n{$x}d").expect("parses");
    let texts: Vec<&str> = document
        .nodes()
        .iter()
        .filter_map(|node| match node {
            Node::Text(text) => Some(text.value()),
            _ => None,
        })
        .collect();
    assert_eq!(texts, vec!["a b", "c\n", "d"]);
}

#[test]
fn malformed_literals_are_reported_by_what_is_wrong_with_them() {
    assert_eq!(parse_simple_expr(r#""abc\""#), Err("unterminated escape"));
    assert_eq!(
        parse_simple_expr(r#""a"b""#),
        Err("unescaped quote in string literal")
    );
    assert_eq!(parse_simple_expr(r#"'a\q'"#), Err("unsupported escape"));
    assert_eq!(parse_simple_expr(r#""abc"#), Err("unterminated string literal"));
    assert_eq!(parse_simple_expr(r#""a" x"#), Err("unterminated string literal"));
    assert_eq!(parse_simple_expr("$a b"), Err("invalid variable path"));
    assert_eq!(parse_simple_expr(" $items[abc] "), Err("invalid path index"));
    assert_eq!(parse_simple_expr("$format($name)"), Err("unsupported expression"));
    assert_eq!(parse_simple_expr("1 +"), Err("unsupported expression"));
}

#[test]
fn float_literals_are_built_from_float_text() {
    let f = FloatLiteral::try_new("-1.5e3").expect("float text");
    assert_eq!(f.as_str(), "-1.5e3");
    assert!(FloatLiteral::try_new(".5").is_some());
    assert!(FloatLiteral::try_new("15").is_none());
    assert!(FloatLiteral::try_new("1e5").is_none());
    assert!(FloatLiteral::try_new("1.2.3").is_none());
    assert_eq!(
        expr_source(&Expr::Literal(Literal::Float(f))),
        "-1.5e3"
    );
}

#[test]
fn path_source_reads_back_as_the_path() {
    let path = VariablePath::try_new(
        "items",
        vec![
            PathSegment::Index(PathIndex::new(12)),
            PathSegment::Field(PathField::try_new("name").expect("field")),
        ],
    )
    .expect("path");
    let source = variable_path_source(&path);
    assert_eq!(source, "$items[12].name");
    let after_dollar: Vec<char> = source.chars().skip(1).collect();
    assert_eq!(parse_variable_path(&after_dollar), Ok(path));
}

#[test]
fn registries_compare_and_clone() {
    let (native, components) = registries(&["div"], Vec::new());
    assert_eq!(native.clone(), native);
    assert_eq!(components.clone(), components);
    assert_eq!(NativeElementRegistry::default(), registries(&[], Vec::new()).0);
    assert_ne!(native, NativeElementRegistry::default());
}

#[test]
fn validate_node_checks_one_subtree() {
    let document = parse_template("<div><span /></div>").expect("parses");
    let (native, components) = registries(&["div"], Vec::new());
    let error = validate_node(&document.nodes()[0], &native, &components).expect_err("span unknown");
    assert!(matches!(
        error.kind(),
        surgeist_template::ValidationErrorKind::UnknownNativeElement { name } if name == "span"
    ));
}

#[test]
fn registries_do_not_depend_on_the_order_of_their_specs() {
    let (forward, _) = registries(&["div", "span", "a"], Vec::new());
    let (backward, _) = registries(&["a", "span", "div"], Vec::new());
    assert_eq!(forward, backward);
    let attrs = |names: &[&str]| -> Vec<AttributeSpec> {
        names
            .iter()
            .map(|name| {
                AttributeSpec::try_new(name, AttributeRule::one(AttributeKind::Static))
                    .expect("valid attribute spec")
            })
            .collect()
    };
    let (_, one) = registries(&[], vec![("Panel", attrs(&["title", "on-click"])), ("Card", Vec::new())]);
    let (_, other) =
        registries(&[], vec![("Card", Vec::new()), ("Panel", attrs(&["on-click", "title"]))]);
    assert_eq!(one, other);
    let spec = ComponentSpec::try_new("Panel", attrs(&["title", "data-x", "on-click"]))
        .expect("valid component spec");
    let names: Vec<&str> = spec.attributes().iter().map(|a| a.name().as_str()).collect();
    assert_eq!(names, vec!["data-x", "on-click", "title"]);
}

#[test]
fn trees_clone_to_equal_trees() {
    let document = parse_template(
        "<div id=\"a{$x}\">{if $a}<span />{elseif $b}t{else}u{/if}{foreach $xs as $x}{$x.y[0] + 1}{foreachelse}n{/foreach}</div>",
    )
    .expect("parses");
    assert_eq!(document.clone(), document);
    let node = &document.nodes()[0];
    assert_eq!(node.clone(), *node);
    let expr = parse_simple_expr("!$a || $b.c[2] * -3 == \"s\"").expect("parses");
    assert_eq!(expr.clone(), expr);
    let id = AttributeSpec::try_new("id", AttributeRule::one(AttributeKind::Interpolated))
        .expect("valid attribute spec");
    let native = NativeElementRegistry::try_from_specs(vec![
        NativeElementSpec::try_new("div", vec![id]).expect("valid native spec"),
        NativeElementSpec::try_new("span", Vec::new()).expect("valid native spec"),
    ])
    .expect("valid native registry");
    let components = ComponentRegistry::try_from_specs(Vec::new()).expect("valid registry");
    let validated = validate_template(&document, &native, &components).expect("valid");
    assert_eq!(validated.clone(), validated);
    assert_eq!(validated.nodes()[0].clone(), validated.nodes()[0]);
}

#[test]
fn close_tags_may_have_space_before_their_bracket() {
    let document = parse_template("<div><span></span  ></div\n>").expect("parses");
    let Node::Element(div) = &document.nodes()[0] else {
        panic!("expected an element");
    };
    assert_eq!(div.children().len(), 1);
    assert_eq!(div.span().end().byte(), 27);
}

#[test]
fn if_blocks_keep_one_branch_per_condition() {
    let document = parse_template("{if $a}x{elseif $b}y{elseif $c}z{else}w{/if}").expect("parses");
    let Node::If(block) = &document.nodes()[0] else {
        panic!("expected an if block");
    };
    assert_eq!(block.branches().len(), 3);
    assert_eq!(block.branches()[0].condition(), &parse_simple_expr("$a").expect("parses"));
    assert_eq!(block.else_children().len(), 1);
    assert_eq!(block.span().end().byte(), 44);
}

#[test]
fn an_invalid_element_anywhere_in_the_subtree_fails_validation() {
    let document =
        parse_template("<div>{foreach $xs as $x}<div />{foreachelse}<span />{/foreach}</div>")
            .expect("parses");
    let (native, components) = registries(&["div"], Vec::new());
    let error = validate_template(&document, &native, &components).expect_err("span unknown");
    assert!(matches!(
        error.kind(),
        surgeist_template::ValidationErrorKind::UnknownNativeElement { name } if name == "span"
    ));
    let (native, components) = registries(&["div", "span"], Vec::new());
    assert!(validate_template(&document, &native, &components).is_ok());
}
