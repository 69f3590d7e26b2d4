use surgeist_template::render::expr_source;
use surgeist_template::{
    parse_simple_expr, AttrValue, Attribute, AttributeName, BinaryOp, ComponentName, ElementName,
    Expr, Literal, NativeElementName, Node, ParseError, ParseErrorKind, PathField, PathIndex,
    PathSegment, SourcePos, SourceSpan, TemplateDocument, VariableName, VariablePath, CRATE_NAME,
};

#[test]
fn document_preserves_component_element() {
    let span = SourceSpan::try_new(
        SourcePos::new_unchecked(1, 1, 0),
        SourcePos::new_unchecked(1, 8, 7),
    )
    .expect("valid span");
    let node = Node::element(
        ElementName::component("Panel").expect("valid component"),
        vec![Attribute::try_new(
            "title",
            AttrValue::Expression(Expr::Literal(Literal::String("Hello".to_owned()))),
            span,
        )
        .expect("valid attribute")],
        vec![Node::text("Body", span)],
        span,
    );
    let document = TemplateDocument::from_nodes(vec![node]);

    assert_eq!(document.nodes().len(), 1);
    let Node::Element(element) = &document.nodes()[0] else {
        panic!("expected element node");
    };
    assert_eq!(element.name().as_str(), "Panel");
    assert_eq!(element.attributes()[0].name(), "title");
    assert_eq!(element.children().len(), 1);
}

#[test]
fn element_names_validate_native_and_component_shapes() {
    assert!(ElementName::native("section").is_ok());
    assert!(ElementName::native("Panel").is_err());
    assert!(ElementName::component("Panel").is_ok());
    assert!(ElementName::component("section").is_err());
}

#[test]
fn parse_error_carries_kind_and_span() {
    let span = SourceSpan::new_unchecked(
        SourcePos::new_unchecked(1, 1, 0),
        SourcePos::new_unchecked(1, 5, 4),
    );
    let error = ParseError::new(
        ParseErrorKind::UnexpectedToken {
            expected: "tag name",
        },
        span,
    );

    assert!(matches!(
        error.kind(),
        ParseErrorKind::UnexpectedToken {
            expected: "tag name"
        }
    ));
    assert_eq!(error.span(), span);
}

#[test]
fn variable_path_preserves_segments() {
    let path = VariablePath::try_new(
        "user",
        vec![
            PathSegment::Field(PathField::try_new("profile").expect("valid field")),
            PathSegment::Field(PathField::try_new("names").expect("valid field")),
            PathSegment::Index(PathIndex::new(0)),
        ],
    )
    .expect("valid path");

    assert_eq!(path.root(), "user");
    assert_eq!(path.segments().len(), 3);
    assert_eq!(path.segments()[2], PathSegment::Index(PathIndex::new(0)));
}

#[test]
fn binary_expression_names_operator() {
    let expr = Expr::Binary {
        op: BinaryOp::Eq,
        left: Box::new(Expr::Variable(
            VariablePath::try_new("state", Vec::new()).expect("valid path"),
        )),
        right: Box::new(Expr::Literal(Literal::Bool(true))),
    };

    assert!(matches!(
        expr,
        Expr::Binary {
            op: BinaryOp::Eq,
            ..
        }
    ));
}

#[test]
fn variable_path_rejects_adjacent_indexes() {
    let result = VariablePath::try_new(
        "items",
        vec![
            PathSegment::Index(PathIndex::new(0)),
            PathSegment::Index(PathIndex::new(1)),
        ],
    );

    assert!(result.is_err());
}

#[test]
fn variable_path_validates_root_and_field_names() {
    assert!(VariablePath::try_new("2items", Vec::new()).is_err());
    assert!(PathField::try_new("profile-name").is_err());
}

#[test]
fn path_index_exposes_value() {
    assert_eq!(PathIndex::new(42).get(), 42);
}

#[test]
fn parses_task_three_simple_expressions() {
    assert!(matches!(
        parse_simple_expr("true").expect("bool"),
        Expr::Literal(Literal::Bool(true))
    ));
    assert!(matches!(
        parse_simple_expr("42").expect("int"),
        Expr::Literal(Literal::Int(42))
    ));
    assert!(matches!(
        parse_simple_expr("4.25").expect("float"),
        Expr::Literal(Literal::Float(value)) if value.as_str().parse::<f64>() == Ok(4.25)
    ));
    assert!(matches!(
        parse_simple_expr(r#""hello""#).expect("string"),
        Expr::Literal(Literal::String(value)) if value == "hello"
    ));
    assert!(matches!(
        parse_simple_expr("$items[0].name").expect("path"),
        Expr::Variable(_)
    ));
}

#[test]
fn rejects_task_three_malformed_paths() {
    for source in [
        "$",
        "$.name",
        "$items.",
        "$items..name",
        "$items[]",
        "$items[-1]",
        "$items[abc]",
        "$items[0",
        "$items[0][1]",
    ] {
        assert!(parse_simple_expr(source).is_err(), "{source}");
    }
}

#[test]
fn exposes_crate_identity() {
    assert_eq!(CRATE_NAME, "surgeist-template");
}

#[test]
fn variable_names_require_identifier_shape() {
    let name = VariableName::try_new("_item2").expect("valid variable name");

    assert_eq!(name.as_str(), "_item2");
    assert!(VariableName::try_new("2item").is_err());
}

#[test]
fn attribute_names_allow_kebab_after_letter_or_underscore_start() {
    let name = AttributeName::try_new("data-id").expect("valid attribute name");

    assert_eq!(name.as_str(), "data-id");
    assert!(AttributeName::try_new("-data").is_err());
}

#[test]
fn native_element_names_are_lowercase_kebab_style() {
    let name = NativeElementName::try_new("custom-element").expect("valid native name");

    assert_eq!(name.as_str(), "custom-element");
    assert!(NativeElementName::try_new("Div").is_err());
    assert!(NativeElementName::try_new("dIv").is_err());
}

#[test]
fn component_names_require_uppercase_identifier_shape() {
    let name = ComponentName::try_new("PanelHeader").expect("valid component name");

    assert_eq!(name.as_str(), "PanelHeader");
    assert!(ComponentName::try_new("panelHeader").is_err());
    assert!(ComponentName::try_new("Panel-Header").is_err());
}

#[test]
fn expression_source_escapes_string_literals_deterministically() {
    let expr = Expr::Literal(Literal::String("line\n\"quoted\"\\tail".to_owned()));

    assert_eq!(expr_source(&expr), r#""line\n\"quoted\"\\tail""#);
}

#[test]
fn span_reports_line_column_range() {
    let span = SourceSpan::try_new(
        SourcePos::new_unchecked(2, 5, 14),
        SourcePos::new_unchecked(2, 9, 18),
    )
    .expect("valid span");

    assert_eq!(span.start().line(), 2);
    assert_eq!(span.start().column(), 5);
    assert_eq!(span.end().column(), 9);
    assert_eq!(span.len_bytes(), 4);
}

#[test]
fn rejects_invalid_source_spans() {
    let start = SourcePos::new_unchecked(2, 5, 14);
    let earlier_line = SourcePos::new_unchecked(1, 9, 18);
    let earlier_byte = SourcePos::new_unchecked(2, 9, 12);

    assert!(SourceSpan::try_new(start, earlier_line).is_err());
    assert!(SourceSpan::try_new(start, earlier_byte).is_err());
}

#[test]
fn source_positions_are_not_publicly_constructible() {
    let pos = SourcePos::new_unchecked(3, 2, 19);

    assert_eq!(pos.line(), 3);
    assert_eq!(pos.column(), 2);
    assert_eq!(pos.byte(), 19);
}
