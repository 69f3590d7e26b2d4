//! Template and DSL-facing contracts for Surgeist.
//!
//! This crate owns template-layer contracts. Keep app-authoring concepts typed
//! and reusable, while leaving cross-crate lowering and host integration to the
//! root `surgeist` facade.
//!
//! The parser is stated against the grammar in [`grammar`], the validator
//! against the authored tree it checks, and the renderer against the text it
//! writes; every public operation is proved to meet its contract.
use vstd::prelude::*;

pub mod ast;
pub mod error;
pub mod expr;
pub mod grammar;
pub mod lexer;
pub mod name;
pub mod order;
pub mod parser;
pub mod readback;
pub mod render;
pub mod span;
pub mod text;
pub mod validate;

pub use ast::{
    AttrPart, AttrValue, Attribute, ElementName, ElementNode, ForEachNode, IfBranch, IfNode,
    InterpolationNode, Node, TemplateDocument, TextNode,
};
pub use error::{ParseError, ParseErrorKind, ValidationError, ValidationErrorKind};
pub use expr::{
    parse_simple_expr, BinaryOp, Expr, FloatLiteral, Literal, PathField, PathIndex, PathSegment,
    UnaryOp, VariablePath,
};
pub use name::{AttributeName, ComponentName, NameError, NativeElementName, VariableName};
pub use parser::parse_template;
pub use render::render_to_rust;
pub use span::{SourcePos, SourceSpan, SpanError};
pub use validate::{
    validate_template, AttributeKind, AttributeRule, AttributeSpec, ComponentRegistry,
    ComponentSpec, NativeElementRegistry, NativeElementSpec, RegistryError, ValidatedAttrPart,
    ValidatedAttrValue, ValidatedAttribute, ValidatedElement, ValidatedForEach, ValidatedIf,
    ValidatedIfBranch, ValidatedInterpolation, ValidatedNode, ValidatedTemplate, ValidatedText,
};

verus! {

/// Crate identity string used by smoke tests and API artifacts.
pub const CRATE_NAME: &'static str = "surgeist-template";

} // verus!
