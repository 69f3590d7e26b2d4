//! Typed parse and validation errors.
use vstd::prelude::*;

use crate::span::{SourceSpan, SpecSpan};

verus! {

#[derive(Debug, Clone, PartialEq, Eq)]
pub enum ParseErrorKind {
    UnexpectedEof,
    UnexpectedToken { expected: &'static str },
    UnclosedElement { name: String },
    MismatchedCloseTag { expected: String, found: String },
    InvalidName { name: String },
    InvalidExpression { reason: &'static str },
    StrayTemplateTag { tag: String },
    UnsupportedTemplateTag { tag: String },
}

/// The mathematical model of a [`ParseErrorKind`].
pub enum SpecParseErrorKind {
    UnexpectedEof,
    UnexpectedToken { expected: Seq<char> },
    UnclosedElement { name: Seq<char> },
    MismatchedCloseTag { expected: Seq<char>, found: Seq<char> },
    InvalidName { name: Seq<char> },
    InvalidExpression { reason: Seq<char> },
    StrayTemplateTag { tag: Seq<char> },
    UnsupportedTemplateTag { tag: Seq<char> },
}

impl View for ParseErrorKind {
    type V = SpecParseErrorKind;

    open spec fn view(&self) -> SpecParseErrorKind {
        match self {
            ParseErrorKind::UnexpectedEof => SpecParseErrorKind::UnexpectedEof,
            ParseErrorKind::UnexpectedToken { expected } => SpecParseErrorKind::UnexpectedToken {
                expected: expected@,
            },
            ParseErrorKind::UnclosedElement { name } => SpecParseErrorKind::UnclosedElement {
                name: name@,
            },
            ParseErrorKind::MismatchedCloseTag { expected, found } =>
                SpecParseErrorKind::MismatchedCloseTag { expected: expected@, found: found@ },
            ParseErrorKind::InvalidName { name } => SpecParseErrorKind::InvalidName {
                name: name@,
            },
            ParseErrorKind::InvalidExpression { reason } => SpecParseErrorKind::InvalidExpression {
                reason: reason@,
            },
            ParseErrorKind::StrayTemplateTag { tag } => SpecParseErrorKind::StrayTemplateTag {
                tag: tag@,
            },
            ParseErrorKind::UnsupportedTemplateTag { tag } =>
                SpecParseErrorKind::UnsupportedTemplateTag { tag: tag@ },
        }
    }
}

#[derive(Debug, Clone, PartialEq, Eq)]
pub struct ParseError {
    kind: ParseErrorKind,
    span: SourceSpan,
}

/// The mathematical model of a [`ParseError`].
pub struct SpecParseError {
    pub kind: SpecParseErrorKind,
    pub span: SpecSpan,
}

impl View for ParseError {
    type V = SpecParseError;

    closed spec fn view(&self) -> SpecParseError {
        SpecParseError { kind: self.kind@, span: self.span@ }
    }
}

impl ParseError {
    pub fn new(kind: ParseErrorKind, span: SourceSpan) -> (r: Self)
        ensures
            r@ == (SpecParseError { kind: kind@, span: span@ }),
    {
        Self { kind, span }
    }

    pub fn kind(&self) -> (r: &ParseErrorKind)
        ensures
            r@ == self@.kind,
    {
        &self.kind
    }

    pub fn span(&self) -> (r: SourceSpan)
        ensures
            r@ == self@.span,
    {
        self.span
    }
}

#[derive(Debug, Clone, PartialEq, Eq)]
pub enum ValidationErrorKind {
    UnknownNativeElement { name: String },
    UnknownComponent { name: String },
    DuplicateAttribute { name: String },
    InvalidAttribute { element: String, attribute: String },
    InvalidAttributeValue { element: String, attribute: String },
}

/// The mathematical model of a [`ValidationErrorKind`].
pub enum SpecValidationErrorKind {
    UnknownNativeElement { name: Seq<char> },
    UnknownComponent { name: Seq<char> },
    DuplicateAttribute { name: Seq<char> },
    InvalidAttribute { element: Seq<char>, attribute: Seq<char> },
    InvalidAttributeValue { element: Seq<char>, attribute: Seq<char> },
}

impl View for ValidationErrorKind {
    type V = SpecValidationErrorKind;

    open spec fn view(&self) -> SpecValidationErrorKind {
        match self {
            ValidationErrorKind::UnknownNativeElement { name } =>
                SpecValidationErrorKind::UnknownNativeElement { name: name@ },
            ValidationErrorKind::UnknownComponent { name } =>
                SpecValidationErrorKind::UnknownComponent { name: name@ },
            ValidationErrorKind::DuplicateAttribute { name } =>
                SpecValidationErrorKind::DuplicateAttribute { name: name@ },
            ValidationErrorKind::InvalidAttribute { element, attribute } =>
                SpecValidationErrorKind::InvalidAttribute {
                    element: element@,
                    attribute: attribute@,
                },
            ValidationErrorKind::InvalidAttributeValue { element, attribute } =>
                SpecValidationErrorKind::InvalidAttributeValue {
                    element: element@,
                    attribute: attribute@,
                },
        }
    }
}

#[derive(Debug, Clone, PartialEq, Eq)]
pub struct ValidationError {
    kind: ValidationErrorKind,
    span: SourceSpan,
}

/// The mathematical model of a [`ValidationError`].
pub struct SpecValidationError {
    pub kind: SpecValidationErrorKind,
    pub span: SpecSpan,
}

impl View for ValidationError {
    type V = SpecValidationError;

    closed spec fn view(&self) -> SpecValidationError {
        SpecValidationError { kind: self.kind@, span: self.span@ }
    }
}

impl ValidationError {
    pub fn new(kind: ValidationErrorKind, span: SourceSpan) -> (r: Self)
        ensures
            r@ == (SpecValidationError { kind: kind@, span: span@ }),
    {
        Self { kind, span }
    }

    pub fn kind(&self) -> (r: &ValidationErrorKind)
        ensures
            r@ == self@.kind,
    {
        &self.kind
    }

    pub fn span(&self) -> (r: SourceSpan)
        ensures
            r@ == self@.span,
    {
        self.span
    }
}

} // verus!
