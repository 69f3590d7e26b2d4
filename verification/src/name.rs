//! Checked names for variables, attributes, native elements and components.
use vstd::prelude::*;

use crate::text::{alnum, alpha, chars_of, digit, is_alnum, is_alpha, is_digit, is_lower, is_upper, lower, upper};

verus! {

#[derive(Debug, Clone, PartialEq, Eq)]
pub enum NameError {
    InvalidVariableName { name: String },
    InvalidAttributeName { name: String },
    InvalidNativeElementName { name: String },
    InvalidComponentName { name: String },
}

/// The mathematical model of a [`NameError`].
pub enum SpecNameError {
    InvalidVariableName { name: Seq<char> },
    InvalidAttributeName { name: Seq<char> },
    InvalidNativeElementName { name: Seq<char> },
    InvalidComponentName { name: Seq<char> },
}

impl View for NameError {
    type V = SpecNameError;

    open spec fn view(&self) -> SpecNameError {
        match self {
            NameError::InvalidVariableName { name } => SpecNameError::InvalidVariableName {
                name: name@,
            },
            NameError::InvalidAttributeName { name } => SpecNameError::InvalidAttributeName {
                name: name@,
            },
            NameError::InvalidNativeElementName { name } =>
                SpecNameError::InvalidNativeElementName { name: name@ },
            NameError::InvalidComponentName { name } => SpecNameError::InvalidComponentName {
                name: name@,
            },
        }
    }
}

pub open spec fn is_identifier_start(c: char) -> bool {
    c == '_' || is_alpha(c)
}

pub open spec fn is_identifier_continue(c: char) -> bool {
    c == '_' || is_alnum(c)
}

pub open spec fn is_dash_name_continue(c: char) -> bool {
    c == '-' || is_identifier_continue(c)
}

pub open spec fn is_native_element_name_continue(c: char) -> bool {
    c == '-' || c == '_' || is_lower(c) || is_digit(c)
}

/// The characters that may follow the first one in each kind of name.
pub enum NameTail {
    Identifier,
    Dash,
    Native,
}

pub open spec fn tail_accepts(tail: NameTail, c: char) -> bool {
    match tail {
        NameTail::Identifier => is_identifier_continue(c),
        NameTail::Dash => is_dash_name_continue(c),
        NameTail::Native => is_native_element_name_continue(c),
    }
}

/// Every character of `s` from `from` on belongs to `tail`.
pub open spec fn tail_all(s: Seq<char>, from: int, tail: NameTail) -> bool {
    forall|i: int| from <= i < s.len() ==> tail_accepts(tail, #[trigger] s[i])
}

/// `[_A-Za-z][_A-Za-z0-9]*`
pub open spec fn is_identifier(s: Seq<char>) -> bool {
    s.len() > 0 && is_identifier_start(s[0]) && tail_all(s, 1, NameTail::Identifier)
}

/// `[_A-Za-z][-_A-Za-z0-9]*`
pub open spec fn is_dash_name(s: Seq<char>) -> bool {
    s.len() > 0 && is_identifier_start(s[0]) && tail_all(s, 1, NameTail::Dash)
}

/// `[a-z][-_a-z0-9]*`
pub open spec fn is_native_element_name(s: Seq<char>) -> bool {
    s.len() > 0 && is_lower(s[0]) && tail_all(s, 1, NameTail::Native)
}

/// `[A-Z][_A-Za-z0-9]*`
pub open spec fn is_component_name(s: Seq<char>) -> bool {
    s.len() > 0 && is_upper(s[0]) && tail_all(s, 1, NameTail::Identifier)
}

fn identifier_start(c: char) -> (b: bool)
    ensures
        b == is_identifier_start(c),
{
    c == '_' || alpha(c)
}

fn tail_char(tail: &NameTail, c: char) -> (b: bool)
    ensures
        b == tail_accepts(*tail, c),
{
    match tail {
        NameTail::Identifier => c == '_' || alnum(c),
        NameTail::Dash => c == '-' || c == '_' || alnum(c),
        NameTail::Native => c == '-' || c == '_' || lower(c) || digit(c),
    }
}

fn all_tail(v: &Vec<char>, tail: NameTail) -> (b: bool)
    ensures
        b == tail_all(v@, 1, tail),
{
    let mut i: usize = 1;
    while i < v.len()
        invariant
            1 <= i,
            forall|k: int| 1 <= k < i && k < v@.len() ==> tail_accepts(tail, #[trigger] v@[k]),
        decreases v.len() - i,
    {
        if !tail_char(&tail, v[i]) {
            return false;
        }
        i = i + 1;
    }
    true
}

pub fn check_identifier(name: &str) -> (b: bool)
    ensures
        b == is_identifier(name@),
{
    let v = chars_of(name);
    v.len() > 0 && identifier_start(v[0]) && all_tail(&v, NameTail::Identifier)
}

pub fn check_dash_name(name: &str) -> (b: bool)
    ensures
        b == is_dash_name(name@),
{
    let v = chars_of(name);
    v.len() > 0 && identifier_start(v[0]) && all_tail(&v, NameTail::Dash)
}

pub fn check_native_element_name(name: &str) -> (b: bool)
    ensures
        b == is_native_element_name(name@),
{
    let v = chars_of(name);
    v.len() > 0 && lower(v[0]) && all_tail(&v, NameTail::Native)
}

pub fn check_component_name(name: &str) -> (b: bool)
    ensures
        b == is_component_name(name@),
{
    let v = chars_of(name);
    v.len() > 0 && upper(v[0]) && all_tail(&v, NameTail::Identifier)
}

/// A variable name: always an identifier.
#[derive(Debug, PartialEq, Eq, Hash)]
pub struct VariableName(String);

impl View for VariableName {
    type V = Seq<char>;

    closed spec fn view(&self) -> Seq<char> {
        self.0@
    }
}

impl VariableName {
    #[verifier::type_invariant]
    spec fn wf(self) -> bool {
        is_identifier(self.0@)
    }

    pub fn try_new(name: &str) -> (r: Result<Self, NameError>)
        ensures
            is_identifier(name@) <==> r is Ok,
            r matches Ok(n) ==> n@ == name@,
            r matches Err(e) ==> e@ == (SpecNameError::InvalidVariableName { name: name@ }),
    {
        if check_identifier(name) {
            Ok(Self(name.to_owned()))
        } else {
            Err(NameError::InvalidVariableName { name: name.to_owned() })
        }
    }

    pub fn as_str(&self) -> (r: &str)
        ensures
            r@ == self@,
            is_identifier(self@),
    {
        proof {
            use_type_invariant(self);
        }
        self.0.as_str()
    }

}

impl Clone for VariableName {
    fn clone(&self) -> (r: Self)
        ensures
            r@ == self@,
    {
        proof {
            use_type_invariant(self);
        }
        Self(self.0.clone())
    }
}

/// An attribute name: an identifier that may also hold `-`.
#[derive(Debug, PartialEq, Eq, Hash)]
pub struct AttributeName(String);

impl View for AttributeName {
    type V = Seq<char>;

    closed spec fn view(&self) -> Seq<char> {
        self.0@
    }
}

impl AttributeName {
    #[verifier::type_invariant]
    spec fn wf(self) -> bool {
        is_dash_name(self.0@)
    }

    pub fn try_new(name: &str) -> (r: Result<Self, NameError>)
        ensures
            is_dash_name(name@) <==> r is Ok,
            r matches Ok(n) ==> n@ == name@,
            r matches Err(e) ==> e@ == (SpecNameError::InvalidAttributeName { name: name@ }),
    {
        if check_dash_name(name) {
            Ok(Self(name.to_owned()))
        } else {
            Err(NameError::InvalidAttributeName { name: name.to_owned() })
        }
    }

    pub fn as_str(&self) -> (r: &str)
        ensures
            r@ == self@,
            is_dash_name(self@),
    {
        proof {
            use_type_invariant(self);
        }
        self.0.as_str()
    }

}

impl Clone for AttributeName {
    fn clone(&self) -> (r: Self)
        ensures
            r@ == self@,
    {
        proof {
            use_type_invariant(self);
        }
        Self(self.0.clone())
    }
}

/// A native element name: lower-case, kebab style.
#[derive(Debug, PartialEq, Eq, Hash)]
pub struct NativeElementName(String);

impl View for NativeElementName {
    type V = Seq<char>;

    closed spec fn view(&self) -> Seq<char> {
        self.0@
    }
}

impl NativeElementName {
    #[verifier::type_invariant]
    spec fn wf(self) -> bool {
        is_native_element_name(self.0@)
    }

    pub fn try_new(name: &str) -> (r: Result<Self, NameError>)
        ensures
            is_native_element_name(name@) <==> r is Ok,
            r matches Ok(n) ==> n@ == name@,
            r matches Err(e) ==> e@ == (SpecNameError::InvalidNativeElementName { name: name@ }),
    {
        if check_native_element_name(name) {
            Ok(Self(name.to_owned()))
        } else {
            Err(NameError::InvalidNativeElementName { name: name.to_owned() })
        }
    }

    pub fn as_str(&self) -> (r: &str)
        ensures
            r@ == self@,
            is_native_element_name(self@),
    {
        proof {
            use_type_invariant(self);
        }
        self.0.as_str()
    }

}

impl Clone for NativeElementName {
    fn clone(&self) -> (r: Self)
        ensures
            r@ == self@,
    {
        proof {
            use_type_invariant(self);
        }
        Self(self.0.clone())
    }
}

/// A component name: an identifier that starts with an upper-case letter.
#[derive(Debug, PartialEq, Eq, Hash)]
pub struct ComponentName(String);

impl View for ComponentName {
    type V = Seq<char>;

    closed spec fn view(&self) -> Seq<char> {
        self.0@
    }
}

impl ComponentName {
    #[verifier::type_invariant]
    spec fn wf(self) -> bool {
        is_component_name(self.0@)
    }

    pub fn try_new(name: &str) -> (r: Result<Self, NameError>)
        ensures
            is_component_name(name@) <==> r is Ok,
            r matches Ok(n) ==> n@ == name@,
            r matches Err(e) ==> e@ == (SpecNameError::InvalidComponentName { name: name@ }),
    {
        if check_component_name(name) {
            Ok(Self(name.to_owned()))
        } else {
            Err(NameError::InvalidComponentName { name: name.to_owned() })
        }
    }

    pub fn as_str(&self) -> (r: &str)
        ensures
            r@ == self@,
            is_component_name(self@),
    {
        proof {
            use_type_invariant(self);
        }
        self.0.as_str()
    }

}

impl Clone for ComponentName {
    fn clone(&self) -> (r: Self)
        ensures
            r@ == self@,
    {
        proof {
            use_type_invariant(self);
        }
        Self(self.0.clone())
    }
}

/// A lower-case ASCII letter.
pub open spec fn ascii_lower(c: char) -> bool {
    'a' <= c && c <= 'z'
}

/// An upper-case ASCII letter.
pub open spec fn ascii_upper(c: char) -> bool {
    'A' <= c && c <= 'Z'
}

/// An ASCII digit.
pub open spec fn ascii_digit(c: char) -> bool {
    '0' <= c && c <= '9'
}

/// Variable names are exactly the texts `[_A-Za-z][_A-Za-z0-9]*`.
pub proof fn lemma_identifier_shape(s: Seq<char>)
    ensures
        is_identifier(s) <==> s.len() > 0 && (s[0] == '_' || ascii_lower(s[0]) || ascii_upper(s[0]))
            && forall|i: int|
            1 <= i < s.len() ==> #[trigger] s[i] == '_' || ascii_lower(s[i]) || ascii_upper(s[i])
                || ascii_digit(s[i]),
{
}

/// Attribute names are exactly the texts `[_A-Za-z][-_A-Za-z0-9]*`.
pub proof fn lemma_dash_name_shape(s: Seq<char>)
    ensures
        is_dash_name(s) <==> s.len() > 0 && (s[0] == '_' || ascii_lower(s[0]) || ascii_upper(s[0]))
            && forall|i: int|
            1 <= i < s.len() ==> #[trigger] s[i] == '-' || s[i] == '_' || ascii_lower(s[i])
                || ascii_upper(s[i]) || ascii_digit(s[i]),
{
}

/// Native element names are exactly the texts `[a-z][-_a-z0-9]*`: a
/// lower-case letter followed by digits, such as `h1`, is one.
pub proof fn lemma_native_element_name_shape(s: Seq<char>)
    ensures
        is_native_element_name(s) <==> s.len() > 0 && ascii_lower(s[0]) && forall|i: int|
            1 <= i < s.len() ==> #[trigger] s[i] == '-' || s[i] == '_' || ascii_lower(s[i])
                || ascii_digit(s[i]),
{
}

/// Component names are exactly the texts `[A-Z][_A-Za-z0-9]*`.
pub proof fn lemma_component_name_shape(s: Seq<char>)
    ensures
        is_component_name(s) <==> s.len() > 0 && ascii_upper(s[0]) && forall|i: int|
            1 <= i < s.len() ==> #[trigger] s[i] == '_' || ascii_lower(s[i]) || ascii_upper(s[i])
                || ascii_digit(s[i]),
{
}

} // verus!
