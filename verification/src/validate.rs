//! Semantic validation of authored templates against registries of native
//! elements and components.
use vstd::prelude::*;

use crate::ast::{
    attributes_view, branches_view, lemma_branches_view, lemma_nodes_view, nodes_view, parts_view,
    AttrPart, AttrValue, Attribute, ElementName, IfBranch, Node, SpecAttrPart, SpecAttrValue,
    SpecAttribute, SpecBranch, SpecElement, SpecElementName, SpecForEach, SpecIf,
    SpecInterpolation, SpecNode, SpecText, TemplateDocument,
};
use crate::error::{SpecValidationError, SpecValidationErrorKind, ValidationError, ValidationErrorKind};
use crate::expr::{copy_expr, Expr, SpecExpr};
use crate::name::{
    is_component_name, is_dash_name, is_native_element_name, AttributeName, ComponentName,
    NameError, NativeElementName, SpecNameError, VariableName,
};
use crate::order::{
    lemma_name_less_irreflexive, lemma_name_less_transitive, lemma_sorted_distinct, name_less,
    names_sorted, sort_by_names,
};
use crate::span::SourceSpan;

verus! {

// ---------------------------------------------------------------------------
// The validated tree
// ---------------------------------------------------------------------------
#[derive(Debug, Clone, PartialEq)]
pub struct ValidatedTemplate {
    nodes: Vec<ValidatedNode>,
}

#[derive(Debug, PartialEq)]
pub enum ValidatedNode {
    NativeElement(ValidatedElement<NativeElementName>),
    ComponentElement(ValidatedElement<ComponentName>),
    Text(ValidatedText),
    Interpolation(ValidatedInterpolation),
    If(ValidatedIf),
    ForEach(ValidatedForEach),
}

#[derive(Debug, Clone, PartialEq)]
pub struct ValidatedElement<Name> {
    name: Name,
    attributes: Vec<ValidatedAttribute>,
    children: Vec<ValidatedNode>,
    span: SourceSpan,
}

#[derive(Debug, Clone, PartialEq)]
pub struct ValidatedText {
    value: String,
    span: SourceSpan,
}

#[derive(Debug, Clone, PartialEq)]
pub struct ValidatedInterpolation {
    expr: Expr,
    span: SourceSpan,
}

#[derive(Debug, Clone, PartialEq)]
pub struct ValidatedAttribute {
    name: AttributeName,
    value: ValidatedAttrValue,
    span: SourceSpan,
}

#[derive(Debug, Clone, PartialEq)]
pub enum ValidatedAttrValue {
    Bool,
    Static(String),
    Expression(Expr),
    Interpolated(Vec<ValidatedAttrPart>),
}

#[derive(Debug, Clone, PartialEq)]
pub enum ValidatedAttrPart {
    Text(String),
    Expr(Expr),
}

#[derive(Debug, Clone, PartialEq)]
pub struct ValidatedIf {
    branches: Vec<ValidatedIfBranch>,
    else_children: Vec<ValidatedNode>,
    span: SourceSpan,
}

#[derive(Debug, Clone, PartialEq)]
pub struct ValidatedIfBranch {
    condition: Expr,
    children: Vec<ValidatedNode>,
}

#[derive(Debug, Clone, PartialEq)]
pub struct ValidatedForEach {
    collection: Expr,
    item_name: VariableName,
    children: Vec<ValidatedNode>,
    else_children: Vec<ValidatedNode>,
    span: SourceSpan,
}

impl View for ValidatedAttrPart {
    type V = SpecAttrPart;

    open spec fn view(&self) -> SpecAttrPart {
        match self {
            ValidatedAttrPart::Text(t) => SpecAttrPart::Text(t@),
            ValidatedAttrPart::Expr(e) => SpecAttrPart::Expr(e@),
        }
    }
}

pub open spec fn vparts_view(s: Seq<ValidatedAttrPart>) -> Seq<SpecAttrPart> {
    s.map_values(|p: ValidatedAttrPart| p@)
}

impl View for ValidatedAttrValue {
    type V = SpecAttrValue;

    open spec fn view(&self) -> SpecAttrValue {
        match self {
            ValidatedAttrValue::Bool => SpecAttrValue::Bool,
            ValidatedAttrValue::Static(s) => SpecAttrValue::Static(s@),
            ValidatedAttrValue::Expression(e) => SpecAttrValue::Expression(e@),
            ValidatedAttrValue::Interpolated(p) => SpecAttrValue::Interpolated(vparts_view(p@)),
        }
    }
}

impl View for ValidatedAttribute {
    type V = SpecAttribute;

    closed spec fn view(&self) -> SpecAttribute {
        SpecAttribute { name: self.name@, value: self.value@, span: self.span@ }
    }
}

pub open spec fn vattributes_view(s: Seq<ValidatedAttribute>) -> Seq<SpecAttribute> {
    s.map_values(|a: ValidatedAttribute| a@)
}

pub closed spec fn vnode_view(n: ValidatedNode) -> SpecNode
    decreases n,
{
    match n {
        ValidatedNode::NativeElement(e) => SpecNode::Element(vnative_view(e)),
        ValidatedNode::ComponentElement(e) => SpecNode::Element(vcomponent_view(e)),
        ValidatedNode::Text(t) => SpecNode::Text(SpecText { value: t.value@, span: t.span@ }),
        ValidatedNode::Interpolation(i) => SpecNode::Interpolation(
            SpecInterpolation { expr: i.expr@, span: i.span@ },
        ),
        ValidatedNode::If(i) => SpecNode::If(vif_view(i)),
        ValidatedNode::ForEach(f) => SpecNode::ForEach(vfor_each_view(f)),
    }
}

pub closed spec fn vnative_view(e: ValidatedElement<NativeElementName>) -> SpecElement
    decreases e,
{
    SpecElement {
        name: SpecElementName::Native(e.name@),
        attributes: vattributes_view(e.attributes@),
        children: vnodes_view(e.children@),
        span: e.span@,
    }
}

pub closed spec fn vcomponent_view(e: ValidatedElement<ComponentName>) -> SpecElement
    decreases e,
{
    SpecElement {
        name: SpecElementName::Component(e.name@),
        attributes: vattributes_view(e.attributes@),
        children: vnodes_view(e.children@),
        span: e.span@,
    }
}

pub closed spec fn vif_view(i: ValidatedIf) -> SpecIf
    decreases i,
{
    SpecIf {
        branches: vbranches_view(i.branches@),
        else_children: vnodes_view(i.else_children@),
        span: i.span@,
    }
}

pub closed spec fn vfor_each_view(f: ValidatedForEach) -> SpecForEach
    decreases f,
{
    SpecForEach {
        collection: f.collection@,
        item_name: f.item_name@,
        children: vnodes_view(f.children@),
        else_children: vnodes_view(f.else_children@),
        span: f.span@,
    }
}

pub closed spec fn vbranch_view(b: ValidatedIfBranch) -> SpecBranch
    decreases b,
{
    SpecBranch { condition: b.condition@, children: vnodes_view(b.children@) }
}

/// The models of a sequence of validated nodes.
pub closed spec fn vnodes_view(s: Seq<ValidatedNode>) -> Seq<SpecNode>
    decreases s,
{
    if s.len() == 0 {
        Seq::empty()
    } else {
        vnodes_view(s.drop_last()).push(vnode_view(s.last()))
    }
}

/// The models of a sequence of validated branches.
pub closed spec fn vbranches_view(s: Seq<ValidatedIfBranch>) -> Seq<SpecBranch>
    decreases s,
{
    if s.len() == 0 {
        Seq::empty()
    } else {
        vbranches_view(s.drop_last()).push(vbranch_view(s.last()))
    }
}

impl View for ValidatedNode {
    type V = SpecNode;

    closed spec fn view(&self) -> SpecNode {
        vnode_view(*self)
    }
}

impl View for ValidatedElement<NativeElementName> {
    type V = SpecElement;

    closed spec fn view(&self) -> SpecElement {
        vnative_view(*self)
    }
}

impl View for ValidatedElement<ComponentName> {
    type V = SpecElement;

    closed spec fn view(&self) -> SpecElement {
        vcomponent_view(*self)
    }
}

impl View for ValidatedText {
    type V = SpecText;

    closed spec fn view(&self) -> SpecText {
        SpecText { value: self.value@, span: self.span@ }
    }
}

impl View for ValidatedInterpolation {
    type V = SpecInterpolation;

    closed spec fn view(&self) -> SpecInterpolation {
        SpecInterpolation { expr: self.expr@, span: self.span@ }
    }
}

impl View for ValidatedIf {
    type V = SpecIf;

    closed spec fn view(&self) -> SpecIf {
        vif_view(*self)
    }
}

impl View for ValidatedIfBranch {
    type V = SpecBranch;

    closed spec fn view(&self) -> SpecBranch {
        vbranch_view(*self)
    }
}

impl View for ValidatedForEach {
    type V = SpecForEach;

    closed spec fn view(&self) -> SpecForEach {
        vfor_each_view(*self)
    }
}

impl View for ValidatedTemplate {
    type V = Seq<SpecNode>;

    closed spec fn view(&self) -> Seq<SpecNode> {
        vnodes_view(self.nodes@)
    }
}

pub broadcast proof fn lemma_vnodes_view(s: Seq<ValidatedNode>)
    ensures
        #[trigger] vnodes_view(s).len() == s.len(),
        forall|i: int| 0 <= i < s.len() ==> #[trigger] vnodes_view(s)[i] == s[i]@,
    decreases s.len(),
{
    if s.len() > 0 {
        lemma_vnodes_view(s.drop_last());
    }
}

pub broadcast proof fn lemma_vbranches_view(s: Seq<ValidatedIfBranch>)
    ensures
        #[trigger] vbranches_view(s).len() == s.len(),
        forall|i: int| 0 <= i < s.len() ==> #[trigger] vbranches_view(s)[i] == s[i]@,
    decreases s.len(),
{
    if s.len() > 0 {
        lemma_vbranches_view(s.drop_last());
    }
}

proof fn lemma_vnodes_view_push(s: Seq<ValidatedNode>, n: ValidatedNode)
    ensures
        vnodes_view(s.push(n)) == vnodes_view(s).push(n@),
{
    assert(s.push(n).drop_last() =~= s);
}

proof fn lemma_vbranches_view_push(s: Seq<ValidatedIfBranch>, b: ValidatedIfBranch)
    ensures
        vbranches_view(s.push(b)) == vbranches_view(s).push(b@),
{
    assert(s.push(b).drop_last() =~= s);
}

impl ValidatedTemplate {
    pub fn nodes(&self) -> (r: &[ValidatedNode])
        ensures
            vnodes_view(r@) == self@,
    {
        self.nodes.as_slice()
    }
}

impl ValidatedNode {
    /// The model of a node is the model of what it holds.
    pub proof fn lemma_view(&self)
        ensures
            match *self {
                ValidatedNode::NativeElement(e) => self@ == SpecNode::Element(e@),
                ValidatedNode::ComponentElement(e) => self@ == SpecNode::Element(e@),
                ValidatedNode::Text(t) => self@ == SpecNode::Text(t@),
                ValidatedNode::Interpolation(i) => self@ == SpecNode::Interpolation(i@),
                ValidatedNode::If(i) => self@ == SpecNode::If(i@),
                ValidatedNode::ForEach(f) => self@ == SpecNode::ForEach(f@),
            },
    {
    }
}

impl ValidatedElement<NativeElementName> {
    pub fn name(&self) -> (r: &NativeElementName)
        ensures
            SpecElementName::Native(r@) == self@.name,
    {
        &self.name
    }

    pub fn attributes(&self) -> (r: &[ValidatedAttribute])
        ensures
            vattributes_view(r@) == self@.attributes,
    {
        self.attributes.as_slice()
    }

    pub fn children(&self) -> (r: &[ValidatedNode])
        ensures
            vnodes_view(r@) == self@.children,
    {
        self.children.as_slice()
    }

    pub fn span(&self) -> (r: SourceSpan)
        ensures
            r@ == self@.span,
    {
        self.span
    }
}

impl ValidatedElement<ComponentName> {
    pub fn name(&self) -> (r: &ComponentName)
        ensures
            SpecElementName::Component(r@) == self@.name,
    {
        &self.name
    }

    pub fn attributes(&self) -> (r: &[ValidatedAttribute])
        ensures
            vattributes_view(r@) == self@.attributes,
    {
        self.attributes.as_slice()
    }

    pub fn children(&self) -> (r: &[ValidatedNode])
        ensures
            vnodes_view(r@) == self@.children,
    {
        self.children.as_slice()
    }

    pub fn span(&self) -> (r: SourceSpan)
        ensures
            r@ == self@.span,
    {
        self.span
    }
}

impl ValidatedText {
    pub fn value(&self) -> (r: &str)
        ensures
            r@ == self@.value,
    {
        self.value.as_str()
    }

    pub fn span(&self) -> (r: SourceSpan)
        ensures
            r@ == self@.span,
    {
        self.span
    }
}

impl ValidatedInterpolation {
    pub fn expr(&self) -> (r: &Expr)
        ensures
            r@ == self@.expr,
    {
        &self.expr
    }

    pub fn span(&self) -> (r: SourceSpan)
        ensures
            r@ == self@.span,
    {
        self.span
    }
}

impl ValidatedAttribute {
    pub fn name(&self) -> (r: &AttributeName)
        ensures
            r@ == self@.name,
    {
        &self.name
    }

    pub fn value(&self) -> (r: &ValidatedAttrValue)
        ensures
            r@ == self@.value,
    {
        &self.value
    }

    pub fn span(&self) -> (r: SourceSpan)
        ensures
            r@ == self@.span,
    {
        self.span
    }
}

impl ValidatedIf {
    pub fn branches(&self) -> (r: &[ValidatedIfBranch])
        ensures
            vbranches_view(r@) == self@.branches,
    {
        self.branches.as_slice()
    }

    pub fn else_children(&self) -> (r: &[ValidatedNode])
        ensures
            vnodes_view(r@) == self@.else_children,
    {
        self.else_children.as_slice()
    }

    pub fn span(&self) -> (r: SourceSpan)
        ensures
            r@ == self@.span,
    {
        self.span
    }
}

impl ValidatedIfBranch {
    pub fn condition(&self) -> (r: &Expr)
        ensures
            r@ == self@.condition,
    {
        &self.condition
    }

    pub fn children(&self) -> (r: &[ValidatedNode])
        ensures
            vnodes_view(r@) == self@.children,
    {
        self.children.as_slice()
    }
}

impl ValidatedForEach {
    pub fn collection(&self) -> (r: &Expr)
        ensures
            r@ == self@.collection,
    {
        &self.collection
    }

    pub fn item_name(&self) -> (r: &VariableName)
        ensures
            r@ == self@.item_name,
    {
        &self.item_name
    }

    pub fn children(&self) -> (r: &[ValidatedNode])
        ensures
            vnodes_view(r@) == self@.children,
    {
        self.children.as_slice()
    }

    pub fn else_children(&self) -> (r: &[ValidatedNode])
        ensures
            vnodes_view(r@) == self@.else_children,
    {
        self.else_children.as_slice()
    }

    pub fn span(&self) -> (r: SourceSpan)
        ensures
            r@ == self@.span,
    {
        self.span
    }
}


// ---------------------------------------------------------------------------
// Registries
// ---------------------------------------------------------------------------
#[derive(Debug, Clone, Copy, PartialEq, Eq, Hash, Structural)]
pub enum AttributeKind {
    Bool,
    Static,
    Expression,
    Interpolated,
}

/// The kinds of value an attribute accepts.
#[derive(Debug, Clone, Copy, PartialEq, Eq, Structural)]
pub struct AttributeRule {
    bool_value: bool,
    static_value: bool,
    expression_value: bool,
    interpolated_value: bool,
}

impl AttributeRule {
    closed spec fn flag(self, kind: AttributeKind) -> bool {
        match kind {
            AttributeKind::Bool => self.bool_value,
            AttributeKind::Static => self.static_value,
            AttributeKind::Expression => self.expression_value,
            AttributeKind::Interpolated => self.interpolated_value,
        }
    }
}

impl View for AttributeRule {
    type V = Set<AttributeKind>;

    closed spec fn view(&self) -> Set<AttributeKind> {
        Set::new(|k: AttributeKind| self.flag(k))
    }
}

impl AttributeRule {
    fn with(self, kind: AttributeKind) -> (r: Self)
        ensures
            r@ == self@.insert(kind),
    {
        let r = match kind {
            AttributeKind::Bool => Self { bool_value: true, ..self },
            AttributeKind::Static => Self { static_value: true, ..self },
            AttributeKind::Expression => Self { expression_value: true, ..self },
            AttributeKind::Interpolated => Self { interpolated_value: true, ..self },
        };
        assert(r@ =~= self@.insert(kind));
        r
    }

    /// A rule that accepts exactly `kind`.
    pub fn one(kind: AttributeKind) -> (r: Self)
        ensures
            r@ == set![kind],
    {
        let empty = Self {
            bool_value: false,
            static_value: false,
            expression_value: false,
            interpolated_value: false,
        };
        assert(empty@ =~= Set::<AttributeKind>::empty());
        empty.with(kind)
    }

    /// A rule that accepts `first` and every kind in `rest`.
    pub fn any<const N: usize>(first: AttributeKind, rest: [AttributeKind; N]) -> (r: Self)
        ensures
            forall|k: AttributeKind| r@.contains(k) <==> (k == first || rest@.contains(k)),
    {
        let mut r = Self::one(first);
        let mut i: usize = 0;
        while i < N
            invariant
                i <= N == rest@.len(),
                forall|k: AttributeKind|
                    r@.contains(k) <==> (k == first || rest@.take(i as int).contains(k)),
            decreases N - i,
        {
            let ghost before = r@;
            r = r.with(rest[i]);
            proof {
                let t0 = rest@.take(i as int);
                let t1 = rest@.take(i + 1);
                let x = rest@[i as int];
                assert(t1 =~= t0.push(x));
                assert forall|k: AttributeKind| t1.contains(k) <==> (t0.contains(k) || k == x) by {
                    if t0.contains(k) {
                        let m = choose|m: int| 0 <= m < t0.len() && t0[m] == k;
                        assert(t1[m] == k);
                    }
                    if k == x {
                        assert(t1[i as int] == k);
                    }
                    if t1.contains(k) {
                        let m = choose|m: int| 0 <= m < t1.len() && t1[m] == k;
                        if m < i {
                            assert(t0[m] == k);
                        }
                    }
                }
            }
            i = i + 1;
        }
        assert(rest@.take(N as int) =~= rest@);
        r
    }

    pub fn accepts(&self, kind: AttributeKind) -> (r: bool)
        ensures
            r == self@.contains(kind),
    {
        match kind {
            AttributeKind::Bool => self.bool_value,
            AttributeKind::Static => self.static_value,
            AttributeKind::Expression => self.expression_value,
            AttributeKind::Interpolated => self.interpolated_value,
        }
    }
}

#[derive(Debug, Clone, PartialEq, Eq)]
pub enum RegistryError {
    Name(NameError),
    DuplicateNativeElement { name: String },
    DuplicateComponent { name: String },
    DuplicateAttributeSpec { name: String },
}

pub enum SpecRegistryError {
    Name(SpecNameError),
    DuplicateNativeElement { name: Seq<char> },
    DuplicateComponent { name: Seq<char> },
    DuplicateAttributeSpec { name: Seq<char> },
}

impl View for RegistryError {
    type V = SpecRegistryError;

    open spec fn view(&self) -> SpecRegistryError {
        match self {
            RegistryError::Name(e) => SpecRegistryError::Name(e@),
            RegistryError::DuplicateNativeElement { name } =>
                SpecRegistryError::DuplicateNativeElement { name: name@ },
            RegistryError::DuplicateComponent { name } => SpecRegistryError::DuplicateComponent {
                name: name@,
            },
            RegistryError::DuplicateAttributeSpec { name } =>
                SpecRegistryError::DuplicateAttributeSpec { name: name@ },
        }
    }
}

impl From<NameError> for RegistryError {
    fn from(error: NameError) -> (r: Self) {
        Self::Name(error)
    }
}

impl vstd::std_specs::convert::FromSpecImpl<NameError> for RegistryError {
    open spec fn obeys_from_spec() -> bool {
        true
    }

    open spec fn from_spec(v: NameError) -> Self {
        RegistryError::Name(v)
    }
}

/// The position of the first name that repeats an earlier one, from `j` on.
pub open spec fn duplicate_from(names: Seq<Seq<char>>, j: int) -> Option<int>
    decreases names.len() - j,
{
    if !(0 <= j < names.len()) {
        None
    } else if names.take(j).contains(names[j]) {
        Some(j)
    } else {
        duplicate_from(names, j + 1)
    }
}

/// The position of the first name that repeats an earlier one.
pub open spec fn first_duplicate(names: Seq<Seq<char>>) -> Option<int> {
    duplicate_from(names, 0)
}

pub open spec fn distinct_names(names: Seq<Seq<char>>) -> bool {
    forall|a: int, b: int| 0 <= a < b < names.len() ==> names[a] != names[b]
}

proof fn lemma_duplicate_from(names: Seq<Seq<char>>, j: int)
    requires
        0 <= j,
        duplicate_from(names, j) is None,
    ensures
        forall|a: int, b: int| 0 <= a < b < names.len() && j <= b ==> names[a] != names[b],
    decreases names.len() - j,
{
    if j < names.len() {
        lemma_duplicate_from(names, j + 1);
        assert forall|a: int| 0 <= a < j implies names[a] != names[j] by {
            assert(names.take(j)[a] == names[a]);
        }
    }
}

pub proof fn lemma_no_duplicate_distinct(names: Seq<Seq<char>>)
    requires
        first_duplicate(names) is None,
    ensures
        distinct_names(names),
{
    lemma_duplicate_from(names, 0);
}

pub open spec fn strings_view(s: Seq<String>) -> Seq<Seq<char>> {
    s.map_values(|x: String| x@)
}

fn first_duplicate_name(names: &Vec<String>) -> (r: Option<usize>)
    ensures
        r matches Some(j) ==> first_duplicate(strings_view(names@)) == Some(j as int) && j
            < names@.len(),
        r is None ==> first_duplicate(strings_view(names@)) is None,
{
    let ghost v = strings_view(names@);
    let n = names.len();
    let mut j: usize = 0;
    while j < n
        invariant
            j <= n == names@.len() == v.len(),
            v == strings_view(names@),
            duplicate_from(v, 0) == duplicate_from(v, j as int),
        decreases n - j,
    {
        let mut k: usize = 0;
        while k < j
            invariant
                k <= j < n == names@.len() == v.len(),
                v == strings_view(names@),
                duplicate_from(v, 0) == duplicate_from(v, j as int),
                forall|m: int| 0 <= m < k ==> v[m] != v[j as int],
            decreases j - k,
        {
            assert(v[k as int] == names@[k as int]@);
            assert(v[j as int] == names@[j as int]@);
            if names[k] == names[j] {
                assert(v.take(j as int)[k as int] == v[j as int]);
                return Some(j);
            }
            k = k + 1;
        }
        assert(!v.take(j as int).contains(v[j as int])) by {
            if v.take(j as int).contains(v[j as int]) {
                let m = choose|m: int| 0 <= m < j && v.take(j as int)[m] == v[j as int];
                assert(v[m] == v[j as int]);
            }
        }
        j = j + 1;
    }
    None
}

/// A named attribute and the kinds of value it accepts.
#[derive(Debug, PartialEq, Eq)]
pub struct AttributeSpec {
    name: AttributeName,
    rule: AttributeRule,
}

pub struct SpecAttributeSpec {
    pub name: Seq<char>,
    pub rule: Set<AttributeKind>,
}

impl View for AttributeSpec {
    type V = SpecAttributeSpec;

    closed spec fn view(&self) -> SpecAttributeSpec {
        SpecAttributeSpec { name: self.name@, rule: self.rule@ }
    }
}

pub open spec fn attribute_specs_view(s: Seq<AttributeSpec>) -> Seq<SpecAttributeSpec> {
    s.map_values(|a: AttributeSpec| a@)
}

pub open spec fn attribute_spec_names(s: Seq<SpecAttributeSpec>) -> Seq<Seq<char>> {
    s.map_values(|a: SpecAttributeSpec| a.name)
}

impl AttributeSpec {
    pub fn try_new(name: &str, rule: AttributeRule) -> (r: Result<Self, RegistryError>)
        ensures
            is_dash_name(name@) <==> r is Ok,
            r matches Ok(a) ==> a@ == (SpecAttributeSpec { name: name@, rule: rule@ }),
            r matches Err(e) ==> e@ == SpecRegistryError::Name(
                SpecNameError::InvalidAttributeName { name: name@ },
            ),
    {
        match AttributeName::try_new(name) {
            Ok(name) => Ok(Self { name, rule }),
            Err(e) => Err(RegistryError::Name(e)),
        }
    }

    pub fn name(&self) -> (r: &AttributeName)
        ensures
            r@ == self@.name,
    {
        &self.name
    }

    pub fn rule(&self) -> (r: &AttributeRule)
        ensures
            r@ == self@.rule,
    {
        &self.rule
    }
}

/// The rule of the first attribute spec named `name`.
pub open spec fn find_rule(specs: Seq<SpecAttributeSpec>, name: Seq<char>) -> Option<
    Set<AttributeKind>,
>
    decreases specs.len(),
{
    if specs.len() == 0 {
        None
    } else if specs[0].name == name {
        Some(specs[0].rule)
    } else {
        find_rule(specs.drop_first(), name)
    }
}

/// Checks that no two attribute specs share a name; gives their names.
fn check_attribute_specs(attributes: &Vec<AttributeSpec>) -> (r: Result<Vec<String>, RegistryError>)
    ensures
        match first_duplicate(attribute_spec_names(attribute_specs_view(attributes@))) {
            Some(j) => r matches Err(e) && e@ == (SpecRegistryError::DuplicateAttributeSpec {
                name: attribute_specs_view(attributes@)[j].name,
            }),
            None => r matches Ok(names) && strings_view(names@) == attribute_spec_names(
                attribute_specs_view(attributes@),
            ),
        },
{
    let mut names: Vec<String> = Vec::new();
    let mut i: usize = 0;
    while i < attributes.len()
        invariant
            i <= attributes@.len(),
            strings_view(names@) == attribute_spec_names(attribute_specs_view(attributes@)).take(
                i as int,
            ),
        decreases attributes.len() - i,
    {
        let name = attributes[i].name().as_str().to_owned();
        let ghost all = attribute_spec_names(attribute_specs_view(attributes@));
        assert(all[i as int] == name@);
        names.push(name);
        assert(all.take(i + 1) =~= all.take(i as int).push(all[i as int]));
        assert(strings_view(names@) =~= all.take(i + 1));
        i = i + 1;
    }
    assert(strings_view(names@) =~= attribute_spec_names(attribute_specs_view(attributes@)));
    match first_duplicate_name(&names) {
        Some(j) => {
            assert(strings_view(names@)[j as int] == names@[j as int]@);
            Err(RegistryError::DuplicateAttributeSpec { name: names[j].clone() })
        },
        None => Ok(names),
    }
}

fn find_rule_in<'a>(specs: &'a [AttributeSpec], name: &str) -> (r: Option<&'a AttributeRule>)
    ensures
        match find_rule(attribute_specs_view(specs@), name@) {
            Some(rule) => r matches Some(x) && x@ == rule,
            None => r is None,
        },
{
    let ghost all = attribute_specs_view(specs@);
    assert(all.subrange(0, all.len() as int) =~= all);
    let mut i: usize = 0;
    while i < specs.len()
        invariant
            i <= specs@.len(),
            all == attribute_specs_view(specs@),
            find_rule(all, name@) == find_rule(all.subrange(i as int, all.len() as int), name@),
        decreases specs.len() - i,
    {
        let ghost rest = all.subrange(i as int, all.len() as int);
        assert(rest[0] == specs@[i as int]@);
        assert(rest.drop_first() =~= all.subrange(i + 1, all.len() as int));
        if crate::text::str_eq(specs[i].name().as_str(), name) {
            return Some(specs[i].rule());
        }
        i = i + 1;
    }
    None
}

/// `a` holds the attribute specs of `b`, each once, ordered by name.
pub open spec fn attribute_specs_by_name(a: Seq<SpecAttributeSpec>, b: Seq<SpecAttributeSpec>) -> bool {
    &&& a.len() == b.len()
    &&& forall|i: int| 0 <= i < b.len() ==> a.contains(b[i])
    &&& forall|k: int| 0 <= k < a.len() ==> b.contains(a[k])
    &&& names_sorted(attribute_spec_names(a))
}

proof fn lemma_attribute_specs_by_name(
    a: Seq<SpecAttributeSpec>,
    b: Seq<SpecAttributeSpec>,
    order: Seq<int>,
)
    requires
        a.len() == b.len() == order.len(),
        forall|k: int| 0 <= k < a.len() ==> 0 <= #[trigger] order[k] < b.len() && a[k] == b[order[k]],
        forall|i: int| 0 <= i < b.len() ==> order.contains(i),
        forall|k1: int, k2: int|
            0 <= k1 < k2 < a.len() ==> name_less(b[order[k1]].name, b[order[k2]].name),
    ensures
        attribute_specs_by_name(a, b),
        distinct_names(attribute_spec_names(a)),
{
    assert forall|i: int| 0 <= i < b.len() implies a.contains(b[i]) by {
        assert(order.contains(i));
        let k = choose|k: int| 0 <= k < order.len() && order[k] == i;
        assert(a[k] == b[i]);
    }
    assert forall|k: int| 0 <= k < a.len() implies b.contains(a[k]) by {
        assert(b[order[k]] == a[k]);
    }
    let names = attribute_spec_names(a);
    assert forall|k1: int, k2: int| 0 <= k1 < k2 < names.len() implies name_less(
        names[k1],
        names[k2],
    ) by {
        assert(a[k1] == b[order[k1]]);
        assert(a[k2] == b[order[k2]]);
    }
    lemma_sorted_distinct(names);
}

proof fn lemma_sorted_attribute_specs_equal(s: Seq<SpecAttributeSpec>, t: Seq<SpecAttributeSpec>)
    requires
        names_sorted(attribute_spec_names(s)),
        names_sorted(attribute_spec_names(t)),
        forall|x: SpecAttributeSpec| s.contains(x) <==> t.contains(x),
    ensures
        s == t,
    decreases s.len(),
{
    if s.len() == 0 {
        if t.len() > 0 {
            assert(t.contains(t[0]));
        }
        assert(s =~= t);
    } else {
        assert(s.contains(s[0]));
        let i = choose|i: int| 0 <= i < t.len() && t[i] == s[0];
        assert(t.contains(t[0]));
        let j = choose|j: int| 0 <= j < s.len() && s[j] == t[0];
        if i > 0 && j > 0 {
            assert(name_less(attribute_spec_names(t)[0], attribute_spec_names(t)[i]));
            assert(name_less(attribute_spec_names(s)[0], attribute_spec_names(s)[j]));
            lemma_name_less_transitive(s[0].name, t[0].name, s[0].name);
            lemma_name_less_irreflexive(s[0].name);
        }
        assert(s[0] == t[0]);
        let s2 = s.drop_first();
        let t2 = t.drop_first();
        assert forall|a: int, b: int| 0 <= a < b < attribute_spec_names(s2).len() implies name_less(
            attribute_spec_names(s2)[a],
            attribute_spec_names(s2)[b],
        ) by {
            assert(attribute_spec_names(s)[a + 1] == attribute_spec_names(s2)[a]);
            assert(attribute_spec_names(s)[b + 1] == attribute_spec_names(s2)[b]);
        }
        assert forall|a: int, b: int| 0 <= a < b < attribute_spec_names(t2).len() implies name_less(
            attribute_spec_names(t2)[a],
            attribute_spec_names(t2)[b],
        ) by {
            assert(attribute_spec_names(t)[a + 1] == attribute_spec_names(t2)[a]);
            assert(attribute_spec_names(t)[b + 1] == attribute_spec_names(t2)[b]);
        }
        assert forall|x: SpecAttributeSpec| s2.contains(x) implies t2.contains(x) by {
            let k = choose|k: int| 0 <= k < s2.len() && s2[k] == x;
            assert(s[k + 1] == x);
            assert(s.contains(x));
            let m = choose|m: int| 0 <= m < t.len() && t[m] == x;
            if m == 0 {
                assert(name_less(attribute_spec_names(s)[0], attribute_spec_names(s)[k + 1]));
                lemma_name_less_irreflexive(s[0].name);
            }
            assert(t2[m - 1] == x);
        }
        assert forall|x: SpecAttributeSpec| t2.contains(x) implies s2.contains(x) by {
            let k = choose|k: int| 0 <= k < t2.len() && t2[k] == x;
            assert(t[k + 1] == x);
            assert(t.contains(x));
            let m = choose|m: int| 0 <= m < s.len() && s[m] == x;
            if m == 0 {
                assert(name_less(attribute_spec_names(t)[0], attribute_spec_names(t)[k + 1]));
                lemma_name_less_irreflexive(t[0].name);
            }
            assert(s2[m - 1] == x);
        }
        lemma_sorted_attribute_specs_equal(s2, t2);
        assert forall|k: int| 0 <= k < s.len() implies s[k] == t[k] by {
            if k > 0 {
                assert(s[k] == s2[k - 1]);
                assert(t[k] == t2[k - 1]);
            }
        }
        assert(s =~= t);
    }
}

/// A spec's attribute list does not depend on the order its attribute specs
/// were given in: two lists given the same attribute specs, in any order,
/// are arranged the same.
pub proof fn lemma_attribute_specs_by_name_ignores_order(
    a1: Seq<SpecAttributeSpec>,
    b1: Seq<SpecAttributeSpec>,
    a2: Seq<SpecAttributeSpec>,
    b2: Seq<SpecAttributeSpec>,
)
    requires
        attribute_specs_by_name(a1, b1),
        attribute_specs_by_name(a2, b2),
        forall|x: SpecAttributeSpec| b1.contains(x) <==> b2.contains(x),
    ensures
        a1 == a2,
{
    assert forall|x: SpecAttributeSpec| a1.contains(x) <==> a2.contains(x) by {
        if a1.contains(x) {
            let k = choose|k: int| 0 <= k < a1.len() && a1[k] == x;
            assert(b1.contains(a1[k]));
            assert(b2.contains(x));
            let i = choose|i: int| 0 <= i < b2.len() && b2[i] == x;
            assert(a2.contains(b2[i]));
        }
        if a2.contains(x) {
            let k = choose|k: int| 0 <= k < a2.len() && a2[k] == x;
            assert(b2.contains(a2[k]));
            assert(b1.contains(x));
            let i = choose|i: int| 0 <= i < b1.len() && b1[i] == x;
            assert(a1.contains(b1[i]));
        }
    }
    lemma_sorted_attribute_specs_equal(a1, a2);
}

/// A native element and the attributes it accepts; no two attributes share a name.
#[derive(Debug, PartialEq, Eq)]
pub struct NativeElementSpec {
    name: NativeElementName,
    attributes: Vec<AttributeSpec>,
}

/// A component and the attributes it accepts; no two attributes share a name.
#[derive(Debug, PartialEq, Eq)]
pub struct ComponentSpec {
    name: ComponentName,
    attributes: Vec<AttributeSpec>,
}

/// The model of an element or component spec.
pub struct SpecElementSpec {
    pub name: Seq<char>,
    pub attributes: Seq<SpecAttributeSpec>,
}

impl View for NativeElementSpec {
    type V = SpecElementSpec;

    closed spec fn view(&self) -> SpecElementSpec {
        SpecElementSpec { name: self.name@, attributes: attribute_specs_view(self.attributes@) }
    }
}

impl View for ComponentSpec {
    type V = SpecElementSpec;

    closed spec fn view(&self) -> SpecElementSpec {
        SpecElementSpec { name: self.name@, attributes: attribute_specs_view(self.attributes@) }
    }
}

impl NativeElementSpec {
    #[verifier::type_invariant]
    spec fn wf(self) -> bool {
        &&& distinct_names(attribute_spec_names(attribute_specs_view(self.attributes@)))
        &&& names_sorted(attribute_spec_names(attribute_specs_view(self.attributes@)))
    }

    /// Checks the name, then that no two attribute specs share a name; the
    /// attribute specs are kept ordered by name, whatever order they came in.
    pub fn try_new(name: &str, attributes: Vec<AttributeSpec>) -> (r: Result<Self, RegistryError>)
        ensures
            !is_native_element_name(name@) ==> (r matches Err(e) && e@ == SpecRegistryError::Name(
                SpecNameError::InvalidNativeElementName { name: name@ },
            )),
            is_native_element_name(name@) ==> match first_duplicate(
                attribute_spec_names(attribute_specs_view(attributes@)),
            ) {
                Some(j) => r matches Err(e) && e@ == (SpecRegistryError::DuplicateAttributeSpec {
                    name: attribute_specs_view(attributes@)[j].name,
                }),
                None => r matches Ok(s) && s@.name == name@ && attribute_specs_by_name(
                    s@.attributes,
                    attribute_specs_view(attributes@),
                ),
            },
    {
        let name = match NativeElementName::try_new(name) {
            Ok(n) => n,
            Err(e) => {
                return Err(RegistryError::Name(e));
            },
        };
        match check_attribute_specs(&attributes) {
            Ok(names) => {
                let ghost given = attribute_specs_view(attributes@);
                proof {
                    lemma_no_duplicate_distinct(attribute_spec_names(given));
                    assert forall|a: int, b: int| 0 <= a < b < names@.len() implies names@[a]@
                        != names@[b]@ by {
                        assert(strings_view(names@)[a] == names@[a]@);
                        assert(strings_view(names@)[b] == names@[b]@);
                    }
                }
                let (arranged, Ghost(order)) = sort_by_names(attributes, names);
                proof {
                    assert forall|k: int| 0 <= k < order.len() implies given[order[k]].name
                        == names@[order[k]]@ by {
                        assert(strings_view(names@)[order[k]] == names@[order[k]]@);
                    }
                    lemma_attribute_specs_by_name(attribute_specs_view(arranged@), given, order);
                }
                Ok(Self { name, attributes: arranged })
            },
            Err(e) => Err(e),
        }
    }

    pub fn name(&self) -> (r: &NativeElementName)
        ensures
            r@ == self@.name,
    {
        &self.name
    }

    /// The attribute specs, ordered by name.
    pub fn attributes(&self) -> (r: &[AttributeSpec])
        ensures
            attribute_specs_view(r@) == self@.attributes,
            distinct_names(attribute_spec_names(self@.attributes)),
            names_sorted(attribute_spec_names(self@.attributes)),
    {
        proof {
            use_type_invariant(self);
        }
        self.attributes.as_slice()
    }
}

impl ComponentSpec {
    #[verifier::type_invariant]
    spec fn wf(self) -> bool {
        &&& distinct_names(attribute_spec_names(attribute_specs_view(self.attributes@)))
        &&& names_sorted(attribute_spec_names(attribute_specs_view(self.attributes@)))
    }

    /// Checks the name, then that no two attribute specs share a name; the
    /// attribute specs are kept ordered by name, whatever order they came in.
    pub fn try_new(name: &str, attributes: Vec<AttributeSpec>) -> (r: Result<Self, RegistryError>)
        ensures
            !is_component_name(name@) ==> (r matches Err(e) && e@ == SpecRegistryError::Name(
                SpecNameError::InvalidComponentName { name: name@ },
            )),
            is_component_name(name@) ==> match first_duplicate(
                attribute_spec_names(attribute_specs_view(attributes@)),
            ) {
                Some(j) => r matches Err(e) && e@ == (SpecRegistryError::DuplicateAttributeSpec {
                    name: attribute_specs_view(attributes@)[j].name,
                }),
                None => r matches Ok(s) && s@.name == name@ && attribute_specs_by_name(
                    s@.attributes,
                    attribute_specs_view(attributes@),
                ),
            },
    {
        let name = match ComponentName::try_new(name) {
            Ok(n) => n,
            Err(e) => {
                return Err(RegistryError::Name(e));
            },
        };
        match check_attribute_specs(&attributes) {
            Ok(names) => {
                let ghost given = attribute_specs_view(attributes@);
                proof {
                    lemma_no_duplicate_distinct(attribute_spec_names(given));
                    assert forall|a: int, b: int| 0 <= a < b < names@.len() implies names@[a]@
                        != names@[b]@ by {
                        assert(strings_view(names@)[a] == names@[a]@);
                        assert(strings_view(names@)[b] == names@[b]@);
                    }
                }
                let (arranged, Ghost(order)) = sort_by_names(attributes, names);
                proof {
                    assert forall|k: int| 0 <= k < order.len() implies given[order[k]].name
                        == names@[order[k]]@ by {
                        assert(strings_view(names@)[order[k]] == names@[order[k]]@);
                    }
                    lemma_attribute_specs_by_name(attribute_specs_view(arranged@), given, order);
                }
                Ok(Self { name, attributes: arranged })
            },
            Err(e) => Err(e),
        }
    }

    pub fn name(&self) -> (r: &ComponentName)
        ensures
            r@ == self@.name,
    {
        &self.name
    }

    /// The attribute specs, ordered by name.
    pub fn attributes(&self) -> (r: &[AttributeSpec])
        ensures
            attribute_specs_view(r@) == self@.attributes,
            distinct_names(attribute_spec_names(self@.attributes)),
            names_sorted(attribute_spec_names(self@.attributes)),
    {
        proof {
            use_type_invariant(self);
        }
        self.attributes.as_slice()
    }
}

pub open spec fn element_spec_names(s: Seq<SpecElementSpec>) -> Seq<Seq<char>> {
    s.map_values(|e: SpecElementSpec| e.name)
}

/// The first spec named `name`.
pub open spec fn find_element(specs: Seq<SpecElementSpec>, name: Seq<char>) -> Option<
    SpecElementSpec,
>
    decreases specs.len(),
{
    if specs.len() == 0 {
        None
    } else if specs[0].name == name {
        Some(specs[0])
    } else {
        find_element(specs.drop_first(), name)
    }
}

/// `a` holds the specs of `b`, each once, ordered by name.
pub open spec fn specs_by_name(a: Seq<SpecElementSpec>, b: Seq<SpecElementSpec>) -> bool {
    &&& a.len() == b.len()
    &&& forall|i: int| 0 <= i < b.len() ==> a.contains(b[i])
    &&& forall|k: int| 0 <= k < a.len() ==> b.contains(a[k])
    &&& names_sorted(element_spec_names(a))
}

proof fn lemma_specs_by_name(a: Seq<SpecElementSpec>, b: Seq<SpecElementSpec>, order: Seq<int>)
    requires
        a.len() == b.len() == order.len(),
        forall|k: int| 0 <= k < a.len() ==> 0 <= #[trigger] order[k] < b.len() && a[k] == b[order[k]],
        forall|i: int| 0 <= i < b.len() ==> order.contains(i),
        forall|k1: int, k2: int|
            0 <= k1 < k2 < a.len() ==> name_less(b[order[k1]].name, b[order[k2]].name),
    ensures
        specs_by_name(a, b),
        distinct_names(element_spec_names(a)),
{
    assert forall|i: int| 0 <= i < b.len() implies a.contains(b[i]) by {
        assert(order.contains(i));
        let k = choose|k: int| 0 <= k < order.len() && order[k] == i;
        assert(a[k] == b[i]);
    }
    assert forall|k: int| 0 <= k < a.len() implies b.contains(a[k]) by {
        assert(b[order[k]] == a[k]);
    }
    let names = element_spec_names(a);
    assert forall|k1: int, k2: int| 0 <= k1 < k2 < names.len() implies name_less(
        names[k1],
        names[k2],
    ) by {
        assert(a[k1] == b[order[k1]]);
        assert(a[k2] == b[order[k2]]);
    }
    lemma_sorted_distinct(names);
}

proof fn lemma_sorted_specs_equal(s: Seq<SpecElementSpec>, t: Seq<SpecElementSpec>)
    requires
        names_sorted(element_spec_names(s)),
        names_sorted(element_spec_names(t)),
        forall|x: SpecElementSpec| s.contains(x) <==> t.contains(x),
    ensures
        s == t,
    decreases s.len(),
{
    if s.len() == 0 {
        if t.len() > 0 {
            assert(t.contains(t[0]));
        }
        assert(s =~= t);
    } else {
        assert(s.contains(s[0]));
        let i = choose|i: int| 0 <= i < t.len() && t[i] == s[0];
        assert(t.contains(t[0]));
        let j = choose|j: int| 0 <= j < s.len() && s[j] == t[0];
        if i > 0 && j > 0 {
            assert(name_less(element_spec_names(t)[0], element_spec_names(t)[i]));
            assert(name_less(element_spec_names(s)[0], element_spec_names(s)[j]));
            lemma_name_less_transitive(s[0].name, t[0].name, s[0].name);
            lemma_name_less_irreflexive(s[0].name);
        }
        assert(s[0] == t[0]);
        let s2 = s.drop_first();
        let t2 = t.drop_first();
        assert forall|a: int, b: int| 0 <= a < b < element_spec_names(s2).len() implies name_less(
            element_spec_names(s2)[a],
            element_spec_names(s2)[b],
        ) by {
            assert(element_spec_names(s)[a + 1] == element_spec_names(s2)[a]);
            assert(element_spec_names(s)[b + 1] == element_spec_names(s2)[b]);
        }
        assert forall|a: int, b: int| 0 <= a < b < element_spec_names(t2).len() implies name_less(
            element_spec_names(t2)[a],
            element_spec_names(t2)[b],
        ) by {
            assert(element_spec_names(t)[a + 1] == element_spec_names(t2)[a]);
            assert(element_spec_names(t)[b + 1] == element_spec_names(t2)[b]);
        }
        assert forall|x: SpecElementSpec| s2.contains(x) implies t2.contains(x) by {
            let k = choose|k: int| 0 <= k < s2.len() && s2[k] == x;
            assert(s[k + 1] == x);
            assert(s.contains(x));
            let m = choose|m: int| 0 <= m < t.len() && t[m] == x;
            if m == 0 {
                assert(name_less(element_spec_names(s)[0], element_spec_names(s)[k + 1]));
                lemma_name_less_irreflexive(s[0].name);
            }
            assert(t2[m - 1] == x);
        }
        assert forall|x: SpecElementSpec| t2.contains(x) implies s2.contains(x) by {
            let k = choose|k: int| 0 <= k < t2.len() && t2[k] == x;
            assert(t[k + 1] == x);
            assert(t.contains(x));
            let m = choose|m: int| 0 <= m < s.len() && s[m] == x;
            if m == 0 {
                assert(name_less(element_spec_names(t)[0], element_spec_names(t)[k + 1]));
                lemma_name_less_irreflexive(t[0].name);
            }
            assert(s2[m - 1] == x);
        }
        lemma_sorted_specs_equal(s2, t2);
        assert forall|k: int| 0 <= k < s.len() implies s[k] == t[k] by {
            if k > 0 {
                assert(s[k] == s2[k - 1]);
                assert(t[k] == t2[k - 1]);
            }
        }
        assert(s =~= t);
    }
}

/// A registry does not depend on the order its specs were given in: two
/// registries given the same specs, in any order, hold the same sequence.
pub proof fn lemma_specs_by_name_ignores_order(
    a1: Seq<SpecElementSpec>,
    b1: Seq<SpecElementSpec>,
    a2: Seq<SpecElementSpec>,
    b2: Seq<SpecElementSpec>,
)
    requires
        specs_by_name(a1, b1),
        specs_by_name(a2, b2),
        forall|x: SpecElementSpec| b1.contains(x) <==> b2.contains(x),
    ensures
        a1 == a2,
{
    assert forall|x: SpecElementSpec| a1.contains(x) <==> a2.contains(x) by {
        if a1.contains(x) {
            let k = choose|k: int| 0 <= k < a1.len() && a1[k] == x;
            assert(b1.contains(a1[k]));
            assert(b2.contains(x));
            let i = choose|i: int| 0 <= i < b2.len() && b2[i] == x;
            assert(a2.contains(b2[i]));
        }
        if a2.contains(x) {
            let k = choose|k: int| 0 <= k < a2.len() && a2[k] == x;
            assert(b2.contains(a2[k]));
            assert(b1.contains(x));
            let i = choose|i: int| 0 <= i < b1.len() && b1[i] == x;
            assert(a1.contains(b1[i]));
        }
    }
    lemma_sorted_specs_equal(a1, a2);
}

/// The native elements a template may use; no two share a name.
#[derive(Debug, PartialEq, Eq)]
pub struct NativeElementRegistry {
    specs: Vec<NativeElementSpec>,
}

/// The components a template may use; no two share a name.
#[derive(Debug, PartialEq, Eq)]
pub struct ComponentRegistry {
    specs: Vec<ComponentSpec>,
}

pub open spec fn native_specs_view(s: Seq<NativeElementSpec>) -> Seq<SpecElementSpec> {
    s.map_values(|e: NativeElementSpec| e@)
}

pub open spec fn component_specs_view(s: Seq<ComponentSpec>) -> Seq<SpecElementSpec> {
    s.map_values(|e: ComponentSpec| e@)
}

impl View for NativeElementRegistry {
    type V = Seq<SpecElementSpec>;

    closed spec fn view(&self) -> Seq<SpecElementSpec> {
        native_specs_view(self.specs@)
    }
}

impl View for ComponentRegistry {
    type V = Seq<SpecElementSpec>;

    closed spec fn view(&self) -> Seq<SpecElementSpec> {
        component_specs_view(self.specs@)
    }
}

impl NativeElementRegistry {
    #[verifier::type_invariant]
    spec fn wf(self) -> bool {
        &&& distinct_names(element_spec_names(native_specs_view(self.specs@)))
        &&& names_sorted(element_spec_names(native_specs_view(self.specs@)))
    }

    /// Builds a registry; the first spec whose name repeats an earlier one is
    /// refused. The specs are kept ordered by name, whatever order they came in.
    pub fn try_from_specs(specs: Vec<NativeElementSpec>) -> (r: Result<Self, RegistryError>)
        ensures
            match first_duplicate(element_spec_names(native_specs_view(specs@))) {
                Some(j) => r matches Err(e) && e@ == (SpecRegistryError::DuplicateNativeElement {
                    name: native_specs_view(specs@)[j].name,
                }),
                None => r matches Ok(reg) && specs_by_name(reg@, native_specs_view(specs@)),
            },
    {
        let mut names: Vec<String> = Vec::new();
        let mut i: usize = 0;
        while i < specs.len()
            invariant
                i <= specs@.len(),
                strings_view(names@) == element_spec_names(native_specs_view(specs@)).take(
                    i as int,
                ),
            decreases specs.len() - i,
        {
            let name = specs[i].name().as_str().to_owned();
            let ghost all = element_spec_names(native_specs_view(specs@));
            assert(all[i as int] == name@);
            names.push(name);
            assert(all.take(i + 1) =~= all.take(i as int).push(all[i as int]));
            assert(strings_view(names@) =~= all.take(i + 1));
            i = i + 1;
        }
        assert(strings_view(names@) =~= element_spec_names(native_specs_view(specs@)));
        match first_duplicate_name(&names) {
            Some(j) => {
                assert(strings_view(names@)[j as int] == names@[j as int]@);
                Err(RegistryError::DuplicateNativeElement { name: names[j].clone() })
            },
            None => {
                let ghost given = native_specs_view(specs@);
                proof {
                    lemma_no_duplicate_distinct(element_spec_names(given));
                    assert forall|a: int, b: int| 0 <= a < b < names@.len() implies names@[a]@
                        != names@[b]@ by {
                        assert(strings_view(names@)[a] == names@[a]@);
                        assert(strings_view(names@)[b] == names@[b]@);
                    }
                }
                let (arranged, Ghost(order)) = sort_by_names(specs, names);
                proof {
                    assert forall|k: int| 0 <= k < order.len() implies given[order[k]].name
                        == names@[order[k]]@ by {
                        assert(strings_view(names@)[order[k]] == names@[order[k]]@);
                    }
                    lemma_specs_by_name(native_specs_view(arranged@), given, order);
                }
                Ok(Self { specs: arranged })
            },
        }
    }

    /// The spec of the element named `name`, if it is registered.
    pub fn spec(&self, name: &NativeElementName) -> (r: Option<&NativeElementSpec>)
        ensures
            match find_element(self@, name@) {
                Some(s) => r matches Some(x) && x@ == s,
                None => r is None,
            },
    {
        let ghost all = self@;
        assert(all.subrange(0, all.len() as int) =~= all);
        let mut i: usize = 0;
        while i < self.specs.len()
            invariant
                i <= self.specs@.len(),
                all == native_specs_view(self.specs@),
                find_element(all, name@) == find_element(
                    all.subrange(i as int, all.len() as int),
                    name@,
                ),
            decreases self.specs.len() - i,
        {
            let ghost rest = all.subrange(i as int, all.len() as int);
            assert(rest[0] == self.specs@[i as int]@);
            assert(rest.drop_first() =~= all.subrange(i + 1, all.len() as int));
            if crate::text::str_eq(self.specs[i].name().as_str(), name.as_str()) {
                return Some(&self.specs[i]);
            }
            i = i + 1;
        }
        None
    }
}

impl Default for NativeElementRegistry {
    fn default() -> (r: Self)
        ensures
            r@ == Seq::<SpecElementSpec>::empty(),
    {
        let r = Self { specs: Vec::new() };
        assert(r@ =~= Seq::<SpecElementSpec>::empty());
        r
    }
}

impl ComponentRegistry {
    #[verifier::type_invariant]
    spec fn wf(self) -> bool {
        &&& distinct_names(element_spec_names(component_specs_view(self.specs@)))
        &&& names_sorted(element_spec_names(component_specs_view(self.specs@)))
    }

    /// Builds a registry; the first spec whose name repeats an earlier one is
    /// refused. The specs are kept ordered by name, whatever order they came in.
    pub fn try_from_specs(specs: Vec<ComponentSpec>) -> (r: Result<Self, RegistryError>)
        ensures
            match first_duplicate(element_spec_names(component_specs_view(specs@))) {
                Some(j) => r matches Err(e) && e@ == (SpecRegistryError::DuplicateComponent {
                    name: component_specs_view(specs@)[j].name,
                }),
                None => r matches Ok(reg) && specs_by_name(reg@, component_specs_view(specs@)),
            },
    {
        let mut names: Vec<String> = Vec::new();
        let mut i: usize = 0;
        while i < specs.len()
            invariant
                i <= specs@.len(),
                strings_view(names@) == element_spec_names(component_specs_view(specs@)).take(
                    i as int,
                ),
            decreases specs.len() - i,
        {
            let name = specs[i].name().as_str().to_owned();
            let ghost all = element_spec_names(component_specs_view(specs@));
            assert(all[i as int] == name@);
            names.push(name);
            assert(all.take(i + 1) =~= all.take(i as int).push(all[i as int]));
            assert(strings_view(names@) =~= all.take(i + 1));
            i = i + 1;
        }
        assert(strings_view(names@) =~= element_spec_names(component_specs_view(specs@)));
        match first_duplicate_name(&names) {
            Some(j) => {
                assert(strings_view(names@)[j as int] == names@[j as int]@);
                Err(RegistryError::DuplicateComponent { name: names[j].clone() })
            },
            None => {
                let ghost given = component_specs_view(specs@);
                proof {
                    lemma_no_duplicate_distinct(element_spec_names(given));
                    assert forall|a: int, b: int| 0 <= a < b < names@.len() implies names@[a]@
                        != names@[b]@ by {
                        assert(strings_view(names@)[a] == names@[a]@);
                        assert(strings_view(names@)[b] == names@[b]@);
                    }
                }
                let (arranged, Ghost(order)) = sort_by_names(specs, names);
                proof {
                    assert forall|k: int| 0 <= k < order.len() implies given[order[k]].name
                        == names@[order[k]]@ by {
                        assert(strings_view(names@)[order[k]] == names@[order[k]]@);
                    }
                    lemma_specs_by_name(component_specs_view(arranged@), given, order);
                }
                Ok(Self { specs: arranged })
            },
        }
    }

    /// The spec of the component named `name`, if it is registered.
    pub fn spec(&self, name: &ComponentName) -> (r: Option<&ComponentSpec>)
        ensures
            match find_element(self@, name@) {
                Some(s) => r matches Some(x) && x@ == s,
                None => r is None,
            },
    {
        let ghost all = self@;
        assert(all.subrange(0, all.len() as int) =~= all);
        let mut i: usize = 0;
        while i < self.specs.len()
            invariant
                i <= self.specs@.len(),
                all == component_specs_view(self.specs@),
                find_element(all, name@) == find_element(
                    all.subrange(i as int, all.len() as int),
                    name@,
                ),
            decreases self.specs.len() - i,
        {
            let ghost rest = all.subrange(i as int, all.len() as int);
            assert(rest[0] == self.specs@[i as int]@);
            assert(rest.drop_first() =~= all.subrange(i + 1, all.len() as int));
            if crate::text::str_eq(self.specs[i].name().as_str(), name.as_str()) {
                return Some(&self.specs[i]);
            }
            i = i + 1;
        }
        None
    }
}

impl Default for ComponentRegistry {
    fn default() -> (r: Self)
        ensures
            r@ == Seq::<SpecElementSpec>::empty(),
    {
        let r = Self { specs: Vec::new() };
        assert(r@ =~= Seq::<SpecElementSpec>::empty());
        r
    }
}


impl Clone for AttributeSpec {
    fn clone(&self) -> (r: Self)
        ensures
            r@ == self@,
    {
        Self { name: self.name.clone(), rule: self.rule }
    }
}

fn clone_attribute_specs(v: &Vec<AttributeSpec>) -> (r: Vec<AttributeSpec>)
    ensures
        attribute_specs_view(r@) == attribute_specs_view(v@),
{
    let mut r: Vec<AttributeSpec> = Vec::new();
    let mut i: usize = 0;
    while i < v.len()
        invariant
            i <= v@.len(),
            r@.len() == i,
            forall|k: int| 0 <= k < i ==> #[trigger] r@[k]@ == v@[k]@,
        decreases v.len() - i,
    {
        r.push(v[i].clone());
        i = i + 1;
    }
    assert(attribute_specs_view(r@) =~= attribute_specs_view(v@));
    r
}

impl Clone for NativeElementSpec {
    fn clone(&self) -> (r: Self)
        ensures
            r@ == self@,
    {
        proof {
            use_type_invariant(self);
        }
        Self { name: self.name.clone(), attributes: clone_attribute_specs(&self.attributes) }
    }
}

impl Clone for ComponentSpec {
    fn clone(&self) -> (r: Self)
        ensures
            r@ == self@,
    {
        proof {
            use_type_invariant(self);
        }
        Self { name: self.name.clone(), attributes: clone_attribute_specs(&self.attributes) }
    }
}

impl Clone for NativeElementRegistry {
    fn clone(&self) -> (r: Self)
        ensures
            r@ == self@,
    {
        proof {
            use_type_invariant(self);
        }
        let mut specs: Vec<NativeElementSpec> = Vec::new();
        let mut i: usize = 0;
        while i < self.specs.len()
            invariant
                i <= self.specs@.len(),
                specs@.len() == i,
                forall|k: int| 0 <= k < i ==> #[trigger] specs@[k]@ == self.specs@[k]@,
            decreases self.specs.len() - i,
        {
            specs.push(self.specs[i].clone());
            i = i + 1;
        }
        assert(native_specs_view(specs@) =~= native_specs_view(self.specs@));
        assert(element_spec_names(native_specs_view(specs@)) =~= element_spec_names(
            native_specs_view(self.specs@),
        ));
        Self { specs }
    }
}

impl Clone for ComponentRegistry {
    fn clone(&self) -> (r: Self)
        ensures
            r@ == self@,
    {
        proof {
            use_type_invariant(self);
        }
        let mut specs: Vec<ComponentSpec> = Vec::new();
        let mut i: usize = 0;
        while i < self.specs.len()
            invariant
                i <= self.specs@.len(),
                specs@.len() == i,
                forall|k: int| 0 <= k < i ==> #[trigger] specs@[k]@ == self.specs@[k]@,
            decreases self.specs.len() - i,
        {
            specs.push(self.specs[i].clone());
            i = i + 1;
        }
        assert(component_specs_view(specs@) =~= component_specs_view(self.specs@));
        assert(element_spec_names(component_specs_view(specs@)) =~= element_spec_names(
            component_specs_view(self.specs@),
        ));
        Self { specs }
    }
}


// ---------------------------------------------------------------------------
// Validation
// ---------------------------------------------------------------------------
/// The kind of an authored attribute value.
pub open spec fn authored_kind(v: SpecAttrValue) -> AttributeKind {
    match v {
        SpecAttrValue::Bool => AttributeKind::Bool,
        SpecAttrValue::Static(_) => AttributeKind::Static,
        SpecAttrValue::Expression(_) => AttributeKind::Expression,
        SpecAttrValue::Interpolated(_) => AttributeKind::Interpolated,
    }
}

pub open spec fn attribute_names(s: Seq<SpecAttribute>) -> Seq<Seq<char>> {
    s.map_values(|a: SpecAttribute| a.name)
}

/// The first attribute from `i` on that the rules of `element` do not name,
/// or whose value is of a kind its rule does not accept.
pub open spec fn attributes_error(
    element: Seq<char>,
    attrs: Seq<SpecAttribute>,
    rules: Seq<SpecAttributeSpec>,
    i: int,
) -> Option<SpecValidationError>
    decreases attrs.len() - i,
{
    if !(0 <= i < attrs.len()) {
        None
    } else {
        match find_rule(rules, attrs[i].name) {
            None => Some(
                SpecValidationError {
                    kind: SpecValidationErrorKind::InvalidAttribute {
                        element,
                        attribute: attrs[i].name,
                    },
                    span: attrs[i].span,
                },
            ),
            Some(rule) => if rule.contains(authored_kind(attrs[i].value)) {
                attributes_error(element, attrs, rules, i + 1)
            } else {
                Some(
                    SpecValidationError {
                        kind: SpecValidationErrorKind::InvalidAttributeValue {
                            element,
                            attribute: attrs[i].name,
                        },
                        span: attrs[i].span,
                    },
                )
            },
        }
    }
}

/// What is wrong with an element itself, checked in this order: a repeated
/// attribute, an element the registries do not hold, an attribute its spec
/// refuses.
pub open spec fn element_error(
    e: SpecElement,
    native: Seq<SpecElementSpec>,
    components: Seq<SpecElementSpec>,
) -> Option<SpecValidationError> {
    match first_duplicate(attribute_names(e.attributes)) {
        Some(j) => Some(
            SpecValidationError {
                kind: SpecValidationErrorKind::DuplicateAttribute { name: e.attributes[j].name },
                span: e.attributes[j].span,
            },
        ),
        None => {
            let found = match e.name {
                SpecElementName::Native(n) => find_element(native, n),
                SpecElementName::Component(n) => find_element(components, n),
            };
            match found {
                None => Some(
                    SpecValidationError {
                        kind: match e.name {
                            SpecElementName::Native(n) =>
                                SpecValidationErrorKind::UnknownNativeElement { name: n },
                            SpecElementName::Component(n) =>
                                SpecValidationErrorKind::UnknownComponent { name: n },
                        },
                        span: e.span,
                    },
                ),
                Some(spec) => attributes_error(e.name.text(), e.attributes, spec.attributes, 0),
            }
        },
    }
}

/// The first validation error of a node, in document order: an element is
/// checked before its children.
pub open spec fn node_error(
    n: SpecNode,
    native: Seq<SpecElementSpec>,
    components: Seq<SpecElementSpec>,
) -> Option<SpecValidationError>
    decreases n,
{
    match n {
        SpecNode::Element(e) => match element_error(e, native, components) {
            Some(x) => Some(x),
            None => nodes_error(e.children, native, components),
        },
        SpecNode::Text(_) => None,
        SpecNode::Interpolation(_) => None,
        SpecNode::If(i) => match branches_error(i.branches, native, components) {
            Some(x) => Some(x),
            None => nodes_error(i.else_children, native, components),
        },
        SpecNode::ForEach(f) => match nodes_error(f.children, native, components) {
            Some(x) => Some(x),
            None => nodes_error(f.else_children, native, components),
        },
    }
}

/// The first validation error among `s`, in order.
pub open spec fn nodes_error(
    s: Seq<SpecNode>,
    native: Seq<SpecElementSpec>,
    components: Seq<SpecElementSpec>,
) -> Option<SpecValidationError>
    decreases s,
{
    if s.len() == 0 {
        None
    } else {
        match node_error(s[0], native, components) {
            Some(x) => Some(x),
            None => nodes_error(s.drop_first(), native, components),
        }
    }
}

/// The first validation error among the branches `s`, in order.
pub open spec fn branches_error(
    s: Seq<SpecBranch>,
    native: Seq<SpecElementSpec>,
    components: Seq<SpecElementSpec>,
) -> Option<SpecValidationError>
    decreases s,
{
    if s.len() == 0 {
        None
    } else {
        match nodes_error(s[0].children, native, components) {
            Some(x) => Some(x),
            None => branches_error(s.drop_first(), native, components),
        }
    }
}

// ---------------------------------------------------------------------------
// Validity element by element
// ---------------------------------------------------------------------------
/// The elements of a node's subtree, in document order: an element comes
/// before its children, and the inside of `{if}` and `{foreach}` is searched.
pub open spec fn subtree_elements(n: SpecNode) -> Seq<SpecElement>
    decreases n,
{
    match n {
        SpecNode::Element(e) => seq![e] + nodes_elements(e.children),
        SpecNode::Text(_) => Seq::empty(),
        SpecNode::Interpolation(_) => Seq::empty(),
        SpecNode::If(i) => branches_elements(i.branches) + nodes_elements(i.else_children),
        SpecNode::ForEach(f) => nodes_elements(f.children) + nodes_elements(f.else_children),
    }
}

/// The elements of the subtrees of `s`, in order.
pub open spec fn nodes_elements(s: Seq<SpecNode>) -> Seq<SpecElement>
    decreases s,
{
    if s.len() == 0 {
        Seq::empty()
    } else {
        subtree_elements(s[0]) + nodes_elements(s.drop_first())
    }
}

/// The elements inside the branches `s`, in order.
pub open spec fn branches_elements(s: Seq<SpecBranch>) -> Seq<SpecElement>
    decreases s,
{
    if s.len() == 0 {
        Seq::empty()
    } else {
        nodes_elements(s[0].children) + branches_elements(s.drop_first())
    }
}

/// The spec registered for an element's name, in the registry of its kind.
pub open spec fn element_spec_of(
    e: SpecElement,
    native: Seq<SpecElementSpec>,
    components: Seq<SpecElementSpec>,
) -> Option<SpecElementSpec> {
    match e.name {
        SpecElementName::Native(n) => find_element(native, n),
        SpecElementName::Component(n) => find_element(components, n),
    }
}

/// An attribute the rules accept: a rule names it, and that rule accepts the
/// kind of its value.
pub open spec fn attribute_accepted(rules: Seq<SpecAttributeSpec>, a: SpecAttribute) -> bool {
    match find_rule(rules, a.name) {
        Some(rule) => rule.contains(authored_kind(a.value)),
        None => false,
    }
}

/// An element the registries accept: no two of its attributes share a
/// name, its name is registered in the registry of its kind, and that spec
/// accepts each of its attributes.
pub open spec fn element_valid(
    e: SpecElement,
    native: Seq<SpecElementSpec>,
    components: Seq<SpecElementSpec>,
) -> bool {
    &&& distinct_names(attribute_names(e.attributes))
    &&& element_spec_of(e, native, components) is Some
    &&& forall|i: int|
        0 <= i < e.attributes.len() ==> attribute_accepted(
            element_spec_of(e, native, components).unwrap().attributes,
            #[trigger] e.attributes[i],
        )
}

/// Every element of `s` is valid.
pub open spec fn elements_valid(
    s: Seq<SpecElement>,
    native: Seq<SpecElementSpec>,
    components: Seq<SpecElementSpec>,
) -> bool {
    forall|k: int| 0 <= k < s.len() ==> element_valid(#[trigger] s[k], native, components)
}

proof fn lemma_distinct_no_duplicate(names: Seq<Seq<char>>, j: int)
    requires
        0 <= j,
        distinct_names(names),
    ensures
        duplicate_from(names, j) is None,
    decreases names.len() - j,
{
    if j < names.len() {
        if names.take(j).contains(names[j]) {
            let a = choose|a: int| 0 <= a < j && names.take(j)[a] == names[j];
            assert(names[a] == names[j]);
        }
        lemma_distinct_no_duplicate(names, j + 1);
    }
}

proof fn lemma_attributes_error_none(
    element: Seq<char>,
    attrs: Seq<SpecAttribute>,
    rules: Seq<SpecAttributeSpec>,
    i: int,
)
    requires
        0 <= i,
    ensures
        attributes_error(element, attrs, rules, i) is None <==> forall|k: int|
            i <= k < attrs.len() ==> attribute_accepted(rules, #[trigger] attrs[k]),
    decreases attrs.len() - i,
{
    if i < attrs.len() {
        lemma_attributes_error_none(element, attrs, rules, i + 1);
    }
}

proof fn lemma_element_error_none(
    e: SpecElement,
    native: Seq<SpecElementSpec>,
    components: Seq<SpecElementSpec>,
)
    ensures
        element_error(e, native, components) is None <==> element_valid(e, native, components),
{
    let names = attribute_names(e.attributes);
    if distinct_names(names) {
        lemma_distinct_no_duplicate(names, 0);
        if let Some(spec) = element_spec_of(e, native, components) {
            lemma_attributes_error_none(e.name.text(), e.attributes, spec.attributes, 0);
        }
    } else if first_duplicate(names) is None {
        lemma_no_duplicate_distinct(names);
    }
}

proof fn lemma_elements_valid_concat(
    a: Seq<SpecElement>,
    b: Seq<SpecElement>,
    native: Seq<SpecElementSpec>,
    components: Seq<SpecElementSpec>,
)
    ensures
        elements_valid(a + b, native, components) <==> elements_valid(a, native, components)
            && elements_valid(b, native, components),
{
    if elements_valid(a + b, native, components) {
        assert forall|k: int| 0 <= k < a.len() implies element_valid(
            #[trigger] a[k],
            native,
            components,
        ) by {
            assert((a + b)[k] == a[k]);
        }
        assert forall|k: int| 0 <= k < b.len() implies element_valid(
            #[trigger] b[k],
            native,
            components,
        ) by {
            assert((a + b)[a.len() + k] == b[k]);
        }
    }
}

/// Each authored value is of the attribute kind of the same name; in
/// particular an attribute written without a value is of kind `Bool`.
pub proof fn lemma_authored_kinds(text: Seq<char>, e: SpecExpr, parts: Seq<SpecAttrPart>)
    ensures
        authored_kind(SpecAttrValue::Bool) == AttributeKind::Bool,
        authored_kind(SpecAttrValue::Static(text)) == AttributeKind::Static,
        authored_kind(SpecAttrValue::Expression(e)) == AttributeKind::Expression,
        authored_kind(SpecAttrValue::Interpolated(parts)) == AttributeKind::Interpolated,
{
}

/// An element whose attributes are all written without a value passes its
/// own checks when no two of them share a name, its name is registered,
/// and its spec has for each of them a rule that accepts `Bool` (such as
/// `AttributeRule::one(AttributeKind::Bool)`).
pub proof fn lemma_valueless_attributes_pass(
    e: SpecElement,
    native: Seq<SpecElementSpec>,
    components: Seq<SpecElementSpec>,
)
    requires
        distinct_names(attribute_names(e.attributes)),
        element_spec_of(e, native, components) is Some,
        forall|i: int|
            0 <= i < e.attributes.len() ==> {
                &&& (#[trigger] e.attributes[i]).value == SpecAttrValue::Bool
                &&& find_rule(
                    element_spec_of(e, native, components).unwrap().attributes,
                    e.attributes[i].name,
                ) matches Some(rule)
                &&& rule.contains(AttributeKind::Bool)
            },
    ensures
        element_error(e, native, components) is None,
        element_valid(e, native, components),
{
    lemma_element_error_none(e, native, components);
}

/// A node passes validation exactly when every element of its subtree is
/// valid: its attribute names are pairwise different, its name is
/// registered in the registry of its kind, and that spec has, for each of
/// its attributes, a rule that accepts the kind of the attribute's value.
pub proof fn lemma_node_valid_iff_elements_valid(
    n: SpecNode,
    native: Seq<SpecElementSpec>,
    components: Seq<SpecElementSpec>,
)
    ensures
        node_error(n, native, components) is None <==> elements_valid(
            subtree_elements(n),
            native,
            components,
        ),
    decreases n,
{
    match n {
        SpecNode::Element(e) => {
            lemma_element_error_none(e, native, components);
            lemma_nodes_valid_iff_elements_valid(e.children, native, components);
            lemma_elements_valid_concat(seq![e], nodes_elements(e.children), native, components);
            assert(seq![e][0] == e);
        },
        SpecNode::Text(_) => {},
        SpecNode::Interpolation(_) => {},
        SpecNode::If(i) => {
            lemma_branches_valid_iff_elements_valid(i.branches, native, components);
            lemma_nodes_valid_iff_elements_valid(i.else_children, native, components);
            lemma_elements_valid_concat(
                branches_elements(i.branches),
                nodes_elements(i.else_children),
                native,
                components,
            );
        },
        SpecNode::ForEach(f) => {
            lemma_nodes_valid_iff_elements_valid(f.children, native, components);
            lemma_nodes_valid_iff_elements_valid(f.else_children, native, components);
            lemma_elements_valid_concat(
                nodes_elements(f.children),
                nodes_elements(f.else_children),
                native,
                components,
            );
        },
    }
}

/// A sequence of nodes passes validation exactly when every element of
/// their subtrees is valid.
pub proof fn lemma_nodes_valid_iff_elements_valid(
    s: Seq<SpecNode>,
    native: Seq<SpecElementSpec>,
    components: Seq<SpecElementSpec>,
)
    ensures
        nodes_error(s, native, components) is None <==> elements_valid(
            nodes_elements(s),
            native,
            components,
        ),
    decreases s,
{
    if s.len() > 0 {
        lemma_node_valid_iff_elements_valid(s[0], native, components);
        lemma_nodes_valid_iff_elements_valid(s.drop_first(), native, components);
        lemma_elements_valid_concat(
            subtree_elements(s[0]),
            nodes_elements(s.drop_first()),
            native,
            components,
        );
    }
}

/// The branches of an `{if}` pass validation exactly when every element
/// inside them is valid.
pub proof fn lemma_branches_valid_iff_elements_valid(
    s: Seq<SpecBranch>,
    native: Seq<SpecElementSpec>,
    components: Seq<SpecElementSpec>,
)
    ensures
        branches_error(s, native, components) is None <==> elements_valid(
            branches_elements(s),
            native,
            components,
        ),
    decreases s,
{
    if s.len() > 0 {
        lemma_nodes_valid_iff_elements_valid(s[0].children, native, components);
        lemma_branches_valid_iff_elements_valid(s.drop_first(), native, components);
        lemma_elements_valid_concat(
            nodes_elements(s[0].children),
            branches_elements(s.drop_first()),
            native,
            components,
        );
    }
}

fn reject_duplicate_authored_attributes(attributes: &[Attribute]) -> (r: Result<(), ValidationError>)
    ensures
        match first_duplicate(attribute_names(attributes_view(attributes@))) {
            Some(j) => r matches Err(e) && e@ == (SpecValidationError {
                kind: SpecValidationErrorKind::DuplicateAttribute {
                    name: attributes_view(attributes@)[j].name,
                },
                span: attributes_view(attributes@)[j].span,
            }),
            None => r is Ok,
        },
{
    let ghost all = attribute_names(attributes_view(attributes@));
    let mut names: Vec<String> = Vec::new();
    let mut i: usize = 0;
    while i < attributes.len()
        invariant
            i <= attributes@.len(),
            all == attribute_names(attributes_view(attributes@)),
            strings_view(names@) == all.take(i as int),
        decreases attributes.len() - i,
    {
        let name = attributes[i].name().to_owned();
        assert(all[i as int] == name@);
        names.push(name);
        assert(all.take(i + 1) =~= all.take(i as int).push(all[i as int]));
        assert(strings_view(names@) =~= all.take(i + 1));
        i = i + 1;
    }
    assert(strings_view(names@) =~= all);
    match first_duplicate_name(&names) {
        Some(j) => {
            let attribute = &attributes[j];
            Err(
                ValidationError::new(
                    ValidationErrorKind::DuplicateAttribute { name: attribute.name().to_owned() },
                    attribute.span(),
                ),
            )
        },
        None => Ok(()),
    }
}

fn authored_attr_kind(value: &AttrValue) -> (r: AttributeKind)
    ensures
        r == authored_kind(value@),
{
    match value {
        AttrValue::Bool => AttributeKind::Bool,
        AttrValue::Static(_) => AttributeKind::Static,
        AttrValue::Expression(_) => AttributeKind::Expression,
        AttrValue::Interpolated(_) => AttributeKind::Interpolated,
    }
}

fn validate_authored_attributes(element: &str, attributes: &[Attribute], rules: &[AttributeSpec]) -> (r:
    Result<(), ValidationError>)
    ensures
        match attributes_error(
            element@,
            attributes_view(attributes@),
            attribute_specs_view(rules@),
            0,
        ) {
            Some(x) => r matches Err(e) && e@ == x,
            None => r is Ok,
        },
{
    let ghost attrs = attributes_view(attributes@);
    let ghost specs = attribute_specs_view(rules@);
    let mut i: usize = 0;
    while i < attributes.len()
        invariant
            i <= attributes@.len(),
            attrs == attributes_view(attributes@),
            specs == attribute_specs_view(rules@),
            attributes_error(element@, attrs, specs, 0) == attributes_error(
                element@,
                attrs,
                specs,
                i as int,
            ),
        decreases attributes.len() - i,
    {
        let attribute = &attributes[i];
        assert(attrs[i as int] == attribute@);
        match find_rule_in(rules, attribute.name()) {
            None => {
                return Err(
                    ValidationError::new(
                        ValidationErrorKind::InvalidAttribute {
                            element: element.to_owned(),
                            attribute: attribute.name().to_owned(),
                        },
                        attribute.span(),
                    ),
                );
            },
            Some(rule) => {
                if !rule.accepts(authored_attr_kind(attribute.value())) {
                    return Err(
                        ValidationError::new(
                            ValidationErrorKind::InvalidAttributeValue {
                                element: element.to_owned(),
                                attribute: attribute.name().to_owned(),
                            },
                            attribute.span(),
                        ),
                    );
                }
            },
        }
        i = i + 1;
    }
    Ok(())
}

fn validate_attr_value(value: &AttrValue) -> (r: ValidatedAttrValue)
    ensures
        r@ == value@,
{
    match value {
        AttrValue::Bool => ValidatedAttrValue::Bool,
        AttrValue::Static(value) => ValidatedAttrValue::Static(value.clone()),
        AttrValue::Expression(expr) => ValidatedAttrValue::Expression(copy_expr(expr)),
        AttrValue::Interpolated(parts) => {
            let mut out: Vec<ValidatedAttrPart> = Vec::new();
            let mut i: usize = 0;
            while i < parts.len()
                invariant
                    i <= parts@.len(),
                    out@.len() == i,
                    forall|k: int| 0 <= k < i ==> #[trigger] out@[k]@ == parts@[k]@,
                decreases parts.len() - i,
            {
                let part = match &parts[i] {
                    AttrPart::Text(text) => ValidatedAttrPart::Text(text.clone()),
                    AttrPart::Expr(expr) => ValidatedAttrPart::Expr(copy_expr(expr)),
                };
                out.push(part);
                i = i + 1;
            }
            assert(vparts_view(out@) =~= parts_view(parts@));
            ValidatedAttrValue::Interpolated(out)
        },
    }
}

fn validate_attributes(attributes: &[Attribute]) -> (r: Vec<ValidatedAttribute>)
    ensures
        vattributes_view(r@) == attributes_view(attributes@),
{
    let mut out: Vec<ValidatedAttribute> = Vec::new();
    let mut i: usize = 0;
    while i < attributes.len()
        invariant
            i <= attributes@.len(),
            out@.len() == i,
            forall|k: int| 0 <= k < i ==> #[trigger] out@[k]@ == attributes@[k]@,
        decreases attributes.len() - i,
    {
        let attribute = &attributes[i];
        let validated = ValidatedAttribute {
            name: attribute.checked_name().clone(),
            value: validate_attr_value(attribute.value()),
            span: attribute.span(),
        };
        out.push(validated);
        i = i + 1;
    }
    assert(vattributes_view(out@) =~= attributes_view(attributes@));
    out
}

fn validate_children(
    children: &[Node],
    native_registry: &NativeElementRegistry,
    component_registry: &ComponentRegistry,
) -> (r: Result<Vec<ValidatedNode>, ValidationError>)
    ensures
        match nodes_error(nodes_view(children@), native_registry@, component_registry@) {
            Some(x) => r matches Err(e) && e@ == x,
            None => r matches Ok(v) && vnodes_view(v@) == nodes_view(children@),
        },
    decreases nodes_view(children@), 1nat,
{
    let ghost all = nodes_view(children@);
    proof {
        lemma_nodes_view(children@);
    }
    assert(all.subrange(0, all.len() as int) =~= all);
    let mut validated: Vec<ValidatedNode> = Vec::new();
    let mut i: usize = 0;
    while i < children.len()
        invariant
            i <= children@.len() == all.len(),
            all == nodes_view(children@),
            forall|k: int| 0 <= k < children@.len() ==> #[trigger] all[k] == children@[k]@,
            nodes_error(all, native_registry@, component_registry@) == nodes_error(
                all.subrange(i as int, all.len() as int),
                native_registry@,
                component_registry@,
            ),
            vnodes_view(validated@) == all.take(i as int),
        decreases children.len() - i,
    {
        let ghost rest = all.subrange(i as int, all.len() as int);
        assert(rest[0] == children@[i as int]@);
        assert(rest.drop_first() =~= all.subrange(i + 1, all.len() as int));
        let node = validate_node(&children[i], native_registry, component_registry)?;
        proof {
            lemma_vnodes_view_push(validated@, node);
        }
        validated.push(node);
        assert(all.take(i + 1) =~= all.take(i as int).push(all[i as int]));
        i = i + 1;
    }
    assert(all.take(all.len() as int) =~= all);
    Ok(validated)
}

/// Validates one node and its subtree: it fails with the first error in
/// document order; on success the validated node has exactly the model of
/// the node.
pub fn validate_node(
    node: &Node,
    native_registry: &NativeElementRegistry,
    component_registry: &ComponentRegistry,
) -> (r: Result<ValidatedNode, ValidationError>)
    ensures
        match node_error(node@, native_registry@, component_registry@) {
            Some(x) => r matches Err(e) && e@ == x,
            None => r matches Ok(v) && v@ == node@,
        },
    decreases node@, 0nat,
{
    proof {
        node.lemma_view();
    }
    match node {
        Node::Element(element) => {
            reject_duplicate_authored_attributes(element.attributes())?;
            match element.name() {
                ElementName::Native(name) => {
                    let spec = match native_registry.spec(name) {
                        Some(spec) => spec,
                        None => {
                            return Err(
                                ValidationError::new(
                                    ValidationErrorKind::UnknownNativeElement {
                                        name: name.as_str().to_owned(),
                                    },
                                    element.span(),
                                ),
                            );
                        },
                    };
                    validate_authored_attributes(
                        name.as_str(),
                        element.attributes(),
                        spec.attributes(),
                    )?;
                    let children = validate_children(
                        element.children(),
                        native_registry,
                        component_registry,
                    )?;
                    let v = ValidatedElement {
                        name: name.clone(),
                        attributes: validate_attributes(element.attributes()),
                        children,
                        span: element.span(),
                    };
                    Ok(ValidatedNode::NativeElement(v))
                },
                ElementName::Component(name) => {
                    let spec = match component_registry.spec(name) {
                        Some(spec) => spec,
                        None => {
                            return Err(
                                ValidationError::new(
                                    ValidationErrorKind::UnknownComponent {
                                        name: name.as_str().to_owned(),
                                    },
                                    element.span(),
                                ),
                            );
                        },
                    };
                    validate_authored_attributes(
                        name.as_str(),
                        element.attributes(),
                        spec.attributes(),
                    )?;
                    let children = validate_children(
                        element.children(),
                        native_registry,
                        component_registry,
                    )?;
                    let v = ValidatedElement {
                        name: name.clone(),
                        attributes: validate_attributes(element.attributes()),
                        children,
                        span: element.span(),
                    };
                    Ok(ValidatedNode::ComponentElement(v))
                },
            }
        },
        Node::Text(text) => Ok(
            ValidatedNode::Text(ValidatedText { value: text.value().to_owned(), span: text.span() }),
        ),
        Node::Interpolation(interpolation) => Ok(
            ValidatedNode::Interpolation(
                ValidatedInterpolation {
                    expr: copy_expr(interpolation.expr()),
                    span: interpolation.span(),
                },
            ),
        ),
        Node::If(if_node) => {
            let source_branches = if_node.branches();
            let ghost all = branches_view(source_branches@);
            proof {
                lemma_branches_view(source_branches@);
            }
            assert(all.subrange(0, all.len() as int) =~= all);
            let mut branches: Vec<ValidatedIfBranch> = Vec::new();
            let mut i: usize = 0;
            while i < source_branches.len()
                invariant
                    i <= source_branches@.len() == all.len(),
                    node@ == SpecNode::If(if_node@),
                    all == if_node@.branches,
                    all == branches_view(source_branches@),
                    forall|k: int|
                        0 <= k < source_branches@.len() ==> #[trigger] all[k]
                            == source_branches@[k]@,
                    branches_error(all, native_registry@, component_registry@) == branches_error(
                        all.subrange(i as int, all.len() as int),
                        native_registry@,
                        component_registry@,
                    ),
                    vbranches_view(branches@) == all.take(i as int),
                decreases source_branches.len() - i,
            {
                let ghost rest = all.subrange(i as int, all.len() as int);
                assert(rest[0] == source_branches@[i as int]@);
                assert(rest.drop_first() =~= all.subrange(i + 1, all.len() as int));
                let branch = &source_branches[i];
                let children = validate_children(
                    branch.children(),
                    native_registry,
                    component_registry,
                )?;
                let vb = ValidatedIfBranch {
                    condition: copy_expr(branch.condition()),
                    children,
                };
                proof {
                    lemma_vbranches_view_push(branches@, vb);
                }
                branches.push(vb);
                assert(all.take(i + 1) =~= all.take(i as int).push(all[i as int]));
                i = i + 1;
            }
            assert(all.take(all.len() as int) =~= all);
            let else_children = validate_children(
                if_node.else_children(),
                native_registry,
                component_registry,
            )?;
            Ok(
                ValidatedNode::If(
                    ValidatedIf { branches, else_children, span: if_node.span() },
                ),
            )
        },
        Node::ForEach(for_each) => {
            let children = validate_children(
                for_each.children(),
                native_registry,
                component_registry,
            )?;
            let else_children = validate_children(
                for_each.else_children(),
                native_registry,
                component_registry,
            )?;
            Ok(
                ValidatedNode::ForEach(
                    ValidatedForEach {
                        collection: copy_expr(for_each.collection()),
                        item_name: for_each.item_name().clone(),
                        children,
                        else_children,
                        span: for_each.span(),
                    },
                ),
            )
        },
    }
}

/// Validates a document against the registries. It fails with the first
/// error in document order; on success the validated tree has exactly the
/// model of the document.
pub fn validate_template(
    document: &TemplateDocument,
    native_registry: &NativeElementRegistry,
    component_registry: &ComponentRegistry,
) -> (r: Result<ValidatedTemplate, ValidationError>)
    ensures
        match nodes_error(document@, native_registry@, component_registry@) {
            Some(x) => r matches Err(e) && e@ == x,
            None => r matches Ok(t) && t@ == document@,
        },
{
    let nodes = validate_children(document.nodes(), native_registry, component_registry)?;
    Ok(ValidatedTemplate { nodes })
}

/// A registry finds each spec it holds under that spec's own name.
pub proof fn lemma_registry_finds_its_specs(specs: Seq<SpecElementSpec>, k: int)
    requires
        distinct_names(element_spec_names(specs)),
        0 <= k < specs.len(),
    ensures
        find_element(specs, specs[k].name) == Some(specs[k]),
    decreases k,
{
    if k > 0 {
        let rest = specs.drop_first();
        assert(element_spec_names(specs)[0] != element_spec_names(specs)[k]);
        assert(distinct_names(element_spec_names(rest))) by {
            assert forall|a: int, b: int| 0 <= a < b < element_spec_names(rest).len() implies
                element_spec_names(rest)[a] != element_spec_names(rest)[b] by {
                assert(element_spec_names(rest)[a] == element_spec_names(specs)[a + 1]);
                assert(element_spec_names(rest)[b] == element_spec_names(specs)[b + 1]);
            }
        }
        lemma_registry_finds_its_specs(rest, k - 1);
    }
}

/// A registry finds nothing under a name that none of its specs has.
pub proof fn lemma_registry_finds_only_its_names(specs: Seq<SpecElementSpec>, name: Seq<char>)
    ensures
        find_element(specs, name) is None <==> forall|k: int|
            0 <= k < specs.len() ==> #[trigger] specs[k].name != name,
    decreases specs.len(),
{
    if specs.len() > 0 {
        let rest = specs.drop_first();
        lemma_registry_finds_only_its_names(rest, name);
        if find_element(specs, name) is None {
            assert forall|k: int| 0 <= k < specs.len() implies #[trigger] specs[k].name != name by {
                if k > 0 {
                    assert(specs[k] == rest[k - 1]);
                }
            }
        } else if specs[0].name != name {
            let k = choose|k: int| 0 <= k < rest.len() && #[trigger] rest[k].name == name;
            assert(specs[k + 1] == rest[k]);
        }
    }
}

/// An element spec finds the rule of each attribute it declares, under
/// that attribute's own name.
pub proof fn lemma_spec_finds_its_rules(specs: Seq<SpecAttributeSpec>, k: int)
    requires
        distinct_names(attribute_spec_names(specs)),
        0 <= k < specs.len(),
    ensures
        find_rule(specs, specs[k].name) == Some(specs[k].rule),
    decreases k,
{
    if k > 0 {
        let rest = specs.drop_first();
        assert(attribute_spec_names(specs)[0] != attribute_spec_names(specs)[k]);
        assert(distinct_names(attribute_spec_names(rest))) by {
            assert forall|a: int, b: int| 0 <= a < b < attribute_spec_names(rest).len() implies
                attribute_spec_names(rest)[a] != attribute_spec_names(rest)[b] by {
                assert(attribute_spec_names(rest)[a] == attribute_spec_names(specs)[a + 1]);
                assert(attribute_spec_names(rest)[b] == attribute_spec_names(specs)[b + 1]);
            }
        }
        lemma_spec_finds_its_rules(rest, k - 1);
    }
}

// ---------------------------------------------------------------------------
// Copies of the validated tree
// ---------------------------------------------------------------------------
fn copy_vattr_value(v: &ValidatedAttrValue) -> (r: ValidatedAttrValue)
    ensures
        r@ == v@,
{
    match v {
        ValidatedAttrValue::Bool => ValidatedAttrValue::Bool,
        ValidatedAttrValue::Static(s) => ValidatedAttrValue::Static(s.clone()),
        ValidatedAttrValue::Expression(e) => ValidatedAttrValue::Expression(copy_expr(e)),
        ValidatedAttrValue::Interpolated(parts) => {
            let mut out: Vec<ValidatedAttrPart> = Vec::new();
            let mut i: usize = 0;
            while i < parts.len()
                invariant
                    i <= parts@.len(),
                    out@.len() == i,
                    forall|k: int| 0 <= k < i ==> #[trigger] out@[k]@ == parts@[k]@,
                decreases parts.len() - i,
            {
                let part = match &parts[i] {
                    ValidatedAttrPart::Text(t) => ValidatedAttrPart::Text(t.clone()),
                    ValidatedAttrPart::Expr(e) => ValidatedAttrPart::Expr(copy_expr(e)),
                };
                out.push(part);
                i = i + 1;
            }
            assert(vparts_view(out@) =~= vparts_view(parts@));
            ValidatedAttrValue::Interpolated(out)
        },
    }
}

fn copy_vattributes(attributes: &[ValidatedAttribute]) -> (r: Vec<ValidatedAttribute>)
    ensures
        vattributes_view(r@) == vattributes_view(attributes@),
{
    let mut out: Vec<ValidatedAttribute> = Vec::new();
    let mut i: usize = 0;
    while i < attributes.len()
        invariant
            i <= attributes@.len(),
            out@.len() == i,
            forall|k: int| 0 <= k < i ==> #[trigger] out@[k]@ == attributes@[k]@,
        decreases attributes.len() - i,
    {
        let a = &attributes[i];
        out.push(
            ValidatedAttribute {
                name: a.name.clone(),
                value: copy_vattr_value(&a.value),
                span: a.span,
            },
        );
        i = i + 1;
    }
    assert(vattributes_view(out@) =~= vattributes_view(attributes@));
    out
}

/// A copy of a sequence of validated nodes.
fn copy_vnodes(nodes: &[ValidatedNode]) -> (r: Vec<ValidatedNode>)
    ensures
        vnodes_view(r@) == vnodes_view(nodes@),
    decreases vnodes_view(nodes@), 1nat,
{
    let ghost all = vnodes_view(nodes@);
    proof {
        lemma_vnodes_view(nodes@);
    }
    let mut out: Vec<ValidatedNode> = Vec::new();
    let mut i: usize = 0;
    while i < nodes.len()
        invariant
            i <= nodes@.len() == all.len(),
            all == vnodes_view(nodes@),
            forall|k: int| 0 <= k < nodes@.len() ==> #[trigger] all[k] == nodes@[k]@,
            vnodes_view(out@) == all.take(i as int),
        decreases nodes.len() - i,
    {
        proof {
            assert(decreases_to!(all => all[i as int]));
        }
        let node = copy_vnode(&nodes[i]);
        proof {
            lemma_vnodes_view_push(out@, node);
        }
        out.push(node);
        assert(all.take(i + 1) =~= all.take(i as int).push(all[i as int]));
        i = i + 1;
    }
    assert(all.take(all.len() as int) =~= all);
    out
}

/// A copy of a validated node and its subtree.
fn copy_vnode(node: &ValidatedNode) -> (r: ValidatedNode)
    ensures
        r@ == node@,
    decreases node@, 0nat,
{
    proof {
        node.lemma_view();
    }
    match node {
        ValidatedNode::NativeElement(e) => {
            proof {
                assert(decreases_to!(node@ => node@->Element_0));
                assert(decreases_to!(e@ => e@.children));
            }
            ValidatedNode::NativeElement(
                ValidatedElement {
                    name: e.name().clone(),
                    attributes: copy_vattributes(e.attributes()),
                    children: copy_vnodes(e.children()),
                    span: e.span(),
                },
            )
        },
        ValidatedNode::ComponentElement(e) => {
            proof {
                assert(decreases_to!(node@ => node@->Element_0));
                assert(decreases_to!(e@ => e@.children));
            }
            ValidatedNode::ComponentElement(
                ValidatedElement {
                    name: e.name().clone(),
                    attributes: copy_vattributes(e.attributes()),
                    children: copy_vnodes(e.children()),
                    span: e.span(),
                },
            )
        },
        ValidatedNode::Text(t) => ValidatedNode::Text(
            ValidatedText { value: t.value.clone(), span: t.span },
        ),
        ValidatedNode::Interpolation(i) => ValidatedNode::Interpolation(
            ValidatedInterpolation { expr: copy_expr(&i.expr), span: i.span },
        ),
        ValidatedNode::If(if_node) => {
            let source = if_node.branches();
            let ghost all = vbranches_view(source@);
            proof {
                lemma_vbranches_view(source@);
            }
            let mut branches: Vec<ValidatedIfBranch> = Vec::new();
            let mut i: usize = 0;
            while i < source.len()
                invariant
                    i <= source@.len() == all.len(),
                    node@ == SpecNode::If(if_node@),
                    all == if_node@.branches,
                    forall|k: int| 0 <= k < source@.len() ==> #[trigger] all[k] == source@[k]@,
                    vbranches_view(branches@) == all.take(i as int),
                decreases source.len() - i,
            {
                let branch = &source[i];
                proof {
                    assert(decreases_to!(node@ => node@->If_0));
                    assert(decreases_to!(if_node@ => if_node@.branches));
                    assert(decreases_to!(all => all[i as int]));
                    assert(decreases_to!(all[i as int] => all[i as int].children));
                }
                let b = ValidatedIfBranch {
                    condition: copy_expr(branch.condition()),
                    children: copy_vnodes(branch.children()),
                };
                proof {
                    lemma_vbranches_view_push(branches@, b);
                }
                branches.push(b);
                assert(all.take(i + 1) =~= all.take(i as int).push(all[i as int]));
                i = i + 1;
            }
            assert(all.take(all.len() as int) =~= all);
            proof {
                assert(decreases_to!(node@ => node@->If_0));
                assert(decreases_to!(if_node@ => if_node@.else_children));
            }
            ValidatedNode::If(
                ValidatedIf {
                    branches,
                    else_children: copy_vnodes(if_node.else_children()),
                    span: if_node.span(),
                },
            )
        },
        ValidatedNode::ForEach(f) => {
            proof {
                assert(decreases_to!(node@ => node@->ForEach_0));
                assert(decreases_to!(f@ => f@.children));
                assert(decreases_to!(f@ => f@.else_children));
            }
            ValidatedNode::ForEach(
            ValidatedForEach {
                collection: copy_expr(f.collection()),
                item_name: f.item_name().clone(),
                children: copy_vnodes(f.children()),
                else_children: copy_vnodes(f.else_children()),
                span: f.span(),
            },
        )
        },
    }
}

impl Clone for ValidatedNode {
    fn clone(&self) -> (r: Self)
        ensures
            r@ == self@,
    {
        copy_vnode(self)
    }
}

} // verus!
