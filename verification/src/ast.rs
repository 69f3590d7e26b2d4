//! The authored template tree that parsing produces.
use vstd::prelude::*;

use crate::expr::{copy_expr, Expr, SpecExpr};
use crate::name::{
    is_component_name, is_dash_name, is_identifier, is_native_element_name, AttributeName,
    ComponentName, NameError, NativeElementName, SpecNameError, VariableName,
};
use crate::span::{SourceSpan, SpecSpan};

verus! {

#[derive(Debug, Clone, PartialEq)]
pub struct TemplateDocument {
    nodes: Vec<Node>,
}

#[derive(Debug, PartialEq)]
pub enum Node {
    Element(ElementNode),
    Text(TextNode),
    Interpolation(InterpolationNode),
    If(IfNode),
    ForEach(ForEachNode),
}

#[derive(Debug, Clone, PartialEq)]
pub struct ElementNode {
    name: ElementName,
    attributes: Vec<Attribute>,
    children: Vec<Node>,
    span: SourceSpan,
}

#[derive(Debug, Clone, PartialEq)]
pub struct TextNode {
    value: String,
    span: SourceSpan,
}

#[derive(Debug, Clone, PartialEq)]
pub struct InterpolationNode {
    expr: Expr,
    span: SourceSpan,
}

#[derive(Debug, Clone, PartialEq)]
pub struct IfNode {
    branches: Vec<IfBranch>,
    else_children: Vec<Node>,
    span: SourceSpan,
}

#[derive(Debug, Clone, PartialEq)]
pub struct ForEachNode {
    collection: Expr,
    item_name: VariableName,
    children: Vec<Node>,
    else_children: Vec<Node>,
    span: SourceSpan,
}

#[derive(Debug, Clone, PartialEq, Eq)]
pub enum ElementName {
    Native(NativeElementName),
    Component(ComponentName),
}

#[derive(Debug, Clone, PartialEq)]
pub struct Attribute {
    name: AttributeName,
    value: AttrValue,
    span: SourceSpan,
}

#[derive(Debug, Clone, PartialEq)]
pub enum AttrValue {
    Bool,
    Static(String),
    Expression(Expr),
    Interpolated(Vec<AttrPart>),
}

#[derive(Debug, Clone, PartialEq)]
pub enum AttrPart {
    Text(String),
    Expr(Expr),
}

#[derive(Debug, Clone, PartialEq)]
pub struct IfBranch {
    condition: Expr,
    children: Vec<Node>,
}

// ---------------------------------------------------------------------------
// Models. The validated tree has the same model.
// ---------------------------------------------------------------------------
pub enum SpecNode {
    Element(SpecElement),
    Text(SpecText),
    Interpolation(SpecInterpolation),
    If(SpecIf),
    ForEach(SpecForEach),
}

pub struct SpecElement {
    pub name: SpecElementName,
    pub attributes: Seq<SpecAttribute>,
    pub children: Seq<SpecNode>,
    pub span: SpecSpan,
}

pub struct SpecText {
    pub value: Seq<char>,
    pub span: SpecSpan,
}

pub struct SpecInterpolation {
    pub expr: SpecExpr,
    pub span: SpecSpan,
}

pub struct SpecIf {
    pub branches: Seq<SpecBranch>,
    pub else_children: Seq<SpecNode>,
    pub span: SpecSpan,
}

pub struct SpecForEach {
    pub collection: SpecExpr,
    pub item_name: Seq<char>,
    pub children: Seq<SpecNode>,
    pub else_children: Seq<SpecNode>,
    pub span: SpecSpan,
}

pub struct SpecBranch {
    pub condition: SpecExpr,
    pub children: Seq<SpecNode>,
}

pub enum SpecElementName {
    Native(Seq<char>),
    Component(Seq<char>),
}

pub struct SpecAttribute {
    pub name: Seq<char>,
    pub value: SpecAttrValue,
    pub span: SpecSpan,
}

pub enum SpecAttrValue {
    Bool,
    Static(Seq<char>),
    Expression(SpecExpr),
    Interpolated(Seq<SpecAttrPart>),
}

pub enum SpecAttrPart {
    Text(Seq<char>),
    Expr(SpecExpr),
}

impl SpecElementName {
    /// The text of the name.
    pub open spec fn text(self) -> Seq<char> {
        match self {
            SpecElementName::Native(n) => n,
            SpecElementName::Component(n) => n,
        }
    }
}

impl View for ElementName {
    type V = SpecElementName;

    open spec fn view(&self) -> SpecElementName {
        match self {
            ElementName::Native(n) => SpecElementName::Native(n@),
            ElementName::Component(n) => SpecElementName::Component(n@),
        }
    }
}

impl View for AttrPart {
    type V = SpecAttrPart;

    open spec fn view(&self) -> SpecAttrPart {
        match self {
            AttrPart::Text(t) => SpecAttrPart::Text(t@),
            AttrPart::Expr(e) => SpecAttrPart::Expr(e@),
        }
    }
}

pub open spec fn parts_view(s: Seq<AttrPart>) -> Seq<SpecAttrPart> {
    s.map_values(|p: AttrPart| p@)
}

impl View for AttrValue {
    type V = SpecAttrValue;

    open spec fn view(&self) -> SpecAttrValue {
        match self {
            AttrValue::Bool => SpecAttrValue::Bool,
            AttrValue::Static(s) => SpecAttrValue::Static(s@),
            AttrValue::Expression(e) => SpecAttrValue::Expression(e@),
            AttrValue::Interpolated(parts) => SpecAttrValue::Interpolated(parts_view(parts@)),
        }
    }
}

impl View for Attribute {
    type V = SpecAttribute;

    closed spec fn view(&self) -> SpecAttribute {
        SpecAttribute { name: self.name@, value: self.value@, span: self.span@ }
    }
}

pub open spec fn attributes_view(s: Seq<Attribute>) -> Seq<SpecAttribute> {
    s.map_values(|a: Attribute| a@)
}

pub closed spec fn node_view(n: Node) -> SpecNode
    decreases n,
{
    match n {
        Node::Element(e) => SpecNode::Element(element_view(e)),
        Node::Text(t) => SpecNode::Text(SpecText { value: t.value@, span: t.span@ }),
        Node::Interpolation(i) => SpecNode::Interpolation(
            SpecInterpolation { expr: i.expr@, span: i.span@ },
        ),
        Node::If(i) => SpecNode::If(if_view(i)),
        Node::ForEach(f) => SpecNode::ForEach(for_each_view(f)),
    }
}

pub closed spec fn element_view(e: ElementNode) -> SpecElement
    decreases e,
{
    SpecElement {
        name: e.name@,
        attributes: attributes_view(e.attributes@),
        children: nodes_view(e.children@),
        span: e.span@,
    }
}

pub closed spec fn if_view(i: IfNode) -> SpecIf
    decreases i,
{
    SpecIf {
        branches: branches_view(i.branches@),
        else_children: nodes_view(i.else_children@),
        span: i.span@,
    }
}

pub closed spec fn for_each_view(f: ForEachNode) -> SpecForEach
    decreases f,
{
    SpecForEach {
        collection: f.collection@,
        item_name: f.item_name@,
        children: nodes_view(f.children@),
        else_children: nodes_view(f.else_children@),
        span: f.span@,
    }
}

pub closed spec fn branch_view(b: IfBranch) -> SpecBranch
    decreases b,
{
    SpecBranch { condition: b.condition@, children: nodes_view(b.children@) }
}

/// The models of a sequence of nodes.
pub closed spec fn nodes_view(s: Seq<Node>) -> Seq<SpecNode>
    decreases s,
{
    if s.len() == 0 {
        Seq::empty()
    } else {
        nodes_view(s.drop_last()).push(node_view(s.last()))
    }
}

/// The models of a sequence of branches.
pub closed spec fn branches_view(s: Seq<IfBranch>) -> Seq<SpecBranch>
    decreases s,
{
    if s.len() == 0 {
        Seq::empty()
    } else {
        branches_view(s.drop_last()).push(branch_view(s.last()))
    }
}

impl View for Node {
    type V = SpecNode;

    closed spec fn view(&self) -> SpecNode {
        node_view(*self)
    }
}

impl View for ElementNode {
    type V = SpecElement;

    closed spec fn view(&self) -> SpecElement {
        element_view(*self)
    }
}

impl View for TextNode {
    type V = SpecText;

    closed spec fn view(&self) -> SpecText {
        SpecText { value: self.value@, span: self.span@ }
    }
}

impl View for InterpolationNode {
    type V = SpecInterpolation;

    closed spec fn view(&self) -> SpecInterpolation {
        SpecInterpolation { expr: self.expr@, span: self.span@ }
    }
}

impl View for IfNode {
    type V = SpecIf;

    closed spec fn view(&self) -> SpecIf {
        if_view(*self)
    }
}

impl View for ForEachNode {
    type V = SpecForEach;

    closed spec fn view(&self) -> SpecForEach {
        for_each_view(*self)
    }
}

impl View for IfBranch {
    type V = SpecBranch;

    closed spec fn view(&self) -> SpecBranch {
        branch_view(*self)
    }
}

impl View for TemplateDocument {
    type V = Seq<SpecNode>;

    closed spec fn view(&self) -> Seq<SpecNode> {
        nodes_view(self.nodes@)
    }
}

/// `nodes_view` maps each node to its model.
pub broadcast proof fn lemma_nodes_view(s: Seq<Node>)
    ensures
        #[trigger] nodes_view(s).len() == s.len(),
        forall|i: int| 0 <= i < s.len() ==> #[trigger] nodes_view(s)[i] == s[i]@,
    decreases s.len(),
{
    if s.len() > 0 {
        lemma_nodes_view(s.drop_last());
    }
}

/// `branches_view` maps each branch to its model.
pub broadcast proof fn lemma_branches_view(s: Seq<IfBranch>)
    ensures
        #[trigger] branches_view(s).len() == s.len(),
        forall|i: int| 0 <= i < s.len() ==> #[trigger] branches_view(s)[i] == s[i]@,
    decreases s.len(),
{
    if s.len() > 0 {
        lemma_branches_view(s.drop_last());
    }
}

/// Appending a node appends its model.
pub proof fn lemma_nodes_view_push(s: Seq<Node>, n: Node)
    ensures
        nodes_view(s.push(n)) == nodes_view(s).push(n@),
{
    assert(s.push(n).drop_last() =~= s);
}

/// Appending a branch appends its model.
pub proof fn lemma_branches_view_push(s: Seq<IfBranch>, b: IfBranch)
    ensures
        branches_view(s.push(b)) == branches_view(s).push(b@),
{
    assert(s.push(b).drop_last() =~= s);
}

pub proof fn lemma_nodes_view_empty()
    ensures
        nodes_view(Seq::<Node>::empty()) == Seq::<SpecNode>::empty(),
{
}

pub proof fn lemma_branches_view_empty()
    ensures
        branches_view(Seq::<IfBranch>::empty()) == Seq::<SpecBranch>::empty(),
{
}

// ---------------------------------------------------------------------------
// Construction and access
// ---------------------------------------------------------------------------
impl TemplateDocument {
    pub fn from_nodes(nodes: Vec<Node>) -> (r: Self)
        ensures
            r@ == nodes_view(nodes@),
    {
        Self { nodes }
    }

    pub fn nodes(&self) -> (r: &[Node])
        ensures
            nodes_view(r@) == self@,
    {
        self.nodes.as_slice()
    }
}

impl Node {
    pub fn element(
        name: ElementName,
        attributes: Vec<Attribute>,
        children: Vec<Node>,
        span: SourceSpan,
    ) -> (r: Self)
        ensures
            r@ == SpecNode::Element(
                SpecElement {
                    name: name@,
                    attributes: attributes_view(attributes@),
                    children: nodes_view(children@),
                    span: span@,
                },
            ),
    {
        Self::Element(ElementNode { name, attributes, children, span })
    }

    pub fn text(value: &str, span: SourceSpan) -> (r: Self)
        ensures
            r@ == SpecNode::Text(SpecText { value: value@, span: span@ }),
    {
        Self::Text(TextNode { value: value.to_owned(), span })
    }

    pub fn interpolation(expr: Expr, span: SourceSpan) -> (r: Self)
        ensures
            r@ == SpecNode::Interpolation(SpecInterpolation { expr: expr@, span: span@ }),
    {
        Self::Interpolation(InterpolationNode { expr, span })
    }

    pub fn if_block(branches: Vec<IfBranch>, else_children: Vec<Node>, span: SourceSpan) -> (r:
        Self)
        ensures
            r@ == SpecNode::If(
                SpecIf {
                    branches: branches_view(branches@),
                    else_children: nodes_view(else_children@),
                    span: span@,
                },
            ),
    {
        Self::If(IfNode { branches, else_children, span })
    }

    pub fn foreach(
        collection: Expr,
        item_name: VariableName,
        children: Vec<Node>,
        else_children: Vec<Node>,
        span: SourceSpan,
    ) -> (r: Self)
        ensures
            r@ == SpecNode::ForEach(
                SpecForEach {
                    collection: collection@,
                    item_name: item_name@,
                    children: nodes_view(children@),
                    else_children: nodes_view(else_children@),
                    span: span@,
                },
            ),
    {
        Self::ForEach(ForEachNode { collection, item_name, children, else_children, span })
    }

    /// The model of a node is the model of what it holds.
    pub proof fn lemma_view(&self)
        ensures
            match *self {
                Node::Element(e) => self@ == SpecNode::Element(e@),
                Node::Text(t) => self@ == SpecNode::Text(t@),
                Node::Interpolation(i) => self@ == SpecNode::Interpolation(i@),
                Node::If(i) => self@ == SpecNode::If(i@),
                Node::ForEach(f) => self@ == SpecNode::ForEach(f@),
            },
    {
    }
}

impl ElementNode {
    pub fn name(&self) -> (r: &ElementName)
        ensures
            r@ == self@.name,
    {
        &self.name
    }

    pub fn attributes(&self) -> (r: &[Attribute])
        ensures
            attributes_view(r@) == self@.attributes,
    {
        self.attributes.as_slice()
    }

    pub fn children(&self) -> (r: &[Node])
        ensures
            nodes_view(r@) == self@.children,
    {
        self.children.as_slice()
    }

    pub fn span(&self) -> (r: SourceSpan)
        ensures
            r@ == self@.span,
    {
        self.span
    }
}

impl TextNode {
    pub fn value(&self) -> (r: &str)
        ensures
            r@ == self@.value,
    {
        self.value.as_str()
    }

    pub fn span(&self) -> (r: SourceSpan)
        ensures
            r@ == self@.span,
    {
        self.span
    }
}

impl InterpolationNode {
    pub fn expr(&self) -> (r: &Expr)
        ensures
            r@ == self@.expr,
    {
        &self.expr
    }

    pub fn span(&self) -> (r: SourceSpan)
        ensures
            r@ == self@.span,
    {
        self.span
    }
}

impl IfNode {
    pub fn branches(&self) -> (r: &[IfBranch])
        ensures
            branches_view(r@) == self@.branches,
    {
        self.branches.as_slice()
    }

    pub fn else_children(&self) -> (r: &[Node])
        ensures
            nodes_view(r@) == self@.else_children,
    {
        self.else_children.as_slice()
    }

    pub fn span(&self) -> (r: SourceSpan)
        ensures
            r@ == self@.span,
    {
        self.span
    }
}

impl ForEachNode {
    pub fn collection(&self) -> (r: &Expr)
        ensures
            r@ == self@.collection,
    {
        &self.collection
    }

    pub fn item_name(&self) -> (r: &VariableName)
        ensures
            r@ == self@.item_name,
    {
        &self.item_name
    }

    pub fn children(&self) -> (r: &[Node])
        ensures
            nodes_view(r@) == self@.children,
    {
        self.children.as_slice()
    }

    pub fn else_children(&self) -> (r: &[Node])
        ensures
            nodes_view(r@) == self@.else_children,
    {
        self.else_children.as_slice()
    }

    pub fn span(&self) -> (r: SourceSpan)
        ensures
            r@ == self@.span,
    {
        self.span
    }
}

impl ElementName {
    pub fn native(name: &str) -> (r: Result<Self, NameError>)
        ensures
            is_native_element_name(name@) <==> r is Ok,
            r matches Ok(n) ==> n@ == SpecElementName::Native(name@),
            r matches Err(e) ==> e@ == (SpecNameError::InvalidNativeElementName { name: name@ }),
    {
        match NativeElementName::try_new(name) {
            Ok(n) => Ok(Self::Native(n)),
            Err(e) => Err(e),
        }
    }

    pub fn component(name: &str) -> (r: Result<Self, NameError>)
        ensures
            is_component_name(name@) <==> r is Ok,
            r matches Ok(n) ==> n@ == SpecElementName::Component(name@),
            r matches Err(e) ==> e@ == (SpecNameError::InvalidComponentName { name: name@ }),
    {
        match ComponentName::try_new(name) {
            Ok(n) => Ok(Self::Component(n)),
            Err(e) => Err(e),
        }
    }

    pub fn as_str(&self) -> (r: &str)
        ensures
            r@ == self@.text(),
    {
        match self {
            Self::Native(name) => name.as_str(),
            Self::Component(name) => name.as_str(),
        }
    }
}

impl Attribute {
    pub fn try_new(name: &str, value: AttrValue, span: SourceSpan) -> (r: Result<Self, NameError>)
        ensures
            is_dash_name(name@) <==> r is Ok,
            r matches Ok(a) ==> a@ == (SpecAttribute { name: name@, value: value@, span: span@ }),
            r matches Err(e) ==> e@ == (SpecNameError::InvalidAttributeName { name: name@ }),
    {
        match AttributeName::try_new(name) {
            Ok(name) => Ok(Self { name, value, span }),
            Err(e) => Err(e),
        }
    }

    pub fn name(&self) -> (r: &str)
        ensures
            r@ == self@.name,
            is_dash_name(self@.name),
    {
        self.name.as_str()
    }

    /// The checked name of the attribute.
    pub fn checked_name(&self) -> (r: &AttributeName)
        ensures
            r@ == self@.name,
    {
        &self.name
    }

    pub fn value(&self) -> (r: &AttrValue)
        ensures
            r@ == self@.value,
    {
        &self.value
    }

    pub fn span(&self) -> (r: SourceSpan)
        ensures
            r@ == self@.span,
    {
        self.span
    }
}

impl IfBranch {
    pub fn new(condition: Expr, children: Vec<Node>) -> (r: Self)
        ensures
            r@ == (SpecBranch { condition: condition@, children: nodes_view(children@) }),
    {
        Self { condition, children }
    }

    pub fn condition(&self) -> (r: &Expr)
        ensures
            r@ == self@.condition,
    {
        &self.condition
    }

    pub fn children(&self) -> (r: &[Node])
        ensures
            nodes_view(r@) == self@.children,
    {
        self.children.as_slice()
    }
}


// ---------------------------------------------------------------------------
// Copies
// ---------------------------------------------------------------------------
fn copy_element_name(n: &ElementName) -> (r: ElementName)
    ensures
        r@ == n@,
{
    match n {
        ElementName::Native(x) => ElementName::Native(x.clone()),
        ElementName::Component(x) => ElementName::Component(x.clone()),
    }
}

fn copy_attr_value(v: &AttrValue) -> (r: AttrValue)
    ensures
        r@ == v@,
{
    match v {
        AttrValue::Bool => AttrValue::Bool,
        AttrValue::Static(s) => AttrValue::Static(s.clone()),
        AttrValue::Expression(e) => AttrValue::Expression(copy_expr(e)),
        AttrValue::Interpolated(parts) => {
            let mut out: Vec<AttrPart> = Vec::new();
            let mut i: usize = 0;
            while i < parts.len()
                invariant
                    i <= parts@.len(),
                    out@.len() == i,
                    forall|k: int| 0 <= k < i ==> #[trigger] out@[k]@ == parts@[k]@,
                decreases parts.len() - i,
            {
                let part = match &parts[i] {
                    AttrPart::Text(t) => AttrPart::Text(t.clone()),
                    AttrPart::Expr(e) => AttrPart::Expr(copy_expr(e)),
                };
                out.push(part);
                i = i + 1;
            }
            assert(parts_view(out@) =~= parts_view(parts@));
            AttrValue::Interpolated(out)
        },
    }
}

fn copy_attributes(attributes: &[Attribute]) -> (r: Vec<Attribute>)
    ensures
        attributes_view(r@) == attributes_view(attributes@),
{
    let mut out: Vec<Attribute> = Vec::new();
    let mut i: usize = 0;
    while i < attributes.len()
        invariant
            i <= attributes@.len(),
            out@.len() == i,
            forall|k: int| 0 <= k < i ==> #[trigger] out@[k]@ == attributes@[k]@,
        decreases attributes.len() - i,
    {
        let a = &attributes[i];
        out.push(Attribute { name: a.name.clone(), value: copy_attr_value(&a.value), span: a.span });
        i = i + 1;
    }
    assert(attributes_view(out@) =~= attributes_view(attributes@));
    out
}

/// A copy of a sequence of nodes.
fn copy_nodes(nodes: &[Node]) -> (r: Vec<Node>)
    ensures
        nodes_view(r@) == nodes_view(nodes@),
    decreases nodes_view(nodes@), 1nat,
{
    let ghost all = nodes_view(nodes@);
    proof {
        lemma_nodes_view(nodes@);
    }
    let mut out: Vec<Node> = Vec::new();
    let mut i: usize = 0;
    while i < nodes.len()
        invariant
            i <= nodes@.len() == all.len(),
            all == nodes_view(nodes@),
            forall|k: int| 0 <= k < nodes@.len() ==> #[trigger] all[k] == nodes@[k]@,
            nodes_view(out@) == all.take(i as int),
        decreases nodes.len() - i,
    {
        proof {
            assert(decreases_to!(all => all[i as int]));
        }
        let node = copy_node(&nodes[i]);
        proof {
            lemma_nodes_view_push(out@, node);
        }
        out.push(node);
        assert(all.take(i + 1) =~= all.take(i as int).push(all[i as int]));
        i = i + 1;
    }
    assert(all.take(all.len() as int) =~= all);
    out
}

/// A copy of a node and its subtree.
fn copy_node(node: &Node) -> (r: Node)
    ensures
        r@ == node@,
    decreases node@, 0nat,
{
    proof {
        node.lemma_view();
    }
    match node {
        Node::Element(e) => {
            proof {
                assert(decreases_to!(node@ => node@->Element_0));
                assert(decreases_to!(e@ => e@.children));
            }
            Node::Element(
                ElementNode {
                    name: copy_element_name(e.name()),
                    attributes: copy_attributes(e.attributes()),
                    children: copy_nodes(e.children()),
                    span: e.span(),
                },
            )
        },
        Node::Text(t) => Node::Text(TextNode { value: t.value.clone(), span: t.span }),
        Node::Interpolation(i) => Node::Interpolation(
            InterpolationNode { expr: copy_expr(&i.expr), span: i.span },
        ),
        Node::If(if_node) => {
            let source = if_node.branches();
            let ghost all = branches_view(source@);
            proof {
                lemma_branches_view(source@);
            }
            let mut branches: Vec<IfBranch> = Vec::new();
            let mut i: usize = 0;
            while i < source.len()
                invariant
                    i <= source@.len() == all.len(),
                    node@ == SpecNode::If(if_node@),
                    all == if_node@.branches,
                    forall|k: int| 0 <= k < source@.len() ==> #[trigger] all[k] == source@[k]@,
                    branches_view(branches@) == all.take(i as int),
                decreases source.len() - i,
            {
                let branch = &source[i];
                proof {
                    assert(decreases_to!(node@ => node@->If_0));
                    assert(decreases_to!(if_node@ => if_node@.branches));
                    assert(decreases_to!(all => all[i as int]));
                    assert(decreases_to!(all[i as int] => all[i as int].children));
                }
                let b = IfBranch {
                    condition: copy_expr(branch.condition()),
                    children: copy_nodes(branch.children()),
                };
                proof {
                    lemma_branches_view_push(branches@, b);
                }
                branches.push(b);
                assert(all.take(i + 1) =~= all.take(i as int).push(all[i as int]));
                i = i + 1;
            }
            assert(all.take(all.len() as int) =~= all);
            proof {
                assert(decreases_to!(node@ => node@->If_0));
                assert(decreases_to!(if_node@ => if_node@.else_children));
            }
            Node::If(
                IfNode {
                    branches,
                    else_children: copy_nodes(if_node.else_children()),
                    span: if_node.span(),
                },
            )
        },
        Node::ForEach(f) => {
            proof {
                assert(decreases_to!(node@ => node@->ForEach_0));
                assert(decreases_to!(f@ => f@.children));
                assert(decreases_to!(f@ => f@.else_children));
            }
            Node::ForEach(
            ForEachNode {
                collection: copy_expr(f.collection()),
                item_name: f.item_name().clone(),
                children: copy_nodes(f.children()),
                else_children: copy_nodes(f.else_children()),
                span: f.span(),
            },
        )
        },
    }
}

impl Clone for Node {
    fn clone(&self) -> (r: Self)
        ensures
            r@ == self@,
    {
        copy_node(self)
    }
}

} // verus!
