//! Renders a validated template as Rust source that builds it through the
//! `::surgeist::template` API.
use vstd::prelude::*;

use crate::ast::{SpecAttrPart, SpecAttrValue, SpecAttribute, SpecBranch, SpecElementName, SpecNode};
use crate::expr::{
    segment_wf, segments_view, spec_parse_path, BinaryOp, Expr, Literal, PathSegment, SpecExpr, SpecLiteral, SpecPath,
    SpecSegment, UnaryOp, VariablePath,
};
use crate::name::{ComponentName, NativeElementName};
use crate::readback::{lemma_path_source_reads_back, readable_path};
use crate::text::{chars_of, control, is_control, push_char, push_str};
use crate::validate::{
    lemma_vbranches_view, lemma_vnodes_view, vattributes_view, vbranches_view, vnodes_view,
    vparts_view, ValidatedAttrPart, ValidatedAttrValue, ValidatedAttribute, ValidatedElement,
    ValidatedForEach, ValidatedIf, ValidatedIfBranch, ValidatedNode, ValidatedTemplate,
};

verus! {

// ---------------------------------------------------------------------------
// Numbers
// ---------------------------------------------------------------------------
/// The lower-case hexadecimal digit for `d < 16`.
pub open spec fn hex_digit(d: nat) -> char {
    seq!['0', '1', '2', '3', '4', '5', '6', '7', '8', '9', 'a', 'b', 'c', 'd', 'e', 'f'][d as int]
}

/// Decimal digits of `n`, without leading zeros.
pub open spec fn decimal(n: nat) -> Seq<char>
    decreases n,
{
    if n < 10 {
        seq![hex_digit(n)]
    } else {
        decimal(n / 10).push(hex_digit(n % 10))
    }
}

/// Lower-case hexadecimal digits of `n`, without leading zeros.
pub open spec fn hexadecimal(n: nat) -> Seq<char>
    decreases n,
{
    if n < 16 {
        seq![hex_digit(n)]
    } else {
        hexadecimal(n / 16).push(hex_digit(n % 16))
    }
}

/// The decimal text of an `i64`, with a `-` when negative.
pub open spec fn int_text(i: i64) -> Seq<char> {
    if i < 0 {
        seq!['-'] + decimal((0 - i) as nat)
    } else {
        decimal(i as nat)
    }
}

fn hex_digit_char(d: u64) -> (c: char)
    requires
        d < 16,
    ensures
        c == hex_digit(d as nat),
{
    let digits = ['0', '1', '2', '3', '4', '5', '6', '7', '8', '9', 'a', 'b', 'c', 'd', 'e', 'f'];
    assert(digits@ =~= seq![
        '0',
        '1',
        '2',
        '3',
        '4',
        '5',
        '6',
        '7',
        '8',
        '9',
        'a',
        'b',
        'c',
        'd',
        'e',
        'f',
    ]);
    digits[d as usize]
}

fn push_decimal(out: &mut String, n: u64)
    ensures
        final(out)@ == old(out)@ + decimal(n as nat),
    decreases n,
{
    if n >= 10 {
        push_decimal(out, n / 10);
    }
    let ghost before = out@;
    push_char(out, hex_digit_char(n % 10));
    proof {
        if n >= 10 {
            assert(out@ =~= old(out)@ + decimal(n as nat));
        } else {
            assert(out@ =~= old(out)@ + decimal(n as nat));
        }
    }
}

fn push_hex(out: &mut String, n: u64)
    ensures
        final(out)@ == old(out)@ + hexadecimal(n as nat),
    decreases n,
{
    if n >= 16 {
        push_hex(out, n / 16);
    }
    push_char(out, hex_digit_char(n % 16));
    assert(out@ =~= old(out)@ + hexadecimal(n as nat));
}

fn push_int(out: &mut String, i: i64)
    ensures
        final(out)@ == old(out)@ + int_text(i),
{
    if i < 0 {
        push_char(out, '-');
        let magnitude: u64 = if i == i64::MIN {
            0x8000_0000_0000_0000
        } else {
            (-i) as u64
        };
        let ghost mid = out@;
        push_decimal(out, magnitude);
        assert(out@ =~= old(out)@ + int_text(i));
    } else {
        push_decimal(out, i as u64);
    }
}

// ---------------------------------------------------------------------------
// Strings
// ---------------------------------------------------------------------------
/// How one character is written inside a Rust string literal.
pub open spec fn escaped_char(c: char) -> Seq<char> {
    if c == '\\' {
        seq!['\\', '\\']
    } else if c == '"' {
        seq!['\\', '"']
    } else if c == '\n' {
        seq!['\\', 'n']
    } else if c == '\r' {
        seq!['\\', 'r']
    } else if c == '\t' {
        seq!['\\', 't']
    } else if is_control(c) {
        seq!['\\', 'u', '{'] + hexadecimal(c as u32 as nat) + seq!['}']
    } else {
        seq![c]
    }
}

pub open spec fn escaped(s: Seq<char>) -> Seq<char>
    decreases s.len(),
{
    if s.len() == 0 {
        Seq::empty()
    } else {
        escaped(s.drop_last()) + escaped_char(s.last())
    }
}

/// `s` as a Rust string literal.
pub open spec fn quoted(s: Seq<char>) -> Seq<char> {
    seq!['"'] + escaped(s) + seq!['"']
}

/// Writes `value` as a Rust string literal.
pub fn render_string(value: &str) -> (r: String)
    ensures
        r@ == quoted(value@),
{
    let chars = chars_of(value);
    let mut rendered = String::new();
    push_char(&mut rendered, '"');
    let mut i: usize = 0;
    while i < chars.len()
        invariant
            i <= chars@.len(),
            rendered@ == seq!['"'] + escaped(chars@.take(i as int)),
        decreases chars.len() - i,
    {
        let ch = chars[i];
        let ghost before = rendered@;
        if ch == '\\' {
            push_str(&mut rendered, "\\\\");
        } else if ch == '"' {
            push_str(&mut rendered, "\\\"");
        } else if ch == '\n' {
            push_str(&mut rendered, "\\n");
        } else if ch == '\r' {
            push_str(&mut rendered, "\\r");
        } else if ch == '\t' {
            push_str(&mut rendered, "\\t");
        } else if control(ch) {
            push_str(&mut rendered, "\\u{");
            push_hex(&mut rendered, ch as u32 as u64);
            push_char(&mut rendered, '}');
        } else {
            push_char(&mut rendered, ch);
        }
        proof {
            reveal_strlit("\\\\");
            reveal_strlit("\\\"");
            reveal_strlit("\\n");
            reveal_strlit("\\r");
            reveal_strlit("\\t");
            reveal_strlit("\\u{");
            assert(chars@.take(i + 1).drop_last() =~= chars@.take(i as int));
            assert(rendered@ =~= before + escaped_char(ch));
            assert(rendered@ =~= seq!['"'] + escaped(chars@.take(i + 1)));
        }
        i = i + 1;
    }
    push_char(&mut rendered, '"');
    assert(chars@.take(chars@.len() as int) =~= chars@);
    assert(rendered@ =~= quoted(value@));
    rendered
}

// ---------------------------------------------------------------------------
// Expressions
// ---------------------------------------------------------------------------
pub open spec fn unary_op_text(op: UnaryOp) -> Seq<char> {
    match op {
        UnaryOp::Not => "!"@,
        UnaryOp::Neg => "-"@,
    }
}

pub open spec fn binary_op_text(op: BinaryOp) -> Seq<char> {
    match op {
        BinaryOp::Or => "||"@,
        BinaryOp::And => "&&"@,
        BinaryOp::Eq => "=="@,
        BinaryOp::Ne => "!="@,
        BinaryOp::Gt => ">"@,
        BinaryOp::Ge => ">="@,
        BinaryOp::Lt => "<"@,
        BinaryOp::Le => "<="@,
        BinaryOp::Add => "+"@,
        BinaryOp::Sub => "-"@,
        BinaryOp::Mul => "*"@,
        BinaryOp::Div => "/"@,
        BinaryOp::Rem => "%"@,
    }
}

pub open spec fn literal_text(l: SpecLiteral) -> Seq<char> {
    match l {
        SpecLiteral::String(v) => quoted(v),
        SpecLiteral::Int(i) => int_text(i),
        SpecLiteral::Float(t) => t,
        SpecLiteral::Bool(b) => if b {
            "true"@
        } else {
            "false"@
        },
        SpecLiteral::Null => "null"@,
    }
}

pub open spec fn segment_text(s: SpecSegment) -> Seq<char> {
    match s {
        SpecSegment::Field(f) => seq!['.'] + f,
        SpecSegment::Index(i) => seq!['['] + decimal(i as nat) + seq![']'],
    }
}

pub open spec fn segments_text(s: Seq<SpecSegment>) -> Seq<char>
    decreases s.len(),
{
    if s.len() == 0 {
        Seq::empty()
    } else {
        segments_text(s.drop_last()) + segment_text(s.last())
    }
}

pub open spec fn path_text(p: SpecPath) -> Seq<char> {
    seq!['$'] + p.root + segments_text(p.segments)
}

/// The source text of an expression: every operator application is
/// parenthesised.
pub open spec fn expr_text(e: SpecExpr) -> Seq<char>
    decreases e,
{
    match e {
        SpecExpr::Literal(l) => literal_text(l),
        SpecExpr::Variable(p) => path_text(p),
        SpecExpr::Unary { op, expr } => seq!['('] + unary_op_text(op) + expr_text(*expr) + seq![
            ')',
        ],
        SpecExpr::Binary { op, left, right } => seq!['('] + expr_text(*left) + seq![' ']
            + binary_op_text(op) + seq![' '] + expr_text(*right) + seq![')'],
    }
}

pub fn render_unary_op(op: UnaryOp) -> (r: &'static str)
    ensures
        r@ == unary_op_text(op),
{
    match op {
        UnaryOp::Not => "!",
        UnaryOp::Neg => "-",
    }
}

pub fn render_binary_op(op: BinaryOp) -> (r: &'static str)
    ensures
        r@ == binary_op_text(op),
{
    match op {
        BinaryOp::Or => "||",
        BinaryOp::And => "&&",
        BinaryOp::Eq => "==",
        BinaryOp::Ne => "!=",
        BinaryOp::Gt => ">",
        BinaryOp::Ge => ">=",
        BinaryOp::Lt => "<",
        BinaryOp::Le => "<=",
        BinaryOp::Add => "+",
        BinaryOp::Sub => "-",
        BinaryOp::Mul => "*",
        BinaryOp::Div => "/",
        BinaryOp::Rem => "%",
    }
}

fn literal_source(literal: &Literal) -> (r: String)
    ensures
        r@ == literal_text(literal@),
{
    match literal {
        Literal::String(value) => render_string(value.as_str()),
        Literal::Int(value) => {
            let mut s = String::new();
            push_int(&mut s, *value);
            assert(s@ =~= int_text(*value));
            s
        },
        Literal::Float(value) => value.as_str().to_owned(),
        Literal::Bool(true) => "true".to_owned(),
        Literal::Bool(false) => "false".to_owned(),
        Literal::Null => "null".to_owned(),
    }
}

/// The source text of a variable path. Every path a `VariablePath` holds is
/// readable, and its source reads back, after the `$`, as the path.
pub fn variable_path_source(path: &VariablePath) -> (r: String)
    ensures
        r@ == path_text(path@),
        readable_path(path@),
        spec_parse_path(r@.drop_first()) == Ok::<SpecPath, Seq<char>>(path@),
{
    let mut rendered = String::new();
    push_char(&mut rendered, '$');
    push_str(&mut rendered, path.root());
    let segments = path.segments();
    let ghost segs = segments_view(segments@);
    let mut i: usize = 0;
    while i < segments.len()
        invariant
            i <= segments@.len(),
            segs == segments_view(segments@),
            segs == path@.segments,
            rendered@ == seq!['$'] + path@.root + segments_text(segs.take(i as int)),
            forall|k: int| 0 <= k < i ==> segment_wf(#[trigger] segs[k]),
        decreases segments.len() - i,
    {
        let ghost before = rendered@;
        match &segments[i] {
            PathSegment::Field(field) => {
                push_char(&mut rendered, '.');
                push_str(&mut rendered, field.as_str());
                assert(segs[i as int] == segments@[i as int]@);
                assert(segment_wf(segs[i as int]));
            },
            PathSegment::Index(index) => {
                push_char(&mut rendered, '[');
                push_decimal(&mut rendered, index.get());
                push_char(&mut rendered, ']');
            },
        }
        proof {
            assert(segs[i as int] == segments@[i as int]@);
            assert(segs.take(i + 1).drop_last() =~= segs.take(i as int));
            assert(rendered@ =~= before + segment_text(segs[i as int]));
            assert(rendered@ =~= seq!['$'] + path@.root + segments_text(segs.take(i + 1)));
        }
        i = i + 1;
    }
    assert(segs.take(segs.len() as int) =~= segs);
    proof {
        lemma_path_source_reads_back(path@);
    }
    rendered
}

/// The source text of an expression.
pub fn expr_source(expr: &Expr) -> (r: String)
    ensures
        r@ == expr_text(expr@),
    decreases expr,
{
    match expr {
        Expr::Literal(literal) => literal_source(literal),
        Expr::Variable(path) => variable_path_source(path),
        Expr::Unary { op, expr } => {
            let mut s = String::new();
            push_char(&mut s, '(');
            push_str(&mut s, render_unary_op(*op));
            let inner = expr_source(expr);
            push_str(&mut s, inner.as_str());
            push_char(&mut s, ')');
            assert(s@ =~= expr_text(Expr::Unary { op: *op, expr: *expr }@)) by {
                assert(s@ =~= seq!['('] + unary_op_text(*op) + inner@ + seq![')']);
            }
            s
        },
        Expr::Binary { op, left, right } => {
            let mut s = String::new();
            push_char(&mut s, '(');
            let l = expr_source(left);
            push_str(&mut s, l.as_str());
            push_char(&mut s, ' ');
            push_str(&mut s, render_binary_op(*op));
            push_char(&mut s, ' ');
            let r = expr_source(right);
            push_str(&mut s, r.as_str());
            push_char(&mut s, ')');
            assert(s@ =~= seq!['('] + l@ + seq![' '] + binary_op_text(*op) + seq![' '] + r@
                + seq![')']);
            s
        },
    }
}

/// An expression as a Rust string literal of its source text.
pub fn render_expr_arg(expr: &Expr) -> (r: String)
    ensures
        r@ == quoted(expr_text(expr@)),
{
    render_string(expr_source(expr).as_str())
}


// ---------------------------------------------------------------------------
// Templates
// ---------------------------------------------------------------------------
pub open spec fn attr_part_text(p: SpecAttrPart) -> Seq<char> {
    match p {
        SpecAttrPart::Text(t) => "::surgeist::template::attr_text("@ + quoted(t) + seq![')'],
        SpecAttrPart::Expr(e) => "::surgeist::template::attr_expr_part("@ + quoted(expr_text(e))
            + seq![')'],
    }
}

/// The texts of the parts, separated by `, `.
pub open spec fn attr_parts_text(s: Seq<SpecAttrPart>) -> Seq<char>
    decreases s.len(),
{
    if s.len() == 0 {
        Seq::empty()
    } else if s.len() == 1 {
        attr_part_text(s[0])
    } else {
        attr_parts_text(s.drop_last()) + ", "@ + attr_part_text(s.last())
    }
}

pub open spec fn attribute_text(a: SpecAttribute) -> Seq<char> {
    let name = quoted(a.name);
    match a.value {
        SpecAttrValue::Bool => "::surgeist::template::attr_bool("@ + name + seq![')'],
        SpecAttrValue::Static(v) => "::surgeist::template::attr_static("@ + name + ", "@ + quoted(v)
            + seq![')'],
        SpecAttrValue::Expression(e) => "::surgeist::template::attr_expr("@ + name + ", "@ + quoted(
            expr_text(e),
        ) + seq![')'],
        SpecAttrValue::Interpolated(parts) => "::surgeist::template::attr_interpolated("@ + name
            + ", vec!["@ + attr_parts_text(parts) + "])"@,
    }
}

/// The texts of the attributes, separated by `, `.
pub open spec fn attributes_text(s: Seq<SpecAttribute>) -> Seq<char>
    decreases s.len(),
{
    if s.len() == 0 {
        Seq::empty()
    } else if s.len() == 1 {
        attribute_text(s[0])
    } else {
        attributes_text(s.drop_last()) + ", "@ + attribute_text(s.last())
    }
}

/// The attribute list of one attribute is that attribute's text.
pub proof fn lemma_attributes_text_one(a: SpecAttribute)
    ensures
        attributes_text(seq![a]) == attribute_text(a),
{
}

/// Rendering a list of attributes renders every one of them, in order:
/// the text of two non-empty lists one after the other is the text of the
/// first, then `, `, then the text of the second.
pub proof fn lemma_attributes_text_append(s: Seq<SpecAttribute>, t: Seq<SpecAttribute>)
    requires
        s.len() > 0,
        t.len() > 0,
    ensures
        attributes_text(s + t) == attributes_text(s) + ", "@ + attributes_text(t),
    decreases t.len(),
{
    let st = s + t;
    if t.len() == 1 {
        assert(st.drop_last() =~= s);
        assert(st.last() == t[0]);
    } else {
        lemma_attributes_text_append(s, t.drop_last());
        assert(st.drop_last() =~= s + t.drop_last());
        assert(st.last() == t.last());
        assert(attributes_text(st) =~= attributes_text(s) + ", "@ + attributes_text(t));
    }
}

/// The Rust text that builds a node.
pub open spec fn node_text(n: SpecNode) -> Seq<char>
    decreases n,
{
    match n {
        SpecNode::Element(e) => {
            let head = match e.name {
                SpecElementName::Native(_) => "::surgeist::template::native("@,
                SpecElementName::Component(_) => "::surgeist::template::component("@,
            };
            head + quoted(e.name.text()) + ", vec!["@ + attributes_text(e.attributes)
                + "], vec!["@ + nodes_text(e.children) + "])"@
        },
        SpecNode::Text(t) => "::surgeist::template::text("@ + quoted(t.value) + seq![')'],
        SpecNode::Interpolation(i) => "::surgeist::template::expr("@ + quoted(expr_text(i.expr))
            + seq![')'],
        SpecNode::If(i) => "::surgeist::template::if_else(vec!["@ + branches_text(i.branches)
            + "], vec!["@ + nodes_text(i.else_children) + "])"@,
        SpecNode::ForEach(f) => "::surgeist::template::for_each("@ + quoted(expr_text(f.collection))
            + ", "@ + quoted(f.item_name) + ", vec!["@ + nodes_text(f.children) + "], vec!["@
            + nodes_text(f.else_children) + "])"@,
    }
}

/// The texts of the nodes, separated by `, `.
pub open spec fn nodes_text(s: Seq<SpecNode>) -> Seq<char>
    decreases s,
{
    if s.len() == 0 {
        Seq::empty()
    } else if s.len() == 1 {
        node_text(s[0])
    } else {
        nodes_text(s.drop_last()) + ", "@ + node_text(s.last())
    }
}

pub open spec fn branch_text(b: SpecBranch) -> Seq<char>
    decreases b,
{
    "::surgeist::template::if_branch("@ + quoted(expr_text(b.condition)) + ", vec!["@ + nodes_text(
        b.children,
    ) + "])"@
}

/// The texts of the branches, separated by `, `.
pub open spec fn branches_text(s: Seq<SpecBranch>) -> Seq<char>
    decreases s,
{
    if s.len() == 0 {
        Seq::empty()
    } else if s.len() == 1 {
        branch_text(s[0])
    } else {
        branches_text(s.drop_last()) + ", "@ + branch_text(s.last())
    }
}

/// A list of one attribute part is that one's text.
pub proof fn lemma_attr_parts_text_one(a: SpecAttrPart)
    ensures
        attr_parts_text(seq![a]) == attr_part_text(a),
{
}

/// Rendering a list of attribute parts renders every one of them, in order: the text
/// of two non-empty lists one after the other is the text of the first,
/// then `, `, then the text of the second.
pub proof fn lemma_attr_parts_text_append(s: Seq<SpecAttrPart>, t: Seq<SpecAttrPart>)
    requires
        s.len() > 0,
        t.len() > 0,
    ensures
        attr_parts_text(s + t) == attr_parts_text(s) + ", "@ + attr_parts_text(t),
    decreases t.len(),
{
    let st = s + t;
    if t.len() == 1 {
        assert(st.drop_last() =~= s);
        assert(st.last() == t[0]);
    } else {
        lemma_attr_parts_text_append(s, t.drop_last());
        assert(st.drop_last() =~= s + t.drop_last());
        assert(st.last() == t.last());
        assert(attr_parts_text(st) =~= attr_parts_text(s) + ", "@ + attr_parts_text(t));
    }
}

/// A list of one node is that one's text.
pub proof fn lemma_nodes_text_one(a: SpecNode)
    ensures
        nodes_text(seq![a]) == node_text(a),
{
}

/// Rendering a list of nodes renders every one of them, in order: the text
/// of two non-empty lists one after the other is the text of the first,
/// then `, `, then the text of the second.
pub proof fn lemma_nodes_text_append(s: Seq<SpecNode>, t: Seq<SpecNode>)
    requires
        s.len() > 0,
        t.len() > 0,
    ensures
        nodes_text(s + t) == nodes_text(s) + ", "@ + nodes_text(t),
    decreases t.len(),
{
    let st = s + t;
    if t.len() == 1 {
        assert(st.drop_last() =~= s);
        assert(st.last() == t[0]);
    } else {
        lemma_nodes_text_append(s, t.drop_last());
        assert(st.drop_last() =~= s + t.drop_last());
        assert(st.last() == t.last());
        assert(nodes_text(st) =~= nodes_text(s) + ", "@ + nodes_text(t));
    }
}

/// A list of one branch is that one's text.
pub proof fn lemma_branches_text_one(a: SpecBranch)
    ensures
        branches_text(seq![a]) == branch_text(a),
{
}

/// Rendering a list of branches renders every one of them, in order: the text
/// of two non-empty lists one after the other is the text of the first,
/// then `, `, then the text of the second.
pub proof fn lemma_branches_text_append(s: Seq<SpecBranch>, t: Seq<SpecBranch>)
    requires
        s.len() > 0,
        t.len() > 0,
    ensures
        branches_text(s + t) == branches_text(s) + ", "@ + branches_text(t),
    decreases t.len(),
{
    let st = s + t;
    if t.len() == 1 {
        assert(st.drop_last() =~= s);
        assert(st.last() == t[0]);
    } else {
        lemma_branches_text_append(s, t.drop_last());
        assert(st.drop_last() =~= s + t.drop_last());
        assert(st.last() == t.last());
        assert(branches_text(st) =~= branches_text(s) + ", "@ + branches_text(t));
    }
}


/// The Rust text that builds a whole template.
pub open spec fn template_text(nodes: Seq<SpecNode>) -> Seq<char> {
    "::surgeist::template::template(vec!["@ + nodes_text(nodes) + "])"@
}

fn render_attr_parts(parts: &[ValidatedAttrPart]) -> (r: String)
    ensures
        r@ == attr_parts_text(vparts_view(parts@)),
{
    let ghost all = vparts_view(parts@);
    let mut out = String::new();
    let mut i: usize = 0;
    while i < parts.len()
        invariant
            i <= parts@.len(),
            all == vparts_view(parts@),
            out@ == attr_parts_text(all.take(i as int)),
        decreases parts.len() - i,
    {
        let ghost before = out@;
        if i > 0 {
            push_str(&mut out, ", ");
        }
        let ghost mid = out@;
        match &parts[i] {
            ValidatedAttrPart::Text(text) => {
                push_str(&mut out, "::surgeist::template::attr_text(");
                push_str(&mut out, render_string(text.as_str()).as_str());
                push_char(&mut out, ')');
            },
            ValidatedAttrPart::Expr(expr) => {
                push_str(&mut out, "::surgeist::template::attr_expr_part(");
                push_str(&mut out, render_expr_arg(expr).as_str());
                push_char(&mut out, ')');
            },
        }
        proof {
            assert(all[i as int] == parts@[i as int]@);
            assert(out@ =~= mid + attr_part_text(all[i as int]));
            assert(all.take(i + 1).drop_last() =~= all.take(i as int));
            if i == 0 {
                assert(all.take(1)[0] == all[0]);
            }
            assert(out@ =~= attr_parts_text(all.take(i + 1)));
        }
        i = i + 1;
    }
    assert(all.take(all.len() as int) =~= all);
    out
}

fn render_attribute(attribute: &ValidatedAttribute) -> (r: String)
    ensures
        r@ == attribute_text(attribute@),
{
    let name = render_string(attribute.name().as_str());
    let mut out = String::new();
    match attribute.value() {
        ValidatedAttrValue::Bool => {
            push_str(&mut out, "::surgeist::template::attr_bool(");
            push_str(&mut out, name.as_str());
            push_char(&mut out, ')');
        },
        ValidatedAttrValue::Static(value) => {
            push_str(&mut out, "::surgeist::template::attr_static(");
            push_str(&mut out, name.as_str());
            push_str(&mut out, ", ");
            push_str(&mut out, render_string(value.as_str()).as_str());
            push_char(&mut out, ')');
        },
        ValidatedAttrValue::Expression(expr) => {
            push_str(&mut out, "::surgeist::template::attr_expr(");
            push_str(&mut out, name.as_str());
            push_str(&mut out, ", ");
            push_str(&mut out, render_expr_arg(expr).as_str());
            push_char(&mut out, ')');
        },
        ValidatedAttrValue::Interpolated(parts) => {
            push_str(&mut out, "::surgeist::template::attr_interpolated(");
            push_str(&mut out, name.as_str());
            push_str(&mut out, ", vec![");
            push_str(&mut out, render_attr_parts(parts.as_slice()).as_str());
            push_str(&mut out, "])");
        },
    }
    assert(out@ =~= attribute_text(attribute@));
    out
}

fn render_attributes(attributes: &[ValidatedAttribute]) -> (r: String)
    ensures
        r@ == attributes_text(vattributes_view(attributes@)),
{
    let ghost all = vattributes_view(attributes@);
    let mut out = String::new();
    let mut i: usize = 0;
    while i < attributes.len()
        invariant
            i <= attributes@.len(),
            all == vattributes_view(attributes@),
            out@ == attributes_text(all.take(i as int)),
        decreases attributes.len() - i,
    {
        if i > 0 {
            push_str(&mut out, ", ");
        }
        let ghost mid = out@;
        let a = render_attribute(&attributes[i]);
        push_str(&mut out, a.as_str());
        proof {
            assert(all[i as int] == attributes@[i as int]@);
            assert(all.take(i + 1).drop_last() =~= all.take(i as int));
            if i == 0 {
                assert(all.take(1)[0] == all[0]);
            }
            assert(out@ =~= attributes_text(all.take(i + 1)));
        }
        i = i + 1;
    }
    assert(all.take(all.len() as int) =~= all);
    out
}

fn render_nodes(nodes: &[ValidatedNode]) -> (r: String)
    ensures
        r@ == nodes_text(vnodes_view(nodes@)),
    decreases vnodes_view(nodes@), 1nat,
{
    let ghost all = vnodes_view(nodes@);
    proof {
        lemma_vnodes_view(nodes@);
    }
    let mut out = String::new();
    let mut i: usize = 0;
    while i < nodes.len()
        invariant
            i <= nodes@.len() == all.len(),
            all == vnodes_view(nodes@),
            forall|k: int| 0 <= k < nodes@.len() ==> #[trigger] all[k] == nodes@[k]@,
            out@ == nodes_text(all.take(i as int)),
        decreases nodes.len() - i,
    {
        if i > 0 {
            push_str(&mut out, ", ");
        }
        let ghost mid = out@;
        assert(all[i as int] == nodes@[i as int]@);
        let n = render_node(&nodes[i]);
        push_str(&mut out, n.as_str());
        proof {
            assert(all.take(i + 1).drop_last() =~= all.take(i as int));
            if i == 0 {
                assert(all.take(1)[0] == all[0]);
            }
            assert(out@ =~= nodes_text(all.take(i + 1)));
        }
        i = i + 1;
    }
    assert(all.take(all.len() as int) =~= all);
    out
}

fn render_if_branches(branches: &[ValidatedIfBranch]) -> (r: String)
    ensures
        r@ == branches_text(vbranches_view(branches@)),
    decreases vbranches_view(branches@), 1nat,
{
    let ghost all = vbranches_view(branches@);
    proof {
        lemma_vbranches_view(branches@);
    }
    let mut out = String::new();
    let mut i: usize = 0;
    while i < branches.len()
        invariant
            i <= branches@.len() == all.len(),
            all == vbranches_view(branches@),
            forall|k: int| 0 <= k < branches@.len() ==> #[trigger] all[k] == branches@[k]@,
            out@ == branches_text(all.take(i as int)),
        decreases branches.len() - i,
    {
        if i > 0 {
            push_str(&mut out, ", ");
        }
        let ghost mid = out@;
        let branch = &branches[i];
        assert(all[i as int] == branch@);
        push_str(&mut out, "::surgeist::template::if_branch(");
        push_str(&mut out, render_expr_arg(branch.condition()).as_str());
        push_str(&mut out, ", vec![");
        push_str(&mut out, render_nodes(branch.children()).as_str());
        push_str(&mut out, "])");
        proof {
            assert(out@ =~= mid + branch_text(all[i as int]));
            assert(all.take(i + 1).drop_last() =~= all.take(i as int));
            if i == 0 {
                assert(all.take(1)[0] == all[0]);
            }
            assert(out@ =~= branches_text(all.take(i + 1)));
        }
        i = i + 1;
    }
    assert(all.take(all.len() as int) =~= all);
    out
}

fn render_native_element(element: &ValidatedElement<NativeElementName>) -> (r: String)
    ensures
        r@ == node_text(SpecNode::Element(element@)),
    decreases SpecNode::Element(element@), 0nat,
{
    let mut out = String::new();
    push_str(&mut out, "::surgeist::template::native(");
    push_str(&mut out, render_string(element.name().as_str()).as_str());
    push_str(&mut out, ", vec![");
    push_str(&mut out, render_attributes(element.attributes()).as_str());
    push_str(&mut out, "], vec![");
    push_str(&mut out, render_nodes(element.children()).as_str());
    push_str(&mut out, "])");
    assert(out@ =~= node_text(SpecNode::Element(element@)));
    out
}

fn render_component_element(element: &ValidatedElement<ComponentName>) -> (r: String)
    ensures
        r@ == node_text(SpecNode::Element(element@)),
    decreases SpecNode::Element(element@), 0nat,
{
    let mut out = String::new();
    push_str(&mut out, "::surgeist::template::component(");
    push_str(&mut out, render_string(element.name().as_str()).as_str());
    push_str(&mut out, ", vec![");
    push_str(&mut out, render_attributes(element.attributes()).as_str());
    push_str(&mut out, "], vec![");
    push_str(&mut out, render_nodes(element.children()).as_str());
    push_str(&mut out, "])");
    assert(out@ =~= node_text(SpecNode::Element(element@)));
    out
}

fn render_if(if_node: &ValidatedIf) -> (r: String)
    ensures
        r@ == node_text(SpecNode::If(if_node@)),
    decreases SpecNode::If(if_node@), 0nat,
{
    let mut out = String::new();
    push_str(&mut out, "::surgeist::template::if_else(vec![");
    let branches = if_node.branches();
    proof {
        let n = SpecNode::If(if_node@);
        assert(decreases_to!(n => n->If_0));
        assert(decreases_to!(n->If_0 => n->If_0.branches));
        assert(vbranches_view(branches@) == if_node@.branches);
    }
    push_str(&mut out, render_if_branches(branches).as_str());
    push_str(&mut out, "], vec![");
    let else_children = if_node.else_children();
    proof {
        let n = SpecNode::If(if_node@);
        assert(decreases_to!(n => n->If_0));
        assert(decreases_to!(n->If_0 => n->If_0.else_children));
    }
    assert(vnodes_view(else_children@) == if_node@.else_children);
    push_str(&mut out, render_nodes(else_children).as_str());
    push_str(&mut out, "])");
    assert(out@ =~= node_text(SpecNode::If(if_node@)));
    out
}

fn render_for_each(for_each: &ValidatedForEach) -> (r: String)
    ensures
        r@ == node_text(SpecNode::ForEach(for_each@)),
    decreases SpecNode::ForEach(for_each@), 0nat,
{
    let mut out = String::new();
    push_str(&mut out, "::surgeist::template::for_each(");
    push_str(&mut out, render_expr_arg(for_each.collection()).as_str());
    push_str(&mut out, ", ");
    push_str(&mut out, render_string(for_each.item_name().as_str()).as_str());
    push_str(&mut out, ", vec![");
    let children = for_each.children();
    proof {
        let n = SpecNode::ForEach(for_each@);
        assert(decreases_to!(n => n->ForEach_0));
        assert(decreases_to!(n->ForEach_0 => n->ForEach_0.children));
        assert(vnodes_view(children@) == for_each@.children);
    }
    push_str(&mut out, render_nodes(children).as_str());
    push_str(&mut out, "], vec![");
    let else_children = for_each.else_children();
    proof {
        let n = SpecNode::ForEach(for_each@);
        assert(decreases_to!(n => n->ForEach_0));
        assert(decreases_to!(n->ForEach_0 => n->ForEach_0.else_children));
    }
    assert(vnodes_view(else_children@) == for_each@.else_children);
    push_str(&mut out, render_nodes(else_children).as_str());
    push_str(&mut out, "])");
    assert(out@ =~= node_text(SpecNode::ForEach(for_each@)));
    out
}

fn render_node(node: &ValidatedNode) -> (r: String)
    ensures
        r@ == node_text(node@),
    decreases node@, 1nat,
{
    proof {
        node.lemma_view();
    }
    match node {
        ValidatedNode::NativeElement(element) => render_native_element(element),
        ValidatedNode::ComponentElement(element) => render_component_element(element),
        ValidatedNode::Text(text) => {
            let mut out = String::new();
            push_str(&mut out, "::surgeist::template::text(");
            push_str(&mut out, render_string(text.value()).as_str());
            push_char(&mut out, ')');
            assert(out@ =~= node_text(node@));
            out
        },
        ValidatedNode::Interpolation(interpolation) => {
            let mut out = String::new();
            push_str(&mut out, "::surgeist::template::expr(");
            push_str(&mut out, render_expr_arg(interpolation.expr()).as_str());
            push_char(&mut out, ')');
            assert(out@ =~= node_text(node@));
            out
        },
        ValidatedNode::If(if_node) => render_if(if_node),
        ValidatedNode::ForEach(for_each) => render_for_each(for_each),
    }
}

/// Renders a validated template as Rust source.
pub fn render_to_rust(template: &ValidatedTemplate) -> (r: String)
    ensures
        r@ == template_text(template@),
{
    let mut out = String::new();
    push_str(&mut out, "::surgeist::template::template(vec![");
    push_str(&mut out, render_nodes(template.nodes()).as_str());
    push_str(&mut out, "])");
    assert(out@ =~= template_text(template@));
    out
}

} // verus!
