//! The template parser. Every function here is checked against the grammar
//! in [`crate::grammar`]: it gives exactly the nodes, or exactly the error,
//! that the grammar assigns to the source.
use vstd::prelude::*;

use crate::ast::{
    attributes_view, branches_view, nodes_view, parts_view, AttrPart, AttrValue, Attribute,
    ElementName, IfBranch, Node, SpecAttrPart, SpecAttribute, SpecNode, TemplateDocument,
};
use crate::error::{ParseError, ParseErrorKind, SpecParseError, SpecParseErrorKind};
use crate::expr::{parse_expr_chars, skip_ws, Expr};
use crate::grammar;
use crate::grammar::{find_within, is_attr_boundary, scan_end, skip_ws_in, stops, word_at, SpecTag, Stop};
use crate::lexer::{
    error_at, lemma_find_from, lemma_pos_of, lemma_trim_end, pos_of, span_of, starts_at,
    starts_with_at, trim_end, trim_end_at, SourceCursor,
};
use crate::name::VariableName;
use crate::span::{SourcePos, SourceSpan};
use crate::text::{digit, lemma_utf8_len_mono, lower, space, str_eq, string_from, upper, utf8_len};

verus! {

// ---------------------------------------------------------------------------
// Positions and spans
// ---------------------------------------------------------------------------

/// Byte offsets grow with character positions.
pub proof fn lemma_pos_mono(s: Seq<char>, i: int, j: int)
    requires
        0 <= i <= j <= s.len(),
    ensures
        pos_of(s, i).byte <= pos_of(s, j).byte,
{
    lemma_pos_of(s, i);
    lemma_pos_of(s, j);
    lemma_utf8_len_mono(s, i, j);
}

/// The span between two positions read from the same source.
fn span_from(src: &Vec<char>, start: SourcePos, end: SourcePos, Ghost(i): Ghost<int>, Ghost(j): Ghost<int>) -> (r: SourceSpan)
    requires
        0 <= i <= j <= src@.len(),
        start@ == pos_of(src@, i),
        end@ == pos_of(src@, j),
    ensures
        r@ == span_of(src@, i, j),
{
    proof {
        lemma_pos_mono(src@, i, j);
    }
    SourceSpan::new_unchecked(start, end)
}

/// The position of character `k`, counted from the start of the source.
fn pos_at(src: &Vec<char>, k: usize) -> (r: SourcePos)
    requires
        k <= src@.len(),
        src@.len() < usize::MAX,
        utf8_len(src@) <= usize::MAX,
    ensures
        r@ == pos_of(src@, k as int),
{
    let mut c = SourceCursor::new(src);
    c.advance_to(src, k);
    proof {
        c.lemma_wf(src@);
    }
    c.pos()
}

/// An error of `kind` over the text read since `start`.
fn error_here(src: &Vec<char>, cur: &SourceCursor, kind: ParseErrorKind, start: SourcePos, Ghost(i): Ghost<int>) -> (r: ParseError)
    requires
        cur.wf(src@),
        0 <= i <= cur.at(),
        start@ == pos_of(src@, i),
    ensures
        r@ == error_at(src@, kind@, i, cur.at()),
{
    proof {
        cur.lemma_wf(src@);
    }
    let span = span_from(src, start, cur.pos(), Ghost(i), Ghost(cur.at()));
    cur.error(kind, span)
}

/// The error for source that ends where more was expected.
fn unexpected_eof(src: &Vec<char>, cur: &SourceCursor) -> (r: ParseError)
    requires
        cur.wf(src@),
    ensures
        r@ == error_at(src@, SpecParseErrorKind::UnexpectedEof, cur.at(), cur.at()),
{
    proof {
        cur.lemma_wf(src@);
    }
    error_here(src, cur, ParseErrorKind::UnexpectedEof, cur.pos(), Ghost(cur.at()))
}

// ---------------------------------------------------------------------------
// Scanning
// ---------------------------------------------------------------------------

fn stops_at(kind: Stop, c: char) -> (b: bool)
    ensures
        b == stops(kind, c),
{
    match kind {
        Stop::Name => space(c) || c == '>' || c == '/',
        Stop::AttrName => space(c) || c == '=' || c == '>' || c == '/' || c == '{',
        Stop::Unquoted => space(c) || c == '>' || c == '/' || c == '{',
        Stop::Text => c == '<' || c == '{',
        Stop::Space => space(c),
    }
}

/// The first position at or after `i` and before `hi` where `kind` stops, or `hi`.
fn scan_end_at(src: &Vec<char>, i: usize, hi: usize, kind: Stop) -> (j: usize)
    requires
        i <= hi <= src@.len(),
    ensures
        j == scan_end(src@, i as int, hi as int, kind),
        i <= j <= hi,
{
    proof {
        grammar::lemma_scan_end(src@, i as int, hi as int, kind);
    }
    let mut j = i;
    while j < hi && !stops_at(kind, src[j])
        invariant
            i <= j <= hi <= src@.len(),
            scan_end(src@, i as int, hi as int, kind) == scan_end(src@, j as int, hi as int, kind),
        decreases hi - j,
    {
        j = j + 1;
    }
    j
}

/// The first position at or after `i` and before `hi` that is not white space, or `hi`.
fn skip_ws_in_at(src: &Vec<char>, i: usize, hi: usize) -> (j: usize)
    requires
        i <= hi <= src@.len(),
    ensures
        j == skip_ws_in(src@, i as int, hi as int),
        i <= j <= hi,
{
    proof {
        grammar::lemma_skip_ws_in(src@, i as int, hi as int);
    }
    let mut j = i;
    while j < hi && space(src[j])
        invariant
            i <= j <= hi <= src@.len(),
            skip_ws_in(src@, i as int, hi as int) == skip_ws_in(src@, j as int, hi as int),
        decreases hi - j,
    {
        j = j + 1;
    }
    j
}

/// Moves the cursor over the run that `kind` stops, up to the end of the
/// source, and gives where the run ends.
fn take_run(src: &Vec<char>, cur: &mut SourceCursor, kind: Stop) -> (j: usize)
    requires
        old(cur).wf(src@),
    ensures
        final(cur).wf(src@),
        j == final(cur).at(),
        j == scan_end(src@, old(cur).at(), src@.len() as int, kind),
        old(cur).at() <= j <= src@.len(),
{
    proof {
        cur.lemma_wf(src@);
    }
    let j = scan_end_at(src, cur.index(), src.len(), kind);
    cur.advance_to(src, j);
    j
}

/// Reads an element name: everything up to white space, `>` or `/`.
fn take_name_like(src: &Vec<char>, cur: &mut SourceCursor) -> (j: usize)
    requires
        old(cur).wf(src@),
    ensures
        final(cur).wf(src@),
        j == final(cur).at(),
        j == scan_end(src@, old(cur).at(), src@.len() as int, Stop::Name),
        old(cur).at() <= j <= src@.len(),
{
    take_run(src, cur, Stop::Name)
}

/// Reads an attribute name: everything up to white space, `=`, `>`, `/` or `{`.
fn take_attr_name(src: &Vec<char>, cur: &mut SourceCursor) -> (j: usize)
    requires
        old(cur).wf(src@),
    ensures
        final(cur).wf(src@),
        j == final(cur).at(),
        j == scan_end(src@, old(cur).at(), src@.len() as int, Stop::AttrName),
        old(cur).at() <= j <= src@.len(),
{
    take_run(src, cur, Stop::AttrName)
}

/// The first occurrence of `src[nl..nh]` that starts at or after `i` and ends by `hi`.
fn find_within_at(src: &Vec<char>, i: usize, hi: usize, nl: usize, nh: usize) -> (r: Option<usize>)
    requires
        i <= hi <= src@.len(),
        nl <= nh <= src@.len(),
    ensures
        match find_within(src@, i as int, hi as int, src@.subrange(nl as int, nh as int)) {
            Some(k) => r == Some(k as usize),
            None => r is None,
        },
{
    let ghost needle = src@.subrange(nl as int, nh as int);
    let n = nh - nl;
    let mut k = i;
    while k <= hi && n <= hi - k
        invariant
            i <= k,
            hi <= src@.len(),
            nl <= nh <= src@.len(),
            n == needle.len(),
            needle == src@.subrange(nl as int, nh as int),
            find_within(src@, i as int, hi as int, needle) == find_within(
                src@,
                k as int,
                hi as int,
                needle,
            ),
        decreases hi + 1 - k,
    {
        let mut m: usize = 0;
        while m < n && src[k + m] == src[nl + m]
            invariant
                m <= n,
                k + n <= hi <= src@.len(),
                nl <= nh <= src@.len(),
                nh == nl + n,
                n == needle.len(),
                needle == src@.subrange(nl as int, nh as int),
                forall|q: int| 0 <= q < m ==> src@[k + q] == #[trigger] needle[q],
            decreases n - m,
        {
            assert(needle[m as int] == src@[nl + m]);
            m = m + 1;
        }
        if m == n {
            assert(src@.subrange(k as int, k + n) =~= needle);
            return Some(k);
        }
        assert(src@.subrange(k as int, k + n)[m as int] != needle[m as int]);
        k = k + 1;
    }
    None
}

// ---------------------------------------------------------------------------
// Brace tags
// ---------------------------------------------------------------------------

/// A `{...}` tag that was read: where it starts, its content `lo..hi`, and
/// the spans of the content and of the whole tag.
struct BraceTag {
    start: SourcePos,
    lo: usize,
    hi: usize,
    content_span: SourceSpan,
    full_span: SourceSpan,
}

spec fn tag_matches(s: Seq<char>, b: BraceTag, t: SpecTag) -> bool {
    &&& b.lo == t.lo
    &&& b.hi == t.hi
    &&& b.start@ == pos_of(s, t.start)
    &&& b.content_span@ == span_of(s, t.lo, t.hi)
    &&& b.full_span@ == span_of(s, t.start, t.end)
    &&& t.start < t.lo <= t.hi < t.end <= s.len()
    &&& t.lo == t.start + 1
    &&& t.end == t.hi + 1
}

/// Reads a `{...}` tag at the cursor.
fn read_brace_tag(src: &Vec<char>, cur: &mut SourceCursor) -> (r: Result<BraceTag, ParseError>)
    requires
        old(cur).wf(src@),
    ensures
        final(cur).wf(src@),
        match grammar::read_brace_tag(src@, old(cur).at()) {
            Ok(t) => r matches Ok(b) && tag_matches(src@, b, t) && final(cur).at() == t.end
                && t.start == old(cur).at(),
            Err(e) => r matches Err(x) && x@ == e,
        },
{
    proof {
        cur.lemma_wf(src@);
        reveal(grammar::read_brace_tag);
    }
    let ghost i = cur.at();
    let start = cur.pos();
    match cur.expect(src, "{") {
        Err(e) => {
            return Err(e);
        },
        Ok(_) => {},
    }
    proof {
        reveal_strlit("{");
        lemma_find_from(src@, i + 1, "}"@);
        reveal_strlit("}");
    }
    let (lo, content_span) = match cur.take_until(src, "}") {
        None => {
            return Err(unexpected_eof(src, cur));
        },
        Some(x) => x,
    };
    let hi = cur.index();
    match cur.expect(src, "}") {
        Err(e) => {
            return Err(e);
        },
        Ok(_) => {},
    }
    proof {
        cur.lemma_wf(src@);
    }
    let full_span = span_from(src, start, cur.pos(), Ghost(i), Ghost(cur.at()));
    Ok(BraceTag { start, lo, hi, content_span, full_span })
}

/// The name of a tag's trimmed content `src[lo..hi]`: its first word.
fn tag_name(src: &Vec<char>, lo: usize, hi: usize) -> (r: String)
    requires
        lo <= hi <= src@.len(),
    ensures
        r@ == word_at(src@, lo as int, hi as int),
{
    let e = scan_end_at(src, lo, hi, Stop::Space);
    string_from(src, lo, e)
}

/// The bounds of a tag's content once surrounding white space is dropped.
fn trimmed(src: &Vec<char>, tag: &BraceTag) -> (r: (usize, usize))
    requires
        tag.lo <= tag.hi <= src@.len(),
    ensures
        r.0 == skip_ws_in(src@, tag.lo as int, tag.hi as int),
        r.1 == trim_end(src@, r.0 as int, tag.hi as int),
        tag.lo <= r.0 <= r.1 <= tag.hi,
{
    let a = skip_ws_in_at(src, tag.lo, tag.hi);
    let b = trim_end_at(src, a, tag.hi);
    (a, b)
}

/// Whether a tag name is one that only makes sense inside a block.
fn stray_tag(name: &str) -> (r: bool)
    ensures
        r == grammar::is_stray_tag(name@),
{
    str_eq(name, "else") || str_eq(name, "elseif") || str_eq(name, "foreachelse") || str_eq(
        name,
        "/if",
    ) || str_eq(name, "/foreach")
}

/// The error for an unsupported `{...}` tag at the cursor.
fn unsupported_current_brace_tag(src: &Vec<char>, cur: &mut SourceCursor) -> (r: ParseError)
    requires
        old(cur).wf(src@),
    ensures
        final(cur).wf(src@),
        r@ == grammar::unsupported_tag_error(src@, old(cur).at()),
{
    proof {
        reveal(grammar::unsupported_tag_error);
    }
    let tag = match read_brace_tag(src, cur) {
        Err(e) => {
            return e;
        },
        Ok(t) => t,
    };
    let (a, b) = trimmed(src, &tag);
    let name = tag_name(src, a, b);
    cur.error(ParseErrorKind::UnsupportedTemplateTag { tag: name }, tag.full_span)
}

// ---------------------------------------------------------------------------
// Expressions, comments and text
// ---------------------------------------------------------------------------

/// Whether trimmed tag content that is no expression still looks like one
/// (and so is reported as an invalid expression rather than an unknown tag).
fn looks_like_expression(content: &Vec<char>) -> (r: bool)
    ensures
        r == (content@.len() > 0 && (content@[0] == '$' || content@[0] == '"' || content@[0]
            == '\'' || content@[0] == '-' || content@[0] == '+' || crate::text::is_digit(
            content@[0],
        ))),
{
    if content.len() == 0 {
        return false;
    }
    let c = content[0];
    c == '$' || c == '"' || c == '\'' || c == '-' || c == '+' || digit(c)
}

/// Reads a `{...}` tag at the cursor and parses its content as an expression.
fn parse_braced_expression(src: &Vec<char>, cur: &mut SourceCursor) -> (r: Result<Expr, ParseError>)
    requires
        old(cur).wf(src@),
    ensures
        final(cur).wf(src@),
        match grammar::braced_expr(src@, old(cur).at()) {
            Ok((e, p)) => r matches Ok(x) && x@ == e && final(cur).at() == p && old(cur).at() < p,
            Err(e) => r matches Err(x) && x@ == e,
        },
{
    proof {
        reveal(grammar::braced_expr);
    }
    let tag = match read_brace_tag(src, cur) {
        Err(e) => {
            return Err(e);
        },
        Ok(t) => t,
    };
    let (a, b) = trimmed(src, &tag);
    let content = crate::expr::copy_range(src, a, b);
    match parse_expr_chars(&content) {
        Ok(e) => Ok(e),
        Err(reason) => {
            if looks_like_expression(&content) {
                Err(cur.error(ParseErrorKind::InvalidExpression { reason }, tag.content_span))
            } else {
                let name = tag_name(src, a, b);
                Err(cur.error(ParseErrorKind::UnsupportedTemplateTag { tag: name }, tag.full_span))
            }
        },
    }
}

/// Moves past comments `{* ... *}`.
fn skip_comments(src: &Vec<char>, cur: &mut SourceCursor) -> (r: Result<(), ParseError>)
    requires
        old(cur).wf(src@),
    ensures
        final(cur).wf(src@),
        match grammar::skip_comments(src@, old(cur).at()) {
            Ok(p) => r is Ok && final(cur).at() == p && old(cur).at() <= p,
            Err(e) => r matches Err(x) && x@ == e,
        },
{
    proof {
        cur.lemma_wf(src@);
        reveal_strlit("{*");
        reveal_strlit("*}");
    }
    let ghost i0 = cur.at();
    while cur.starts_with(src, "{*")
        invariant
            cur.wf(src@),
            i0 == old(cur).at(),
            i0 <= cur.at() <= src@.len(),
            grammar::skip_comments(src@, i0) == grammar::skip_comments(src@, cur.at()),
        decreases src@.len() - cur.at(),
    {
        proof {
            cur.lemma_wf(src@);
            reveal_strlit("{*");
            reveal_strlit("*}");
        }
        let ghost c = cur.at();
        match cur.expect(src, "{*") {
            Err(e) => {
                return Err(e);
            },
            Ok(_) => {},
        }
        proof {
            cur.lemma_wf(src@);
            lemma_find_from(src@, c + 2, "*}"@);
        }
        if cur.take_until(src, "*}").is_none() {
            return Err(unexpected_eof(src, cur));
        }
        match cur.expect(src, "*}") {
            Err(e) => {
                return Err(e);
            },
            Ok(_) => {},
        }
        proof {
            cur.lemma_wf(src@);
        }
    }
    Ok(())
}

/// Reads text up to the next `<` or `{`.
fn parse_text(src: &Vec<char>, cur: &mut SourceCursor) -> (r: Node)
    requires
        old(cur).wf(src@),
    ensures
        final(cur).wf(src@),
        (r@, final(cur).at()) == grammar::parse_text(src@, old(cur).at()),
        old(cur).at() < src@.len() && !stops(Stop::Text, src@[old(cur).at()]) ==> old(cur).at()
            < final(cur).at(),
{
    proof {
        reveal(grammar::parse_text);
        cur.lemma_wf(src@);
        grammar::lemma_scan_end(src@, cur.at(), src@.len() as int, Stop::Text);
    }
    let ghost i = cur.at();
    let start = cur.pos();
    let lo = cur.index();
    let hi = take_run(src, cur, Stop::Text);
    proof {
        cur.lemma_wf(src@);
    }
    let value = string_from(src, lo, hi);
    let span = span_from(src, start, cur.pos(), Ghost(i), Ghost(cur.at()));
    Node::text(value.as_str(), span)
}

/// Reads an interpolation `{$...}`.
fn parse_interpolation(src: &Vec<char>, cur: &mut SourceCursor) -> (r: Result<Node, ParseError>)
    requires
        old(cur).wf(src@),
    ensures
        final(cur).wf(src@),
        match grammar::braced_expr(src@, old(cur).at()) {
            Ok((e, q)) => r matches Ok(n) && n@ == SpecNode::Interpolation(
                crate::ast::SpecInterpolation { expr: e, span: span_of(src@, old(cur).at(), q) },
            ) && final(cur).at() == q && old(cur).at() < q,
            Err(e) => r matches Err(x) && x@ == e,
        },
{
    proof {
        cur.lemma_wf(src@);
    }
    let ghost i = cur.at();
    let start = cur.pos();
    let expr = match parse_braced_expression(src, cur) {
        Err(e) => {
            return Err(e);
        },
        Ok(e) => e,
    };
    proof {
        cur.lemma_wf(src@);
    }
    let span = span_from(src, start, cur.pos(), Ghost(i), Ghost(cur.at()));
    Ok(Node::interpolation(expr, span))
}

// ---------------------------------------------------------------------------
// Attributes
// ---------------------------------------------------------------------------

/// Whether the cursor is at the end, at white space, `>` or `/`.
fn is_attr_boundary_here(src: &Vec<char>, cur: &SourceCursor) -> (r: bool)
    requires
        cur.wf(src@),
    ensures
        r == is_attr_boundary(src@, cur.at()),
{
    proof {
        cur.lemma_wf(src@);
    }
    match cur.peek(src) {
        None => true,
        Some(c) => space(c) || c == '>' || c == '/',
    }
}

/// Adds the pending text `src[text_start..k]` to `parts`, if there is any.
fn flush_text(src: &Vec<char>, parts: &mut Vec<AttrPart>, text_start: usize, k: usize)
    requires
        text_start <= src@.len(),
        k <= src@.len(),
    ensures
        parts_view(final(parts)@) == (if text_start < k {
            parts_view(old(parts)@).push(SpecAttrPart::Text(src@.subrange(text_start as int, k as int)))
        } else {
            parts_view(old(parts)@)
        }),
{
    if text_start < k {
        let text = string_from(src, text_start, k);
        parts.push(AttrPart::Text(text));
        proof {
            assert(parts_view(parts@) =~= parts_view(old(parts)@).push(
                SpecAttrPart::Text(src@.subrange(text_start as int, k as int)),
            ));
        }
    }
}

/// The value a quoted attribute's parts make: plain text for no part or one
/// text part, else the parts.
fn quoted_value(parts: Vec<AttrPart>) -> (r: AttrValue)
    ensures
        r@ == grammar::quoted_value(parts_view(parts@)),
{
    let mut parts = parts;
    let n = parts.len();
    if n == 0 {
        return AttrValue::Static(String::new());
    }
    if n == 1 {
        let ghost before = parts@;
        match parts.pop() {
            Some(AttrPart::Text(value)) => {
                return AttrValue::Static(value);
            },
            Some(AttrPart::Expr(expr)) => {
                let mut one: Vec<AttrPart> = Vec::new();
                one.push(AttrPart::Expr(expr));
                proof {
                    assert(parts_view(one@) =~= seq![SpecAttrPart::Expr(before[0]->Expr_0@)]);
                }
                return AttrValue::Interpolated(one);
            },
            None => {
                return AttrValue::Interpolated(parts);
            },
        }
    }
    AttrValue::Interpolated(parts)
}

/// Reads a quoted attribute value, with `{$...}` interpolations.
fn parse_quoted_attr_value(src: &Vec<char>, cur: &mut SourceCursor) -> (r: Result<AttrValue, ParseError>)
    requires
        old(cur).wf(src@),
        old(cur).at() < src@.len(),
    ensures
        final(cur).wf(src@),
        match grammar::quoted_parts(
            src@,
            old(cur).at() + 1,
            src@[old(cur).at()],
            old(cur).at() + 1,
            Seq::empty(),
        ) {
            Ok((parts, p)) => r matches Ok(v) && v@ == grammar::quoted_value(parts)
                && final(cur).at() == p && old(cur).at() < p,
            Err(e) => r matches Err(x) && x@ == e,
        },
{
    let ghost i = cur.at();
    let quote = match cur.bump(src) {
        Some(c) => c,
        None => {
            return Err(unexpected_eof(src, cur));
        },
    };
    let mut parts: Vec<AttrPart> = Vec::new();
    let mut text_start = cur.index();
    proof {
        reveal_strlit("{$");
        reveal_strlit("{");
        assert(parts_view(parts@) =~= Seq::<SpecAttrPart>::empty());
    }
    loop
        invariant
            cur.wf(src@),
            i == old(cur).at(),
            i < text_start <= cur.at() <= src@.len(),
            quote == src@[i],
            grammar::quoted_parts(src@, i + 1, quote, i + 1, Seq::empty())
                == grammar::quoted_parts(src@, cur.at(), quote, text_start as int, parts_view(parts@)),
        decreases src@.len() - cur.at(),
    {
        proof {
            cur.lemma_wf(src@);
            reveal_strlit("{$");
            reveal_strlit("{");
        }
        let k = cur.index();
        if cur.is_eof(src) {
            return Err(unexpected_eof(src, cur));
        }
        if src[k] == quote {
            flush_text(src, &mut parts, text_start, k);
            cur.bump(src);
            return Ok(quoted_value(parts));
        }
        if cur.starts_with(src, "{$") {
            flush_text(src, &mut parts, text_start, k);
            let expr = match parse_braced_expression(src, cur) {
                Err(e) => {
                    return Err(e);
                },
                Ok(e) => e,
            };
            let ghost before = parts_view(parts@);
            parts.push(AttrPart::Expr(expr));
            proof {
                cur.lemma_wf(src@);
                assert(parts_view(parts@) =~= before.push(SpecAttrPart::Expr(expr@)));
            }
            text_start = cur.index();
        } else if cur.starts_with(src, "{") {
            return Err(unsupported_current_brace_tag(src, cur));
        } else {
            cur.bump(src);
            proof {
                cur.lemma_wf(src@);
            }
        }
    }
}

/// Reads an attribute value at the cursor (after `=` and white space).
fn parse_attr_value(src: &Vec<char>, cur: &mut SourceCursor) -> (r: Result<AttrValue, ParseError>)
    requires
        old(cur).wf(src@),
    ensures
        final(cur).wf(src@),
        match grammar::parse_attr_value(src@, old(cur).at()) {
            Ok((v, p)) => r matches Ok(x) && x@ == v && final(cur).at() == p && old(cur).at() <= p,
            Err(e) => r matches Err(x) && x@ == e,
        },
{
    proof {
        cur.lemma_wf(src@);
        reveal(grammar::parse_attr_value);
        reveal_strlit("{");
    }
    let ghost i = cur.at();
    if cur.starts_with(src, "{") {
        let expr = match parse_braced_expression(src, cur) {
            Err(e) => {
                return Err(e);
            },
            Ok(e) => e,
        };
        if !is_attr_boundary_here(src, cur) {
            proof {
                cur.lemma_wf(src@);
            }
            return Err(
                error_here(
                    src,
                    cur,
                    ParseErrorKind::UnexpectedToken { expected: "attribute boundary" },
                    cur.pos(),
                    Ghost(cur.at()),
                ),
            );
        }
        return Ok(AttrValue::Expression(expr));
    }
    match cur.peek(src) {
        Some(c) => {
            if c == '"' || c == '\'' {
                return parse_quoted_attr_value(src, cur);
            }
        },
        None => {},
    }
    let value_start = cur.pos();
    let lo = cur.index();
    let k = take_run(src, cur, Stop::Unquoted);
    if k < src.len() && src[k] == '{' {
        return Err(unsupported_current_brace_tag(src, cur));
    }
    if k == lo {
        return Err(
            error_here(
                src,
                cur,
                ParseErrorKind::UnexpectedToken { expected: "attribute value" },
                value_start,
                Ghost(i),
            ),
        );
    }
    Ok(AttrValue::Static(string_from(src, lo, k)))
}

/// Moves past white space and then `=`, if it is there; says whether it was.
fn consume_ws_then_equals(src: &Vec<char>, cur: &mut SourceCursor) -> (r: bool)
    requires
        old(cur).wf(src@),
    ensures
        final(cur).wf(src@),
        r == starts_at(src@, skip_ws(src@, old(cur).at()), "="@),
        r ==> final(cur).at() == skip_ws(src@, old(cur).at()) + 1,
        !r ==> final(cur).at() == skip_ws(src@, old(cur).at()),
{
    cur.skip_ws(src);
    if cur.starts_with(src, "=") {
        proof {
            reveal_strlit("=");
        }
        let _ = cur.expect(src, "=");
        true
    } else {
        false
    }
}

spec fn prepend_attributes(
    pre: Seq<SpecAttribute>,
    r: Result<(Seq<SpecAttribute>, bool, int), SpecParseError>,
) -> Result<(Seq<SpecAttribute>, bool, int), SpecParseError> {
    match r {
        Err(e) => Err(e),
        Ok((rest, self_closing, k)) => Ok((pre + rest, self_closing, k)),
    }
}

/// Reads the attributes of a start tag up to `>` or `/>`, and says whether
/// the tag closes itself.
fn parse_attributes(src: &Vec<char>, cur: &mut SourceCursor) -> (r: Result<(Vec<Attribute>, bool), ParseError>)
    requires
        old(cur).wf(src@),
    ensures
        final(cur).wf(src@),
        match grammar::parse_attributes(src@, old(cur).at()) {
            Ok((attrs, self_closing, k)) => r matches Ok((v, b)) && attributes_view(v@) == attrs
                && b == self_closing && final(cur).at() == k && old(cur).at() < k,
            Err(e) => r matches Err(x) && x@ == e,
        },
{
    proof {
        cur.lemma_wf(src@);
    }
    let ghost i0 = cur.at();
    let mut attributes: Vec<Attribute> = Vec::new();
    proof {
        assert(attributes_view(attributes@) =~= Seq::<SpecAttribute>::empty());
        assert(prepend_attributes(Seq::empty(), grammar::parse_attributes(src@, i0))
            =~~= grammar::parse_attributes(src@, i0));
    }
    loop
        invariant
            cur.wf(src@),
            i0 == old(cur).at(),
            i0 <= cur.at() <= src@.len(),
            grammar::parse_attributes(src@, i0) == prepend_attributes(
                attributes_view(attributes@),
                grammar::parse_attributes(src@, cur.at()),
            ),
        decreases src@.len() - cur.at(),
    {
        proof {
            reveal(grammar::parse_attributes);
            cur.lemma_wf(src@);
            crate::expr::lemma_skip_ws_bounds(src@, cur.at());
            reveal_strlit("/>");
            reveal_strlit(">");
            reveal_strlit("{");
            reveal_strlit("=");
        }
        let ghost c = cur.at();
        cur.skip_ws(src);
        proof {
            cur.lemma_wf(src@);
        }
        if cur.starts_with(src, "/>") {
            let _ = cur.expect(src, "/>");
            proof {
                assert(attributes_view(attributes@) + Seq::<SpecAttribute>::empty() =~= attributes_view(attributes@));
            }
            return Ok((attributes, true));
        }
        if cur.starts_with(src, ">") {
            let _ = cur.expect(src, ">");
            proof {
                assert(attributes_view(attributes@) + Seq::<SpecAttribute>::empty() =~= attributes_view(attributes@));
            }
            return Ok((attributes, false));
        }
        if cur.is_eof(src) {
            return Err(unexpected_eof(src, cur));
        }
        if cur.starts_with(src, "{") {
            return Err(unsupported_current_brace_tag(src, cur));
        }
        let attr_start = cur.pos();
        let p = cur.index();
        let ne = take_attr_name(src, cur);
        if ne == p {
            return Err(
                error_here(
                    src,
                    cur,
                    ParseErrorKind::UnexpectedToken { expected: "attribute name" },
                    attr_start,
                    Ghost(p as int),
                ),
            );
        }
        proof {
            crate::expr::lemma_skip_ws_bounds(src@, ne as int);
        }
        let value = if consume_ws_then_equals(src, cur) {
            proof {
                cur.lemma_wf(src@);
                crate::expr::lemma_skip_ws_bounds(src@, cur.at());
            }
            cur.skip_ws(src);
            match parse_attr_value(src, cur) {
                Err(e) => {
                    return Err(e);
                },
                Ok(v) => v,
            }
        } else {
            AttrValue::Bool
        };
        proof {
            cur.lemma_wf(src@);
            crate::expr::lemma_skip_ws_bounds(src@, ne as int);
        }
        let ghost e = cur.at();
        let name = string_from(src, p, ne);
        let span = span_from(src, attr_start, cur.pos(), Ghost(p as int), Ghost(e));
        let attribute = match Attribute::try_new(name.as_str(), value, span) {
            Ok(a) => a,
            Err(_) => {
                return Err(cur.error(ParseErrorKind::InvalidName { name }, span));
            },
        };
        let ghost before = attributes_view(attributes@);
        attributes.push(attribute);
        proof {
            assert(attributes_view(attributes@) =~= before.push(attribute@));
            match grammar::parse_attributes(src@, e) {
                Err(x) => {},
                Ok((rest, sc, k)) => {
                    assert(before + (seq![attribute@] + rest) =~= before.push(attribute@) + rest);
                },
            }
        }
    }
}

// ---------------------------------------------------------------------------
// Tag headers
// ---------------------------------------------------------------------------

/// `src[k..hi]` with its white space dropped, when it starts with white space.
fn strip_required_space(src: &Vec<char>, k: usize, hi: usize) -> (r: Option<(usize, usize)>)
    requires
        k <= hi <= src@.len(),
    ensures
        k < hi && crate::text::is_space(src@[k as int]) ==> r == Some(
            (
                skip_ws_in(src@, k as int, hi as int) as usize,
                trim_end(src@, skip_ws_in(src@, k as int, hi as int), hi as int) as usize,
            ),
        ),
        !(k < hi && crate::text::is_space(src@[k as int])) ==> r is None,
{
    if k < hi && space(src[k]) {
        let h = skip_ws_in_at(src, k, hi);
        Some((h, trim_end_at(src, h, hi)))
    } else {
        None
    }
}

/// The header after `keyword` in the trimmed tag content `src[lo..hi]`.
fn keyword_header(src: &Vec<char>, lo: usize, hi: usize, keyword: &str) -> (r: Option<(usize, usize)>)
    requires
        lo <= hi <= src@.len(),
    ensures
        match grammar::keyword_header(src@, lo as int, hi as int, keyword@) {
            Some((a, b)) => r == Some((a as usize, b as usize)) && lo <= a <= b <= hi,
            None => r is None,
        },
{
    if !starts_with_at(src, lo, keyword) {
        return None;
    }
    let n = crate::text::chars_of(keyword).len();
    if n >= hi - lo {
        return None;
    }
    proof {
        grammar::lemma_skip_ws_in(src@, lo + n, hi as int);
        lemma_trim_end(src@, skip_ws_in(src@, lo + n, hi as int), hi as int);
    }
    strip_required_space(src, lo + n, hi)
}

/// Where the header `src[hl..hh]` lies in the tag content, as the original
/// text reports it: its first occurrence in the content.
fn subspan_for(src: &Vec<char>, tag: &BraceTag, hl: usize, hh: usize) -> (r: (SourceSpan, usize))
    requires
        tag.lo <= hl <= hh <= tag.hi <= src@.len(),
        src@.len() < usize::MAX,
        utf8_len(src@) <= usize::MAX,
    ensures
        r.1 == grammar::header_start(
            src@,
            SpecTag { start: tag.lo - 1, lo: tag.lo as int, hi: tag.hi as int, end: tag.hi + 1 },
            hl as int,
            hh as int,
        ),
        r.1 + (hh - hl) <= src@.len(),
        r.0@ == span_of(src@, r.1 as int, r.1 + (hh - hl)),
{
    proof {
        grammar::lemma_find_within(src@, tag.lo as int, tag.hi as int, src@.subrange(hl as int, hh as int));
    }
    let start = match find_within_at(src, tag.lo, tag.hi, hl, hh) {
        Some(k) => k,
        None => tag.lo,
    };
    let end = start + (hh - hl);
    let span = span_from(src, pos_at(src, start), pos_at(src, end), Ghost(start as int), Ghost(end as int));
    (span, start)
}

spec fn tokens_view(t: Seq<(usize, usize)>) -> Seq<(int, int)> {
    t.map_values(|x: (usize, usize)| (x.0 as int, x.1 as int))
}

/// The bounds of the white-space separated tokens of `header`.
fn whitespace_tokens(header: &Vec<char>) -> (r: Vec<(usize, usize)>)
    ensures
        tokens_view(r@) == grammar::ws_tokens(header@, 0),
        forall|k: int| 0 <= k < r@.len() ==> (#[trigger] r@[k]).0 < r@[k].1 <= header@.len(),
{
    let mut tokens: Vec<(usize, usize)> = Vec::new();
    let mut i: usize = 0;
    proof {
        assert(tokens_view(tokens@) + grammar::ws_tokens(header@, 0) =~= grammar::ws_tokens(header@, 0));
    }
    loop
        invariant
            i <= header@.len(),
            grammar::ws_tokens(header@, 0) == tokens_view(tokens@) + grammar::ws_tokens(header@, i as int),
            forall|k: int| 0 <= k < tokens@.len() ==> (#[trigger] tokens@[k]).0 < tokens@[k].1 <= header@.len(),
        decreases header@.len() - i,
    {
        let a = crate::expr::skip_ws_at(header, i);
        if a >= header.len() {
            proof {
                assert(tokens_view(tokens@) + Seq::<(int, int)>::empty() =~= tokens_view(tokens@));
            }
            return tokens;
        }
        proof {
            crate::expr::lemma_skip_ws_bounds(header@, i as int);
            grammar::lemma_scan_end(header@, a as int, header@.len() as int, Stop::Space);
        }
        let b = scan_end_at(header, a, header.len(), Stop::Space);
        let ghost before = tokens_view(tokens@);
        tokens.push((a, b));
        proof {
            assert(tokens_view(tokens@) =~= before.push((a as int, b as int)));
            assert(before + (seq![(a as int, b as int)] + grammar::ws_tokens(header@, b as int))
                =~= before.push((a as int, b as int)) + grammar::ws_tokens(header@, b as int));
        }
        i = b;
    }
}

/// Whether `header[a..b]` reads `as`.
fn is_as_token(header: &Vec<char>, a: usize, b: usize) -> (r: bool)
    requires
        a <= b <= header@.len(),
    ensures
        r == (header@.subrange(a as int, b as int) == "as"@),
{
    proof {
        reveal_strlit("as");
    }
    if b - a != 2 {
        assert(header@.subrange(a as int, b as int).len() != "as"@.len());
        return false;
    }
    let r = header[a] == 'a' && header[a + 1] == 's';
    proof {
        let t = header@.subrange(a as int, b as int);
        assert(t[0] == header@[a as int]);
        assert(t[1] == header@[a + 1]);
        assert("as"@[0] == 'a' && "as"@[1] == 's');
        if r {
            assert(t =~= "as"@);
        }
    }
    r
}

/// Splits a `foreach` header `collection as $item` into the collection text,
/// the item text and the item's span.
fn parse_foreach_header(
    src: &Vec<char>,
    cur: &SourceCursor,
    header: &Vec<char>,
    header_span: SourceSpan,
    hs: usize,
) -> (r: Result<(Vec<char>, Vec<char>, SourceSpan), ParseError>)
    requires
        cur.wf(src@),
        hs + header@.len() <= src@.len(),
        header_span@ == span_of(src@, hs as int, hs + header@.len()),
    ensures
        match grammar::foreach_header(header@) {
            Ok((c, il, ih)) => r matches Ok((cv, iv, sp)) && cv@ == c && 0 <= il <= ih
                <= header@.len() && iv@ == header@.subrange(il, ih) && sp@ == span_of(
                src@,
                hs + il,
                hs + ih,
            ),
            Err(reason) => r matches Err(x) && x@ == error_at(
                src@,
                SpecParseErrorKind::InvalidExpression { reason },
                hs as int,
                hs + header@.len(),
            ),
        },
{
    proof {
        reveal(grammar::foreach_header);
        cur.lemma_wf(src@);
    }
    let tokens = whitespace_tokens(header);
    let ghost toks = tokens_view(tokens@);
    let mut as_positions: Vec<usize> = Vec::new();
    let mut k: usize = 0;
    proof {
        assert(as_positions@.map_values(|x: usize| x as int) + grammar::as_indices(header@, toks, 0)
            =~= grammar::as_indices(header@, toks, 0));
    }
    while k < tokens.len()
        invariant
            k <= tokens@.len(),
            toks == tokens_view(tokens@),
            forall|q: int| 0 <= q < tokens@.len() ==> (#[trigger] tokens@[q]).0 < tokens@[q].1 <= header@.len(),
            grammar::as_indices(header@, toks, 0) == as_positions@.map_values(|x: usize| x as int)
                + grammar::as_indices(header@, toks, k as int),
            forall|q: int| 0 <= q < as_positions@.len() ==> #[trigger] as_positions@[q] < tokens@.len(),
        decreases tokens@.len() - k,
    {
        let (a, b) = tokens[k];
        let ghost before = as_positions@.map_values(|x: usize| x as int);
        if is_as_token(header, a, b) {
            as_positions.push(k);
            proof {
                assert(as_positions@.map_values(|x: usize| x as int) =~= before.push(k as int));
                assert(before + (seq![k as int] + grammar::as_indices(header@, toks, k + 1))
                    =~= before.push(k as int) + grammar::as_indices(header@, toks, k + 1));
            }
        }
        k = k + 1;
    }
    proof {
        assert(as_positions@.map_values(|x: usize| x as int) + Seq::<int>::empty()
            =~= as_positions@.map_values(|x: usize| x as int));
    }
    if as_positions.len() != 1 {
        return Err(cur.error(
            ParseErrorKind::InvalidExpression {
                reason: "foreach header must contain exactly one as clause",
            },
            header_span,
        ));
    }
    let as_index = as_positions[0];
    proof {
        assert(as_positions@.map_values(|x: usize| x as int)[0] == as_index as int);
    }
    if as_index == 0 || tokens.len() - as_index != 2 {
        return Err(cur.error(
            ParseErrorKind::InvalidExpression {
                reason: "foreach header must contain collection, as, and one item",
            },
            header_span,
        ));
    }
    proof {
        cur.lemma_wf(src@);
    }
    let cut = tokens[as_index].0;
    let lo = skip_ws_in_at(header, 0, cut);
    let hi = trim_end_at(header, lo, cut);
    let collection = crate::expr::copy_range(header, lo, hi);
    let (il, ih) = tokens[as_index + 1];
    let item = crate::expr::copy_range(header, il, ih);
    let item_span = span_from(
        src,
        pos_at(src, hs + il),
        pos_at(src, hs + ih),
        Ghost(hs + il),
        Ghost(hs + ih),
    );
    Ok((collection, item, item_span))
}

/// The element name a start tag's name denotes: a component name when it
/// starts with an upper-case letter, a native one when it starts with a
/// lower-case letter.
fn classify_element_name(name: &str) -> (r: Result<ElementName, ()>)
    ensures
        match grammar::classify_element_name(name@) {
            Some(n) => r matches Ok(x) && x@ == n,
            None => r is Err,
        },
{
    proof {
        reveal(grammar::classify_element_name);
    }
    let v = crate::text::chars_of(name);
    if v.len() == 0 {
        return Err(());
    }
    if upper(v[0]) {
        match ElementName::component(name) {
            Ok(n) => Ok(n),
            Err(_) => Err(()),
        }
    } else if lower(v[0]) {
        match ElementName::native(name) {
            Ok(n) => Ok(n),
            Err(_) => Err(()),
        }
    } else {
        Err(())
    }
}

// ---------------------------------------------------------------------------
// Stop tags
// ---------------------------------------------------------------------------

pub open spec fn stop_tags(v: Seq<&'static str>) -> Seq<Seq<char>> {
    v.map_values(|t: &'static str| t@)
}

/// Whether one of `patterns` is written at the cursor.
fn starts_any(src: &Vec<char>, cur: &SourceCursor, patterns: &Vec<&'static str>) -> (r: bool)
    requires
        cur.wf(src@),
    ensures
        r == grammar::at_stop(src@, cur.at(), stop_tags(patterns@)),
{
    let mut k: usize = 0;
    while k < patterns.len()
        invariant
            k <= patterns@.len(),
            cur.wf(src@),
            forall|q: int| 0 <= q < k ==> !starts_at(src@, cur.at(), #[trigger] stop_tags(patterns@)[q]),
        decreases patterns@.len() - k,
    {
        if cur.starts_with(src, patterns[k]) {
            assert(starts_at(src@, cur.at(), stop_tags(patterns@)[k as int]));
            return true;
        }
        k = k + 1;
    }
    false
}

fn tags_of(a: &'static str) -> (r: Vec<&'static str>)
    ensures
        stop_tags(r@) == seq![a@],
{
    let mut v: Vec<&'static str> = Vec::new();
    v.push(a);
    assert(stop_tags(v@) =~= seq![a@]);
    v
}

fn no_stop_tags() -> (r: Vec<&'static str>)
    ensures
        stop_tags(r@) == Seq::<Seq<char>>::empty(),
{
    let v: Vec<&'static str> = Vec::new();
    assert(stop_tags(v@) =~= Seq::<Seq<char>>::empty());
    v
}

fn if_stop_tags() -> (r: Vec<&'static str>)
    ensures
        stop_tags(r@) == grammar::if_stops(),
{
    let mut v: Vec<&'static str> = Vec::new();
    v.push("{elseif");
    v.push("{else}");
    v.push("{/if}");
    assert(stop_tags(v@) =~= grammar::if_stops());
    v
}

fn foreach_stop_tags() -> (r: Vec<&'static str>)
    ensures
        stop_tags(r@) == grammar::foreach_stops(),
{
    let mut v: Vec<&'static str> = Vec::new();
    v.push("{foreachelse}");
    v.push("{/foreach}");
    assert(stop_tags(v@) =~= grammar::foreach_stops());
    v
}

// ---------------------------------------------------------------------------
// Nodes
// ---------------------------------------------------------------------------

spec fn prepend_nodes(pre: Seq<SpecNode>, r: Result<(Seq<SpecNode>, int), SpecParseError>) -> Result<
    (Seq<SpecNode>, int),
    SpecParseError,
> {
    match r {
        Err(e) => Err(e),
        Ok((rest, k)) => Ok((pre + rest, k)),
    }
}

/// What a parser of one node gives, against what the grammar says.
spec fn node_matches(
    r: Result<Node, ParseError>,
    at: int,
    from: int,
    m: Result<(SpecNode, int), SpecParseError>,
) -> bool {
    match m {
        Ok((n, p)) => r matches Ok(x) && x@ == n && at == p && from < p,
        Err(e) => r matches Err(x) && x@ == e,
    }
}

/// Reads the node at the cursor: an element, an interpolation, a block or text.
fn parse_node(src: &Vec<char>, cur: &mut SourceCursor) -> (r: Result<Node, ParseError>)
    requires
        old(cur).wf(src@),
        old(cur).at() < src@.len(),
    ensures
        final(cur).wf(src@),
        node_matches(r, final(cur).at(), old(cur).at(), grammar::parse_node(src@, old(cur).at())),
    decreases src@.len() - old(cur).at(), 2nat,
{
    proof {
        cur.lemma_wf(src@);
        reveal_strlit("<");
        reveal_strlit("{$");
        reveal_strlit("{");
    }
    if cur.starts_with(src, "<") {
        parse_element(src, cur)
    } else if cur.starts_with(src, "{$") {
        parse_interpolation(src, cur)
    } else if cur.starts_with(src, "{") {
        parse_template_tag(src, cur)
    } else {
        proof {
            let p = cur.at();
            if src@[p] == '<' {
                assert(src@.subrange(p, p + 1) =~= "<"@);
            }
            if src@[p] == '{' {
                assert(src@.subrange(p, p + 1) =~= "{"@);
            }
        }
        Ok(parse_text(src, cur))
    }
}

/// Reads nodes up to the end, one of `stop_tags` or a close tag.
fn parse_nodes(src: &Vec<char>, cur: &mut SourceCursor, stop_tags: &Vec<&'static str>) -> (r:
    Result<Vec<Node>, ParseError>)
    requires
        old(cur).wf(src@),
    ensures
        final(cur).wf(src@),
        match grammar::parse_nodes(src@, old(cur).at(), self::stop_tags(stop_tags@)) {
            Ok((nodes, p)) => r matches Ok(v) && nodes_view(v@) == nodes && final(cur).at() == p
                && old(cur).at() <= p,
            Err(e) => r matches Err(x) && x@ == e,
        },
    decreases src@.len() - old(cur).at(), 3nat,
{
    let ghost i0 = cur.at();
    let ghost st = self::stop_tags(stop_tags@);
    let mut nodes: Vec<Node> = Vec::new();
    proof {
        cur.lemma_wf(src@);
        crate::ast::lemma_nodes_view_empty();
        assert(prepend_nodes(nodes_view(nodes@), grammar::parse_nodes(src@, i0, st)) =~~= grammar::parse_nodes(src@, i0, st));
    }
    loop
        invariant
            cur.wf(src@),
            i0 == old(cur).at(),
            i0 <= cur.at() <= src@.len(),
            st == self::stop_tags(stop_tags@),
            grammar::parse_nodes(src@, i0, st) == prepend_nodes(
                nodes_view(nodes@),
                grammar::parse_nodes(src@, cur.at(), st),
            ),
        decreases src@.len() - cur.at(),
    {
        proof {
            cur.lemma_wf(src@);
            reveal_strlit("</");
            reveal_strlit("<");
            reveal_strlit("{$");
            reveal_strlit("{");
        }
        let ghost c = cur.at();
        match skip_comments(src, cur) {
            Err(e) => {
                return Err(e);
            },
            Ok(()) => {},
        }
        proof {
            cur.lemma_wf(src@);
        }
        if cur.is_eof(src) || starts_any(src, cur, stop_tags) || cur.starts_with(src, "</") {
            proof {
                assert(nodes_view(nodes@) + Seq::<SpecNode>::empty() =~= nodes_view(nodes@));
            }
            return Ok(nodes);
        }
        let node = match parse_node(src, cur) {
            Err(e) => {
                return Err(e);
            },
            Ok(n) => n,
        };
        proof {
            cur.lemma_wf(src@);
        }
        let ghost before = nodes@;
        nodes.push(node);
        proof {
            crate::ast::lemma_nodes_view_push(before, node);
            match grammar::parse_nodes(src@, cur.at(), st) {
                Err(_) => {},
                Ok((rest, k)) => {
                    assert(nodes_view(before) + (seq![node@] + rest) =~= nodes_view(before).push(node@)
                        + rest);
                },
            }
        }
    }
}

/// Reads `<` and an element name at the cursor; gives the name and its text.
fn parse_open_tag(src: &Vec<char>, cur: &mut SourceCursor) -> (r: Result<(ElementName, String), ParseError>)
    requires
        old(cur).wf(src@),
    ensures
        final(cur).wf(src@),
        match grammar::element_open(src@, old(cur).at()) {
            Ok((name, raw, ne)) => r matches Ok((n, t)) && n@ == name && t@ == raw
                && final(cur).at() == ne && old(cur).at() < ne,
            Err(e) => r matches Err(x) && x@ == e,
        },
{
    proof {
        reveal(grammar::element_open);
        cur.lemma_wf(src@);
        reveal_strlit("<");
        reveal_strlit("/");
    }
    let ghost i = cur.at();
    let start = cur.pos();
    match cur.expect(src, "<") {
        Err(e) => {
            return Err(e);
        },
        Ok(_) => {},
    }
    if cur.starts_with(src, "/") {
        return Err(
            error_here(
                src,
                cur,
                ParseErrorKind::UnexpectedToken { expected: "open tag" },
                start,
                Ghost(i),
            ),
        );
    }
    proof {
        cur.lemma_wf(src@);
    }
    let name_start = cur.pos();
    let p = cur.index();
    let ne = take_name_like(src, cur);
    if ne == p {
        return Err(
            error_here(
                src,
                cur,
                ParseErrorKind::UnexpectedToken { expected: "element name" },
                name_start,
                Ghost(p as int),
            ),
        );
    }
    proof {
        cur.lemma_wf(src@);
    }
    let raw_name = string_from(src, p, ne);
    let name_span = span_from(src, name_start, cur.pos(), Ghost(p as int), Ghost(ne as int));
    match classify_element_name(raw_name.as_str()) {
        Ok(n) => Ok((n, raw_name)),
        Err(_) => Err(cur.error(ParseErrorKind::InvalidName { name: raw_name }, name_span)),
    }
}

/// Reads the close tag `</raw_name>` of the element that starts at `start`.
fn parse_close_tag(
    src: &Vec<char>,
    cur: &mut SourceCursor,
    start: SourcePos,
    Ghost(i): Ghost<int>,
    raw_name: String,
) -> (r: Result<(), ParseError>)
    requires
        old(cur).wf(src@),
        0 <= i <= old(cur).at(),
        start@ == pos_of(src@, i),
    ensures
        final(cur).wf(src@),
        match grammar::close_tag(src@, i, old(cur).at(), raw_name@) {
            Ok(k) => r is Ok && final(cur).at() == k && old(cur).at() < k,
            Err(e) => r matches Err(x) && x@ == e,
        },
{
    proof {
        reveal(grammar::close_tag);
        cur.lemma_wf(src@);
        reveal_strlit("</");
        reveal_strlit(">");
    }
    if !cur.starts_with(src, "</") {
        return Err(
            error_here(
                src,
                cur,
                ParseErrorKind::UnclosedElement { name: raw_name },
                start,
                Ghost(i),
            ),
        );
    }
    let _ = cur.expect(src, "</");
    proof {
        cur.lemma_wf(src@);
    }
    let close_start = cur.pos();
    let cs = cur.index();
    let ce = take_name_like(src, cur);
    if ce == cs {
        return Err(
            error_here(
                src,
                cur,
                ParseErrorKind::UnexpectedToken { expected: "close tag name" },
                close_start,
                Ghost(cs as int),
            ),
        );
    }
    proof {
        crate::expr::lemma_skip_ws_bounds(src@, ce as int);
    }
    cur.skip_ws(src);
    match cur.expect(src, ">") {
        Err(e) => {
            return Err(e);
        },
        Ok(_) => {},
    }
    proof {
        cur.lemma_wf(src@);
    }
    let close_name = string_from(src, cs, ce);
    if !str_eq(close_name.as_str(), raw_name.as_str()) {
        let span = span_from(src, close_start, cur.pos(), Ghost(cs as int), Ghost(cur.at()));
        return Err(
            cur.error(
                ParseErrorKind::MismatchedCloseTag { expected: raw_name, found: close_name },
                span,
            ),
        );
    }
    Ok(())
}

/// Reads an element at the cursor (at `<`): its name, attributes, children
/// and matching close tag.
fn parse_element(src: &Vec<char>, cur: &mut SourceCursor) -> (r: Result<Node, ParseError>)
    requires
        old(cur).wf(src@),
    ensures
        final(cur).wf(src@),
        node_matches(r, final(cur).at(), old(cur).at(), grammar::parse_element(src@, old(cur).at())),
    decreases src@.len() - old(cur).at(), 1nat,
{
    proof {
        cur.lemma_wf(src@);
    }
    let ghost i = cur.at();
    let start = cur.pos();
    let (name, raw_name) = match parse_open_tag(src, cur) {
        Err(e) => {
            return Err(e);
        },
        Ok(x) => x,
    };
    let (attributes, self_closing) = match parse_attributes(src, cur) {
        Err(e) => {
            return Err(e);
        },
        Ok(x) => x,
    };
    proof {
        cur.lemma_wf(src@);
    }
    if self_closing {
        proof {
            crate::ast::lemma_nodes_view_empty();
        }
        let span = span_from(src, start, cur.pos(), Ghost(i), Ghost(cur.at()));
        return Ok(Node::element(name, attributes, Vec::new(), span));
    }
    let no_stops = no_stop_tags();
    let children = match parse_nodes(src, cur, &no_stops) {
        Err(e) => {
            return Err(e);
        },
        Ok(c) => c,
    };
    match parse_close_tag(src, cur, start, Ghost(i), raw_name) {
        Err(e) => {
            return Err(e);
        },
        Ok(()) => {},
    }
    proof {
        cur.lemma_wf(src@);
    }
    let span = span_from(src, start, cur.pos(), Ghost(i), Ghost(cur.at()));
    Ok(Node::element(name, attributes, children, span))
}

/// What a `{...}` tag in node position opens, as read.
enum Block {
    If { header: Vec<char>, header_span: SourceSpan },
    ForEach { header: Vec<char>, header_span: SourceSpan, hs: usize },
    Other(ParseError),
}

spec fn block_matches(s: Seq<char>, b: Block, m: grammar::TagBlock) -> bool {
    match (b, m) {
        (Block::If { header, header_span }, grammar::TagBlock::If { header: h, hs, he }) => header@
            == h && he == hs + h.len() && 0 <= hs && he <= s.len() && header_span@ == span_of(
            s,
            hs,
            he,
        ),
        (
            Block::ForEach { header, header_span, hs },
            grammar::TagBlock::ForEach { header: h, hs: a, he },
        ) => header@ == h && hs == a && he == a + h.len() && he <= s.len() && header_span@
            == span_of(s, a, he),
        (Block::Other(e), grammar::TagBlock::Other(x)) => e@ == x,
        _ => false,
    }
}

/// Classifies a tag that was read in node position by its trimmed content.
fn tag_block(src: &Vec<char>, cur: &SourceCursor, tag: &BraceTag, Ghost(t): Ghost<SpecTag>) -> (r:
    Block)
    requires
        cur.wf(src@),
        tag_matches(src@, *tag, t),
    ensures
        block_matches(src@, r, grammar::tag_block(src@, t)),
{
    proof {
        reveal(grammar::tag_block);
        cur.lemma_wf(src@);
    }
    let (a, b) = trimmed(src, tag);
    match keyword_header(src, a, b, "if") {
        Some((hl, hh)) => {
            let (header_span, hs) = subspan_for(src, tag, hl, hh);
            let header = crate::expr::copy_range(src, hl, hh);
            return Block::If { header, header_span };
        },
        None => {},
    }
    match keyword_header(src, a, b, "foreach") {
        Some((hl, hh)) => {
            let (header_span, hs) = subspan_for(src, tag, hl, hh);
            let header = crate::expr::copy_range(src, hl, hh);
            return Block::ForEach { header, header_span, hs };
        },
        None => {},
    }
    let name = tag_name(src, a, b);
    if stray_tag(name.as_str()) {
        Block::Other(cur.error(ParseErrorKind::StrayTemplateTag { tag: name }, tag.full_span))
    } else {
        Block::Other(cur.error(ParseErrorKind::UnsupportedTemplateTag { tag: name }, tag.full_span))
    }
}

/// Reads a `{...}` tag in node position: an `if` or `foreach` block, or an error.
fn parse_template_tag(src: &Vec<char>, cur: &mut SourceCursor) -> (r: Result<Node, ParseError>)
    requires
        old(cur).wf(src@),
    ensures
        final(cur).wf(src@),
        node_matches(
            r,
            final(cur).at(),
            old(cur).at(),
            grammar::parse_template_tag(src@, old(cur).at()),
        ),
    decreases src@.len() - old(cur).at(), 1nat,
{
    proof {
        cur.lemma_wf(src@);
    }
    let ghost i = cur.at();
    let tag = match read_brace_tag(src, cur) {
        Err(e) => {
            return Err(e);
        },
        Ok(t) => t,
    };
    let ghost t = grammar::read_brace_tag(src@, i)->Ok_0;
    proof {
        cur.lemma_wf(src@);
    }
    proof {
        grammar::lemma_template_tag_unfold(src@, i, t);
    }
    match tag_block(src, cur, &tag, Ghost(t)) {
        Block::If { header, header_span } => {
            let ghost hs = grammar::tag_block(src@, t)->If_hs;
            parse_if(src, cur, tag.start, Ghost(i), &header, header_span, Ghost(hs))
        },
        Block::ForEach { header, header_span, hs } => {
            parse_foreach(src, cur, tag.start, Ghost(i), &header, header_span, hs)
        },
        Block::Other(e) => Err(e),
    }
}

/// The condition of an `{elseif ...}` tag that was read.
fn parse_elseif_condition(src: &Vec<char>, cur: &SourceCursor, tag: &BraceTag, Ghost(t): Ghost<SpecTag>) -> (r: Result<Expr, ParseError>)
    requires
        cur.wf(src@),
        tag_matches(src@, *tag, t),
    ensures
        match grammar::elseif_condition(src@, t) {
            Ok(c) => r matches Ok(x) && x@ == c,
            Err(e) => r matches Err(x) && x@ == e,
        },
{
    proof {
        reveal(grammar::elseif_condition);
    }
    let (a, b) = trimmed(src, tag);
    let (hl, hh) = match keyword_header(src, a, b, "elseif") {
        Some(x) => x,
        None => {
            let name = tag_name(src, a, b);
            return Err(cur.error(ParseErrorKind::UnsupportedTemplateTag { tag: name }, tag.full_span));
        },
    };
    let header = crate::expr::copy_range(src, hl, hh);
    match parse_expr_chars(&header) {
        Ok(e) => Ok(e),
        Err(reason) => Err(cur.error(ParseErrorKind::InvalidExpression { reason }, tag.content_span)),
    }
}

/// Reads the rest of an `if` block whose `{if ...}` tag, with `header`, was read.
fn parse_if(
    src: &Vec<char>,
    cur: &mut SourceCursor,
    start: SourcePos,
    Ghost(ts): Ghost<int>,
    header: &Vec<char>,
    header_span: SourceSpan,
    Ghost(hs): Ghost<int>,
) -> (r: Result<Node, ParseError>)
    requires
        old(cur).wf(src@),
        0 <= ts < old(cur).at(),
        start@ == pos_of(src@, ts),
        header_span@ == span_of(src@, hs, hs + header@.len()),
    ensures
        final(cur).wf(src@),
        node_matches(
            r,
            final(cur).at(),
            ts,
            grammar::parse_if(src@, old(cur).at(), ts, header@, hs, hs + header@.len()),
        ),
    decreases src@.len() - old(cur).at(), 4nat,
{
    proof {
        
    }
    let ghost i0 = cur.at();
    let first_condition = match parse_expr_chars(header) {
        Ok(e) => e,
        Err(reason) => {
            return Err(cur.error(ParseErrorKind::InvalidExpression { reason }, header_span));
        },
    };
    let stops = if_stop_tags();
    let first_children = match parse_nodes(src, cur, &stops) {
        Err(e) => {
            return Err(e);
        },
        Ok(c) => c,
    };
    let mut branches: Vec<IfBranch> = Vec::new();
    branches.push(IfBranch::new(first_condition, first_children));
    proof {
        crate::ast::lemma_branches_view_empty();
        crate::ast::lemma_branches_view_push(Seq::empty(), branches@[0]);
        assert(Seq::<crate::ast::IfBranch>::empty().push(branches@[0]) =~= branches@);
        cur.lemma_wf(src@);
    }
    loop
        invariant
            cur.wf(src@),
            i0 == old(cur).at(),
            0 <= ts < i0 <= cur.at() <= src@.len(),
            start@ == pos_of(src@, ts),
            stop_tags(stops@) == grammar::if_stops(),
            grammar::parse_if(src@, i0, ts, header@, hs, hs + header@.len())
                == grammar::parse_if_rest(src@, cur.at(), ts, branches_view(branches@)),
        decreases src@.len() - cur.at(),
    {
        proof {
            
            cur.lemma_wf(src@);
            reveal_strlit("{elseif");
            reveal_strlit("{else}");
            reveal_strlit("{/if}");
        }
        let ghost c = cur.at();
        if cur.starts_with(src, "{elseif") {
            let tag = match read_brace_tag(src, cur) {
                Err(e) => {
                    return Err(e);
                },
                Ok(t) => t,
            };
            let ghost t = grammar::read_brace_tag(src@, c)->Ok_0;
            let condition = match parse_elseif_condition(src, cur, &tag, Ghost(t)) {
                Ok(e) => e,
                Err(e) => {
                    return Err(e);
                },
            };
            let children = match parse_nodes(src, cur, &stops) {
                Err(e) => {
                    return Err(e);
                },
                Ok(c) => c,
            };
            let ghost before = branches@;
            let branch = IfBranch::new(condition, children);
            branches.push(branch);
            proof {
                crate::ast::lemma_branches_view_push(before, branch);
                cur.lemma_wf(src@);
            }
        } else if cur.starts_with(src, "{else}") {
            match read_brace_tag(src, cur) {
                Err(e) => {
                    return Err(e);
                },
                Ok(_) => {},
            }
            let else_stops = tags_of("{/if}");
            let else_children = match parse_nodes(src, cur, &else_stops) {
                Err(e) => {
                    return Err(e);
                },
                Ok(c) => c,
            };
            match cur.expect(src, "{/if}") {
                Err(e) => {
                    return Err(e);
                },
                Ok(_) => {},
            }
            proof {
                cur.lemma_wf(src@);
            }
            let span = span_from(src, start, cur.pos(), Ghost(ts), Ghost(cur.at()));
            return Ok(Node::if_block(branches, else_children, span));
        } else if cur.starts_with(src, "{/if}") {
            let _ = cur.expect(src, "{/if}");
            proof {
                cur.lemma_wf(src@);
                crate::ast::lemma_nodes_view_empty();
            }
            let span = span_from(src, start, cur.pos(), Ghost(ts), Ghost(cur.at()));
            return Ok(Node::if_block(branches, Vec::new(), span));
        } else {
            return Err(unexpected_eof(src, cur));
        }
    }
}

/// Reads the rest of a `foreach` block whose `{foreach ...}` tag, with
/// `header` at `hs`, was read.
fn parse_foreach(
    src: &Vec<char>,
    cur: &mut SourceCursor,
    start: SourcePos,
    Ghost(ts): Ghost<int>,
    header: &Vec<char>,
    header_span: SourceSpan,
    hs: usize,
) -> (r: Result<Node, ParseError>)
    requires
        old(cur).wf(src@),
        0 <= ts < old(cur).at(),
        start@ == pos_of(src@, ts),
        hs + header@.len() <= src@.len(),
        header_span@ == span_of(src@, hs as int, hs + header@.len()),
    ensures
        final(cur).wf(src@),
        node_matches(
            r,
            final(cur).at(),
            ts,
            grammar::parse_foreach(src@, old(cur).at(), ts, header@, hs as int, hs + header@.len()),
        ),
    decreases src@.len() - old(cur).at(), 4nat,
{
    proof {
        
        cur.lemma_wf(src@);
        reveal_strlit("{foreachelse}");
        reveal_strlit("{/foreach}");
    }
    let ghost i = cur.at();
    let (collection_source, item_source, item_span) = match parse_foreach_header(
        src,
        cur,
        header,
        header_span,
        hs,
    ) {
        Err(e) => {
            return Err(e);
        },
        Ok(x) => x,
    };
    let collection = match parse_expr_chars(&collection_source) {
        Ok(e) => e,
        Err(reason) => {
            return Err(cur.error(ParseErrorKind::InvalidExpression { reason }, header_span));
        },
    };
    if !(item_source.len() > 0 && item_source[0] == '$') {
        return Err(
            cur.error(
                ParseErrorKind::InvalidExpression { reason: "foreach item must start with $" },
                item_span,
            ),
        );
    }
    let item_text = string_from(&item_source, 1, item_source.len());
    proof {
        assert(item_text@ =~= item_source@.drop_first());
    }
    let item_name = match VariableName::try_new(item_text.as_str()) {
        Ok(n) => n,
        Err(_) => {
            return Err(
                cur.error(
                    ParseErrorKind::InvalidExpression { reason: "invalid foreach item name" },
                    item_span,
                ),
            );
        },
    };
    let stops = foreach_stop_tags();
    let children = match parse_nodes(src, cur, &stops) {
        Err(e) => {
            return Err(e);
        },
        Ok(c) => c,
    };
    proof {
        cur.lemma_wf(src@);
    }
    let mut else_children: Vec<Node> = Vec::new();
    proof {
        crate::ast::lemma_nodes_view_empty();
    }
    if cur.starts_with(src, "{foreachelse}") {
        let _ = cur.expect(src, "{foreachelse}");
        let else_stops = tags_of("{/foreach}");
        else_children = match parse_nodes(src, cur, &else_stops) {
            Err(e) => {
                return Err(e);
            },
            Ok(c) => c,
        };
        proof {
            cur.lemma_wf(src@);
        }
    }
    if !cur.starts_with(src, "{/foreach}") {
        return Err(unexpected_eof(src, cur));
    }
    let _ = cur.expect(src, "{/foreach}");
    proof {
        cur.lemma_wf(src@);
    }
    let span = span_from(src, start, cur.pos(), Ghost(ts), Ghost(cur.at()));
    Ok(Node::foreach(collection, item_name, children, else_children, span))
}

/// Parses template source into its authored tree: elements, text,
/// `{$...}` interpolations, `{if}` and `{foreach}` blocks; `{* ... *}`
/// comments are dropped.
pub fn parse_template(source: &str) -> (r: Result<TemplateDocument, ParseError>)
    requires
        source@.len() < usize::MAX,
    ensures
        match grammar::spec_parse_template(source@) {
            Ok(nodes) => r matches Ok(d) && d@ == nodes,
            Err(e) => r matches Err(x) && x@ == e,
        },
{
    let src = crate::text::chars_of(source);
    let _ = crate::text::byte_len(source);
    let mut cur = SourceCursor::new(&src);
    let no_stops = no_stop_tags();
    let nodes = match parse_nodes(&src, &mut cur, &no_stops) {
        Err(e) => {
            return Err(e);
        },
        Ok(n) => n,
    };
    proof {
        cur.lemma_wf(src@);
    }
    if !cur.is_eof(&src) {
        return Err(
            error_here(
                &src,
                &cur,
                ParseErrorKind::UnexpectedToken { expected: "template node" },
                cur.pos(),
                Ghost(cur.at()),
            ),
        );
    }
    Ok(TemplateDocument::from_nodes(nodes))
}

} // verus!
