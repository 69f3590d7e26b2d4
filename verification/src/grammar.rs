//! The template grammar: what `parse_template` gives for each source text,
//! stated over character positions.
use vstd::prelude::*;

use crate::ast::{SpecAttrPart, SpecAttrValue, SpecAttribute, SpecBranch, SpecElement, SpecElementName, SpecForEach, SpecIf, SpecInterpolation, SpecNode, SpecText};
use crate::error::{SpecParseError, SpecParseErrorKind};
use crate::expr::{skip_ws, spec_parse_expr, SpecExpr};
use crate::lexer::{error_at, find_from, lemma_trim_end, span_of, starts_at, trim_end};
use crate::name::{is_component_name, is_dash_name, is_identifier, is_native_element_name};
use crate::span::SpecSpan;
use crate::text::{is_digit, is_lower, is_space, is_upper};

verus! {

/// Where a run of characters stops.
#[derive(Clone, Copy)]
pub enum Stop {
    /// An element name stops at white space, `>` or `/`.
    Name,
    /// An attribute name stops at white space, `=`, `>`, `/` or `{`.
    AttrName,
    /// An unquoted attribute value stops at white space, `>`, `/` or `{`.
    Unquoted,
    /// Text stops at `<` or `{`.
    Text,
    /// A token of a `foreach` header stops at white space.
    Space,
}

pub open spec fn stops(kind: Stop, c: char) -> bool {
    match kind {
        Stop::Name => is_space(c) || c == '>' || c == '/',
        Stop::AttrName => is_space(c) || c == '=' || c == '>' || c == '/' || c == '{',
        Stop::Unquoted => is_space(c) || c == '>' || c == '/' || c == '{',
        Stop::Text => c == '<' || c == '{',
        Stop::Space => is_space(c),
    }
}

/// The first position at or after `i` and before `hi` where `kind` stops, or `hi`.
pub open spec fn scan_end(s: Seq<char>, i: int, hi: int, kind: Stop) -> int
    decreases hi - i,
{
    if 0 <= i < hi && hi <= s.len() && !stops(kind, s[i]) {
        scan_end(s, i + 1, hi, kind)
    } else {
        i
    }
}

/// The first position at or after `i` and before `hi` that is not white space, or `hi`.
pub open spec fn skip_ws_in(s: Seq<char>, i: int, hi: int) -> int
    decreases hi - i,
{
    if 0 <= i < hi && hi <= s.len() && is_space(s[i]) {
        skip_ws_in(s, i + 1, hi)
    } else {
        i
    }
}

/// A `{...}` tag: `{` at `start`, the content `lo..hi`, `}` at `hi`, and `end` after it.
pub struct SpecTag {
    pub start: int,
    pub lo: int,
    pub hi: int,
    pub end: int,
}

#[verifier::opaque]
pub open spec fn read_brace_tag(s: Seq<char>, i: int) -> Result<SpecTag, SpecParseError> {
    if !starts_at(s, i, "{"@) {
        Err(error_at(s, SpecParseErrorKind::UnexpectedToken { expected: "{"@ }, i, i))
    } else {
        match find_from(s, i + 1, "}"@) {
            None => Err(error_at(s, SpecParseErrorKind::UnexpectedEof, i + 1, i + 1)),
            Some(k) => Ok(SpecTag { start: i, lo: i + 1, hi: k, end: k + 1 }),
        }
    }
}

/// Where the trimmed content of a tag starts.
pub open spec fn trimmed_lo(s: Seq<char>, t: SpecTag) -> int {
    skip_ws_in(s, t.lo, t.hi)
}

/// Where the trimmed content of a tag ends.
pub open spec fn trimmed_hi(s: Seq<char>, t: SpecTag) -> int {
    trim_end(s, trimmed_lo(s, t), t.hi)
}

/// The first white-space separated word of `s[lo..hi]` (empty when there is none).
pub open spec fn word_at(s: Seq<char>, lo: int, hi: int) -> Seq<char> {
    s.subrange(lo, scan_end(s, lo, hi, Stop::Space))
}

/// The name of a tag, for error messages.
pub open spec fn tag_name(s: Seq<char>, t: SpecTag) -> Seq<char> {
    word_at(s, trimmed_lo(s, t), trimmed_hi(s, t))
}

pub open spec fn is_stray_tag(name: Seq<char>) -> bool {
    name == "else"@ || name == "elseif"@ || name == "foreachelse"@ || name == "/if"@ || name
        == "/foreach"@
}

/// When the trimmed text `s[lo..hi]` is `keyword`, white space, and more,
/// the bounds of that more.
pub open spec fn keyword_header(s: Seq<char>, lo: int, hi: int, keyword: Seq<char>) -> Option<
    (int, int),
> {
    let k = lo + keyword.len();
    if starts_at(s, lo, keyword) && k < hi && is_space(s[k]) {
        let h = skip_ws_in(s, k, hi);
        Some((h, trim_end(s, h, hi)))
    } else {
        None
    }
}

/// The first position at or after `i` where `needle` is written and ends by `hi`.
pub open spec fn find_within(s: Seq<char>, i: int, hi: int, needle: Seq<char>) -> Option<int>
    decreases hi + 1 - i,
{
    if !(0 <= i && i + needle.len() <= hi && hi <= s.len()) {
        None
    } else if s.subrange(i, i + needle.len()) == needle {
        Some(i)
    } else {
        find_within(s, i + 1, hi, needle)
    }
}

/// Where a header is reported to start: its first occurrence in the tag content.
pub open spec fn header_start(s: Seq<char>, t: SpecTag, hl: int, hh: int) -> int {
    match find_within(s, t.lo, t.hi, s.subrange(hl, hh)) {
        Some(k) => k,
        None => t.lo,
    }
}

/// The error for a `{...}` tag where none is supported.
#[verifier::opaque]
pub open spec fn unsupported_tag_error(s: Seq<char>, i: int) -> SpecParseError {
    match read_brace_tag(s, i) {
        Err(e) => e,
        Ok(t) => error_at(
            s,
            SpecParseErrorKind::UnsupportedTemplateTag { tag: tag_name(s, t) },
            t.start,
            t.end,
        ),
    }
}

/// The error for `{...}` content that is not an expression: an invalid
/// expression when it looks like one, else an unsupported tag.
#[verifier::opaque]
pub open spec fn braced_expr(s: Seq<char>, i: int) -> Result<(SpecExpr, int), SpecParseError> {
    match read_brace_tag(s, i) {
        Err(e) => Err(e),
        Ok(t) => {
            let content = s.subrange(trimmed_lo(s, t), trimmed_hi(s, t));
            match spec_parse_expr(content) {
                Ok(e) => Ok((e, t.end)),
                Err(reason) => if content.len() > 0 && (content[0] == '$' || content[0] == '"'
                    || content[0] == '\'' || content[0] == '-' || content[0] == '+' || is_digit(
                    content[0],
                )) {
                    Err(
                        error_at(
                            s,
                            SpecParseErrorKind::InvalidExpression { reason },
                            t.lo,
                            t.hi,
                        ),
                    )
                } else {
                    Err(
                        error_at(
                            s,
                            SpecParseErrorKind::UnsupportedTemplateTag { tag: tag_name(s, t) },
                            t.start,
                            t.end,
                        ),
                    )
                },
            }
        },
    }
}

/// Leaves comments `{* ... *}` behind.
pub open spec fn skip_comments(s: Seq<char>, i: int) -> Result<int, SpecParseError>
    decreases s.len() - i,
{
    if !(0 <= i <= s.len()) || !starts_at(s, i, "{*"@) {
        Ok(i)
    } else {
        let k0 = i + "{*"@.len();
        match find_from(s, k0, "*}"@) {
            None => Err(error_at(s, SpecParseErrorKind::UnexpectedEof, k0, k0)),
            Some(k) => if i < k + "*}"@.len() <= s.len() {
                skip_comments(s, k + "*}"@.len())
            } else {
                Err(error_at(s, SpecParseErrorKind::UnexpectedEof, k0, k0))
            },
        }
    }
}

/// A text node from `i` up to the next `<` or `{`.
#[verifier::opaque]
pub open spec fn parse_text(s: Seq<char>, i: int) -> (SpecNode, int) {
    let j = scan_end(s, i, s.len() as int, Stop::Text);
    (SpecNode::Text(SpecText { value: s.subrange(i, j), span: span_of(s, i, j) }), j)
}

pub open spec fn is_attr_boundary(s: Seq<char>, p: int) -> bool {
    p == s.len() || (0 <= p < s.len() && (is_space(s[p]) || s[p] == '>' || s[p] == '/'))
}

/// The parts of a quoted attribute value from `k` on; `text_start` is where
/// the pending text began and `parts` what was read before.
pub open spec fn quoted_parts(
    s: Seq<char>,
    k: int,
    quote: char,
    text_start: int,
    parts: Seq<SpecAttrPart>,
) -> Result<(Seq<SpecAttrPart>, int), SpecParseError>
    decreases s.len() - k,
{
    let with_text = if text_start < k {
        parts.push(SpecAttrPart::Text(s.subrange(text_start, k)))
    } else {
        parts
    };
    if !(0 <= k <= s.len()) {
        Err(error_at(s, SpecParseErrorKind::UnexpectedEof, k, k))
    } else if k == s.len() {
        Err(error_at(s, SpecParseErrorKind::UnexpectedEof, k, k))
    } else if s[k] == quote {
        Ok((with_text, k + 1))
    } else if starts_at(s, k, "{$"@) {
        match braced_expr(s, k) {
            Err(e) => Err(e),
            Ok((e, p)) => if k < p <= s.len() {
                quoted_parts(s, p, quote, p, with_text.push(SpecAttrPart::Expr(e)))
            } else {
                Err(error_at(s, SpecParseErrorKind::UnexpectedEof, k, k))
            },
        }
    } else if starts_at(s, k, "{"@) {
        Err(unsupported_tag_error(s, k))
    } else {
        quoted_parts(s, k + 1, quote, text_start, parts)
    }
}

/// The value a quoted attribute's parts make.
pub open spec fn quoted_value(parts: Seq<SpecAttrPart>) -> SpecAttrValue {
    if parts.len() == 0 {
        SpecAttrValue::Static(Seq::empty())
    } else if parts.len() == 1 {
        match parts[0] {
            SpecAttrPart::Text(v) => SpecAttrValue::Static(v),
            SpecAttrPart::Expr(e) => SpecAttrValue::Interpolated(seq![SpecAttrPart::Expr(e)]),
        }
    } else {
        SpecAttrValue::Interpolated(parts)
    }
}

/// An attribute value starting at `i` (after `=` and white space).
#[verifier::opaque]
pub open spec fn parse_attr_value(s: Seq<char>, i: int) -> Result<(SpecAttrValue, int), SpecParseError> {
    if starts_at(s, i, "{"@) {
        match braced_expr(s, i) {
            Err(e) => Err(e),
            Ok((e, p)) => if is_attr_boundary(s, p) {
                Ok((SpecAttrValue::Expression(e), p))
            } else {
                Err(
                    error_at(
                        s,
                        SpecParseErrorKind::UnexpectedToken { expected: "attribute boundary"@ },
                        p,
                        p,
                    ),
                )
            },
        }
    } else if 0 <= i < s.len() && (s[i] == '"' || s[i] == '\'') {
        match quoted_parts(s, i + 1, s[i], i + 1, Seq::empty()) {
            Err(e) => Err(e),
            Ok((parts, p)) => Ok((quoted_value(parts), p)),
        }
    } else {
        let k = scan_end(s, i, s.len() as int, Stop::Unquoted);
        if 0 <= k < s.len() && s[k] == '{' {
            Err(unsupported_tag_error(s, k))
        } else if k == i {
            Err(
                error_at(
                    s,
                    SpecParseErrorKind::UnexpectedToken { expected: "attribute value"@ },
                    i,
                    i,
                ),
            )
        } else {
            Ok((SpecAttrValue::Static(s.subrange(i, k)), k))
        }
    }
}

/// The attributes of a start tag from `i` on, whether the tag closes itself,
/// and the position after the tag.
#[verifier::opaque]
pub open spec fn parse_attributes(s: Seq<char>, i: int) -> Result<
    (Seq<SpecAttribute>, bool, int),
    SpecParseError,
>
    decreases s.len() - i,
{
    let p = skip_ws(s, i);
    if !(0 <= i <= p <= s.len()) {
        Err(error_at(s, SpecParseErrorKind::UnexpectedEof, i, i))
    } else if starts_at(s, p, "/>"@) {
        Ok((Seq::empty(), true, p + "/>"@.len()))
    } else if starts_at(s, p, ">"@) {
        Ok((Seq::empty(), false, p + ">"@.len()))
    } else if p == s.len() {
        Err(error_at(s, SpecParseErrorKind::UnexpectedEof, p, p))
    } else if starts_at(s, p, "{"@) {
        Err(unsupported_tag_error(s, p))
    } else {
        let ne = scan_end(s, p, s.len() as int, Stop::AttrName);
        if ne == p {
            Err(
                error_at(
                    s,
                    SpecParseErrorKind::UnexpectedToken { expected: "attribute name"@ },
                    p,
                    p,
                ),
            )
        } else {
            let q = skip_ws(s, ne);
            let value = if starts_at(s, q, "="@) {
                parse_attr_value(s, skip_ws(s, q + "="@.len()))
            } else {
                Ok((SpecAttrValue::Bool, q))
            };
            match value {
                Err(e) => Err(e),
                Ok((v, e)) => {
                    let name = s.subrange(p, ne);
                    if !is_dash_name(name) {
                        Err(error_at(s, SpecParseErrorKind::InvalidName { name }, p, e))
                    } else if !(p < e <= s.len()) {
                        Err(error_at(s, SpecParseErrorKind::UnexpectedEof, e, e))
                    } else {
                        match parse_attributes(s, e) {
                            Err(x) => Err(x),
                            Ok((rest, self_closing, k)) => Ok(
                                (
                                    seq![SpecAttribute { name, value: v, span: span_of(s, p, e) }]
                                        + rest,
                                    self_closing,
                                    k,
                                ),
                            ),
                        }
                    }
                },
            }
        }
    }
}

/// The element name a start tag's name denotes.
#[verifier::opaque]
pub open spec fn classify_element_name(name: Seq<char>) -> Option<SpecElementName> {
    if name.len() > 0 && is_upper(name[0]) && is_component_name(name) {
        Some(SpecElementName::Component(name))
    } else if name.len() > 0 && is_lower(name[0]) && is_native_element_name(name) {
        Some(SpecElementName::Native(name))
    } else {
        None
    }
}

/// The bounds of the white-space separated tokens of `h` from `i` on.
pub open spec fn ws_tokens(h: Seq<char>, i: int) -> Seq<(int, int)>
    decreases h.len() - i,
{
    let a = skip_ws(h, i);
    if !(0 <= i <= a < h.len()) {
        Seq::empty()
    } else {
        let b = scan_end(h, a, h.len() as int, Stop::Space);
        if b <= a || b > h.len() {
            Seq::empty()
        } else {
            seq![(a, b)] + ws_tokens(h, b)
        }
    }
}

/// The indices, from `k` on, of the tokens that read `as`.
pub open spec fn as_indices(h: Seq<char>, toks: Seq<(int, int)>, k: int) -> Seq<int>
    decreases toks.len() - k,
{
    if !(0 <= k < toks.len()) {
        Seq::empty()
    } else if h.subrange(toks[k].0, toks[k].1) == "as"@ {
        seq![k] + as_indices(h, toks, k + 1)
    } else {
        as_indices(h, toks, k + 1)
    }
}

/// A `foreach` header `collection as $item`: the collection text and the
/// bounds of the item token, or why the header is malformed.
#[verifier::opaque]
pub open spec fn foreach_header(h: Seq<char>) -> Result<(Seq<char>, int, int), Seq<char>> {
    let toks = ws_tokens(h, 0);
    let found = as_indices(h, toks, 0);
    if found.len() != 1 {
        Err("foreach header must contain exactly one as clause"@)
    } else {
        let a = found[0];
        if a == 0 || a + 2 != toks.len() {
            Err("foreach header must contain collection, as, and one item"@)
        } else {
            let cut = toks[a].0;
            let lo = skip_ws_in(h, 0, cut);
            Ok((h.subrange(lo, trim_end(h, lo, cut)), toks[a + 1].0, toks[a + 1].1))
        }
    }
}

pub open spec fn if_stops() -> Seq<Seq<char>> {
    seq!["{elseif"@, "{else}"@, "{/if}"@]
}

pub open spec fn foreach_stops() -> Seq<Seq<char>> {
    seq!["{foreachelse}"@, "{/foreach}"@]
}

pub open spec fn at_stop(s: Seq<char>, p: int, stops: Seq<Seq<char>>) -> bool {
    exists|k: int| 0 <= k < stops.len() && starts_at(s, p, #[trigger] stops[k])
}

/// The node that starts at `p`: an element, an interpolation, a block or text.
pub open spec fn parse_node(s: Seq<char>, p: int) -> Result<(SpecNode, int), SpecParseError>
    decreases s.len() - p, 2nat,
{
    if starts_at(s, p, "<"@) {
        parse_element(s, p)
    } else if starts_at(s, p, "{$"@) {
        match braced_expr(s, p) {
            Err(e) => Err(e),
            Ok((e, q)) => Ok(
                (SpecNode::Interpolation(SpecInterpolation { expr: e, span: span_of(s, p, q) }), q),
            ),
        }
    } else if starts_at(s, p, "{"@) {
        parse_template_tag(s, p)
    } else {
        Ok(parse_text(s, p))
    }
}

/// The nodes from `i` on, up to the end, a stop tag or a close tag, and the
/// position where they end.
pub open spec fn parse_nodes(s: Seq<char>, i: int, stops: Seq<Seq<char>>) -> Result<
    (Seq<SpecNode>, int),
    SpecParseError,
>
    decreases s.len() - i, 3nat,
{
    if !(0 <= i <= s.len()) {
        Err(error_at(s, SpecParseErrorKind::UnexpectedEof, i, i))
    } else {
        match skip_comments(s, i) {
            Err(e) => Err(e),
            Ok(p) => if !(i <= p <= s.len()) {
                Err(error_at(s, SpecParseErrorKind::UnexpectedEof, i, i))
            } else if p == s.len() || at_stop(s, p, stops) || starts_at(s, p, "</"@) {
                Ok((Seq::empty(), p))
            } else {
                match parse_node(s, p) {
                    Err(e) => Err(e),
                    Ok((node, j)) => if p < j <= s.len() {
                        match parse_nodes(s, j, stops) {
                            Err(e) => Err(e),
                            Ok((rest, k)) => Ok((seq![node] + rest, k)),
                        }
                    } else {
                        Err(error_at(s, SpecParseErrorKind::UnexpectedEof, p, p))
                    },
                }
            },
        }
    }
}

/// The start of an element at `i`: `<` and a valid name, giving the name,
/// its text and where it ends.
#[verifier::opaque]
pub open spec fn element_open(s: Seq<char>, i: int) -> Result<(SpecElementName, Seq<char>, int), SpecParseError> {
    let p = i + "<"@.len();
    if !starts_at(s, i, "<"@) {
        Err(error_at(s, SpecParseErrorKind::UnexpectedToken { expected: "<"@ }, i, i))
    } else if starts_at(s, p, "/"@) {
        Err(error_at(s, SpecParseErrorKind::UnexpectedToken { expected: "open tag"@ }, i, p))
    } else {
        let ne = scan_end(s, p, s.len() as int, Stop::Name);
        let raw = s.subrange(p, ne);
        if ne == p {
            Err(error_at(s, SpecParseErrorKind::UnexpectedToken { expected: "element name"@ }, p, p))
        } else {
            match classify_element_name(raw) {
                None => Err(error_at(s, SpecParseErrorKind::InvalidName { name: raw }, p, ne)),
                Some(name) => Ok((name, raw, ne)),
            }
        }
    }
}

/// The close tag `</raw>` of the element that starts at `i`, expected at
/// `r`; gives the position after it.
#[verifier::opaque]
pub open spec fn close_tag(s: Seq<char>, i: int, r: int, raw: Seq<char>) -> Result<int, SpecParseError> {
    if !starts_at(s, r, "</"@) {
        Err(error_at(s, SpecParseErrorKind::UnclosedElement { name: raw }, i, r))
    } else {
        let cs = r + "</"@.len();
        let ce = scan_end(s, cs, s.len() as int, Stop::Name);
        let w = skip_ws(s, ce);
        if ce == cs {
            Err(error_at(s, SpecParseErrorKind::UnexpectedToken { expected: "close tag name"@ }, cs, ce))
        } else if !starts_at(s, w, ">"@) {
            Err(error_at(s, SpecParseErrorKind::UnexpectedToken { expected: ">"@ }, w, w))
        } else if s.subrange(cs, ce) != raw {
            Err(
                error_at(
                    s,
                    SpecParseErrorKind::MismatchedCloseTag { expected: raw, found: s.subrange(cs, ce) },
                    cs,
                    w + ">"@.len(),
                ),
            )
        } else {
            Ok(w + ">"@.len())
        }
    }
}

/// An element starting at `i` (at `<`).
pub open spec fn parse_element(s: Seq<char>, i: int) -> Result<(SpecNode, int), SpecParseError>
    decreases s.len() - i, 1nat,
{
    match element_open(s, i) {
        Err(e) => Err(e),
        Ok((name, raw, ne)) => match parse_attributes(s, ne) {
            Err(e) => Err(e),
            Ok((attrs, self_closing, q)) => if !(i < q <= s.len()) {
                Err(error_at(s, SpecParseErrorKind::UnexpectedEof, q, q))
            } else if self_closing {
                Ok(
                    (
                        SpecNode::Element(
                            SpecElement {
                                name,
                                attributes: attrs,
                                children: Seq::empty(),
                                span: span_of(s, i, q),
                            },
                        ),
                        q,
                    ),
                )
            } else {
                match parse_nodes(s, q, Seq::empty()) {
                    Err(e) => Err(e),
                    Ok((children, r)) => match close_tag(s, i, r, raw) {
                        Err(e) => Err(e),
                        Ok(k) => Ok(
                            (
                                SpecNode::Element(
                                    SpecElement { name, attributes: attrs, children, span: span_of(s, i, k) },
                                ),
                                k,
                            ),
                        ),
                    },
                }
            },
        },
    }
}

/// What a `{...}` tag in node position opens.
pub enum TagBlock {
    /// An `if` block with its header and where the header is reported.
    If { header: Seq<char>, hs: int, he: int },
    /// A `foreach` block with its header and where the header is reported.
    ForEach { header: Seq<char>, hs: int, he: int },
    /// No block: the error for the tag.
    Other(SpecParseError),
}

/// Classifies the tag `t` by its trimmed content.
#[verifier::opaque]
pub open spec fn tag_block(s: Seq<char>, t: SpecTag) -> TagBlock {
    let ta = trimmed_lo(s, t);
    let tb = trimmed_hi(s, t);
    match keyword_header(s, ta, tb, "if"@) {
        Some((hl, hh)) => {
            let hs = header_start(s, t, hl, hh);
            TagBlock::If { header: s.subrange(hl, hh), hs, he: hs + (hh - hl) }
        },
        None => match keyword_header(s, ta, tb, "foreach"@) {
            Some((hl, hh)) => {
                let hs = header_start(s, t, hl, hh);
                TagBlock::ForEach { header: s.subrange(hl, hh), hs, he: hs + (hh - hl) }
            },
            None => {
                let name = tag_name(s, t);
                if is_stray_tag(name) {
                    TagBlock::Other(
                        error_at(s, SpecParseErrorKind::StrayTemplateTag { tag: name }, t.start, t.end),
                    )
                } else {
                    TagBlock::Other(
                        error_at(
                            s,
                            SpecParseErrorKind::UnsupportedTemplateTag { tag: name },
                            t.start,
                            t.end,
                        ),
                    )
                }
            },
        },
    }
}

/// A `{...}` tag in node position, starting at `i`: an `if` or `foreach`
/// block, or an error.
pub open spec fn parse_template_tag(s: Seq<char>, i: int) -> Result<(SpecNode, int), SpecParseError>
    decreases s.len() - i, 1nat,
{
    match read_brace_tag(s, i) {
        Err(e) => Err(e),
        Ok(t) => if !(i < t.end <= s.len()) {
            Err(error_at(s, SpecParseErrorKind::UnexpectedEof, i, i))
        } else {
            match tag_block(s, t) {
                TagBlock::If { header, hs, he } => parse_if(s, t.end, t.start, header, hs, he),
                TagBlock::ForEach { header, hs, he } => parse_foreach(s, t.end, t.start, header, hs, he),
                TagBlock::Other(e) => Err(e),
            }
        },
    }
}

/// The condition of an `{elseif ...}` tag `t`.
#[verifier::opaque]
pub open spec fn elseif_condition(s: Seq<char>, t: SpecTag) -> Result<SpecExpr, SpecParseError> {
    match keyword_header(s, trimmed_lo(s, t), trimmed_hi(s, t), "elseif"@) {
        None => Err(
            error_at(
                s,
                SpecParseErrorKind::UnsupportedTemplateTag { tag: tag_name(s, t) },
                t.start,
                t.end,
            ),
        ),
        Some((hl, hh)) => match spec_parse_expr(s.subrange(hl, hh)) {
            Err(reason) => Err(error_at(s, SpecParseErrorKind::InvalidExpression { reason }, t.lo, t.hi)),
            Ok(condition) => Ok(condition),
        },
    }
}

/// An `if` block whose header was read; `i` is after the `{if ...}` tag.
pub open spec fn parse_if(s: Seq<char>, i: int, start: int, header: Seq<char>, hs: int, he: int) -> Result<
    (SpecNode, int),
    SpecParseError,
>
    decreases s.len() - i, 4nat,
{
    match spec_parse_expr(header) {
        Err(reason) => Err(error_at(s, SpecParseErrorKind::InvalidExpression { reason }, hs, he)),
        Ok(condition) => match parse_nodes(s, i, if_stops()) {
            Err(e) => Err(e),
            Ok((children, j)) => if !(0 <= i <= j <= s.len()) {
                Err(error_at(s, SpecParseErrorKind::UnexpectedEof, j, j))
            } else {
                parse_if_rest(s, j, start, seq![SpecBranch { condition, children }])
            },
        },
    }
}

/// The rest of an `if` block from `i`: `{elseif ...}` branches, an optional
/// `{else}`, and `{/if}`.
pub open spec fn parse_if_rest(s: Seq<char>, i: int, start: int, branches: Seq<SpecBranch>) -> Result<
    (SpecNode, int),
    SpecParseError,
>
    decreases s.len() - i, 3nat,
{
    if starts_at(s, i, "{elseif"@) {
        match read_brace_tag(s, i) {
            Err(e) => Err(e),
            Ok(t) => if !(i < t.end <= s.len()) {
                Err(error_at(s, SpecParseErrorKind::UnexpectedEof, i, i))
            } else {
                match elseif_condition(s, t) {
                    Err(e) => Err(e),
                    Ok(condition) => match parse_nodes(s, t.end, if_stops()) {
                        Err(e) => Err(e),
                        Ok((children, j)) => if !(t.end <= j <= s.len()) {
                            Err(error_at(s, SpecParseErrorKind::UnexpectedEof, j, j))
                        } else {
                            parse_if_rest(
                                s,
                                j,
                                start,
                                branches.push(SpecBranch { condition, children }),
                            )
                        },
                    },
                }
            },
        }
    } else if starts_at(s, i, "{else}"@) {
        match read_brace_tag(s, i) {
            Err(e) => Err(e),
            Ok(t) => if !(i < t.end <= s.len()) {
                Err(error_at(s, SpecParseErrorKind::UnexpectedEof, i, i))
            } else {
                match parse_nodes(s, t.end, seq!["{/if}"@]) {
                    Err(e) => Err(e),
                    Ok((else_children, j)) => if !starts_at(s, j, "{/if}"@) {
                        Err(
                            error_at(
                                s,
                                SpecParseErrorKind::UnexpectedToken { expected: "{/if}"@ },
                                j,
                                j,
                            ),
                        )
                    } else {
                        Ok(
                            (
                                SpecNode::If(
                                    SpecIf {
                                        branches,
                                        else_children,
                                        span: span_of(s, start, j + "{/if}"@.len()),
                                    },
                                ),
                                j + "{/if}"@.len(),
                            ),
                        )
                    },
                }
            },
        }
    } else if starts_at(s, i, "{/if}"@) {
        Ok(
            (
                SpecNode::If(
                    SpecIf {
                        branches,
                        else_children: Seq::empty(),
                        span: span_of(s, start, i + "{/if}"@.len()),
                    },
                ),
                i + "{/if}"@.len(),
            ),
        )
    } else {
        Err(error_at(s, SpecParseErrorKind::UnexpectedEof, i, i))
    }
}

/// A `foreach` block whose header was read; `i` is after the `{foreach ...}` tag.
pub open spec fn parse_foreach(
    s: Seq<char>,
    i: int,
    start: int,
    header: Seq<char>,
    hs: int,
    he: int,
) -> Result<(SpecNode, int), SpecParseError>
    decreases s.len() - i, 4nat,
{
    match foreach_header(header) {
        Err(reason) => Err(error_at(s, SpecParseErrorKind::InvalidExpression { reason }, hs, he)),
        Ok((collection_text, il, ih)) => match spec_parse_expr(collection_text) {
            Err(reason) => Err(
                error_at(s, SpecParseErrorKind::InvalidExpression { reason }, hs, he),
            ),
            Ok(collection) => {
                let item = header.subrange(il, ih);
                if !(item.len() > 0 && item[0] == '$') {
                    Err(
                        error_at(
                            s,
                            SpecParseErrorKind::InvalidExpression {
                                reason: "foreach item must start with $"@,
                            },
                            hs + il,
                            hs + ih,
                        ),
                    )
                } else if !is_identifier(item.drop_first()) {
                    Err(
                        error_at(
                            s,
                            SpecParseErrorKind::InvalidExpression {
                                reason: "invalid foreach item name"@,
                            },
                            hs + il,
                            hs + ih,
                        ),
                    )
                } else {
                    match parse_nodes(s, i, foreach_stops()) {
                        Err(e) => Err(e),
                        Ok((children, j)) => {
                            let k0 = j + "{foreachelse}"@.len();
                            let else_part = if starts_at(s, j, "{foreachelse}"@) && i < k0 {
                                parse_nodes(s, k0, seq!["{/foreach}"@])
                            } else {
                                Ok((Seq::empty(), j))
                            };
                            match else_part {
                                Err(e) => Err(e),
                                Ok((else_children, k)) => if !starts_at(s, k, "{/foreach}"@) {
                                    Err(error_at(s, SpecParseErrorKind::UnexpectedEof, k, k))
                                } else {
                                    Ok(
                                        (
                                            SpecNode::ForEach(
                                                SpecForEach {
                                                    collection,
                                                    item_name: item.drop_first(),
                                                    children,
                                                    else_children,
                                                    span: span_of(
                                                        s,
                                                        start,
                                                        k + "{/foreach}"@.len(),
                                                    ),
                                                },
                                            ),
                                            k + "{/foreach}"@.len(),
                                        ),
                                    )
                                },
                            }
                        },
                    }
                }
            },
        },
    }
}

/// The template `s` denotes: its nodes, which must reach the end of `s`.
pub open spec fn spec_parse_template(s: Seq<char>) -> Result<Seq<SpecNode>, SpecParseError> {
    match parse_nodes(s, 0, Seq::empty()) {
        Err(e) => Err(e),
        Ok((nodes, p)) => if p != s.len() {
            Err(
                error_at(
                    s,
                    SpecParseErrorKind::UnexpectedToken { expected: "template node"@ },
                    p,
                    p,
                ),
            )
        } else {
            Ok(nodes)
        },
    }
}

pub proof fn lemma_scan_end(s: Seq<char>, i: int, hi: int, kind: Stop)
    requires
        0 <= i <= hi <= s.len(),
    ensures
        i <= scan_end(s, i, hi, kind) <= hi,
        forall|k: int| i <= k < scan_end(s, i, hi, kind) ==> !stops(kind, #[trigger] s[k]),
        scan_end(s, i, hi, kind) < hi ==> stops(kind, s[scan_end(s, i, hi, kind)]),
    decreases hi - i,
{
    if i < hi && !stops(kind, s[i]) {
        lemma_scan_end(s, i + 1, hi, kind);
    }
}

pub proof fn lemma_skip_ws_in(s: Seq<char>, i: int, hi: int)
    requires
        0 <= i <= hi <= s.len(),
    ensures
        i <= skip_ws_in(s, i, hi) <= hi,
        forall|k: int| i <= k < skip_ws_in(s, i, hi) ==> is_space(#[trigger] s[k]),
        skip_ws_in(s, i, hi) < hi ==> !is_space(s[skip_ws_in(s, i, hi)]),
    decreases hi - i,
{
    if i < hi && is_space(s[i]) {
        lemma_skip_ws_in(s, i + 1, hi);
    }
}

pub proof fn lemma_find_within(s: Seq<char>, i: int, hi: int, needle: Seq<char>)
    requires
        0 <= i,
        hi <= s.len(),
    ensures
        find_within(s, i, hi, needle) matches Some(k) ==> i <= k && k + needle.len() <= hi
            && s.subrange(k, k + needle.len()) == needle,
    decreases hi + 1 - i,
{
    if i + needle.len() <= hi && s.subrange(i, i + needle.len()) != needle {
        lemma_find_within(s, i + 1, hi, needle);
    }
}


/// A template tag, once its `{...}` tag is read, is what its content opens.
pub proof fn lemma_template_tag_unfold(s: Seq<char>, i: int, t: SpecTag)
    requires
        read_brace_tag(s, i) == Ok::<SpecTag, SpecParseError>(t),
        i < t.end <= s.len(),
    ensures
        parse_template_tag(s, i) == match tag_block(s, t) {
            TagBlock::If { header, hs, he } => parse_if(s, t.end, t.start, header, hs, he),
            TagBlock::ForEach { header, hs, he } => parse_foreach(s, t.end, t.start, header, hs, he),
            TagBlock::Other(e) => Err(e),
        },
{
}


pub proof fn lemma_skip_comments(s: Seq<char>, i: int)
    requires
        0 <= i <= s.len(),
    ensures
        skip_comments(s, i) matches Ok(p) ==> i <= p <= s.len() && skip_comments(s, p) == Ok::<
            int,
            SpecParseError,
        >(p),
    decreases s.len() - i,
{
    if starts_at(s, i, "{*"@) {
        let k0 = i + "{*"@.len();
        match find_from(s, k0, "*}"@) {
            None => {},
            Some(k) => {
                if i < k + "*}"@.len() <= s.len() {
                    lemma_skip_comments(s, k + "*}"@.len());
                }
            },
        }
    }
}

/// Comments are invisible: the nodes read from a position are exactly those
/// read from just after the comments that start there.
pub proof fn lemma_comments_invisible(s: Seq<char>, i: int, stops: Seq<Seq<char>>)
    requires
        0 <= i <= s.len(),
        skip_comments(s, i) is Ok,
    ensures
        parse_nodes(s, i, stops) == parse_nodes(s, skip_comments(s, i)->Ok_0, stops),
{
    lemma_skip_comments(s, i);
}

/// The span a node records.
pub open spec fn node_span(n: SpecNode) -> SpecSpan {
    match n {
        SpecNode::Element(e) => e.span,
        SpecNode::Text(t) => t.span,
        SpecNode::Interpolation(x) => x.span,
        SpecNode::If(x) => x.span,
        SpecNode::ForEach(x) => x.span,
    }
}

proof fn lemma_if_rest_span(s: Seq<char>, i: int, start: int, branches: Seq<SpecBranch>)
    ensures
        parse_if_rest(s, i, start, branches) matches Ok((n, k)) ==> node_span(n) == span_of(
            s,
            start,
            k,
        ),
    decreases s.len() - i,
{
    if starts_at(s, i, "{elseif"@) {
        match read_brace_tag(s, i) {
            Err(e) => {},
            Ok(t) => if i < t.end <= s.len() {
                match elseif_condition(s, t) {
                    Err(e) => {},
                    Ok(condition) => match parse_nodes(s, t.end, if_stops()) {
                        Err(e) => {},
                        Ok((children, j)) => if t.end <= j <= s.len() {
                            lemma_if_rest_span(
                                s,
                                j,
                                start,
                                branches.push(SpecBranch { condition, children }),
                            );
                        },
                    },
                }
            },
        }
    }
}

/// A node's span runs from where the node starts to where reading resumes
/// after it.
pub proof fn lemma_node_span(s: Seq<char>, p: int)
    requires
        0 <= p <= s.len(),
    ensures
        parse_node(s, p) matches Ok((n, j)) ==> node_span(n) == span_of(s, p, j),
{
    reveal(parse_text);
    reveal(braced_expr);
    reveal(read_brace_tag);
    if !starts_at(s, p, "<"@) && !starts_at(s, p, "{$"@) && starts_at(s, p, "{"@) {
        match read_brace_tag(s, p) {
            Err(e) => {},
            Ok(t) => if p < t.end <= s.len() {
                match tag_block(s, t) {
                    TagBlock::If { header, hs, he } => {
                        match spec_parse_expr(header) {
                            Err(_) => {},
                            Ok(condition) => match parse_nodes(s, t.end, if_stops()) {
                                Err(_) => {},
                                Ok((children, j)) => if 0 <= t.end <= j <= s.len() {
                                    lemma_if_rest_span(
                                        s,
                                        j,
                                        t.start,
                                        seq![SpecBranch { condition, children }],
                                    );
                                },
                            },
                        }
                    },
                    _ => {},
                }
            },
        }
    }
}


/// A text node holds exactly the source text it spans, and that text holds
/// no `<` and no `{`.
pub proof fn lemma_text_node(s: Seq<char>, p: int)
    requires
        0 <= p <= s.len(),
    ensures
        parse_text(s, p).0 matches SpecNode::Text(t) && t.value == s.subrange(p, parse_text(s, p).1)
            && t.span == span_of(s, p, parse_text(s, p).1) && forall|m: int|
            0 <= m < t.value.len() ==> #[trigger] t.value[m] != '<' && t.value[m] != '{',
{
    reveal(parse_text);
    lemma_scan_end(s, p, s.len() as int, Stop::Text);
    let j = scan_end(s, p, s.len() as int, Stop::Text);
    assert forall|m: int| 0 <= m < j - p implies #[trigger] s.subrange(p, j)[m] != '<' && s.subrange(
        p,
        j,
    )[m] != '{' by {
        assert(!stops(Stop::Text, s[p + m]));
    }
}

proof fn lemma_skip_ws_bounds(s: Seq<char>, i: int)
    requires
        0 <= i <= s.len(),
    ensures
        i <= skip_ws(s, i) <= s.len(),
        forall|k: int| i <= k < skip_ws(s, i) ==> is_space(#[trigger] s[k]),
        skip_ws(s, i) < s.len() ==> !is_space(s[skip_ws(s, i)]),
    decreases s.len() - i,
{
    if i < s.len() && is_space(s[i]) {
        lemma_skip_ws_bounds(s, i + 1);
    }
}

/// `t` lists, in order, the maximal runs of characters of `h` from `i` on
/// that are not white space; every other character from `i` on is white
/// space.
pub open spec fn maximal_runs(h: Seq<char>, i: int, t: Seq<(int, int)>) -> bool {
    &&& forall|k: int| 0 <= k < t.len() ==> i <= (#[trigger] t[k]).0 < t[k].1 <= h.len()
    &&& forall|k: int| 0 <= k < t.len() - 1 ==> (#[trigger] t[k]).1 < t[k + 1].0
    &&& forall|k: int, m: int|
        #![trigger t[k], h[m]]
        0 <= k < t.len() && t[k].0 <= m < t[k].1 ==> !is_space(h[m])
    &&& forall|k: int|
        0 <= k < t.len() ==> (#[trigger] t[k]).1 == h.len() || is_space(h[t[k].1])
    &&& forall|k: int|
        0 <= k < t.len() ==> (#[trigger] t[k]).0 == i || is_space(h[t[k].0 - 1])
    &&& forall|m: int|
        i <= m < h.len() && !is_space(#[trigger] h[m]) ==> exists|k: int|
            0 <= k < t.len() && (#[trigger] t[k]).0 <= m < t[k].1
}

/// Splitting a header into tokens finds exactly its maximal runs of
/// characters that are not white space, in order.
pub proof fn lemma_ws_tokens(h: Seq<char>, i: int)
    requires
        0 <= i <= h.len(),
    ensures
        maximal_runs(h, i, ws_tokens(h, i)),
    decreases h.len() - i,
{
    let a = skip_ws(h, i);
    lemma_skip_ws_bounds(h, i);
    let t = ws_tokens(h, i);
    if a < h.len() {
        let b = scan_end(h, a, h.len() as int, Stop::Space);
        lemma_scan_end(h, a, h.len() as int, Stop::Space);
        assert(b > a);
        lemma_ws_tokens(h, b);
        let rest = ws_tokens(h, b);
        assert(t == seq![(a, b)] + rest);
        assert forall|k: int| 0 <= k < t.len() implies i <= (#[trigger] t[k]).0 < t[k].1 <= h.len()
            && (t[k].1 == h.len() || is_space(h[t[k].1])) && (t[k].0 == i || is_space(
            h[t[k].0 - 1],
        )) by {
            if k > 0 {
                assert(t[k] == rest[k - 1]);
                if rest[k - 1].0 == b {
                    assert(!is_space(h[b]));
                }
            } else if a > i {
                assert(is_space(h[a - 1]));
            }
        }
        assert forall|k: int| 0 <= k < t.len() - 1 implies (#[trigger] t[k]).1 < t[k + 1].0 by {
            assert(t[k + 1] == rest[k]);
            if k > 0 {
                assert(t[k] == rest[k - 1]);
            } else if rest[0].0 == b {
                assert(!is_space(h[b]));
            }
        }
        assert forall|k: int, m: int|
            #![trigger t[k], h[m]]
            0 <= k < t.len() && t[k].0 <= m < t[k].1 implies !is_space(h[m]) by {
            if k > 0 {
                assert(t[k] == rest[k - 1]);
            } else {
                assert(!stops(Stop::Space, h[m]));
            }
        }
        assert forall|m: int| i <= m < h.len() && !is_space(#[trigger] h[m]) implies exists|k: int|
            0 <= k < t.len() && (#[trigger] t[k]).0 <= m < t[k].1 by {
            if m < b {
                assert(t[0] == (a, b));
            } else {
                let k = choose|k: int| 0 <= k < rest.len() && (#[trigger] rest[k]).0 <= m < rest[k].1;
                assert(t[k + 1] == rest[k]);
            }
        }
    }
}

/// The text of a token.
pub open spec fn token_text(h: Seq<char>, tok: (int, int)) -> Seq<char> {
    h.subrange(tok.0, tok.1)
}

proof fn lemma_as_indices(h: Seq<char>, toks: Seq<(int, int)>, k: int)
    requires
        0 <= k,
    ensures
        forall|j: int|
            0 <= j < as_indices(h, toks, k).len() ==> k <= #[trigger] as_indices(h, toks, k)[j]
                < toks.len() && token_text(h, toks[as_indices(h, toks, k)[j]]) == "as"@,
        forall|m: int|
            k <= m < toks.len() && token_text(h, toks[m]) == "as"@ ==> as_indices(
                h,
                toks,
                k,
            ).contains(m),
        forall|j1: int, j2: int|
            0 <= j1 < j2 < as_indices(h, toks, k).len() ==> as_indices(h, toks, k)[j1]
                < as_indices(h, toks, k)[j2],
    decreases toks.len() - k,
{
    if k < toks.len() {
        lemma_as_indices(h, toks, k + 1);
        let rest = as_indices(h, toks, k + 1);
        if token_text(h, toks[k]) == "as"@ {
            let all = seq![k] + rest;
            assert(as_indices(h, toks, k) == all);
            assert forall|j: int| 0 <= j < all.len() implies k <= #[trigger] all[j] < toks.len()
                && token_text(h, toks[all[j]]) == "as"@ by {
                if j > 0 {
                    assert(all[j] == rest[j - 1]);
                }
            }
            assert forall|m: int|
                k <= m < toks.len() && token_text(h, toks[m]) == "as"@ implies all.contains(m) by {
                if m == k {
                    assert(all[0] == k);
                } else {
                    assert(rest.contains(m));
                    let j = choose|j: int| 0 <= j < rest.len() && rest[j] == m;
                    assert(all[j + 1] == m);
                }
            }
            assert forall|j1: int, j2: int| 0 <= j1 < j2 < all.len() implies all[j1] < all[j2] by {
                assert(all[j2] == rest[j2 - 1]);
                if j1 > 0 {
                    assert(all[j1] == rest[j1 - 1]);
                }
            }
        }
    }
}

proof fn lemma_trim_end_spaces(s: Seq<char>, lo: int, hi: int)
    requires
        0 <= lo <= hi <= s.len(),
    ensures
        forall|m: int| trim_end(s, lo, hi) <= m < hi ==> is_space(#[trigger] s[m]),
    decreases hi - lo,
{
    if lo < hi && is_space(s[hi - 1]) {
        lemma_trim_end_spaces(s, lo, hi - 1);
    }
}

/// A `foreach` header is read exactly when one of its white-space separated
/// tokens reads `as`, at least one token comes before it and exactly one
/// after it. The collection is then the text before the `as` token, without
/// white space at either end, and the item is the last token.
#[verifier::rlimit(40)]
pub proof fn lemma_foreach_header(h: Seq<char>)
    ensures
        maximal_runs(h, 0, ws_tokens(h, 0)),
        foreach_header(h) is Ok <==> exists|a: int|
            #![trigger ws_tokens(h, 0)[a]]
            1 <= a && a + 2 == ws_tokens(h, 0).len() && token_text(h, ws_tokens(h, 0)[a]) == "as"@
                && forall|b: int|
                0 <= b < ws_tokens(h, 0).len() && b != a ==> token_text(
                    h,
                    #[trigger] ws_tokens(h, 0)[b],
                ) != "as"@,
        foreach_header(h) matches Ok((collection, lo, hi)) ==> {
            let toks = ws_tokens(h, 0);
            let cut = toks[toks.len() - 2].0;
            &&& (lo, hi) == toks[toks.len() - 1]
            &&& exists|p: int, q: int|
                0 <= p <= q <= cut && collection == h.subrange(p, q) && (forall|m: int|
                    0 <= m < p ==> is_space(#[trigger] h[m])) && (forall|m: int|
                    q <= m < cut ==> is_space(#[trigger] h[m])) && (p < q ==> !is_space(h[p])
                    && !is_space(h[q - 1]))
        },
{
    reveal(foreach_header);
    lemma_ws_tokens(h, 0);
    let toks = ws_tokens(h, 0);
    let found = as_indices(h, toks, 0);
    lemma_as_indices(h, toks, 0);
    if foreach_header(h) is Ok {
        let a = found[0];
        assert forall|b: int|
            0 <= b < toks.len() && b != a implies token_text(h, #[trigger] toks[b]) != "as"@ by {
            if token_text(h, toks[b]) == "as"@ {
                assert(found.contains(b));
            }
        }
        assert(toks[a] == toks[a]);
        let cut = toks[a].0;
        lemma_skip_ws_in(h, 0, cut);
        let p = skip_ws_in(h, 0, cut);
        lemma_trim_end(h, p, cut);
        let q = trim_end(h, p, cut);
        lemma_trim_end_spaces(h, p, cut);
        assert(0 <= p <= q <= cut);
    }
    if exists|a: int|
        #![trigger toks[a]]
        1 <= a && a + 2 == toks.len() && token_text(h, toks[a]) == "as"@ && forall|b: int|
            0 <= b < toks.len() && b != a ==> token_text(h, #[trigger] toks[b]) != "as"@ {
        let a = choose|a: int|
            #![trigger toks[a]]
            1 <= a && a + 2 == toks.len() && token_text(h, toks[a]) == "as"@ && forall|b: int|
                0 <= b < toks.len() && b != a ==> token_text(h, #[trigger] toks[b]) != "as"@;
        assert(found.contains(a));
        assert forall|j: int| 0 <= j < found.len() implies found[j] == a by {
            assert(token_text(h, toks[found[j]]) == "as"@);
        }
        if found.len() > 1 {
            assert(found[0] == a && found[1] == a);
        }
        assert(found.len() == 1);
    }
}

proof fn lemma_attributes_end(s: Seq<char>, i: int)
    requires
        0 <= i <= s.len(),
    ensures
        parse_attributes(s, i) matches Ok((_, self_closing, q)) ==> i < q <= s.len() && if self_closing {
            starts_at(s, q - 2, "/>"@)
        } else {
            starts_at(s, q - 1, ">"@)
        },
    decreases s.len() - i,
{
    reveal(parse_attributes);
    reveal_strlit("/>");
    reveal_strlit(">");
    reveal_strlit("=");
    lemma_skip_ws_bounds(s, i);
    let p = skip_ws(s, i);
    if !starts_at(s, p, "/>"@) && !starts_at(s, p, ">"@) && p < s.len() && !starts_at(s, p, "{"@) {
        let ne = scan_end(s, p, s.len() as int, Stop::AttrName);
        if ne != p {
            lemma_scan_end(s, p, s.len() as int, Stop::AttrName);
            lemma_skip_ws_bounds(s, ne);
            let q = skip_ws(s, ne);
            let value = if starts_at(s, q, "="@) {
                parse_attr_value(s, skip_ws(s, q + "="@.len()))
            } else {
                Ok((SpecAttrValue::Bool, q))
            };
            if let Ok((v, e)) = value {
                if p < e <= s.len() {
                    lemma_attributes_end(s, e);
                }
            }
        }
    }
}

/// An element that parses is written `<` and its name, then its attributes,
/// then either `/>` with no children, or `>`, its children, `</`, its name
/// again, optional white space and `>`.
pub proof fn lemma_element_text(s: Seq<char>, i: int)
    requires
        0 <= i <= s.len(),
    ensures
        parse_element(s, i) matches Ok((n, k)) ==> n matches SpecNode::Element(e) && {
            &&& starts_at(s, i, "<"@)
            &&& starts_at(s, i + 1, e.name.text())
            &&& (e.children.len() == 0 && starts_at(s, k - 2, "/>"@)) || exists|c: int|
                starts_at(s, c, "</"@) && starts_at(s, c + 2, #[trigger] e.name.text())
                    && c + 2 + e.name.text().len() <= k - 1 && (forall|m: int|
                    c + 2 + e.name.text().len() <= m < k - 1 ==> is_space(#[trigger] s[m]))
                    && starts_at(s, k - 1, ">"@)
        },
{
    reveal(element_open);
    reveal(close_tag);
    reveal(classify_element_name);
    reveal_strlit("<");
    reveal_strlit("</");
    reveal_strlit("/>");
    reveal_strlit(">");
    if let Ok((name, raw, ne)) = element_open(s, i) {
        let p = i + 1;
        lemma_scan_end(s, p, s.len() as int, Stop::Name);
        assert(name.text() == raw);
        lemma_attributes_end(s, ne);
        if let Ok((attrs, self_closing, q)) = parse_attributes(s, ne) {
            if i < q <= s.len() && !self_closing {
                if let Ok((children, r)) = parse_nodes(s, q, Seq::empty()) {
                    if let Ok(k) = close_tag(s, i, r, raw) {
                        let cs = r + 2;
                        let ce = scan_end(s, cs, s.len() as int, Stop::Name);
                        lemma_scan_end(s, cs, s.len() as int, Stop::Name);
                        lemma_skip_ws_bounds(s, ce);
                        assert(s.subrange(cs, ce) == raw);
                        assert(ce == cs + raw.len());
                        assert(starts_at(s, r + 2, name.text()));
                    }
                }
            }
        }
    }
}

proof fn lemma_if_rest_shape(s: Seq<char>, i: int, start: int, branches: Seq<SpecBranch>)
    ensures
        parse_if_rest(s, i, start, branches) matches Ok((n, k)) ==> n matches SpecNode::If(b)
            && branches.len() <= b.branches.len() && b.branches.take(branches.len() as int)
            == branches && starts_at(s, k - 5, "{/if}"@),
    decreases s.len() - i,
{
    reveal_strlit("{/if}");
    if starts_at(s, i, "{elseif"@) {
        match read_brace_tag(s, i) {
            Err(e) => {},
            Ok(t) => if i < t.end <= s.len() {
                match elseif_condition(s, t) {
                    Err(e) => {},
                    Ok(condition) => match parse_nodes(s, t.end, if_stops()) {
                        Err(e) => {},
                        Ok((children, j)) => if t.end <= j <= s.len() {
                            let more = branches.push(SpecBranch { condition, children });
                            lemma_if_rest_shape(s, j, start, more);
                            if let Ok((SpecNode::If(b), k)) = parse_if_rest(s, j, start, more) {
                                assert(b.branches.take(branches.len() as int) =~= more.take(
                                    branches.len() as int,
                                ));
                                assert(more.take(branches.len() as int) =~= branches);
                            }
                        },
                    },
                }
            },
        }
    } else {
        if let Ok((SpecNode::If(b), k)) = parse_if_rest(s, i, start, branches) {
            assert(b.branches.take(branches.len() as int) =~= branches);
        }
    }
}

/// An `{if}` block that parses ends with `{/if}`, and its first branch
/// tests the expression of the block's header over the nodes read right
/// after the `{if ...}` tag; the branches after it come from `{elseif}` tags.
pub proof fn lemma_if_block(s: Seq<char>, i: int, start: int, header: Seq<char>, hs: int, he: int)
    ensures
        parse_if(s, i, start, header, hs, he) matches Ok((n, k)) ==> {
            &&& n matches SpecNode::If(b)
            &&& b.branches.len() >= 1
            &&& spec_parse_expr(header) == Ok::<SpecExpr, Seq<char>>(b.branches[0].condition)
            &&& parse_nodes(s, i, if_stops()) matches Ok((children, _))
            &&& b.branches[0].children == children
            &&& starts_at(s, k - 5, "{/if}"@)
            &&& b.span == span_of(s, start, k)
        },
{
    if let Ok(condition) = spec_parse_expr(header) {
        if let Ok((children, j)) = parse_nodes(s, i, if_stops()) {
            if 0 <= i <= j <= s.len() {
                let first = seq![SpecBranch { condition, children }];
                lemma_if_rest_shape(s, j, start, first);
                lemma_if_rest_span(s, j, start, first);
                if let Ok((SpecNode::If(b), k)) = parse_if_rest(s, j, start, first) {
                    assert(b.branches.take(1)[0] == b.branches[0]);
                }
            }
        }
    }
}

proof fn lemma_quoted_text_run(s: Seq<char>, i: int, j: int, k: int)
    requires
        0 <= i < j < s.len(),
        i < k <= j,
        s[j] == s[i],
        forall|m: int| i < m < j ==> s[m] != s[i] && s[m] != '{',
    ensures
        quoted_parts(s, k, s[i], i + 1, Seq::empty()) == Ok::<
            (Seq<SpecAttrPart>, int),
            SpecParseError,
        >(
            (
                if i + 1 < j {
                    seq![SpecAttrPart::Text(s.subrange(i + 1, j))]
                } else {
                    Seq::empty()
                },
                j + 1,
            ),
        ),
    decreases j - k,
{
    reveal_strlit("{$");
    reveal_strlit("{");
    if k < j {
        assert(!starts_at(s, k, "{$"@)) by {
            if starts_at(s, k, "{$"@) {
                assert(s.subrange(k, k + 2)[0] == s[k]);
            }
        }
        assert(!starts_at(s, k, "{"@)) by {
            if starts_at(s, k, "{"@) {
                assert(s.subrange(k, k + 1)[0] == s[k]);
            }
        }
        lemma_quoted_text_run(s, i, j, k + 1);
    }
}

/// A quoted attribute value ends only at the quote that opened it: text
/// between matching quotes that holds neither that quote nor `{` is read
/// as one static value, whatever else it holds (the other kind of quote
/// included, as in `title="Don't"`).
pub proof fn lemma_quoted_value_ends_at_its_quote(s: Seq<char>, i: int, j: int)
    requires
        0 <= i < j < s.len(),
        s[i] == '"' || s[i] == '\'',
        s[j] == s[i],
        forall|m: int| i < m < j ==> s[m] != s[i] && s[m] != '{',
    ensures
        parse_attr_value(s, i) == Ok::<(SpecAttrValue, int), SpecParseError>(
            (SpecAttrValue::Static(s.subrange(i + 1, j)), j + 1),
        ),
{
    reveal(parse_attr_value);
    reveal_strlit("{");
    assert(!starts_at(s, i, "{"@)) by {
        if starts_at(s, i, "{"@) {
            assert(s.subrange(i, i + 1)[0] == s[i]);
        }
    }
    lemma_quoted_text_run(s, i, j, i + 1);
    if i + 1 == j {
        assert(s.subrange(i + 1, j) =~= Seq::<char>::empty());
    }
}

/// A start tag's name is a component when it is a component name (it begins
/// with an upper-case letter) and a native element when it is a native
/// element name (it begins with a lower-case letter); any other name is
/// refused.
pub proof fn lemma_element_name_kind(name: Seq<char>)
    ensures
        classify_element_name(name) == if is_component_name(name) {
            Some(SpecElementName::Component(name))
        } else if is_native_element_name(name) {
            Some(SpecElementName::Native(name))
        } else {
            None
        },
{
    reveal(classify_element_name);
}

} // verus!
