//! Rendered expression source reads back: the text that `expr_source` writes
//! for an expression is parsed by `parse_simple_expr` into that expression.
use vstd::prelude::*;

use crate::expr::{
    all_digits, digit_value, digits_value, find_char, find_field_end, has_adjacent_indexes,
    in_run, is_float_text, lemma_run_end_bounds, number_end, parse_bp, parse_infix, parse_prefix,
    parse_segments, run_end, scan_string, segment_at, segment_wf, skip_ws, spec_number,
    spec_parse_expr, spec_parse_path, starts_number, BinaryOp, Run, SpecExpr, SpecLiteral,
    SpecPath, SpecSegment, UnaryOp,
};
use crate::lexer::starts_at;
use crate::name::is_identifier;
use crate::render::{
    binary_op_text, decimal, escaped, escaped_char, expr_text, hex_digit, int_text, literal_text, path_text,
    quoted, segment_text, segments_text,
};
use crate::text::{is_alnum, is_alpha, is_control, is_digit, is_space};

verus! {

// ---------------------------------------------------------------------------
// Which expressions read back
// ---------------------------------------------------------------------------

/// Control characters other than `\n`, `\r` and `\t` are written as
/// `\u{..}` escapes, which template string literals do not have.
pub open spec fn simple_escapes_only(v: Seq<char>) -> bool {
    forall|k: int|
        0 <= k < v.len() && is_control(#[trigger] v[k]) ==> (v[k] == '\n' || v[k] == '\r' || v[k]
            == '\t')
}

/// A number literal written without a sign.
pub open spec fn unsigned_number(e: SpecExpr) -> bool {
    match e {
        SpecExpr::Literal(SpecLiteral::Int(i)) => i >= 0,
        SpecExpr::Literal(SpecLiteral::Float(t)) => !(t.len() > 0 && (t[0] == '-' || t[0] == '+')),
        _ => false,
    }
}

/// A path as `VariablePath` holds it: identifier names and no two indexes in a row.
pub open spec fn readable_path(p: SpecPath) -> bool {
    &&& is_identifier(p.root)
    &&& forall|k: int| 0 <= k < p.segments.len() ==> segment_wf(#[trigger] p.segments[k])
    &&& !has_adjacent_indexes(p.segments)
}

/// An expression whose rendered source reads back: its strings have only
/// simple escapes, its floats are float text, its paths are well formed, and
/// `-` is never applied directly to an unsigned number (whose rendering
/// would read back as one negative number).
pub open spec fn readable(e: SpecExpr) -> bool
    decreases e,
{
    match e {
        SpecExpr::Literal(SpecLiteral::String(v)) => simple_escapes_only(v),
        SpecExpr::Literal(SpecLiteral::Float(t)) => is_float_text(t),
        SpecExpr::Literal(_) => true,
        SpecExpr::Variable(p) => readable_path(p),
        SpecExpr::Unary { op, expr } => readable(*expr) && !(op == UnaryOp::Neg && unsigned_number(
            *expr,
        )),
        SpecExpr::Binary { left, right, .. } => readable(*left) && readable(*right),
    }
}

/// Where a token of rendered source ends: at the end, at a space or at `)`.
pub open spec fn ends_token(s: Seq<char>, k: int) -> bool {
    k == s.len() || (0 <= k < s.len() && (s[k] == ' ' || s[k] == ')'))
}

// ---------------------------------------------------------------------------
// Text helpers
// ---------------------------------------------------------------------------

proof fn lemma_char_at(s: Seq<char>, k: int, t: Seq<char>, m: int)
    requires
        starts_at(s, k, t),
        0 <= m < t.len(),
    ensures
        s[k + m] == t[m],
{
    assert(s.subrange(k, k + t.len())[m] == s[k + m]);
}

proof fn lemma_starts_at_split(s: Seq<char>, k: int, a: Seq<char>, b: Seq<char>)
    requires
        starts_at(s, k, a + b),
    ensures
        starts_at(s, k, a),
        starts_at(s, k + a.len(), b),
{
    assert(s.subrange(k, k + a.len()) =~= (a + b).subrange(0, a.len() as int));
    assert((a + b).subrange(0, a.len() as int) =~= a);
    assert(s.subrange(k + a.len(), k + a.len() + b.len()) =~= (a + b).subrange(
        a.len() as int,
        (a + b).len() as int,
    ));
    assert((a + b).subrange(a.len() as int, (a + b).len() as int) =~= b);
}

proof fn lemma_run_to(s: Seq<char>, a: int, b: int, kind: Run)
    requires
        0 <= a <= b <= s.len(),
        forall|m: int| a <= m < b ==> in_run(kind, s, m),
        b == s.len() || !in_run(kind, s, b),
    ensures
        run_end(s, a, kind) == b,
    decreases b - a,
{
    if a < b {
        lemma_run_to(s, a + 1, b, kind);
    }
}

proof fn lemma_skip_none(s: Seq<char>, k: int)
    requires
        0 <= k < s.len(),
        !is_space(s[k]),
    ensures
        skip_ws(s, k) == k,
{
}

// ---------------------------------------------------------------------------
// Strings
// ---------------------------------------------------------------------------

proof fn lemma_escaped_append(a: Seq<char>, b: Seq<char>)
    ensures
        escaped(a + b) == escaped(a) + escaped(b),
    decreases b.len(),
{
    if b.len() == 0 {
        assert(a + b =~= a);
        assert(escaped(b) =~= Seq::<char>::empty());
        assert(escaped(a) + escaped(b) =~= escaped(a));
    } else {
        lemma_escaped_append(a, b.drop_last());
        assert((a + b).drop_last() =~= a + b.drop_last());
        assert((a + b).last() == b.last());
        assert(escaped(a) + escaped(b.drop_last()) + escaped_char(b.last()) =~= escaped(a) + (
        escaped(b.drop_last()) + escaped_char(b.last())));
    }
}

proof fn lemma_escaped_cons(c: char, w: Seq<char>)
    ensures
        escaped(seq![c] + w) == escaped_char(c) + escaped(w),
{
    lemma_escaped_append(seq![c], w);
    assert(seq![c].drop_last() =~= Seq::<char>::empty());
    assert(escaped(Seq::<char>::empty()) + escaped_char(c) =~= escaped_char(c));
}

/// The escaped text of `v`, then a closing `"`, reads back as `v`.
proof fn lemma_scan_escaped(s: Seq<char>, k: int, v: Seq<char>)
    requires
        simple_escapes_only(v),
        starts_at(s, k, escaped(v) + seq!['"']),
    ensures
        scan_string(s, k, '"') == Ok::<(Seq<char>, int), Seq<char>>((v, k + escaped(v).len() + 1)),
    decreases v.len(),
{
    if v.len() == 0 {
        assert(escaped(v) =~= Seq::<char>::empty());
        assert(v =~= Seq::<char>::empty());
        lemma_char_at(s, k, escaped(v) + seq!['"'], 0);
    } else {
        let c = v[0];
        let w = v.drop_first();
        assert(v =~= seq![c] + w);
        lemma_escaped_cons(c, w);
        let ec = escaped_char(c);
        let rest = escaped(w) + seq!['"'];
        assert(escaped(v) + seq!['"'] =~= ec + rest);
        lemma_starts_at_split(s, k, ec, rest);
        assert(simple_escapes_only(w)) by {
            assert forall|m: int| 0 <= m < w.len() && is_control(#[trigger] w[m]) implies (w[m]
                == '\n' || w[m] == '\r' || w[m] == '\t') by {
                assert(w[m] == v[m + 1]);
            }
        }
        lemma_scan_escaped(s, k + ec.len(), w);
        assert(is_control(c) ==> (c == '\n' || c == '\r' || c == '\t')) by {
            assert(v[0] == c);
        }
        if c == '\\' || c == '"' || c == '\n' || c == '\r' || c == '\t' {
            lemma_char_at(s, k, ec, 0);
            lemma_char_at(s, k, ec, 1);
            assert(ec.len() == 2);
            assert(s[k] == '\\');
            assert(crate::expr::escaped(s[k + 1]) == Some(c));
            assert(scan_string(s, k, '"') == Ok::<(Seq<char>, int), Seq<char>>((seq![c] + w, k + escaped(v).len() + 1)));
        } else {
            lemma_char_at(s, k, ec, 0);
            assert(ec.len() == 1);
            assert(s[k] == c);
            assert(scan_string(s, k, '"') == Ok::<(Seq<char>, int), Seq<char>>((seq![c] + w, k + escaped(v).len() + 1)));
        }
    }
}

proof fn lemma_read_string(s: Seq<char>, k: int, v: Seq<char>)
    requires
        simple_escapes_only(v),
        starts_at(s, k, quoted(v)),
    ensures
        parse_prefix(s, k) == Ok::<(SpecExpr, int), Seq<char>>(
            (SpecExpr::Literal(SpecLiteral::String(v)), k + quoted(v).len()),
        ),
{
    assert(quoted(v) =~= seq!['"'] + (escaped(v) + seq!['"']));
    lemma_starts_at_split(s, k, seq!['"'], escaped(v) + seq!['"']);
    lemma_char_at(s, k, seq!['"'], 0);
    lemma_scan_escaped(s, k + 1, v);
    lemma_skip_none(s, k);
}

// ---------------------------------------------------------------------------
// Numbers and words
// ---------------------------------------------------------------------------

proof fn lemma_decimal_digit(d: nat)
    requires
        d < 10,
    ensures
        is_digit(hex_digit(d)),
        digit_value(hex_digit(d)) == d,
{
    let digits = seq!['0', '1', '2', '3', '4', '5', '6', '7', '8', '9', 'a', 'b', 'c', 'd', 'e', 'f'];
    assert(hex_digit(d) == digits[d as int]);
    if d == 0 {
        assert(digits[0] == '0');
    } else if d == 1 {
        assert(digits[1] == '1');
    } else if d == 2 {
        assert(digits[2] == '2');
    } else if d == 3 {
        assert(digits[3] == '3');
    } else if d == 4 {
        assert(digits[4] == '4');
    } else if d == 5 {
        assert(digits[5] == '5');
    } else if d == 6 {
        assert(digits[6] == '6');
    } else if d == 7 {
        assert(digits[7] == '7');
    } else if d == 8 {
        assert(digits[8] == '8');
    } else {
        assert(digits[9] == '9');
    }
}

/// The decimal digits of `n` are digits and read back as `n`.
pub proof fn lemma_decimal(n: nat)
    ensures
        decimal(n).len() >= 1,
        all_digits(decimal(n)),
        digits_value(decimal(n)) == n,
    decreases n,
{
    lemma_decimal_digit(n % 10);
    if n < 10 {
        assert(decimal(n) =~= seq![hex_digit(n)]);
        assert(seq![hex_digit(n)].drop_last() =~= Seq::<char>::empty());
        assert(n % 10 == n);
        assert(digits_value(decimal(n)) == digits_value(Seq::<char>::empty()) * 10 + digit_value(
            hex_digit(n),
        ));
    } else {
        lemma_decimal(n / 10);
        let d = decimal(n / 10).push(hex_digit(n % 10));
        assert(d.drop_last() =~= decimal(n / 10));
        assert(digits_value(d) == digits_value(decimal(n / 10)) * 10 + digit_value(hex_digit(n % 10)));
        assert((n / 10) * 10 + n % 10 == n);
        assert forall|m: int| 0 <= m < d.len() implies is_digit(#[trigger] d[m]) by {
            if m < d.len() - 1 {
                assert(d[m] == decimal(n / 10)[m]);
            }
        }
    }
}

proof fn lemma_digits_in_number_run(s: Seq<char>, a: int, t: Seq<char>)
    requires
        starts_at(s, a, t),
        all_digits(t),
    ensures
        forall|m: int| a <= m < a + t.len() ==> in_run(Run::Number, s, m),
{
    assert forall|m: int| a <= m < a + t.len() implies in_run(Run::Number, s, m) by {
        lemma_char_at(s, a, t, m - a);
        assert(is_digit(t[m - a]));
    }
}

proof fn lemma_read_int(s: Seq<char>, k: int, i: i64)
    requires
        starts_at(s, k, int_text(i)),
        ends_token(s, k + int_text(i).len()),
    ensures
        parse_prefix(s, k) == Ok::<(SpecExpr, int), Seq<char>>(
            (SpecExpr::Literal(SpecLiteral::Int(i)), k + int_text(i).len()),
        ),
{
    let t = int_text(i);
    let end = k + t.len();
    if i < 0 {
        let n = (0 - i) as nat;
        lemma_decimal(n);
        let dn = decimal(n);
        assert(t =~= seq!['-'] + dn);
        lemma_starts_at_split(s, k, seq!['-'], dn);
        lemma_char_at(s, k, seq!['-'], 0);
        lemma_char_at(s, k + 1, dn, 0);
        lemma_digits_in_number_run(s, k + 1, dn);
        lemma_run_to(s, k + 1, end, Run::Number);
        assert(number_end(s, k) == end);
        assert(s.subrange(k, end) == t);
        assert(t.drop_first() =~= dn);
        assert(spec_number(t) == Ok::<SpecLiteral, Seq<char>>(SpecLiteral::Int(i)));
    } else {
        let n = i as nat;
        lemma_decimal(n);
        lemma_char_at(s, k, t, 0);
        lemma_digits_in_number_run(s, k, t);
        lemma_run_to(s, k, end, Run::Number);
        assert(number_end(s, k) == end);
        assert(s.subrange(k, end) == t);
        assert(spec_number(t) == Ok::<SpecLiteral, Seq<char>>(SpecLiteral::Int(i)));
    }
    lemma_skip_none(s, k);
}

proof fn lemma_read_float(s: Seq<char>, k: int, t: Seq<char>)
    requires
        is_float_text(t),
        starts_at(s, k, t),
        ends_token(s, k + t.len()),
    ensures
        parse_prefix(s, k) == Ok::<(SpecExpr, int), Seq<char>>(
            (SpecExpr::Literal(SpecLiteral::Float(t)), k + t.len()),
        ),
{
    let end = k + t.len();
    let k0: int = if t.len() > 0 && (t[0] == '-' || t[0] == '+') {
        1
    } else {
        0
    };
    let k1 = run_end(t, k0, Run::Digits);
    let k2 = run_end(t, k1 + 1, Run::Digits);
    lemma_run_end_bounds(t, k0, Run::Digits);
    lemma_run_end_bounds(t, k1 + 1, Run::Digits);
    let k3: int = if k2 + 1 < t.len() && (t[k2 + 1] == '+' || t[k2 + 1] == '-') {
        k2 + 2
    } else {
        k2 + 1
    };
    if k2 < t.len() {
        lemma_run_end_bounds(t, k3, Run::Digits);
    }
    assert forall|p: int| k + k0 <= p < end implies in_run(Run::Number, s, p) by {
        let m = p - k;
        lemma_char_at(s, k, t, m);
        if m < k1 {
            assert(in_run(Run::Digits, t, m));
        } else if m == k1 {
        } else if m < k2 {
            assert(in_run(Run::Digits, t, m));
        } else if m == k2 {
        } else if m == k2 + 1 && k3 == k2 + 2 {
            lemma_char_at(s, k, t, m - 1);
        } else {
            assert(in_run(Run::Digits, t, m));
        }
    }
    lemma_run_to(s, k + k0, end, Run::Number);
    lemma_char_at(s, k, t, 0);
    if k0 == 1 {
        lemma_char_at(s, k, t, 1);
        if k1 == 1 {
            lemma_char_at(s, k, t, 2);
        }
    } else if k1 == 0 {
        lemma_char_at(s, k, t, 1);
    }
    assert(starts_number(s, k));
    assert(number_end(s, k) == end);
    assert(s.subrange(k, end) == t);
    let body = if k0 == 1 {
        t.drop_first()
    } else {
        t
    };
    assert(body[k1 - k0] == t[k1]);
    assert(!all_digits(body));
    assert(spec_number(t) == Ok::<SpecLiteral, Seq<char>>(SpecLiteral::Float(t)));
    lemma_skip_none(s, k);
}

proof fn lemma_read_word(s: Seq<char>, k: int, l: SpecLiteral)
    requires
        l is Bool || l is Null,
        starts_at(s, k, literal_text(l)),
        ends_token(s, k + literal_text(l).len()),
    ensures
        parse_prefix(s, k) == Ok::<(SpecExpr, int), Seq<char>>(
            (SpecExpr::Literal(l), k + literal_text(l).len()),
        ),
{
    reveal_strlit("true");
    reveal_strlit("false");
    reveal_strlit("null");
    let t = literal_text(l);
    let end = k + t.len();
    assert forall|m: int| k <= m < end implies in_run(Run::Word, s, m) by {
        lemma_char_at(s, k, t, m - k);
    }
    lemma_run_to(s, k, end, Run::Word);
    lemma_char_at(s, k, t, 0);
    assert(s.subrange(k, end) == t);
    lemma_skip_none(s, k);
}

// ---------------------------------------------------------------------------
// Paths
// ---------------------------------------------------------------------------

/// Every character of an identifier is a letter, a digit or `_`.
proof fn lemma_identifier_chars(f: Seq<char>, m: int)
    requires
        is_identifier(f),
        0 <= m < f.len(),
    ensures
        is_alnum(f[m]) || f[m] == '_',
{
    if m > 0 {
        assert(crate::name::tail_accepts(crate::name::NameTail::Identifier, f[m]));
    }
}

/// The text of a path's segments is the text of each segment, in order.
pub proof fn lemma_segments_text_append(a: Seq<SpecSegment>, b: Seq<SpecSegment>)
    ensures
        segments_text(a + b) == segments_text(a) + segments_text(b),
    decreases b.len(),
{
    if b.len() == 0 {
        assert(a + b =~= a);
        assert(segments_text(b) =~= Seq::<char>::empty());
        assert(segments_text(a) + segments_text(b) =~= segments_text(a));
    } else {
        lemma_segments_text_append(a, b.drop_last());
        assert((a + b).drop_last() =~= a + b.drop_last());
        assert((a + b).last() == b.last());
        assert(segments_text(a) + segments_text(b.drop_last()) + segment_text(b.last())
            =~= segments_text(a) + (segments_text(b.drop_last()) + segment_text(b.last())));
    }
}

proof fn lemma_segments_text_cons(g: SpecSegment, rest: Seq<SpecSegment>)
    ensures
        segments_text(seq![g] + rest) == segment_text(g) + segments_text(rest),
{
    lemma_segments_text_append(seq![g], rest);
    assert(seq![g].drop_last() =~= Seq::<SpecSegment>::empty());
    assert(segments_text(Seq::<SpecSegment>::empty()) + segment_text(g) =~= segment_text(g));
}

/// What a character of rendered path text may be.
pub open spec fn path_char(c: char) -> bool {
    is_alnum(c) || c == '_' || c == '.' || c == '[' || c == ']'
}

proof fn lemma_segment_text_chars(g: SpecSegment)
    requires
        segment_wf(g),
    ensures
        segment_text(g).len() >= 2,
        segment_text(g)[0] == '.' || segment_text(g)[0] == '[',
        forall|m: int| 0 <= m < segment_text(g).len() ==> path_char(#[trigger] segment_text(g)[m]),
{
    match g {
        SpecSegment::Field(f) => {
            let t = segment_text(g);
            assert forall|m: int| 0 <= m < t.len() implies path_char(#[trigger] t[m]) by {
                if m > 0 {
                    lemma_identifier_chars(f, m - 1);
                }
            }
        },
        SpecSegment::Index(n) => {
            lemma_decimal(n as nat);
            let t = segment_text(g);
            let d = decimal(n as nat);
            assert forall|m: int| 0 <= m < t.len() implies path_char(#[trigger] t[m]) by {
                if 0 < m < t.len() - 1 {
                    assert(t[m] == d[m - 1]);
                    assert(is_digit(d[m - 1]));
                }
            }
        },
    }
}

proof fn lemma_segments_text_chars(segs: Seq<SpecSegment>)
    requires
        forall|k: int| 0 <= k < segs.len() ==> segment_wf(#[trigger] segs[k]),
    ensures
        forall|m: int| 0 <= m < segments_text(segs).len() ==> path_char(#[trigger] segments_text(segs)[m]),
        segs.len() > 0 ==> segments_text(segs).len() > 0 && (segments_text(segs)[0] == '.'
            || segments_text(segs)[0] == '['),
    decreases segs.len(),
{
    if segs.len() > 0 {
        let init = segs.drop_last();
        assert forall|k: int| 0 <= k < init.len() implies segment_wf(#[trigger] init[k]) by {
            assert(init[k] == segs[k]);
        }
        lemma_segments_text_chars(init);
        lemma_segment_text_chars(segs.last());
        let a = segments_text(init);
        let b = segment_text(segs.last());
        assert forall|m: int| 0 <= m < segments_text(segs).len() implies path_char(
            #[trigger] segments_text(segs)[m],
        ) by {
            if m < a.len() {
                assert(segments_text(segs)[m] == a[m]);
            } else {
                assert(segments_text(segs)[m] == b[m - a.len()]);
            }
        }
        if init.len() == 0 {
            assert(segments_text(segs)[0] == b[0]);
        } else {
            assert(segments_text(segs)[0] == a[0]);
        }
    }
}

proof fn lemma_field_end_to(s: Seq<char>, a: int, b: int)
    requires
        0 <= a <= b <= s.len(),
        forall|m: int| a <= m < b ==> s[m] != '.' && s[m] != '[',
        b == s.len() || s[b] == '.' || s[b] == '[',
    ensures
        find_field_end(s, a) == b,
    decreases b - a,
{
    if a < b {
        lemma_field_end_to(s, a + 1, b);
    }
}

proof fn lemma_find_char_to(s: Seq<char>, a: int, b: int, c: char)
    requires
        0 <= a <= b < s.len(),
        forall|m: int| a <= m < b ==> s[m] != c,
        s[b] == c,
    ensures
        find_char(s, a, c) == Some(b),
    decreases b - a,
{
    if a < b {
        lemma_find_char_to(s, a + 1, b, c);
    }
}

/// The text of well-formed segments, read from `i` to the end, gives them back.
proof fn lemma_parse_segments(q: Seq<char>, i: int, segs: Seq<SpecSegment>)
    requires
        0 <= i <= q.len(),
        forall|k: int| 0 <= k < segs.len() ==> segment_wf(#[trigger] segs[k]),
        q.subrange(i, q.len() as int) == segments_text(segs),
    ensures
        parse_segments(q, i) == Ok::<Seq<SpecSegment>, Seq<char>>(segs),
    decreases segs.len(),
{
    if segs.len() == 0 {
        assert(segments_text(segs) =~= Seq::<char>::empty());
        assert(segs =~= Seq::<SpecSegment>::empty());
    } else {
        let g = segs[0];
        let rest = segs.drop_first();
        assert(segs =~= seq![g] + rest);
        lemma_segments_text_cons(g, rest);
        let gt = segment_text(g);
        let rt = segments_text(rest);
        assert forall|k: int| 0 <= k < rest.len() implies segment_wf(#[trigger] rest[k]) by {
            assert(rest[k] == segs[k + 1]);
        }
        lemma_segment_text_chars(g);
        lemma_segments_text_chars(rest);
        let j = i + gt.len();
        assert(q.subrange(i, q.len() as int) == gt + rt);
        assert(q.len() - i == gt.len() + rt.len());
        assert(q.subrange(j, q.len() as int) =~= rt) by {
            assert forall|m: int| 0 <= m < rt.len() implies q.subrange(j, q.len() as int)[m]
                == rt[m] by {
                assert(q.subrange(i, q.len() as int)[gt.len() + m] == (gt + rt)[gt.len() + m]);
                assert(q.subrange(i, q.len() as int)[gt.len() + m] == q[j + m]);
            }
        }
        assert forall|m: int| 0 <= m < gt.len() implies q[i + m] == #[trigger] gt[m] by {
            assert(q.subrange(i, q.len() as int)[m] == (gt + rt)[m]);
        }
        assert(j == q.len() || q[j] == '.' || q[j] == '[') by {
            if j < q.len() {
                assert(q.subrange(j, q.len() as int)[0] == q[j]);
            }
        }
        match g {
            SpecSegment::Field(f) => {
                assert(q[i] == '.');
                assert forall|m: int| i + 1 <= m < j implies q[m] != '.' && q[m] != '[' by {
                    assert(q[m] == gt[m - i]);
                    assert(gt[m - i] == f[m - i - 1]);
                    lemma_identifier_chars(f, m - i - 1);
                }
                lemma_field_end_to(q, i + 1, j);
                assert(q.subrange(i + 1, j) =~= f) by {
                    assert forall|m: int| 0 <= m < f.len() implies q.subrange(i + 1, j)[m] == f[m] by {
                        assert(q[i + 1 + m] == gt[m + 1]);
                    }
                }
                assert(segment_at(q, i) == Ok::<(SpecSegment, int), Seq<char>>((g, j)));
            },
            SpecSegment::Index(n) => {
                lemma_decimal(n as nat);
                let d = decimal(n as nat);
                assert(q[i] == '[');
                assert forall|m: int| i + 1 <= m < j - 1 implies q[m] != ']' by {
                    assert(q[m] == gt[m - i]);
                    assert(gt[m - i] == d[m - i - 1]);
                    assert(is_digit(d[m - i - 1]));
                }
                assert(q[j - 1] == gt[gt.len() - 1]);
                lemma_find_char_to(q, i + 1, j - 1, ']');
                assert(q.subrange(i + 1, j - 1) =~= d) by {
                    assert forall|m: int| 0 <= m < d.len() implies q.subrange(i + 1, j - 1)[m]
                        == d[m] by {
                        assert(q[i + 1 + m] == gt[m + 1]);
                    }
                }
                assert(segment_at(q, i) == Ok::<(SpecSegment, int), Seq<char>>((g, j)));
            },
        }
        lemma_parse_segments(q, j, rest);
    }
}

proof fn lemma_read_path(s: Seq<char>, k: int, p: SpecPath)
    requires
        readable_path(p),
        starts_at(s, k, path_text(p)),
        ends_token(s, k + path_text(p).len()),
    ensures
        parse_prefix(s, k) == Ok::<(SpecExpr, int), Seq<char>>(
            (SpecExpr::Variable(p), k + path_text(p).len()),
        ),
{
    let t = path_text(p);
    let end = k + t.len();
    let st = segments_text(p.segments);
    let q = p.root + st;
    assert(t =~= seq!['$'] + q);
    lemma_starts_at_split(s, k, seq!['$'], q);
    lemma_char_at(s, k, seq!['$'], 0);
    lemma_segments_text_chars(p.segments);
    assert forall|m: int| k + 1 <= m < end implies in_run(Run::Path, s, m) by {
        lemma_char_at(s, k + 1, q, m - k - 1);
        if m - k - 1 < p.root.len() {
            assert(q[m - k - 1] == p.root[m - k - 1]);
            lemma_identifier_chars(p.root, m - k - 1);
        } else {
            assert(q[m - k - 1] == st[m - k - 1 - p.root.len()]);
        }
    }
    lemma_run_to(s, k + 1, end, Run::Path);
    assert(s.subrange(k + 1, end) == q);
    lemma_path_source_reads_back(p);
    assert(t.drop_first() =~= q);
    lemma_skip_none(s, k);
}

/// The source the renderer writes for a variable path reads back, after
/// its `$`, as that path: for every path with identifier names and no two
/// indexes in a row, which is every path a `VariablePath` holds.
pub proof fn lemma_path_source_reads_back(p: SpecPath)
    requires
        readable_path(p),
    ensures
        spec_parse_path(path_text(p).drop_first()) == Ok::<SpecPath, Seq<char>>(p),
{
    let st = segments_text(p.segments);
    let q = p.root + st;
    assert(path_text(p).drop_first() =~= q);
    lemma_segments_text_chars(p.segments);
    let r = p.root.len() as int;
    assert forall|m: int| 0 <= m < r implies q[m] != '.' && q[m] != '[' by {
        assert(q[m] == p.root[m]);
        lemma_identifier_chars(p.root, m);
    }
    if p.segments.len() > 0 {
        assert(q[r] == st[0]);
    }
    assert(st.len() == 0 ==> q.len() == r);
    lemma_field_end_to(q, 0, r);
    assert(q.subrange(r, q.len() as int) =~= st);
    lemma_parse_segments(q, r, p.segments);
    assert(q.subrange(0, r) =~= p.root);
    assert(spec_parse_path(q) == Ok::<SpecPath, Seq<char>>(p));
}

// ---------------------------------------------------------------------------
// Expressions
// ---------------------------------------------------------------------------

proof fn lemma_first_char(e: SpecExpr)
    requires
        readable(e),
    ensures
        expr_text(e).len() >= 1,
        !is_space(expr_text(e)[0]),
        expr_text(e)[0] != ')',
        !unsigned_number(e) ==> !is_digit(expr_text(e)[0]) && expr_text(e)[0] != '.',
{
    reveal_strlit("true");
    reveal_strlit("false");
    reveal_strlit("null");
    match e {
        SpecExpr::Literal(SpecLiteral::Int(i)) => {
            if i < 0 {
                lemma_decimal((0 - i) as nat);
            } else {
                lemma_decimal(i as nat);
                lemma_decimal_digit(0);
                assert(is_digit(decimal(i as nat)[0]));
            }
        },
        SpecExpr::Literal(SpecLiteral::Float(t)) => {
            let k0: int = if t.len() > 0 && (t[0] == '-' || t[0] == '+') {
                1
            } else {
                0
            };
            lemma_run_end_bounds(t, k0, Run::Digits);
        },
        _ => {},
    }
}

/// A binary operator's text, followed by a space, is read as that operator.
proof fn lemma_binop_at(s: Seq<char>, i: int, op: BinaryOp)
    requires
        starts_at(s, i, crate::render::binary_op_text(op)),
        i + crate::render::binary_op_text(op).len() < s.len(),
        s[i + crate::render::binary_op_text(op).len()] == ' ',
    ensures
        crate::expr::binop_at(s, i) == Some(op),
        crate::expr::op_width(op) == crate::render::binary_op_text(op).len(),
{
    reveal_strlit("||");
    reveal_strlit("&&");
    reveal_strlit("==");
    reveal_strlit("!=");
    reveal_strlit(">");
    reveal_strlit(">=");
    reveal_strlit("<");
    reveal_strlit("<=");
    reveal_strlit("+");
    reveal_strlit("-");
    reveal_strlit("*");
    reveal_strlit("/");
    reveal_strlit("%");
    let t = crate::render::binary_op_text(op);
    lemma_char_at(s, i, t, 0);
    if t.len() == 2 {
        lemma_char_at(s, i, t, 1);
    }
}

/// Reading from a space is reading from just after it.
proof fn lemma_prefix_space(s: Seq<char>, i: int)
    requires
        0 <= i < s.len(),
        is_space(s[i]),
    ensures
        parse_prefix(s, i) == parse_prefix(s, i + 1),
{
    crate::expr::lemma_skip_ws_bounds(s, i + 1);
}

/// An expression ends where a `)` stands: no operator follows it.
proof fn lemma_bp_at_close(s: Seq<char>, k: int, e: SpecExpr, m: int, min_bp: nat)
    requires
        0 <= k < m < s.len(),
        s[m] == ')',
        parse_prefix(s, k) == Ok::<(SpecExpr, int), Seq<char>>((e, m)),
    ensures
        parse_bp(s, k, min_bp) == Ok::<(SpecExpr, int), Seq<char>>((e, m)),
{
    lemma_skip_none(s, m);
    assert(parse_infix(s, e, m, min_bp) == Ok::<(SpecExpr, int), Seq<char>>((e, m)));
}

/// Reading `(op x)` once `x` is known to read back.
proof fn lemma_read_unary(s: Seq<char>, k: int, op: UnaryOp, x: SpecExpr)
    requires
        readable(x),
        !(op == UnaryOp::Neg && unsigned_number(x)),
        starts_at(s, k, seq!['('] + crate::render::unary_op_text(op) + expr_text(x) + seq![')']),
        parse_prefix(s, k + 2) == Ok::<(SpecExpr, int), Seq<char>>(
            (x, k + 2 + expr_text(x).len()),
        ),
    ensures
        parse_prefix(s, k) == Ok::<(SpecExpr, int), Seq<char>>(
            (SpecExpr::Unary { op, expr: Box::new(x) }, k + 3 + expr_text(x).len()),
        ),
{
    reveal_strlit("!");
    reveal_strlit("-");
    let e = SpecExpr::Unary { op, expr: Box::new(x) };
    let xt = expr_text(x);
    let ot = crate::render::unary_op_text(op);
    lemma_starts_at_split(s, k, seq!['('] + ot + xt, seq![')']);
    lemma_starts_at_split(s, k, seq!['('] + ot, xt);
    lemma_starts_at_split(s, k, seq!['('], ot);
    lemma_char_at(s, k, seq!['('], 0);
    lemma_char_at(s, k + 1, ot, 0);
    let m = k + 2 + xt.len();
    lemma_char_at(s, m, seq![')'], 0);
    lemma_first_char(x);
    lemma_char_at(s, k + 2, xt, 0);
    lemma_bp_at_close(s, k + 2, x, m, crate::expr::prefix_power());
    lemma_skip_none(s, k + 1);
    assert(parse_prefix(s, k + 1) == Ok::<(SpecExpr, int), Seq<char>>((e, m)));
    lemma_bp_at_close(s, k + 1, e, m, 0);
    lemma_skip_none(s, k);
    lemma_skip_none(s, m);
}

/// Reading `(l op r)` once `l` and `r` are known to read back.
proof fn lemma_read_binary(s: Seq<char>, k: int, op: BinaryOp, l: SpecExpr, r: SpecExpr)
    requires
        readable(l),
        readable(r),
        starts_at(
            s,
            k,
            seq!['('] + expr_text(l) + seq![' '] + crate::render::binary_op_text(op) + seq![' ']
                + expr_text(r) + seq![')'],
        ),
        parse_prefix(s, k + 1) == Ok::<(SpecExpr, int), Seq<char>>(
            (l, k + 1 + expr_text(l).len()),
        ),
        parse_prefix(s, k + 3 + expr_text(l).len() + crate::render::binary_op_text(op).len())
            == Ok::<(SpecExpr, int), Seq<char>>(
            (
                r,
                k + 3 + expr_text(l).len() + crate::render::binary_op_text(op).len() + expr_text(
                    r,
                ).len(),
            ),
        ),
    ensures
        parse_prefix(s, k) == Ok::<(SpecExpr, int), Seq<char>>(
            (
                SpecExpr::Binary { op, left: Box::new(l), right: Box::new(r) },
                k + 4 + expr_text(l).len() + crate::render::binary_op_text(op).len() + expr_text(
                    r,
                ).len(),
            ),
        ),
{
    let e = SpecExpr::Binary { op, left: Box::new(l), right: Box::new(r) };
    let lt = expr_text(l);
    let rt = expr_text(r);
    let ot = crate::render::binary_op_text(op);
    lemma_starts_at_split(s, k, seq!['('] + lt + seq![' '] + ot + seq![' '] + rt, seq![')']);
    lemma_starts_at_split(s, k, seq!['('] + lt + seq![' '] + ot + seq![' '], rt);
    lemma_starts_at_split(s, k, seq!['('] + lt + seq![' '] + ot, seq![' ']);
    lemma_starts_at_split(s, k, seq!['('] + lt + seq![' '], ot);
    lemma_starts_at_split(s, k, seq!['('] + lt, seq![' ']);
    lemma_starts_at_split(s, k, seq!['('], lt);
    let a = k + 1 + lt.len();
    let b = a + 1 + ot.len();
    let m = b + 1 + rt.len();
    lemma_char_at(s, k, seq!['('], 0);
    lemma_char_at(s, a, seq![' '], 0);
    lemma_char_at(s, b, seq![' '], 0);
    lemma_char_at(s, m, seq![')'], 0);
    lemma_first_char(l);
    lemma_first_char(r);
    lemma_prefix_space(s, b);
    lemma_bp_at_close(s, b, r, m, crate::expr::binding_power(op).1);
    lemma_binop_at(s, a + 1, op);
    lemma_char_at(s, a + 1, ot, 0);
    lemma_skip_none(s, a + 1);
    assert(skip_ws(s, a) == a + 1);
    lemma_skip_none(s, m);
    assert(parse_infix(s, e, m, 0) == Ok::<(SpecExpr, int), Seq<char>>((e, m)));
    assert(parse_infix(s, l, a, 0) == Ok::<(SpecExpr, int), Seq<char>>((e, m)));
    lemma_char_at(s, k + 1, lt, 0);
    lemma_skip_none(s, k + 1);
    assert(parse_bp(s, k + 1, 0) == Ok::<(SpecExpr, int), Seq<char>>((e, m)));
    lemma_skip_none(s, k);
}

/// `parse_prefix` reads the rendered source of a readable expression exactly,
/// when the text ends at a space, a `)` or the end.
proof fn lemma_read_expr(s: Seq<char>, k: int, e: SpecExpr)
    requires
        readable(e),
        starts_at(s, k, expr_text(e)),
        ends_token(s, k + expr_text(e).len()),
    ensures
        parse_prefix(s, k) == Ok::<(SpecExpr, int), Seq<char>>((e, k + expr_text(e).len())),
    decreases e,
{
    match e {
        SpecExpr::Literal(l) => match l {
            SpecLiteral::String(v) => lemma_read_string(s, k, v),
            SpecLiteral::Int(i) => lemma_read_int(s, k, i),
            SpecLiteral::Float(t) => lemma_read_float(s, k, t),
            _ => lemma_read_word(s, k, l),
        },
        SpecExpr::Variable(p) => lemma_read_path(s, k, p),
        SpecExpr::Unary { op, expr } => {
            let x = *expr;
            let xt = expr_text(x);
            let ot = crate::render::unary_op_text(op);
            reveal_strlit("!");
            reveal_strlit("-");
            assert(expr_text(e) =~= seq!['('] + ot + xt + seq![')']);
            lemma_starts_at_split(s, k, seq!['('] + ot + xt, seq![')']);
            lemma_starts_at_split(s, k, seq!['('] + ot, xt);
            lemma_char_at(s, k + 2 + xt.len(), seq![')'], 0);
            lemma_read_expr(s, k + 2, x);
            lemma_read_unary(s, k, op, x);
        },
        SpecExpr::Binary { op, left, right } => {
            let l = *left;
            let r = *right;
            let lt = expr_text(l);
            let rt = expr_text(r);
            let ot = crate::render::binary_op_text(op);
            let whole = seq!['('] + lt + seq![' '] + ot + seq![' '] + rt + seq![')'];
            assert(expr_text(e) =~= whole);
            lemma_starts_at_split(s, k, seq!['('] + lt + seq![' '] + ot + seq![' '] + rt, seq![')']);
            lemma_starts_at_split(s, k, seq!['('] + lt + seq![' '] + ot + seq![' '], rt);
            assert(seq!['('] + lt + seq![' '] + ot + seq![' '] =~= (seq!['('] + lt + seq![' '])
                + (ot + seq![' ']));
            lemma_starts_at_split(s, k, seq!['('] + lt + seq![' '], ot + seq![' ']);
            lemma_starts_at_split(s, k, seq!['('] + lt, seq![' ']);
            lemma_starts_at_split(s, k, seq!['('], lt);
            let a = k + 1 + lt.len();
            let m = a + 2 + ot.len() + rt.len();
            lemma_char_at(s, a, seq![' '], 0);
            lemma_char_at(s, m, seq![')'], 0);
            lemma_read_expr(s, k + 1, l);
            lemma_read_expr(s, a + 2 + ot.len(), r);
            lemma_read_binary(s, k, op, l, r);
        },
    }
}

/// The source the renderer writes for an expression parses back to that
/// expression: for every expression whose string literals hold no control
/// characters besides `\n`, `\r` and `\t`, and in which `-` is never applied
/// directly to an unsigned number literal.
pub proof fn lemma_expr_source_reads_back(e: SpecExpr)
    requires
        readable(e),
    ensures
        spec_parse_expr(expr_text(e)) == Ok::<SpecExpr, Seq<char>>(e),
{
    reveal(spec_parse_expr);
    let s = expr_text(e);
    assert(starts_at(s, 0, s)) by {
        assert(s.subrange(0, s.len() as int) =~= s);
    }
    lemma_first_char(e);
    lemma_read_expr(s, 0, e);
    lemma_skip_none(s, 0);
    assert(parse_infix(s, e, s.len() as int, 0) == Ok::<(SpecExpr, int), Seq<char>>(
        (e, s.len() as int),
    ));
}

// ---------------------------------------------------------------------------
// Precedence
// ---------------------------------------------------------------------------

/// How tightly a binary operator binds: `||` < `&&` < comparisons < `+ -`
/// < `* / %`.
pub open spec fn precedence(op: BinaryOp) -> nat {
    match op {
        BinaryOp::Or => 1,
        BinaryOp::And => 2,
        BinaryOp::Eq | BinaryOp::Ne | BinaryOp::Gt | BinaryOp::Ge | BinaryOp::Lt | BinaryOp::Le => 3,
        BinaryOp::Add | BinaryOp::Sub => 4,
        BinaryOp::Mul | BinaryOp::Div | BinaryOp::Rem => 5,
    }
}

/// The text `x o1 y o2 z`, each operator written between single spaces.
pub open spec fn chain_text(
    x: SpecExpr,
    o1: BinaryOp,
    y: SpecExpr,
    o2: BinaryOp,
    z: SpecExpr,
) -> Seq<char> {
    expr_text(x) + seq![' '] + binary_op_text(o1) + seq![' '] + expr_text(y) + seq![' ']
        + binary_op_text(o2) + seq![' '] + expr_text(z)
}

/// The expression `l op r`.
pub open spec fn binary(op: BinaryOp, l: SpecExpr, r: SpecExpr) -> SpecExpr {
    SpecExpr::Binary { op, left: Box::new(l), right: Box::new(r) }
}

/// How `x o1 y o2 z` is read, from the pieces that make it up.
#[verifier::rlimit(50)]
proof fn lemma_chain_parse(
    s: Seq<char>,
    x: SpecExpr,
    o1: BinaryOp,
    y: SpecExpr,
    o2: BinaryOp,
    z: SpecExpr,
    a: int,
    c: int,
)
    requires
        0 < a,
        a + 1 + crate::expr::op_width(o1) < c,
        c + 1 + crate::expr::op_width(o2) < s.len(),
        parse_prefix(s, 0) == Ok::<(SpecExpr, int), Seq<char>>((x, a)),
        skip_ws(s, a) == a + 1,
        crate::expr::binop_at(s, a + 1) == Some(o1),
        parse_prefix(s, a + 1 + crate::expr::op_width(o1)) == Ok::<(SpecExpr, int), Seq<char>>(
            (y, c),
        ),
        skip_ws(s, c) == c + 1,
        skip_ws(s, c + 1) == c + 1,
        crate::expr::binop_at(s, c + 1) == Some(o2),
        parse_prefix(s, c + 1 + crate::expr::op_width(o2)) == Ok::<(SpecExpr, int), Seq<char>>(
            (z, s.len() as int),
        ),
    ensures
        parse_bp(s, 0, 0) == Ok::<(SpecExpr, int), Seq<char>>(
            (
                if precedence(o1) >= precedence(o2) {
                    binary(o2, binary(o1, x, y), z)
                } else {
                    binary(o1, x, binary(o2, y, z))
                },
                s.len() as int,
            ),
        ),
{
    let d = s.len() as int;
    let w1 = crate::expr::op_width(o1);
    let w2 = crate::expr::op_width(o2);
    let p1 = crate::expr::binding_power(o1).1;
    let p2 = crate::expr::binding_power(o2).1;
    let xy = binary(o1, x, y);
    let yz = binary(o2, y, z);
    assert(parse_infix(s, z, d, p2) == Ok::<(SpecExpr, int), Seq<char>>((z, d)));
    assert(parse_bp(s, c + 1 + w2, p2) == Ok::<(SpecExpr, int), Seq<char>>((z, d)));
    if precedence(o1) >= precedence(o2) {
        assert(crate::expr::binding_power(o2).0 < p1);
        let whole = binary(o2, xy, z);
        assert(parse_infix(s, y, c, p1) == Ok::<(SpecExpr, int), Seq<char>>((y, c + 1)));
        assert(parse_bp(s, a + 1 + w1, p1) == Ok::<(SpecExpr, int), Seq<char>>((y, c + 1)));
        assert(parse_infix(s, whole, d, 0) == Ok::<(SpecExpr, int), Seq<char>>((whole, d)));
        assert(parse_infix(s, xy, c + 1, 0) == Ok::<(SpecExpr, int), Seq<char>>((whole, d)));
        assert(parse_infix(s, x, a, 0) == Ok::<(SpecExpr, int), Seq<char>>((whole, d)));
    } else {
        assert(crate::expr::binding_power(o2).0 >= p1);
        let whole = binary(o1, x, yz);
        assert(parse_infix(s, yz, d, p1) == Ok::<(SpecExpr, int), Seq<char>>((yz, d)));
        assert(parse_infix(s, y, c, p1) == Ok::<(SpecExpr, int), Seq<char>>((yz, d)));
        assert(parse_bp(s, a + 1 + w1, p1) == Ok::<(SpecExpr, int), Seq<char>>((yz, d)));
        assert(parse_infix(s, whole, d, 0) == Ok::<(SpecExpr, int), Seq<char>>((whole, d)));
        assert(parse_infix(s, x, a, 0) == Ok::<(SpecExpr, int), Seq<char>>((whole, d)));
    }
}

/// Where the pieces of `x o1 y o2 z` stand in its text.
proof fn lemma_chain_layout(x: SpecExpr, o1: BinaryOp, y: SpecExpr, o2: BinaryOp, z: SpecExpr)
    ensures
        ({
            let s = chain_text(x, o1, y, o2, z);
            let a = expr_text(x).len() as int;
            let b = a + 2 + binary_op_text(o1).len();
            let c = b + expr_text(y).len();
            let e0 = c + 2 + binary_op_text(o2).len();
            &&& s.len() == e0 + expr_text(z).len()
            &&& starts_at(s, 0, expr_text(x))
            &&& s[a] == ' '
            &&& starts_at(s, a + 1, binary_op_text(o1))
            &&& s[a + 1 + binary_op_text(o1).len()] == ' '
            &&& starts_at(s, b, expr_text(y))
            &&& s[c] == ' '
            &&& starts_at(s, c + 1, binary_op_text(o2))
            &&& s[c + 1 + binary_op_text(o2).len()] == ' '
            &&& starts_at(s, e0, expr_text(z))
        }),
{
    let xt = expr_text(x);
    let yt = expr_text(y);
    let zt = expr_text(z);
    let o1t = binary_op_text(o1);
    let o2t = binary_op_text(o2);
    let s = chain_text(x, o1, y, o2, z);
    let a = xt.len() as int;
    let b = a + 2 + o1t.len();
    let c = b + yt.len();
    let e0 = c + 2 + o2t.len();
    assert(s.subrange(0, a) =~= xt);
    assert(s.subrange(a + 1, a + 1 + o1t.len()) =~= o1t);
    assert(s.subrange(b, c) =~= yt);
    assert(s.subrange(c + 1, c + 1 + o2t.len()) =~= o2t);
    assert(s.subrange(e0, e0 + zt.len()) =~= zt);
}

/// Operators group by precedence and associate to the left: `x o1 y o2 z`
/// applies `o1` first exactly when `o1` binds at least as tightly as `o2`
/// (so `$a + 1 > $b` compares the sum with `$b`, and `$a - $b - $c`
/// subtracts `$c` from `$a - $b`), for all readable operands.
pub proof fn lemma_operators_group_by_precedence(
    x: SpecExpr,
    o1: BinaryOp,
    y: SpecExpr,
    o2: BinaryOp,
    z: SpecExpr,
)
    requires
        readable(x),
        readable(y),
        readable(z),
    ensures
        spec_parse_expr(chain_text(x, o1, y, o2, z)) == Ok::<SpecExpr, Seq<char>>(
            if precedence(o1) >= precedence(o2) {
                binary(o2, binary(o1, x, y), z)
            } else {
                binary(o1, x, binary(o2, y, z))
            },
        ),
{
    reveal(spec_parse_expr);
    let xt = expr_text(x);
    let yt = expr_text(y);
    let o1t = binary_op_text(o1);
    let o2t = binary_op_text(o2);
    let s = chain_text(x, o1, y, o2, z);
    let a = xt.len() as int;
    let w1 = o1t.len() as int;
    let w2 = o2t.len() as int;
    let b = a + 2 + w1;
    let c = b + yt.len();
    let e0 = c + 2 + w2;
    lemma_chain_layout(x, o1, y, o2, z);
    lemma_first_char(x);
    lemma_first_char(y);
    lemma_first_char(z);
    lemma_read_expr(s, 0, x);
    lemma_read_expr(s, b, y);
    lemma_read_expr(s, e0, z);
    lemma_binop_at(s, a + 1, o1);
    lemma_binop_at(s, c + 1, o2);
    lemma_op_not_space(o1);
    lemma_op_not_space(o2);
    lemma_char_at(s, a + 1, o1t, 0);
    lemma_char_at(s, c + 1, o2t, 0);
    lemma_char_at(s, 0, xt, 0);
    lemma_skip_none(s, 0);
    lemma_skip_none(s, a + 1);
    lemma_skip_none(s, c + 1);
    assert(skip_ws(s, a) == a + 1);
    assert(skip_ws(s, c) == c + 1);
    lemma_prefix_space(s, a + 1 + w1);
    lemma_prefix_space(s, c + 1 + w2);
    lemma_chain_parse(s, x, o1, y, o2, z, a, c);
}

proof fn lemma_op_not_space(op: BinaryOp)
    ensures
        binary_op_text(op).len() >= 1,
        !is_space(binary_op_text(op)[0]),
{
    reveal_strlit("||");
    reveal_strlit("&&");
    reveal_strlit("==");
    reveal_strlit("!=");
    reveal_strlit(">");
    reveal_strlit(">=");
    reveal_strlit("<");
    reveal_strlit("<=");
    reveal_strlit("+");
    reveal_strlit("-");
    reveal_strlit("*");
    reveal_strlit("/");
    reveal_strlit("%");
}

/// The text `op x o y`: a prefix operator written right before its operand,
/// then a binary operator between single spaces.
pub open spec fn prefix_chain_text(op: UnaryOp, x: SpecExpr, o: BinaryOp, y: SpecExpr) -> Seq<
    char,
> {
    crate::render::unary_op_text(op) + expr_text(x) + seq![' '] + binary_op_text(o) + seq![' ']
        + expr_text(y)
}

#[verifier::rlimit(50)]
proof fn lemma_prefix_chain_parse(
    s: Seq<char>,
    op: UnaryOp,
    x: SpecExpr,
    o: BinaryOp,
    y: SpecExpr,
    a: int,
)
    requires
        1 < a,
        a + 1 + crate::expr::op_width(o) < s.len(),
        parse_prefix(s, 0) == Ok::<(SpecExpr, int), Seq<char>>(
            (SpecExpr::Unary { op, expr: Box::new(x) }, a + 1),
        ),
        skip_ws(s, a + 1) == a + 1,
        crate::expr::binop_at(s, a + 1) == Some(o),
        parse_prefix(s, a + 1 + crate::expr::op_width(o)) == Ok::<(SpecExpr, int), Seq<char>>(
            (y, s.len() as int),
        ),
    ensures
        parse_bp(s, 0, 0) == Ok::<(SpecExpr, int), Seq<char>>(
            (binary(o, SpecExpr::Unary { op, expr: Box::new(x) }, y), s.len() as int),
        ),
{
    let d = s.len() as int;
    let u = SpecExpr::Unary { op, expr: Box::new(x) };
    let whole = binary(o, u, y);
    let p = crate::expr::binding_power(o).1;
    assert(parse_infix(s, y, d, p) == Ok::<(SpecExpr, int), Seq<char>>((y, d)));
    assert(parse_bp(s, a + 1 + crate::expr::op_width(o), p) == Ok::<(SpecExpr, int), Seq<char>>(
        (y, d),
    ));
    assert(parse_infix(s, whole, d, 0) == Ok::<(SpecExpr, int), Seq<char>>((whole, d)));
    assert(parse_infix(s, u, a + 1, 0) == Ok::<(SpecExpr, int), Seq<char>>((whole, d)));
}

/// A prefix operator binds more tightly than every binary operator: in
/// `!x o y` and `-x o y` it applies to `x` alone, for all readable operands
/// (with `-` not written directly before an unsigned number, which would
/// read as one negative number).
pub proof fn lemma_prefix_binds_tightest(op: UnaryOp, x: SpecExpr, o: BinaryOp, y: SpecExpr)
    requires
        readable(x),
        readable(y),
        !(op == UnaryOp::Neg && unsigned_number(x)),
    ensures
        spec_parse_expr(prefix_chain_text(op, x, o, y)) == Ok::<SpecExpr, Seq<char>>(
            binary(o, SpecExpr::Unary { op, expr: Box::new(x) }, y),
        ),
{
    reveal(spec_parse_expr);
    reveal_strlit("!");
    reveal_strlit("-");
    let ut = crate::render::unary_op_text(op);
    let xt = expr_text(x);
    let yt = expr_text(y);
    let ot = binary_op_text(o);
    let s = prefix_chain_text(op, x, o, y);
    let a = 1 + xt.len() as int;
    let w = ot.len() as int;
    let b = a + 2 + w;
    assert(s.len() == b + yt.len());
    assert(s[0] == ut[0]);
    assert(starts_at(s, 1, xt)) by {
        assert(s.subrange(1, a) =~= xt);
    }
    assert(s[a] == ' ');
    assert(starts_at(s, a + 1, ot)) by {
        assert(s.subrange(a + 1, a + 1 + w) =~= ot);
    }
    assert(s[a + 1 + w] == ' ');
    assert(starts_at(s, b, yt)) by {
        assert(s.subrange(b, s.len() as int) =~= yt);
    }
    lemma_first_char(x);
    lemma_first_char(y);
    lemma_read_expr(s, 1, x);
    lemma_read_expr(s, b, y);
    lemma_binop_at(s, a + 1, o);
    lemma_op_not_space(o);
    lemma_char_at(s, a + 1, ot, 0);
    lemma_char_at(s, 1, xt, 0);
    lemma_skip_none(s, 0);
    lemma_skip_none(s, a + 1);
    assert(skip_ws(s, a) == a + 1);
    lemma_prefix_space(s, a + 1 + w);
    assert(crate::expr::binding_power(o).0 < crate::expr::prefix_power());
    assert(parse_infix(s, x, a, crate::expr::prefix_power()) == Ok::<(SpecExpr, int), Seq<char>>(
        (x, a + 1),
    ));
    assert(parse_bp(s, 1, crate::expr::prefix_power()) == Ok::<(SpecExpr, int), Seq<char>>(
        (x, a + 1),
    ));
    assert(!crate::expr::starts_number(s, 0));
    lemma_prefix_chain_parse(s, op, x, o, y, a);
}

} // verus!
