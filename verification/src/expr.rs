//! Template expressions: the expression tree, variable paths and the
//! expression parser.
use vstd::prelude::*;

use crate::name::{is_identifier, NameError, SpecNameError, VariableName};
use crate::text::{alnum, chars_of, digit, is_alnum, is_digit, is_space, push_char, space, string_from};

verus! {

#[derive(Debug, PartialEq)]
pub enum Expr {
    Literal(Literal),
    Variable(VariablePath),
    Unary { op: UnaryOp, expr: Box<Expr> },
    Binary { op: BinaryOp, left: Box<Expr>, right: Box<Expr> },
}

#[derive(Debug, PartialEq)]
pub enum Literal {
    String(String),
    Int(i64),
    Float(FloatLiteral),
    Bool(bool),
    Null,
}

/// A floating-point literal, kept as the decimal text it was written with
/// (optional sign, digits with a `.`, optional exponent). The library does
/// no floating-point arithmetic: two literals are equal when their texts
/// are (`1.50` and `1.5` differ), and a literal renders as written (`2.0`
/// renders as `2.0`, not as `f64` formatting would write it).
#[derive(Debug, PartialEq, Eq)]
pub struct FloatLiteral(String);

#[derive(Debug, Clone, Copy, PartialEq, Eq, PartialOrd, Ord, Hash, Structural)]
pub enum UnaryOp {
    Not,
    Neg,
}

#[derive(Debug, Clone, Copy, PartialEq, Eq, PartialOrd, Ord, Hash, Structural)]
pub enum BinaryOp {
    Or,
    And,
    Eq,
    Ne,
    Gt,
    Ge,
    Lt,
    Le,
    Add,
    Sub,
    Mul,
    Div,
    Rem,
}

/// A `$root.field[0]` path. Two indexes never stand next to each other.
#[derive(Debug, PartialEq, Eq)]
pub struct VariablePath {
    root: VariableName,
    segments: Vec<PathSegment>,
}

#[derive(Debug, PartialEq, Eq)]
pub enum PathSegment {
    Field(PathField),
    Index(PathIndex),
}

#[derive(Debug, PartialEq, Eq, Hash)]
pub struct PathField(VariableName);

#[derive(Debug, Clone, Copy, PartialEq, Eq, PartialOrd, Ord, Hash, Structural)]
pub struct PathIndex(u64);

// ---------------------------------------------------------------------------
// Models
// ---------------------------------------------------------------------------
/// The mathematical model of an [`Expr`].
pub enum SpecExpr {
    Literal(SpecLiteral),
    Variable(SpecPath),
    Unary { op: UnaryOp, expr: Box<SpecExpr> },
    Binary { op: BinaryOp, left: Box<SpecExpr>, right: Box<SpecExpr> },
}

/// The mathematical model of a [`Literal`]; a float is its decimal text.
pub enum SpecLiteral {
    String(Seq<char>),
    Int(i64),
    Float(Seq<char>),
    Bool(bool),
    Null,
}

/// The mathematical model of a [`VariablePath`].
pub struct SpecPath {
    pub root: Seq<char>,
    pub segments: Seq<SpecSegment>,
}

/// The mathematical model of a [`PathSegment`].
pub enum SpecSegment {
    Field(Seq<char>),
    Index(u64),
}

impl View for FloatLiteral {
    type V = Seq<char>;

    closed spec fn view(&self) -> Seq<char> {
        self.0@
    }
}

impl View for PathField {
    type V = Seq<char>;

    closed spec fn view(&self) -> Seq<char> {
        self.0@
    }
}

impl View for PathIndex {
    type V = u64;

    closed spec fn view(&self) -> u64 {
        self.0
    }
}

impl View for PathSegment {
    type V = SpecSegment;

    open spec fn view(&self) -> SpecSegment {
        match self {
            PathSegment::Field(f) => SpecSegment::Field(f@),
            PathSegment::Index(i) => SpecSegment::Index(i@),
        }
    }
}

pub open spec fn segments_view(s: Seq<PathSegment>) -> Seq<SpecSegment> {
    s.map_values(|seg: PathSegment| seg@)
}

impl View for VariablePath {
    type V = SpecPath;

    closed spec fn view(&self) -> SpecPath {
        SpecPath { root: self.root@, segments: segments_view(self.segments@) }
    }
}

impl View for Literal {
    type V = SpecLiteral;

    open spec fn view(&self) -> SpecLiteral {
        match self {
            Literal::String(s) => SpecLiteral::String(s@),
            Literal::Int(i) => SpecLiteral::Int(*i),
            Literal::Float(f) => SpecLiteral::Float(f@),
            Literal::Bool(b) => SpecLiteral::Bool(*b),
            Literal::Null => SpecLiteral::Null,
        }
    }
}

pub open spec fn expr_view(e: Expr) -> SpecExpr
    decreases e,
{
    match e {
        Expr::Literal(l) => SpecExpr::Literal(l@),
        Expr::Variable(p) => SpecExpr::Variable(p@),
        Expr::Unary { op, expr } => SpecExpr::Unary { op, expr: Box::new(expr_view(*expr)) },
        Expr::Binary { op, left, right } => SpecExpr::Binary {
            op,
            left: Box::new(expr_view(*left)),
            right: Box::new(expr_view(*right)),
        },
    }
}

impl View for Expr {
    type V = SpecExpr;

    open spec fn view(&self) -> SpecExpr {
        expr_view(*self)
    }
}

// ---------------------------------------------------------------------------
// Paths
// ---------------------------------------------------------------------------
/// Some index segment is directly followed by another index segment.
pub open spec fn has_adjacent_indexes(s: Seq<SpecSegment>) -> bool {
    exists|i: int| 0 <= i < s.len() - 1 && #[trigger] s[i] is Index && s[i + 1] is Index
}

pub open spec fn segment_wf(s: SpecSegment) -> bool {
    match s {
        SpecSegment::Field(f) => is_identifier(f),
        SpecSegment::Index(_) => true,
    }
}

pub open spec fn adjacent_indexes_reason() -> Seq<char> {
    "adjacent indexes are not valid in v1 paths"@
}

impl PathIndex {
    pub fn new(index: u64) -> (r: Self)
        ensures
            r@ == index,
    {
        Self(index)
    }

    pub fn get(self) -> (r: u64)
        ensures
            r == self@,
    {
        self.0
    }
}

impl PathField {
    #[verifier::type_invariant]
    spec fn wf(self) -> bool {
        is_identifier(self.0@)
    }

    pub fn try_new(name: &str) -> (r: Result<Self, NameError>)
        ensures
            is_identifier(name@) <==> r is Ok,
            r matches Ok(f) ==> f@ == name@,
            r matches Err(e) ==> e@ == (SpecNameError::InvalidVariableName { name: name@ }),
    {
        match VariableName::try_new(name) {
            Ok(n) => Ok(Self(n)),
            Err(e) => Err(e),
        }
    }

    pub fn as_str(&self) -> (r: &str)
        ensures
            r@ == self@,
            is_identifier(self@),
    {
        proof {
            use_type_invariant(self);
        }
        self.0.as_str()
    }
}

impl Clone for PathField {
    fn clone(&self) -> (r: Self)
        ensures
            r@ == self@,
    {
        proof {
            use_type_invariant(self);
        }
        Self(self.0.clone())
    }
}

impl Clone for PathSegment {
    fn clone(&self) -> (r: Self)
        ensures
            r@ == self@,
    {
        match self {
            PathSegment::Field(f) => PathSegment::Field(f.clone()),
            PathSegment::Index(i) => PathSegment::Index(*i),
        }
    }
}

fn clone_segments(s: &Vec<PathSegment>) -> (r: Vec<PathSegment>)
    ensures
        segments_view(r@) == segments_view(s@),
{
    let mut r: Vec<PathSegment> = Vec::new();
    let mut i: usize = 0;
    while i < s.len()
        invariant
            i <= s.len(),
            r@.len() == i,
            forall|k: int| 0 <= k < i ==> #[trigger] r@[k]@ == s@[k]@,
        decreases s.len() - i,
    {
        r.push(s[i].clone());
        i = i + 1;
    }
    assert(segments_view(r@) =~= segments_view(s@));
    r
}

fn find_adjacent_indexes(segments: &Vec<PathSegment>) -> (b: bool)
    ensures
        b == has_adjacent_indexes(segments_view(segments@)),
{
    let ghost sv = segments_view(segments@);
    let mut previous_was_index = false;
    let mut i: usize = 0;
    while i < segments.len()
        invariant
            i <= segments.len(),
            sv == segments_view(segments@),
            previous_was_index == (i > 0 && sv[i - 1] is Index),
            forall|k: int| 0 <= k < i - 1 ==> !(#[trigger] sv[k] is Index && sv[k + 1] is Index),
        decreases segments.len() - i,
    {
        match &segments[i] {
            PathSegment::Field(_) => {
                previous_was_index = false;
            },
            PathSegment::Index(_) => {
                if previous_was_index {
                    assert(sv[i - 1] is Index && sv[i - 1 + 1] is Index);
                    return true;
                }
                previous_was_index = true;
            },
        }
        i = i + 1;
    }
    false
}

impl VariablePath {
    #[verifier::type_invariant]
    spec fn wf(self) -> bool {
        &&& is_identifier(self.root@)
        &&& !has_adjacent_indexes(segments_view(self.segments@))
    }

    /// Builds a path; two adjacent index segments are refused first, then a
    /// root that is not an identifier.
    pub fn try_new(root: &str, segments: Vec<PathSegment>) -> (r: Result<Self, NameError>)
        ensures
            has_adjacent_indexes(segments_view(segments@)) ==> (r matches Err(e) && e@
                == (SpecNameError::InvalidVariableName { name: adjacent_indexes_reason() })),
            !has_adjacent_indexes(segments_view(segments@)) && !is_identifier(root@) ==> (
            r matches Err(e) && e@ == (SpecNameError::InvalidVariableName { name: root@ })),
            !has_adjacent_indexes(segments_view(segments@)) && is_identifier(root@) ==> (
            r matches Ok(p) && p@ == (SpecPath { root: root@, segments: segments_view(segments@) })),
    {
        if find_adjacent_indexes(&segments) {
            return Err(
                NameError::InvalidVariableName {
                    name: "adjacent indexes are not valid in v1 paths".to_owned(),
                },
            );
        }
        match VariableName::try_new(root) {
            Ok(root) => Ok(Self { root, segments }),
            Err(e) => Err(e),
        }
    }

    pub fn root(&self) -> (r: &str)
        ensures
            r@ == self@.root,
            is_identifier(self@.root),
    {
        proof {
            use_type_invariant(self);
        }
        self.root.as_str()
    }

    pub fn segments(&self) -> (r: &[PathSegment])
        ensures
            segments_view(r@) == self@.segments,
            !has_adjacent_indexes(self@.segments),
    {
        proof {
            use_type_invariant(self);
        }
        self.segments.as_slice()
    }
}

impl Clone for VariablePath {
    fn clone(&self) -> (r: Self)
        ensures
            r@ == self@,
    {
        proof {
            use_type_invariant(self);
        }
        Self { root: self.root.clone(), segments: clone_segments(&self.segments) }
    }
}

impl FloatLiteral {
    #[verifier::type_invariant]
    spec fn wf(self) -> bool {
        is_float_text(self.0@)
    }

    /// A float literal written as `text`: an optional sign, digits with one
    /// `.` (digits on at least one side of it) and an optional exponent;
    /// `None` for any other text.
    pub fn try_new(text: &str) -> (r: Option<Self>)
        ensures
            is_float_text(text@) <==> r is Some,
            r matches Some(f) ==> f@ == text@,
    {
        let chars = chars_of(text);
        if check_float_text(&chars) {
            Some(Self(text.to_owned()))
        } else {
            None
        }
    }

    /// The decimal text of the literal.
    pub fn as_str(&self) -> (r: &str)
        ensures
            r@ == self@,
            is_float_text(self@),
    {
        proof {
            use_type_invariant(self);
        }
        self.0.as_str()
    }
}

impl Clone for FloatLiteral {
    fn clone(&self) -> (r: Self)
        ensures
            r@ == self@,
    {
        proof {
            use_type_invariant(self);
        }
        Self(self.0.clone())
    }
}

impl Clone for Literal {
    fn clone(&self) -> (r: Self)
        ensures
            r@ == self@,
    {
        match self {
            Literal::String(s) => Literal::String(s.clone()),
            Literal::Int(i) => Literal::Int(*i),
            Literal::Float(f) => Literal::Float(f.clone()),
            Literal::Bool(b) => Literal::Bool(*b),
            Literal::Null => Literal::Null,
        }
    }
}

impl Clone for Expr {
    fn clone(&self) -> (r: Self)
        ensures
            r@ == self@,
    {
        copy_expr(self)
    }
}

/// A copy of an expression tree.
pub fn copy_expr(e: &Expr) -> (r: Expr)
    ensures
        r@ == e@,
    decreases e,
{
    match e {
        Expr::Literal(l) => Expr::Literal(l.clone()),
        Expr::Variable(p) => Expr::Variable(p.clone()),
        Expr::Unary { op, expr } => Expr::Unary { op: *op, expr: Box::new(copy_expr(expr)) },
        Expr::Binary { op, left, right } => Expr::Binary {
            op: *op,
            left: Box::new(copy_expr(left)),
            right: Box::new(copy_expr(right)),
        },
    }
}

// ---------------------------------------------------------------------------
// Character runs
// ---------------------------------------------------------------------------
/// The kinds of character run the expression scanner reads.
pub enum Run {
    /// Characters of a variable path after `$`: letters, digits, `_`, `.`, `[`, `]`.
    Path,
    /// Letters, digits and `_`.
    Word,
    /// ASCII digits.
    Digits,
    /// Characters of a number: letters, digits, `_`, `.`, and a sign right after `e`/`E`.
    Number,
}

pub open spec fn in_run(kind: Run, s: Seq<char>, i: int) -> bool {
    let c = s[i];
    match kind {
        Run::Path => is_alnum(c) || c == '_' || c == '.' || c == '[' || c == ']',
        Run::Word => is_alnum(c) || c == '_',
        Run::Digits => is_digit(c),
        Run::Number => is_alnum(c) || c == '_' || c == '.' || ((c == '+' || c == '-') && i > 0 && (
        s[i - 1] == 'e' || s[i - 1] == 'E')),
    }
}

/// The end of the longest run of `kind` that starts at `i`.
pub open spec fn run_end(s: Seq<char>, i: int, kind: Run) -> int
    decreases s.len() - i,
{
    if 0 <= i < s.len() && in_run(kind, s, i) {
        run_end(s, i + 1, kind)
    } else {
        i
    }
}

/// The first position at or after `i` that is not white space.
pub open spec fn skip_ws(s: Seq<char>, i: int) -> int
    decreases s.len() - i,
{
    if 0 <= i < s.len() && is_space(s[i]) {
        skip_ws(s, i + 1)
    } else {
        i
    }
}

/// The first position at or after `i` that holds `c`, if any.
pub open spec fn find_char(s: Seq<char>, i: int, c: char) -> Option<int>
    decreases s.len() - i,
{
    if 0 <= i < s.len() {
        if s[i] == c {
            Some(i)
        } else {
            find_char(s, i + 1, c)
        }
    } else {
        None
    }
}

/// The first position at or after `i` that holds `.` or `[`, or the end.
pub open spec fn find_field_end(s: Seq<char>, i: int) -> int
    decreases s.len() - i,
{
    if 0 <= i < s.len() {
        if s[i] == '.' || s[i] == '[' {
            i
        } else {
            find_field_end(s, i + 1)
        }
    } else {
        i
    }
}

pub proof fn lemma_run_end_bounds(s: Seq<char>, i: int, kind: Run)
    requires
        0 <= i <= s.len(),
    ensures
        i <= run_end(s, i, kind) <= s.len(),
        forall|k: int| i <= k < run_end(s, i, kind) ==> in_run(kind, s, k),
        run_end(s, i, kind) < s.len() ==> !in_run(kind, s, run_end(s, i, kind)),
    decreases s.len() - i,
{
    if i < s.len() && in_run(kind, s, i) {
        lemma_run_end_bounds(s, i + 1, kind);
    }
}

pub proof fn lemma_skip_ws_bounds(s: Seq<char>, i: int)
    requires
        0 <= i <= s.len(),
    ensures
        i <= skip_ws(s, i) <= s.len(),
        forall|k: int| i <= k < skip_ws(s, i) ==> is_space(#[trigger] s[k]),
        skip_ws(s, i) < s.len() ==> !is_space(s[skip_ws(s, i)]),
    decreases s.len() - i,
{
    if i < s.len() && is_space(s[i]) {
        lemma_skip_ws_bounds(s, i + 1);
    }
}

pub proof fn lemma_find_char_bounds(s: Seq<char>, i: int, c: char)
    requires
        0 <= i <= s.len(),
    ensures
        find_char(s, i, c) matches Some(k) ==> i <= k < s.len() && s[k] == c,
        find_char(s, i, c) matches Some(k) ==> forall|m: int| i <= m < k ==> s[m] != c,
        find_char(s, i, c) is None ==> forall|m: int| i <= m < s.len() ==> s[m] != c,
    decreases s.len() - i,
{
    if i < s.len() && s[i] != c {
        lemma_find_char_bounds(s, i + 1, c);
    }
}

pub proof fn lemma_find_field_end_bounds(s: Seq<char>, i: int)
    requires
        0 <= i <= s.len(),
    ensures
        i <= find_field_end(s, i) <= s.len(),
    decreases s.len() - i,
{
    if i < s.len() && !(s[i] == '.' || s[i] == '[') {
        lemma_find_field_end_bounds(s, i + 1);
    }
}

fn in_run_at(kind: &Run, v: &Vec<char>, i: usize) -> (b: bool)
    requires
        i < v@.len(),
    ensures
        b == in_run(*kind, v@, i as int),
{
    let c = v[i];
    match kind {
        Run::Path => alnum(c) || c == '_' || c == '.' || c == '[' || c == ']',
        Run::Word => alnum(c) || c == '_',
        Run::Digits => digit(c),
        Run::Number => alnum(c) || c == '_' || c == '.' || ((c == '+' || c == '-') && i > 0 && (v[i
            - 1] == 'e' || v[i - 1] == 'E')),
    }
}

pub fn run_end_at(v: &Vec<char>, i: usize, kind: Run) -> (j: usize)
    requires
        i <= v@.len(),
    ensures
        j == run_end(v@, i as int, kind),
        i <= j <= v@.len(),
{
    proof {
        lemma_run_end_bounds(v@, i as int, kind);
    }
    let mut j = i;
    while j < v.len() && in_run_at(&kind, v, j)
        invariant
            i <= j <= v@.len(),
            run_end(v@, i as int, kind) == run_end(v@, j as int, kind),
        decreases v.len() - j,
    {
        j = j + 1;
    }
    j
}

pub fn skip_ws_at(v: &Vec<char>, i: usize) -> (j: usize)
    requires
        i <= v@.len(),
    ensures
        j == skip_ws(v@, i as int),
        i <= j <= v@.len(),
{
    proof {
        lemma_skip_ws_bounds(v@, i as int);
    }
    let mut j = i;
    while j < v.len() && space(v[j])
        invariant
            i <= j <= v@.len(),
            skip_ws(v@, i as int) == skip_ws(v@, j as int),
        decreases v.len() - j,
    {
        j = j + 1;
    }
    j
}

pub fn find_char_at(v: &Vec<char>, i: usize, c: char) -> (r: Option<usize>)
    requires
        i <= v@.len(),
    ensures
        r matches Some(k) ==> find_char(v@, i as int, c) == Some(k as int),
        r is None ==> find_char(v@, i as int, c) is None,
{
    let mut j = i;
    while j < v.len()
        invariant
            i <= j <= v@.len(),
            find_char(v@, i as int, c) == find_char(v@, j as int, c),
        decreases v.len() - j,
    {
        if v[j] == c {
            return Some(j);
        }
        j = j + 1;
    }
    None
}

fn find_field_end_at(v: &Vec<char>, i: usize) -> (j: usize)
    requires
        i <= v@.len(),
    ensures
        j == find_field_end(v@, i as int),
        i <= j <= v@.len(),
{
    proof {
        lemma_find_field_end_bounds(v@, i as int);
    }
    let mut j = i;
    while j < v.len() && v[j] != '.' && v[j] != '['
        invariant
            i <= j <= v@.len(),
            find_field_end(v@, i as int) == find_field_end(v@, j as int),
        decreases v.len() - j,
    {
        j = j + 1;
    }
    j
}

/// A new vector holding `v[lo..hi]`.
pub fn copy_range(v: &Vec<char>, lo: usize, hi: usize) -> (r: Vec<char>)
    requires
        lo <= hi <= v@.len(),
    ensures
        r@ == v@.subrange(lo as int, hi as int),
{
    let mut r: Vec<char> = Vec::new();
    let mut i = lo;
    while i < hi
        invariant
            lo <= i <= hi <= v@.len(),
            r@ == v@.subrange(lo as int, i as int),
        decreases hi - i,
    {
        r.push(v[i]);
        i = i + 1;
        assert(r@ =~= v@.subrange(lo as int, i as int));
    }
    r
}

// ---------------------------------------------------------------------------
// Decimal numbers
// ---------------------------------------------------------------------------
pub open spec fn digit_value(c: char) -> nat {
    ((c as int) - ('0' as int)) as nat
}

/// The value of a run of decimal digits.
pub open spec fn digits_value(s: Seq<char>) -> nat
    decreases s.len(),
{
    if s.len() == 0 {
        0
    } else {
        digits_value(s.drop_last()) * 10 + digit_value(s.last())
    }
}

pub open spec fn all_digits(s: Seq<char>) -> bool {
    forall|i: int| 0 <= i < s.len() ==> is_digit(#[trigger] s[i])
}

pub proof fn lemma_digits_value_prefix(s: Seq<char>, m: int)
    requires
        0 <= m <= s.len(),
        all_digits(s),
    ensures
        digits_value(s.take(m)) <= digits_value(s),
    decreases s.len(),
{
    if m < s.len() {
        assert(all_digits(s.drop_last()));
        assert(s.drop_last().take(m) =~= s.take(m));
        lemma_digits_value_prefix(s.drop_last(), m);
    } else {
        assert(s.take(m) =~= s);
    }
}

/// Reads the digits `v[lo..hi]` as a number no larger than `limit`.
fn digits_to_u64(v: &Vec<char>, lo: usize, hi: usize, limit: u64) -> (r: Option<u64>)
    requires
        lo <= hi <= v@.len(),
        all_digits(v@.subrange(lo as int, hi as int)),
    ensures
        r matches Some(x) ==> x == digits_value(v@.subrange(lo as int, hi as int)) && x <= limit,
        r is None ==> digits_value(v@.subrange(lo as int, hi as int)) > limit,
{
    let ghost s = v@.subrange(lo as int, hi as int);
    let mut acc: u64 = 0;
    let mut i = lo;
    while i < hi
        invariant
            lo <= i <= hi <= v@.len(),
            s == v@.subrange(lo as int, hi as int),
            all_digits(s),
            acc == digits_value(v@.subrange(lo as int, i as int)),
            acc <= limit,
        decreases hi - i,
    {
        let ghost prefix = v@.subrange(lo as int, (i + 1) as int);
        assert(prefix.drop_last() =~= v@.subrange(lo as int, i as int));
        assert(prefix.last() == v@[i as int]);
        assert(is_digit(s[i - lo]));
        let d = (v[i] as u32 - '0' as u32) as u64;
        assert(d == digit_value(v@[i as int]));
        assert(d <= 9);
        if d > limit || acc > (limit - d) / 10 {
            assert(acc * 10 + d > limit) by (nonlinear_arith)
                requires
                    d > limit || acc > (limit - d) / 10,
                    d <= limit ==> (limit - d) / 10 * 10 + 10 > limit - d,
                    acc >= 0,
            {
            }
            proof {
                assert(s.take((i + 1 - lo) as int) =~= prefix);
                lemma_digits_value_prefix(s, (i + 1 - lo) as int);
            }
            return None;
        }
        assert(acc * 10 + d <= limit) by (nonlinear_arith)
            requires
                acc <= (limit - d) / 10,
                d <= limit,
        {
        }
        acc = acc * 10 + d;
        i = i + 1;
    }
    assert(v@.subrange(lo as int, hi as int) =~= s);
    Some(acc)
}


/// Decimal float text: optional sign, digits with one `.` (digits on at least
/// one side of it), and an optional exponent `e`/`E`, optional sign, digits.
pub open spec fn is_float_text(t: Seq<char>) -> bool {
    let k0: int = if t.len() > 0 && (t[0] == '-' || t[0] == '+') {
        1
    } else {
        0
    };
    let k1 = run_end(t, k0, Run::Digits);
    &&& k1 < t.len()
    &&& t[k1] == '.'
    &&& {
        let k2 = run_end(t, k1 + 1, Run::Digits);
        &&& (k1 > k0 || k2 > k1 + 1)
        &&& (k2 == t.len() || {
            &&& (t[k2] == 'e' || t[k2] == 'E')
            &&& {
                let k3: int = if k2 + 1 < t.len() && (t[k2 + 1] == '+' || t[k2 + 1] == '-') {
                    k2 + 2
                } else {
                    k2 + 1
                };
                let k4 = run_end(t, k3, Run::Digits);
                k4 > k3 && k4 == t.len()
            }
        })
    }
}

fn check_float_text(t: &Vec<char>) -> (b: bool)
    ensures
        b == is_float_text(t@),
{
    let n = t.len();
    let k0: usize = if n > 0 && (t[0] == '-' || t[0] == '+') {
        1
    } else {
        0
    };
    let k1 = run_end_at(t, k0, Run::Digits);
    if !(k1 < n && t[k1] == '.') {
        return false;
    }
    let k2 = run_end_at(t, k1 + 1, Run::Digits);
    if !(k1 > k0 || k2 > k1 + 1) {
        return false;
    }
    if k2 == n {
        return true;
    }
    if !(t[k2] == 'e' || t[k2] == 'E') {
        return false;
    }
    let k3: usize = if k2 + 1 < n && (t[k2 + 1] == '+' || t[k2 + 1] == '-') {
        k2 + 2
    } else {
        k2 + 1
    };
    let k4 = run_end_at(t, k3, Run::Digits);
    k4 > k3 && k4 == n
}

pub open spec fn unsupported() -> Seq<char> {
    "unsupported expression"@
}

pub open spec fn max_i64_magnitude() -> nat {
    0x8000_0000_0000_0000
}

/// The literal a number token denotes: an `i64` when it is all digits after
/// an optional sign, else a float when it is float text.
pub open spec fn spec_number(t: Seq<char>) -> Result<SpecLiteral, Seq<char>> {
    let signed = t.len() > 0 && (t[0] == '-' || t[0] == '+');
    let body = if signed {
        t.drop_first()
    } else {
        t
    };
    if body.len() > 0 && all_digits(body) {
        let v = digits_value(body);
        if signed && t[0] == '-' {
            if v <= max_i64_magnitude() {
                Ok(SpecLiteral::Int((0 - v) as i64))
            } else {
                Err(unsupported())
            }
        } else {
            if v < max_i64_magnitude() {
                Ok(SpecLiteral::Int(v as i64))
            } else {
                Err(unsupported())
            }
        }
    } else if is_float_text(t) {
        Ok(SpecLiteral::Float(t))
    } else {
        Err(unsupported())
    }
}

fn all_digits_in(v: &Vec<char>, lo: usize) -> (b: bool)
    requires
        lo <= v@.len(),
    ensures
        b == all_digits(v@.subrange(lo as int, v@.len() as int)),
{
    let j = run_end_at(v, lo, Run::Digits);
    proof {
        lemma_run_end_bounds(v@, lo as int, Run::Digits);
        let sub = v@.subrange(lo as int, v@.len() as int);
        if j < v@.len() {
            assert(!in_run(Run::Digits, v@, j as int));
            assert(sub[j - lo] == v@[j as int]);
            assert(!is_digit(sub[j - lo]));
        } else {
            assert forall|k: int| 0 <= k < sub.len() implies is_digit(#[trigger] sub[k]) by {
                assert(in_run(Run::Digits, v@, k + lo));
            }
        }
    }
    j == v.len()
}

fn number_literal(t: Vec<char>) -> (r: Result<Literal, &'static str>)
    ensures
        match (r, spec_number(t@)) {
            (Ok(l), Ok(m)) => l@ == m,
            (Err(e), Err(m)) => e@ == m,
            _ => false,
        },
{
    let n = t.len();
    let signed = n > 0 && (t[0] == '-' || t[0] == '+');
    let lo: usize = if signed {
        1
    } else {
        0
    };
    let ghost body = if signed {
        t@.drop_first()
    } else {
        t@
    };
    assert(body =~= t@.subrange(lo as int, n as int));
    if lo < n && all_digits_in(&t, lo) {
        if signed && t[0] == '-' {
            match digits_to_u64(&t, lo, n, 0x8000_0000_0000_0000) {
                Some(v) => {
                    let x: i64 = if v == 0x8000_0000_0000_0000 {
                        i64::MIN
                    } else {
                        -(v as i64)
                    };
                    Ok(Literal::Int(x))
                },
                None => Err("unsupported expression"),
            }
        } else {
            match digits_to_u64(&t, lo, n, 0x7fff_ffff_ffff_ffff) {
                Some(v) => Ok(Literal::Int(v as i64)),
                None => Err("unsupported expression"),
            }
        }
    } else if check_float_text(&t) {
        assert(t@.subrange(0, n as int) =~= t@);
        Ok(Literal::Float(FloatLiteral(string_from(&t, 0, n))))
    } else {
        Err("unsupported expression")
    }
}

/// A number starts at `i`: a digit, `.` and a digit, or a sign followed by either.
pub open spec fn starts_number(s: Seq<char>, i: int) -> bool {
    let digit_at = |k: int| 0 <= k < s.len() && is_digit(s[k]);
    let unsigned_at = |k: int| digit_at(k) || (0 <= k < s.len() && s[k] == '.' && digit_at(k + 1));
    unsigned_at(i) || (0 <= i < s.len() && (s[i] == '-' || s[i] == '+') && unsigned_at(i + 1))
}

fn starts_number_at(v: &Vec<char>, i: usize) -> (b: bool)
    requires
        i < v@.len(),
    ensures
        b == starts_number(v@, i as int),
{
    let n = v.len();
    let unsigned_here = digit(v[i]) || (v[i] == '.' && i + 1 < n && digit(v[i + 1]));
    let signed_here = (v[i] == '-' || v[i] == '+') && i + 1 < n && (digit(v[i + 1]) || (v[i + 1]
        == '.' && i + 2 < n && digit(v[i + 2])));
    unsigned_here || signed_here
}

/// The end of the number token that starts at `i`.
pub open spec fn number_end(s: Seq<char>, i: int) -> int {
    if s[i] == '-' || s[i] == '+' {
        run_end(s, i + 1, Run::Number)
    } else {
        run_end(s, i, Run::Number)
    }
}

/// The escape `\c` denotes.
pub open spec fn escaped(c: char) -> Option<char> {
    if c == '\\' {
        Some('\\')
    } else if c == '"' {
        Some('"')
    } else if c == '\'' {
        Some('\'')
    } else if c == 'n' {
        Some('\n')
    } else if c == 'r' {
        Some('\r')
    } else if c == 't' {
        Some('\t')
    } else {
        None
    }
}

/// Reads the body of a string literal from `k` up to the closing `quote`:
/// its decoded characters and the position just after the closing quote.
pub open spec fn scan_string(s: Seq<char>, k: int, quote: char) -> Result<(Seq<char>, int), Seq<char>>
    decreases s.len() - k,
{
    if !(0 <= k < s.len()) {
        Err("unterminated string literal"@)
    } else if s[k] == quote {
        Ok((Seq::empty(), k + 1))
    } else if s[k] == '\\' {
        if k + 1 >= s.len() {
            Err("unterminated escape"@)
        } else {
            match escaped(s[k + 1]) {
                None => Err("unsupported escape"@),
                Some(c) => match scan_string(s, k + 2, quote) {
                    Ok((rest, e)) => Ok((seq![c] + rest, e)),
                    Err(x) => Err(x),
                },
            }
        }
    } else {
        match scan_string(s, k + 1, quote) {
            Ok((rest, e)) => Ok((seq![s[k]] + rest, e)),
            Err(x) => Err(x),
        }
    }
}

pub open spec fn prepend_chars(pre: Seq<char>, r: Result<(Seq<char>, int), Seq<char>>) -> Result<
    (Seq<char>, int),
    Seq<char>,
> {
    match r {
        Ok((v, e)) => Ok((pre + v, e)),
        Err(x) => Err(x),
    }
}

pub proof fn lemma_scan_string_end(s: Seq<char>, k: int, quote: char)
    ensures
        scan_string(s, k, quote) matches Ok((_, e)) ==> k < e <= s.len(),
    decreases s.len() - k,
{
    if 0 <= k < s.len() && s[k] != quote {
        if s[k] == '\\' {
            if k + 1 < s.len() {
                lemma_scan_string_end(s, k + 2, quote);
            }
        } else {
            lemma_scan_string_end(s, k + 1, quote);
        }
    }
}

/// Decodes the quoted string literal whose body starts at `start` (just after
/// the opening `quote`).
pub fn parse_quoted_string(v: &Vec<char>, start: usize, quote: char) -> (r: Result<
    (String, usize),
    &'static str,
>)
    requires
        start <= v@.len(),
    ensures
        match (r, scan_string(v@, start as int, quote)) {
            (Ok((x, e)), Ok((m, f))) => x@ == m && e == f,
            (Err(e), Err(m)) => e@ == m,
            _ => false,
        },
        r matches Ok((_, e)) ==> start < e <= v@.len(),
{
    proof {
        lemma_scan_string_end(v@, start as int, quote);
    }
    let mut acc = String::new();
    let mut k = start;
    while k < v.len()
        invariant
            start <= k <= v@.len(),
            scan_string(v@, start as int, quote) == prepend_chars(acc@, scan_string(v@, k as int, quote)),
        decreases v.len() - k,
    {
        let c = v[k];
        if c == quote {
            assert(acc@ + Seq::<char>::empty() =~= acc@);
            return Ok((acc, k + 1));
        }
        if c == '\\' {
            if k + 1 >= v.len() {
                return Err("unterminated escape");
            }
            let e = v[k + 1];
            let d = if e == '\\' {
                '\\'
            } else if e == '"' {
                '"'
            } else if e == '\'' {
                '\''
            } else if e == 'n' {
                '\n'
            } else if e == 'r' {
                '\r'
            } else if e == 't' {
                '\t'
            } else {
                return Err("unsupported escape");
            };
            let ghost before = acc@;
            push_char(&mut acc, d);
            proof {
                let r = scan_string(v@, (k + 2) as int, quote);
                match r {
                    Ok((rest, f)) => {
                        assert(before + (seq![d] + rest) =~= acc@ + rest);
                    },
                    Err(_) => {},
                }
            }
            k = k + 2;
        } else {
            let ghost before = acc@;
            push_char(&mut acc, c);
            proof {
                let r = scan_string(v@, (k + 1) as int, quote);
                match r {
                    Ok((rest, f)) => {
                        assert(before + (seq![c] + rest) =~= acc@ + rest);
                    },
                    Err(_) => {},
                }
            }
            k = k + 1;
        }
    }
    Err("unterminated string literal")
}

// ---------------------------------------------------------------------------
// Paths
// ---------------------------------------------------------------------------
/// The segment that starts at position `i` of a path and the position after it.
pub open spec fn segment_at(p: Seq<char>, i: int) -> Result<(SpecSegment, int), Seq<char>> {
    if p[i] == '.' {
        let after = i + 1;
        if after == p.len() {
            Err("empty path field"@)
        } else {
            let field_end = find_field_end(p, after);
            if field_end == after {
                Err("empty path field"@)
            } else if !is_identifier(p.subrange(after, field_end)) {
                Err("invalid path field"@)
            } else {
                Ok((SpecSegment::Field(p.subrange(after, field_end)), field_end))
            }
        }
    } else if p[i] == '[' {
        match find_char(p, i + 1, ']') {
            None => Err("unclosed path index"@),
            Some(close) => {
                let index = p.subrange(i + 1, close);
                if index.len() == 0 {
                    Err("empty path index"@)
                } else if !all_digits(index) || digits_value(index) > u64::MAX {
                    Err("invalid path index"@)
                } else {
                    Ok((SpecSegment::Index(digits_value(index) as u64), close + 1))
                }
            },
        }
    } else {
        Err("invalid variable path"@)
    }
}

/// The segments of a path from position `i` on.
pub open spec fn parse_segments(p: Seq<char>, i: int) -> Result<Seq<SpecSegment>, Seq<char>>
    decreases p.len() - i,
{
    if !(0 <= i < p.len()) {
        Ok(Seq::empty())
    } else {
        match segment_at(p, i) {
            Err(e) => Err(e),
            Ok((seg, j)) => if i < j <= p.len() {
                match parse_segments(p, j) {
                    Err(e) => Err(e),
                    Ok(rest) => Ok(seq![seg] + rest),
                }
            } else {
                Err("invalid variable path"@)
            },
        }
    }
}

/// The path that `p` (the text after `$`) denotes.
pub open spec fn spec_parse_path(p: Seq<char>) -> Result<SpecPath, Seq<char>> {
    if p.len() == 0 {
        Err("empty variable path"@)
    } else {
        let root_end = find_field_end(p, 0);
        if root_end == 0 {
            Err("empty variable root"@)
        } else {
            match parse_segments(p, root_end) {
                Err(e) => Err(e),
                Ok(segs) => if has_adjacent_indexes(segs) || !is_identifier(
                    p.subrange(0, root_end),
                ) {
                    Err("invalid variable path"@)
                } else {
                    Ok(SpecPath { root: p.subrange(0, root_end), segments: segs })
                },
            }
        }
    }
}

pub open spec fn prepend_segments(pre: Seq<SpecSegment>, r: Result<Seq<SpecSegment>, Seq<char>>) -> Result<
    Seq<SpecSegment>,
    Seq<char>,
> {
    match r {
        Ok(v) => Ok(pre + v),
        Err(x) => Err(x),
    }
}

fn segments_push(segments: &mut Vec<PathSegment>, seg: PathSegment)
    ensures
        segments_view(final(segments)@) == segments_view(old(segments)@).push(seg@),
{
    segments.push(seg);
    assert(segments_view(segments@) =~= segments_view(old(segments)@).push(seg@));
}

fn path_segment_at(p: &Vec<char>, i: usize) -> (r: Result<(PathSegment, usize), &'static str>)
    requires
        i < p@.len(),
    ensures
        match (r, segment_at(p@, i as int)) {
            (Ok((x, j)), Ok((m, k))) => x@ == m && j == k,
            (Err(e), Err(m)) => e@ == m,
            _ => false,
        },
        r matches Ok((_, j)) ==> i < j <= p@.len(),
{
    let n = p.len();
    if p[i] == '.' {
        let after = i + 1;
        if after == n {
            return Err("empty path field");
        }
        let field_end = find_field_end_at(p, after);
        if field_end == after {
            return Err("empty path field");
        }
        let field = string_from(p, after, field_end);
        match PathField::try_new(field.as_str()) {
            Ok(f) => Ok((PathSegment::Field(f), field_end)),
            Err(_) => Err("invalid path field"),
        }
    } else if p[i] == '[' {
        proof {
            lemma_find_char_bounds(p@, i + 1, ']');
        }
        let close = match find_char_at(p, i + 1, ']') {
            Some(c) => c,
            None => {
                return Err("unclosed path index");
            },
        };
        if close == i + 1 {
            return Err("empty path index");
        }
        let digits = copy_range(p, i + 1, close);
        let all = all_digits_in(&digits, 0);
        assert(digits@.subrange(0, digits@.len() as int) =~= digits@);
        if !all {
            return Err("invalid path index");
        }
        match digits_to_u64(p, i + 1, close, u64::MAX) {
            Some(x) => Ok((PathSegment::Index(PathIndex(x)), close + 1)),
            None => Err("invalid path index"),
        }
    } else {
        Err("invalid variable path")
    }
}

/// Parses the text after `$` as a variable path.
pub fn parse_variable_path(p: &Vec<char>) -> (r: Result<VariablePath, &'static str>)
    ensures
        match (r, spec_parse_path(p@)) {
            (Ok(x), Ok(m)) => x@ == m,
            (Err(e), Err(m)) => e@ == m,
            _ => false,
        },
{
    let n = p.len();
    if n == 0 {
        return Err("empty variable path");
    }
    let root_end = find_field_end_at(p, 0);
    if root_end == 0 {
        return Err("empty variable root");
    }
    let mut segments: Vec<PathSegment> = Vec::new();
    let mut i = root_end;
    while i < n
        invariant
            0 < root_end <= i <= n == p@.len(),
            root_end == find_field_end(p@, 0),
            parse_segments(p@, root_end as int) == prepend_segments(
                segments_view(segments@),
                parse_segments(p@, i as int),
            ),
        decreases n - i,
    {
        let ghost before = segments_view(segments@);
        let (seg, j) = match path_segment_at(p, i) {
            Ok(x) => x,
            Err(e) => {
                return Err(e);
            },
        };
        let ghost sv = seg@;
        segments_push(&mut segments, seg);
        proof {
            match parse_segments(p@, j as int) {
                Ok(rest) => {
                    assert(before + (seq![sv] + rest) =~= segments_view(segments@) + rest);
                },
                Err(_) => {},
            }
        }
        i = j;
    }
    assert(segments_view(segments@) + Seq::<SpecSegment>::empty() =~= segments_view(segments@));
    let root = string_from(p, 0, root_end);
    match VariablePath::try_new(root.as_str(), segments) {
        Ok(path) => Ok(path),
        Err(_) => Err("invalid variable path"),
    }
}


// ---------------------------------------------------------------------------
// Expressions
// ---------------------------------------------------------------------------
/// The binary operator written at position `i`, if any (two-character
/// operators are preferred).
pub open spec fn binop_at(s: Seq<char>, i: int) -> Option<BinaryOp> {
    if !(0 <= i < s.len()) {
        None
    } else {
        let c = s[i];
        let next_is = |d: char| i + 1 < s.len() && s[i + 1] == d;
        if c == '|' {
            if next_is('|') {
                Some(BinaryOp::Or)
            } else {
                None
            }
        } else if c == '&' {
            if next_is('&') {
                Some(BinaryOp::And)
            } else {
                None
            }
        } else if c == '=' {
            if next_is('=') {
                Some(BinaryOp::Eq)
            } else {
                None
            }
        } else if c == '!' {
            if next_is('=') {
                Some(BinaryOp::Ne)
            } else {
                None
            }
        } else if c == '>' {
            if next_is('=') {
                Some(BinaryOp::Ge)
            } else {
                Some(BinaryOp::Gt)
            }
        } else if c == '<' {
            if next_is('=') {
                Some(BinaryOp::Le)
            } else {
                Some(BinaryOp::Lt)
            }
        } else if c == '+' {
            Some(BinaryOp::Add)
        } else if c == '-' {
            Some(BinaryOp::Sub)
        } else if c == '*' {
            Some(BinaryOp::Mul)
        } else if c == '/' {
            Some(BinaryOp::Div)
        } else if c == '%' {
            Some(BinaryOp::Rem)
        } else {
            None
        }
    }
}

/// The number of characters an operator is written with.
pub open spec fn op_width(op: BinaryOp) -> int {
    match op {
        BinaryOp::Or | BinaryOp::And | BinaryOp::Eq | BinaryOp::Ne | BinaryOp::Ge | BinaryOp::Le => 2,
        _ => 1,
    }
}

/// Left and right binding power: `||` < `&&` < comparisons < `+ -` < `* / %`,
/// all left-associative.
pub open spec fn binding_power(op: BinaryOp) -> (nat, nat) {
    match op {
        BinaryOp::Or => (1, 2),
        BinaryOp::And => (3, 4),
        BinaryOp::Eq | BinaryOp::Ne | BinaryOp::Gt | BinaryOp::Ge | BinaryOp::Lt | BinaryOp::Le => (
            5,
            6,
        ),
        BinaryOp::Add | BinaryOp::Sub => (7, 8),
        BinaryOp::Mul | BinaryOp::Div | BinaryOp::Rem => (9, 10),
    }
}

/// The binding power of the operand of a prefix `!` or `-`.
pub open spec fn prefix_power() -> nat {
    11
}

/// An expression whose operators all bind at least as tightly as `min_bp`,
/// starting at `i`, and the position after it.
pub open spec fn parse_bp(s: Seq<char>, i: int, min_bp: nat) -> Result<(SpecExpr, int), Seq<char>>
    decreases s.len() - i, 2nat,
{
    if !(0 <= i <= s.len()) {
        Err(unsupported())
    } else {
        match parse_prefix(s, i) {
            Err(e) => Err(e),
            Ok((lhs, j)) => if i < j <= s.len() {
                parse_infix(s, lhs, j, min_bp)
            } else {
                Err(unsupported())
            },
        }
    }
}

/// Extends `lhs` (which ends at `j`) with binary operators that bind at
/// least as tightly as `min_bp`.
pub open spec fn parse_infix(s: Seq<char>, lhs: SpecExpr, j: int, min_bp: nat) -> Result<
    (SpecExpr, int),
    Seq<char>,
>
    decreases s.len() - j, 0nat,
{
    let j1 = skip_ws(s, j);
    if !(0 <= j <= j1 <= s.len()) {
        Err(unsupported())
    } else {
        match binop_at(s, j1) {
            None => Ok((lhs, j1)),
            Some(op) => if binding_power(op).0 < min_bp {
                Ok((lhs, j1))
            } else {
                match parse_bp(s, j1 + op_width(op), binding_power(op).1) {
                    Err(e) => Err(e),
                    Ok((rhs, k)) => if j1 + op_width(op) < k <= s.len() {
                        parse_infix(
                            s,
                            SpecExpr::Binary { op, left: Box::new(lhs), right: Box::new(rhs) },
                            k,
                            min_bp,
                        )
                    } else {
                        Err(unsupported())
                    },
                }
            },
        }
    }
}

/// A literal, a variable path, a parenthesised expression or a prefix
/// operator applied to an operand, starting at `i`.
pub open spec fn parse_prefix(s: Seq<char>, i: int) -> Result<(SpecExpr, int), Seq<char>>
    decreases s.len() - i, 1nat,
{
    let i1 = skip_ws(s, i);
    if !(0 <= i <= i1 <= s.len()) || i1 == s.len() {
        Err(unsupported())
    } else {
        let c = s[i1];
        if c == '(' {
            match parse_bp(s, i1 + 1, 0) {
                Err(e) => Err(e),
                Ok((e, j)) => {
                    let j1 = skip_ws(s, j);
                    if 0 <= j1 < s.len() && s[j1] == ')' {
                        Ok((e, j1 + 1))
                    } else {
                        Err("unclosed parenthesis"@)
                    }
                },
            }
        } else if c == '!' {
            match parse_bp(s, i1 + 1, prefix_power()) {
                Err(e) => Err(e),
                Ok((e, j)) => Ok((SpecExpr::Unary { op: UnaryOp::Not, expr: Box::new(e) }, j)),
            }
        } else if starts_number(s, i1) {
            let end = number_end(s, i1);
            match spec_number(s.subrange(i1, end)) {
                Err(e) => Err(e),
                Ok(l) => Ok((SpecExpr::Literal(l), end)),
            }
        } else if c == '-' {
            match parse_bp(s, i1 + 1, prefix_power()) {
                Err(e) => Err(e),
                Ok((e, j)) => Ok((SpecExpr::Unary { op: UnaryOp::Neg, expr: Box::new(e) }, j)),
            }
        } else if c == '$' {
            let end = run_end(s, i1 + 1, Run::Path);
            match spec_parse_path(s.subrange(i1 + 1, end)) {
                Err(e) => Err(e),
                Ok(p) => Ok((SpecExpr::Variable(p), end)),
            }
        } else if c == '"' || c == '\'' {
            match scan_string(s, i1 + 1, c) {
                Err(e) => Err(e),
                Ok((v, end)) => Ok((SpecExpr::Literal(SpecLiteral::String(v)), end)),
            }
        } else if c == '_' || crate::text::is_alpha(c) {
            let end = run_end(s, i1, Run::Word);
            let w = s.subrange(i1, end);
            if w == "true"@ {
                Ok((SpecExpr::Literal(SpecLiteral::Bool(true)), end))
            } else if w == "false"@ {
                Ok((SpecExpr::Literal(SpecLiteral::Bool(false)), end))
            } else if w == "null"@ {
                Ok((SpecExpr::Literal(SpecLiteral::Null), end))
            } else {
                Err(unsupported())
            }
        } else {
            Err(unsupported())
        }
    }
}

/// What the operator grammar reads from `s`: one expression covering all of
/// `s` but white space.
pub open spec fn operator_expr(s: Seq<char>) -> Result<SpecExpr, Seq<char>> {
    match parse_bp(s, 0, 0) {
        Err(e) => Err(e),
        Ok((e, j)) => if skip_ws(s, j) == s.len() {
            Ok(e)
        } else {
            Err(unsupported())
        },
    }
}

/// The error in the body `s[k..hi]` of a quoted literal read whole, as
/// the literal reader reports it.
pub open spec fn quoted_body_error(s: Seq<char>, k: int, hi: int, quote: char) -> Option<Seq<char>>
    decreases hi - k,
{
    if !(0 <= k < hi && hi <= s.len()) {
        None
    } else if s[k] == quote {
        Some("unescaped quote in string literal"@)
    } else if s[k] == '\\' {
        if k + 1 >= hi {
            Some("unterminated escape"@)
        } else if escaped(s[k + 1]) is None {
            Some("unsupported escape"@)
        } else {
            quoted_body_error(s, k + 2, hi, quote)
        }
    } else {
        quoted_body_error(s, k + 1, hi, quote)
    }
}

/// `s[lo..hi]` holds only characters of a path and white space.
pub open spec fn plain_path_text(s: Seq<char>, lo: int, hi: int) -> bool {
    forall|k: int|
        lo <= k < hi ==> #[trigger] in_run(Run::Path, s, k) || is_space(s[k])
}

/// The reason an expression that the operator grammar refuses is refused:
/// a text that is one quoted literal, or a `$` and path characters alone,
/// is reported by what is wrong with that literal or path; anything else by
/// the operator grammar's own reason.
pub open spec fn refusal_reason(s: Seq<char>, reason: Seq<char>) -> Seq<char> {
    let a = skip_ws(s, 0);
    let b = crate::lexer::trim_end(s, a, s.len() as int);
    if !(0 <= a < b <= s.len()) {
        reason
    } else if s[a] == '"' || s[a] == '\'' {
        if b - a < 2 || s[b - 1] != s[a] {
            "unterminated string literal"@
        } else {
            match quoted_body_error(s, a + 1, b - 1, s[a]) {
                Some(m) => m,
                None => reason,
            }
        }
    } else if s[a] == '$' && plain_path_text(s, a + 1, b) {
        match spec_parse_path(s.subrange(a + 1, b)) {
            Err(m) => m,
            Ok(_) => reason,
        }
    } else {
        reason
    }
}

/// The expression `s` denotes: white space around and between tokens is
/// ignored, and the whole text must be one expression.
#[verifier::opaque]
pub open spec fn spec_parse_expr(s: Seq<char>) -> Result<SpecExpr, Seq<char>> {
    if skip_ws(s, 0) == s.len() {
        Err("empty expression"@)
    } else {
        match operator_expr(s) {
            Ok(e) => Ok(e),
            Err(reason) => Err(refusal_reason(s, reason)),
        }
    }
}

pub open spec fn expr_pos_matches(
    r: Result<(Expr, usize), &'static str>,
    m: Result<(SpecExpr, int), Seq<char>>,
) -> bool {
    match (r, m) {
        (Ok((x, j)), Ok((y, k))) => x@ == y && j == k,
        (Err(e), Err(y)) => e@ == y,
        _ => false,
    }
}

pub open spec fn expr_matches(r: Result<Expr, &'static str>, m: Result<SpecExpr, Seq<char>>) -> bool {
    match (r, m) {
        (Ok(x), Ok(y)) => x@ == y,
        (Err(e), Err(y)) => e@ == y,
        _ => false,
    }
}

fn binop_at_exec(v: &Vec<char>, i: usize) -> (r: Option<BinaryOp>)
    requires
        i <= v@.len(),
    ensures
        r == binop_at(v@, i as int),
        r matches Some(op) ==> i + op_width(op) <= v@.len(),
{
    if i >= v.len() {
        return None;
    }
    let c = v[i];
    let next: char = if i + 1 < v.len() {
        v[i + 1]
    } else {
        ' '
    };
    let has_next = i + 1 < v.len();
    if c == '|' {
        if has_next && next == '|' {
            Some(BinaryOp::Or)
        } else {
            None
        }
    } else if c == '&' {
        if has_next && next == '&' {
            Some(BinaryOp::And)
        } else {
            None
        }
    } else if c == '=' {
        if has_next && next == '=' {
            Some(BinaryOp::Eq)
        } else {
            None
        }
    } else if c == '!' {
        if has_next && next == '=' {
            Some(BinaryOp::Ne)
        } else {
            None
        }
    } else if c == '>' {
        if has_next && next == '=' {
            Some(BinaryOp::Ge)
        } else {
            Some(BinaryOp::Gt)
        }
    } else if c == '<' {
        if has_next && next == '=' {
            Some(BinaryOp::Le)
        } else {
            Some(BinaryOp::Lt)
        }
    } else if c == '+' {
        Some(BinaryOp::Add)
    } else if c == '-' {
        Some(BinaryOp::Sub)
    } else if c == '*' {
        Some(BinaryOp::Mul)
    } else if c == '/' {
        Some(BinaryOp::Div)
    } else if c == '%' {
        Some(BinaryOp::Rem)
    } else {
        None
    }
}

fn op_width_exec(op: BinaryOp) -> (w: usize)
    ensures
        w == op_width(op),
{
    match op {
        BinaryOp::Or | BinaryOp::And | BinaryOp::Eq | BinaryOp::Ne | BinaryOp::Ge | BinaryOp::Le => 2,
        _ => 1,
    }
}

fn binding_power_exec(op: BinaryOp) -> (r: (u8, u8))
    ensures
        r.0 == binding_power(op).0,
        r.1 == binding_power(op).1,
{
    match op {
        BinaryOp::Or => (1, 2),
        BinaryOp::And => (3, 4),
        BinaryOp::Eq | BinaryOp::Ne | BinaryOp::Gt | BinaryOp::Ge | BinaryOp::Lt | BinaryOp::Le => (
            5,
            6,
        ),
        BinaryOp::Add | BinaryOp::Sub => (7, 8),
        BinaryOp::Mul | BinaryOp::Div | BinaryOp::Rem => (9, 10),
    }
}

fn parse_bp_at(v: &Vec<char>, i: usize, min_bp: u8) -> (r: Result<(Expr, usize), &'static str>)
    requires
        i <= v@.len(),
    ensures
        expr_pos_matches(r, parse_bp(v@, i as int, min_bp as nat)),
        r matches Ok((_, j)) ==> i < j <= v@.len(),
    decreases v@.len() - i, 2nat,
{
    let (lhs, j) = match parse_prefix_at(v, i) {
        Ok(x) => x,
        Err(e) => {
            return Err(e);
        },
    };
    parse_infix_at(v, lhs, j, min_bp)
}

fn parse_infix_at(v: &Vec<char>, lhs: Expr, j: usize, min_bp: u8) -> (r: Result<
    (Expr, usize),
    &'static str,
>)
    requires
        j <= v@.len(),
    ensures
        expr_pos_matches(r, parse_infix(v@, lhs@, j as int, min_bp as nat)),
        r matches Ok((_, k)) ==> j <= k <= v@.len(),
    decreases v@.len() - j, 0nat,
{
    let j1 = skip_ws_at(v, j);
    match binop_at_exec(v, j1) {
        None => Ok((lhs, j1)),
        Some(op) => {
            let (left_power, right_power) = binding_power_exec(op);
            if left_power < min_bp {
                return Ok((lhs, j1));
            }
            let w = op_width_exec(op);
            let n = v.len();
            assert(j1 + w <= n);
            let (rhs, k) = match parse_bp_at(v, j1 + w, right_power) {
                Ok(x) => x,
                Err(e) => {
                    return Err(e);
                },
            };
            let combined = Expr::Binary { op, left: Box::new(lhs), right: Box::new(rhs) };
            parse_infix_at(v, combined, k, min_bp)
        },
    }
}

proof fn lemma_run_starts(s: Seq<char>, i: int, kind: Run)
    requires
        0 <= i < s.len(),
        in_run(kind, s, i),
    ensures
        i < run_end(s, i, kind) <= s.len(),
{
    lemma_run_end_bounds(s, i + 1, kind);
}

fn parse_prefix_at(v: &Vec<char>, i: usize) -> (r: Result<(Expr, usize), &'static str>)
    requires
        i <= v@.len(),
    ensures
        expr_pos_matches(r, parse_prefix(v@, i as int)),
        r matches Ok((_, j)) ==> i < j <= v@.len(),
    decreases v@.len() - i, 1nat,
{
    let n = v.len();
    let i1 = skip_ws_at(v, i);
    if i1 == n {
        return Err("unsupported expression");
    }
    let c = v[i1];
    if c == '(' {
        let (e, j) = match parse_bp_at(v, i1 + 1, 0) {
            Ok(x) => x,
            Err(e) => {
                return Err(e);
            },
        };
        let j1 = skip_ws_at(v, j);
        if j1 < n && v[j1] == ')' {
            Ok((e, j1 + 1))
        } else {
            Err("unclosed parenthesis")
        }
    } else if c == '!' {
        match parse_bp_at(v, i1 + 1, 11) {
            Ok((e, j)) => Ok((Expr::Unary { op: UnaryOp::Not, expr: Box::new(e) }, j)),
            Err(e) => Err(e),
        }
    } else if starts_number_at(v, i1) {
        let end = if c == '-' || c == '+' {
            proof {
                lemma_run_end_bounds(v@, i1 + 1, Run::Number);
            }
            run_end_at(v, i1 + 1, Run::Number)
        } else {
            proof {
                lemma_run_starts(v@, i1 as int, Run::Number);
            }
            run_end_at(v, i1, Run::Number)
        };
        let text = copy_range(v, i1, end);
        match number_literal(text) {
            Ok(l) => Ok((Expr::Literal(l), end)),
            Err(e) => Err(e),
        }
    } else if c == '-' {
        match parse_bp_at(v, i1 + 1, 11) {
            Ok((e, j)) => Ok((Expr::Unary { op: UnaryOp::Neg, expr: Box::new(e) }, j)),
            Err(e) => Err(e),
        }
    } else if c == '$' {
        let end = run_end_at(v, i1 + 1, Run::Path);
        let p = copy_range(v, i1 + 1, end);
        match parse_variable_path(&p) {
            Ok(path) => Ok((Expr::Variable(path), end)),
            Err(e) => Err(e),
        }
    } else if c == '"' || c == '\'' {
        match parse_quoted_string(v, i1 + 1, c) {
            Ok((value, end)) => Ok((Expr::Literal(Literal::String(value)), end)),
            Err(e) => Err(e),
        }
    } else if c == '_' || crate::text::alpha(c) {
        proof {
            lemma_run_starts(v@, i1 as int, Run::Word);
        }
        let end = run_end_at(v, i1, Run::Word);
        let word = string_from(v, i1, end);
        if crate::text::str_eq(word.as_str(), "true") {
            Ok((Expr::Literal(Literal::Bool(true)), end))
        } else if crate::text::str_eq(word.as_str(), "false") {
            Ok((Expr::Literal(Literal::Bool(false)), end))
        } else if crate::text::str_eq(word.as_str(), "null") {
            Ok((Expr::Literal(Literal::Null), end))
        } else {
            Err("unsupported expression")
        }
    } else {
        Err("unsupported expression")
    }
}

/// The error in the body `v[k..hi]` of a quoted literal read whole.
fn quoted_body_error_at(v: &Vec<char>, k: usize, hi: usize, quote: char) -> (r: Option<&'static str>)
    requires
        k <= hi <= v@.len(),
    ensures
        match quoted_body_error(v@, k as int, hi as int, quote) {
            Some(m) => r matches Some(x) && x@ == m,
            None => r is None,
        },
{
    let mut i = k;
    while i < hi
        invariant
            k <= i <= hi <= v@.len(),
            quoted_body_error(v@, k as int, hi as int, quote) == quoted_body_error(
                v@,
                i as int,
                hi as int,
                quote,
            ),
        decreases hi - i,
    {
        if v[i] == quote {
            return Some("unescaped quote in string literal");
        }
        if v[i] == '\\' {
            if i + 1 >= hi {
                return Some("unterminated escape");
            }
            let c = v[i + 1];
            if !(c == '\\' || c == '"' || c == '\'' || c == 'n' || c == 'r' || c == 't') {
                return Some("unsupported escape");
            }
            i = i + 2;
        } else {
            i = i + 1;
        }
    }
    None
}

/// Whether `v[lo..hi]` holds only characters of a path and white space.
fn plain_path_text_at(v: &Vec<char>, lo: usize, hi: usize) -> (r: bool)
    requires
        lo <= hi <= v@.len(),
    ensures
        r == plain_path_text(v@, lo as int, hi as int),
{
    let mut i = lo;
    while i < hi
        invariant
            lo <= i <= hi <= v@.len(),
            forall|k: int| lo <= k < i ==> #[trigger] in_run(Run::Path, v@, k) || is_space(v@[k]),
        decreases hi - i,
    {
        if !(in_run_at(&Run::Path, v, i) || space(v[i])) {
            return false;
        }
        i = i + 1;
    }
    true
}

/// The reason for refusing `v`, given the operator grammar's reason.
fn refusal_reason_at(v: &Vec<char>, reason: &'static str) -> (r: &'static str)
    ensures
        r@ == refusal_reason(v@, reason@),
{
    let a = skip_ws_at(v, 0);
    let b = crate::lexer::trim_end_at(v, a, v.len());
    if !(a < b) {
        return reason;
    }
    let c = v[a];
    if c == '"' || c == '\'' {
        if b - a < 2 || v[b - 1] != c {
            return "unterminated string literal";
        }
        match quoted_body_error_at(v, a + 1, b - 1, c) {
            Some(m) => m,
            None => reason,
        }
    } else if c == '$' && plain_path_text_at(v, a + 1, b) {
        let rest = copy_range(v, a + 1, b);
        match parse_variable_path(&rest) {
            Err(m) => m,
            Ok(_) => reason,
        }
    } else {
        reason
    }
}

/// Parses a template expression held as characters.
pub fn parse_expr_chars(v: &Vec<char>) -> (r: Result<Expr, &'static str>)
    ensures
        expr_matches(r, spec_parse_expr(v@)),
{
    proof {
        reveal(spec_parse_expr);
    }
    let start = skip_ws_at(v, 0);
    if start == v.len() {
        return Err("empty expression");
    }
    let (e, j) = match parse_bp_at(v, 0, 0) {
        Ok(x) => x,
        Err(e) => {
            return Err(refusal_reason_at(v, e));
        },
    };
    if skip_ws_at(v, j) == v.len() {
        Ok(e)
    } else {
        Err(refusal_reason_at(v, "unsupported expression"))
    }
}

/// Parses a template expression: literals (`"text"`, `'text'`, integers,
/// decimal floats, `true`, `false`, `null`), variable paths (`$a.b[0]`),
/// parentheses, prefix `!` and `-`, and the binary operators
/// `|| && == != > >= < <= + - * / %`.
pub fn parse_simple_expr(source: &str) -> (r: Result<Expr, &'static str>)
    ensures
        expr_matches(r, spec_parse_expr(source@)),
{
    let v = chars_of(source);
    parse_expr_chars(&v)
}

} // verus!
