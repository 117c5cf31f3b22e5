//! A step-by-step way to put a path expression together: paths grow
//! segment by segment, segments selector by selector, and filter
//! expressions from comparisons, functions and each other.

use vstd::prelude::*;
use vstd::string::StringSliceAdditionalSpecFns;
use crate::ast::{
    AbsolutePath, BooleanExpr, CborPath, Comparable, ComparisonExpr, ComparisonOperator,
    FilterPath, FilterSelector, Function, IndexSelector, KeySelector, RelativePath, Segment,
    Selector, SingularPath, SingularSegment, SliceSelector,
};
use crate::convert::s_anchored;
use crate::error::Error;
use crate::regexp::{regex_valid, CompiledRegex};
use crate::value::Value;

verus! {

/// Grows a path, segment by segment.
#[derive(Debug)]
pub struct PathBuilder {
    /// Whether the path starts at the document root.
    pub is_absolute: bool,
    /// The segments gathered so far.
    pub segments: Vec<Segment>,
}

/// Grows one segment, selector by selector.
#[derive(Debug)]
pub struct SegmentBuilder {
    /// The selectors gathered so far.
    pub selectors: Vec<Selector>,
}

/// Holds a finished boolean expression for a filter.
#[derive(Debug)]
pub struct BooleanExprBuilder {
    /// The expression.
    pub boolean_expr: BooleanExpr,
}

/// Holds a finished comparable for a comparison or function argument.
#[derive(Debug)]
pub struct ComparableBuilder {
    /// The comparable.
    pub comparable: Comparable,
}

/// Grows a singular path, step by step.
#[derive(Debug)]
pub struct SingularPathBuilder {
    /// Whether the path starts at the document root.
    pub is_absolute: bool,
    /// The steps gathered so far.
    pub segments: Vec<SingularSegment>,
}

/// Starts an absolute path, rooted at the document root.
pub fn abs_path() -> (r: PathBuilder)
    ensures
        r.is_absolute,
        r.segments@.len() == 0,
{
    PathBuilder { is_absolute: true, segments: Vec::new() }
}

/// Starts a relative path, rooted at the current node of a filter.
pub fn rel_path() -> (r: PathBuilder)
    ensures
        !r.is_absolute,
        r.segments@.len() == 0,
{
    PathBuilder { is_absolute: false, segments: Vec::new() }
}

/// Starts an empty segment.
pub fn segment() -> (r: SegmentBuilder)
    ensures
        r.selectors@.len() == 0,
{
    SegmentBuilder { selectors: Vec::new() }
}

/// Both sides must hold.
pub fn and(left: BooleanExprBuilder, right: BooleanExprBuilder) -> (r: BooleanExprBuilder)
    ensures
        r.boolean_expr matches BooleanExpr::And(l, rr) && *l == left.boolean_expr && *rr
            == right.boolean_expr,
{
    BooleanExprBuilder {
        boolean_expr: BooleanExpr::And(
            Box::new(left.boolean_expr),
            Box::new(right.boolean_expr),
        ),
    }
}

/// Either side must hold.
pub fn or(left: BooleanExprBuilder, right: BooleanExprBuilder) -> (r: BooleanExprBuilder)
    ensures
        r.boolean_expr matches BooleanExpr::Or(l, rr) && *l == left.boolean_expr && *rr
            == right.boolean_expr,
{
    BooleanExprBuilder {
        boolean_expr: BooleanExpr::Or(Box::new(left.boolean_expr), Box::new(right.boolean_expr)),
    }
}

/// The side must not hold.
pub fn not(expr: BooleanExprBuilder) -> (r: BooleanExprBuilder)
    ensures
        r.boolean_expr matches BooleanExpr::Not(inner) && *inner == expr.boolean_expr,
{
    BooleanExprBuilder { boolean_expr: BooleanExpr::Not(Box::new(expr.boolean_expr)) }
}

/// A comparison of two comparables under one operator.
fn comparison(left: ComparableBuilder, op: ComparisonOperator, right: ComparableBuilder) -> (r:
    BooleanExprBuilder)
    ensures
        r.boolean_expr == BooleanExpr::Comparison(
            ComparisonExpr(left.comparable, op, right.comparable),
        ),
{
    BooleanExprBuilder {
        boolean_expr: BooleanExpr::Comparison(
            ComparisonExpr(left.comparable, op, right.comparable),
        ),
    }
}

/// Greater than or equal.
pub fn gte(left: ComparableBuilder, right: ComparableBuilder) -> (r: BooleanExprBuilder)
    ensures
        r.boolean_expr == BooleanExpr::Comparison(
            ComparisonExpr(left.comparable, ComparisonOperator::Gte, right.comparable),
        ),
{
    comparison(left, ComparisonOperator::Gte, right)
}

/// Greater than.
pub fn gt(left: ComparableBuilder, right: ComparableBuilder) -> (r: BooleanExprBuilder)
    ensures
        r.boolean_expr == BooleanExpr::Comparison(
            ComparisonExpr(left.comparable, ComparisonOperator::Gt, right.comparable),
        ),
{
    comparison(left, ComparisonOperator::Gt, right)
}

/// Equal.
pub fn eq(left: ComparableBuilder, right: ComparableBuilder) -> (r: BooleanExprBuilder)
    ensures
        r.boolean_expr == BooleanExpr::Comparison(
            ComparisonExpr(left.comparable, ComparisonOperator::Eq, right.comparable),
        ),
{
    comparison(left, ComparisonOperator::Eq, right)
}

/// Not equal.
pub fn neq(left: ComparableBuilder, right: ComparableBuilder) -> (r: BooleanExprBuilder)
    ensures
        r.boolean_expr == BooleanExpr::Comparison(
            ComparisonExpr(left.comparable, ComparisonOperator::Neq, right.comparable),
        ),
{
    comparison(left, ComparisonOperator::Neq, right)
}

/// Lesser than or equal.
pub fn lte(left: ComparableBuilder, right: ComparableBuilder) -> (r: BooleanExprBuilder)
    ensures
        r.boolean_expr == BooleanExpr::Comparison(
            ComparisonExpr(left.comparable, ComparisonOperator::Lte, right.comparable),
        ),
{
    comparison(left, ComparisonOperator::Lte, right)
}

/// Lesser than.
pub fn lt(left: ComparableBuilder, right: ComparableBuilder) -> (r: BooleanExprBuilder)
    ensures
        r.boolean_expr == BooleanExpr::Comparison(
            ComparisonExpr(left.comparable, ComparisonOperator::Lt, right.comparable),
        ),
{
    comparison(left, ComparisonOperator::Lt, right)
}

/// A whole-string regular-expression match on a comparable: the pattern is
/// anchored by `^` and `$` before compiling.
#[verifier::loop_isolation(false)]
pub fn _match(comparable: ComparableBuilder, regex: &str) -> (r: Result<BooleanExprBuilder, Error>)
    ensures
        r is Ok <==> regex_valid(s_anchored(regex.spec_bytes())),
        r matches Ok(b) ==> b.boolean_expr matches BooleanExpr::Function(f) && f matches
            Function::Regex(c, re) && *c == comparable.comparable && re.spec_pattern()
            == s_anchored(regex.spec_bytes()),
        r matches Err(e) ==> e is Conversion,
{
    let bytes = regex.as_bytes();
    let mut pat: Vec<u8> = Vec::new();
    pat.push(0x5e);
    let mut k: usize = 0;
    while k < bytes.len()
        invariant
            0 <= k <= bytes.len(),
            pat@ =~= seq![0x5eu8] + bytes@.take(k as int),
        decreases bytes.len() - k,
    {
        pat.push(bytes[k]);
        proof {
            assert(pat@ =~= seq![0x5eu8] + bytes@.take(k as int + 1));
        }
        k = k + 1;
    }
    pat.push(0x24);
    proof {
        assert(bytes@.take(bytes@.len() as int) =~= bytes@);
        assert(pat@ =~= s_anchored(regex.spec_bytes()));
    }
    match CompiledRegex::compile(pat.as_slice()) {
        Ok(re) => Ok(
            BooleanExprBuilder {
                boolean_expr: BooleanExpr::Function(
                    Function::Regex(Box::new(comparable.comparable), re),
                ),
            },
        ),
        Err(e) => Err(e),
    }
}

/// A substring regular-expression match on a comparable.
pub fn search(comparable: ComparableBuilder, regex: &str) -> (r: Result<BooleanExprBuilder, Error>)
    ensures
        r is Ok <==> regex_valid(regex.spec_bytes()),
        r matches Ok(b) ==> b.boolean_expr matches BooleanExpr::Function(f) && f matches
            Function::Regex(c, re) && *c == comparable.comparable && re.spec_pattern()
            == regex.spec_bytes(),
        r matches Err(e) ==> e is Conversion,
{
    match CompiledRegex::compile(regex.as_bytes()) {
        Ok(re) => Ok(
            BooleanExprBuilder {
                boolean_expr: BooleanExpr::Function(
                    Function::Regex(Box::new(comparable.comparable), re),
                ),
            },
        ),
        Err(e) => Err(e),
    }
}

/// Starts an absolute singular path.
pub fn sing_abs_path() -> (r: SingularPathBuilder)
    ensures
        r.is_absolute,
        r.segments@.len() == 0,
{
    SingularPathBuilder { is_absolute: true, segments: Vec::new() }
}

/// Starts a relative singular path.
pub fn sing_rel_path() -> (r: SingularPathBuilder)
    ensures
        !r.is_absolute,
        r.segments@.len() == 0,
{
    SingularPathBuilder { is_absolute: false, segments: Vec::new() }
}

/// A literal value as a comparable.
pub fn val(v: Value) -> (r: ComparableBuilder)
    ensures
        r.comparable == Comparable::Value(v),
{
    ComparableBuilder { comparable: Comparable::Value(v) }
}

/// The length of a comparable: element or entry count, byte length, or one.
pub fn length(comparable: ComparableBuilder) -> (r: ComparableBuilder)
    ensures
        r.comparable matches Comparable::Function(f) && f matches Function::Length(inner)
            && *inner == comparable.comparable,
{
    ComparableBuilder {
        comparable: Comparable::Function(Function::Length(Box::new(comparable.comparable))),
    }
}

/// How many nodes a path selects.
pub fn count(path: PathBuilder) -> (r: ComparableBuilder)
    ensures
        r.comparable matches Comparable::Function(f) && f matches Function::Count(fp)
            && s_built_path(fp, path),
{
    ComparableBuilder { comparable: Comparable::Function(Function::Count(path.build_path())) }
}

/// The node a path selects, when it selects exactly one.
pub fn value(path: PathBuilder) -> (r: ComparableBuilder)
    ensures
        r.comparable matches Comparable::Function(f) && f matches Function::Value(fp)
            && s_built_path(fp, path),
{
    ComparableBuilder { comparable: Comparable::Function(Function::Value(path.build_path())) }
}

/// Whether a singular path carries exactly a builder's root and steps.
pub open spec fn s_built_singular(sp: SingularPath, b: SingularPathBuilder) -> bool {
    if b.is_absolute {
        sp matches SingularPath::Abs(ss) && ss == b.segments
    } else {
        sp matches SingularPath::Rel(ss) && ss == b.segments
    }
}

/// Whether a filter path carries exactly a builder's root and segments.
pub open spec fn s_built_path(fp: FilterPath, b: PathBuilder) -> bool {
    if b.is_absolute {
        fp matches FilterPath::Abs(ap) && ap.0 == b.segments
    } else {
        fp matches FilterPath::Rel(rp) && rp.0 == b.segments
    }
}

impl PathBuilder {
    /// Appends a child segment built from several selectors.
    pub fn child(self, seg: SegmentBuilder) -> (r: PathBuilder)
        ensures
            r.is_absolute == self.is_absolute,
            r.segments@ == self.segments@.push(Segment::Child(seg.selectors)),
    {
        let PathBuilder { is_absolute, mut segments } = self;
        segments.push(Segment::Child(seg.selectors));
        PathBuilder { is_absolute, segments }
    }

    /// Appends a descendant segment built from several selectors.
    pub fn descendant(self, seg: SegmentBuilder) -> (r: PathBuilder)
        ensures
            r.is_absolute == self.is_absolute,
            r.segments@ == self.segments@.push(Segment::Descendant(seg.selectors)),
    {
        let PathBuilder { is_absolute, mut segments } = self;
        segments.push(Segment::Descendant(seg.selectors));
        PathBuilder { is_absolute, segments }
    }

    /// Appends a child segment of one key selector.
    pub fn key(self, v: Value) -> (r: PathBuilder)
        ensures
            r.is_absolute == self.is_absolute,
            r.segments@.len() == self.segments@.len() + 1,
            forall|i: int|
                0 <= i < self.segments@.len() ==> r.segments@[i] == #[trigger] self.segments@[i],
            r.segments@.last() matches Segment::Child(sels) && sels@ =~= seq![
                Selector::Key(KeySelector(v)),
            ],
    {
        let PathBuilder { is_absolute, mut segments } = self;
        segments.push(Segment::Child(vec![Selector::Key(KeySelector(v))]));
        PathBuilder { is_absolute, segments }
    }

    /// Appends a child segment of one wildcard selector.
    pub fn wildcard(self) -> (r: PathBuilder)
        ensures
            r.is_absolute == self.is_absolute,
            r.segments@.len() == self.segments@.len() + 1,
            forall|i: int|
                0 <= i < self.segments@.len() ==> r.segments@[i] == #[trigger] self.segments@[i],
            r.segments@.last() matches Segment::Child(sels) && sels@ =~= seq![Selector::Wildcard],
    {
        let PathBuilder { is_absolute, mut segments } = self;
        segments.push(Segment::Child(vec![Selector::Wildcard]));
        PathBuilder { is_absolute, segments }
    }

    /// Appends a child segment of one index selector.
    pub fn index(self, index: isize) -> (r: PathBuilder)
        ensures
            r.is_absolute == self.is_absolute,
            r.segments@.len() == self.segments@.len() + 1,
            forall|i: int|
                0 <= i < self.segments@.len() ==> r.segments@[i] == #[trigger] self.segments@[i],
            r.segments@.last() matches Segment::Child(sels) && sels@ =~= seq![
                Selector::Index(IndexSelector(index)),
            ],
    {
        let PathBuilder { is_absolute, mut segments } = self;
        segments.push(Segment::Child(vec![Selector::Index(IndexSelector(index))]));
        PathBuilder { is_absolute, segments }
    }

    /// Appends a child segment of one slice selector.
    pub fn slice(self, start: isize, end: isize, step: isize) -> (r: PathBuilder)
        ensures
            r.is_absolute == self.is_absolute,
            r.segments@.len() == self.segments@.len() + 1,
            forall|i: int|
                0 <= i < self.segments@.len() ==> r.segments@[i] == #[trigger] self.segments@[i],
            r.segments@.last() matches Segment::Child(sels) && sels@ =~= seq![
                Selector::Slice(SliceSelector(start, end, step)),
            ],
    {
        let PathBuilder { is_absolute, mut segments } = self;
        segments.push(Segment::Child(vec![Selector::Slice(SliceSelector(start, end, step))]));
        PathBuilder { is_absolute, segments }
    }

    /// Appends a child segment of one filter selector.
    pub fn filter(self, boolean_expr: BooleanExprBuilder) -> (r: PathBuilder)
        ensures
            r.is_absolute == self.is_absolute,
            r.segments@.len() == self.segments@.len() + 1,
            forall|i: int|
                0 <= i < self.segments@.len() ==> r.segments@[i] == #[trigger] self.segments@[i],
            r.segments@.last() matches Segment::Child(sels) && sels@ =~= seq![
                Selector::Filter(FilterSelector(boolean_expr.boolean_expr)),
            ],
    {
        let PathBuilder { is_absolute, mut segments } = self;
        segments.push(
            Segment::Child(vec![Selector::Filter(FilterSelector(boolean_expr.boolean_expr))]),
        );
        PathBuilder { is_absolute, segments }
    }

    /// Finishes the path as a whole path expression; the root identifier
    /// no longer matters, since a whole expression is always absolute.
    pub fn build(self) -> (r: CborPath)
        ensures
            r.0.0 == self.segments,
    {
        CborPath(AbsolutePath(self.segments))
    }

    /// Finishes the path for use inside a filter, keeping its root.
    pub fn build_path(self) -> (r: FilterPath)
        ensures
            s_built_path(r, self),
    {
        if self.is_absolute {
            FilterPath::Abs(AbsolutePath(self.segments))
        } else {
            FilterPath::Rel(RelativePath(self.segments))
        }
    }
}

impl SegmentBuilder {
    /// Appends a key selector.
    pub fn key(self, v: Value) -> (r: SegmentBuilder)
        ensures
            r.selectors@ == self.selectors@.push(Selector::Key(KeySelector(v))),
    {
        let SegmentBuilder { mut selectors } = self;
        selectors.push(Selector::Key(KeySelector(v)));
        SegmentBuilder { selectors }
    }

    /// Appends a wildcard selector.
    pub fn wildcard(self) -> (r: SegmentBuilder)
        ensures
            r.selectors@ == self.selectors@.push(Selector::Wildcard),
    {
        let SegmentBuilder { mut selectors } = self;
        selectors.push(Selector::Wildcard);
        SegmentBuilder { selectors }
    }

    /// Appends an index selector.
    pub fn index(self, index: isize) -> (r: SegmentBuilder)
        ensures
            r.selectors@ == self.selectors@.push(Selector::Index(IndexSelector(index))),
    {
        let SegmentBuilder { mut selectors } = self;
        selectors.push(Selector::Index(IndexSelector(index)));
        SegmentBuilder { selectors }
    }

    /// Appends a slice selector.
    pub fn slice(self, start: isize, end: isize, step: isize) -> (r: SegmentBuilder)
        ensures
            r.selectors@ == self.selectors@.push(
                Selector::Slice(SliceSelector(start, end, step)),
            ),
    {
        let SegmentBuilder { mut selectors } = self;
        selectors.push(Selector::Slice(SliceSelector(start, end, step)));
        SegmentBuilder { selectors }
    }

    /// Appends a filter selector.
    pub fn filter(self, boolean_expr: BooleanExprBuilder) -> (r: SegmentBuilder)
        ensures
            r.selectors@ == self.selectors@.push(
                Selector::Filter(FilterSelector(boolean_expr.boolean_expr)),
            ),
    {
        let SegmentBuilder { mut selectors } = self;
        selectors.push(Selector::Filter(FilterSelector(boolean_expr.boolean_expr)));
        SegmentBuilder { selectors }
    }

    /// Finishes the segment as a child or a descendant segment.
    pub fn build(self, is_child: bool) -> (r: Segment)
        ensures
            is_child ==> r == Segment::Child(self.selectors),
            !is_child ==> r == Segment::Descendant(self.selectors),
    {
        if is_child {
            Segment::Child(self.selectors)
        } else {
            Segment::Descendant(self.selectors)
        }
    }
}

impl BooleanExprBuilder {
    /// Wraps a finished expression.
    pub fn new(boolean_expr: BooleanExpr) -> (r: BooleanExprBuilder)
        ensures
            r.boolean_expr == boolean_expr,
    {
        BooleanExprBuilder { boolean_expr }
    }

    /// A bare path as an expression: it holds when the path selects
    /// something.
    pub fn from_path(path: PathBuilder) -> (r: BooleanExprBuilder)
        ensures
            r.boolean_expr matches BooleanExpr::Path(fp) && s_built_path(fp, path),
    {
        BooleanExprBuilder { boolean_expr: BooleanExpr::Path(path.build_path()) }
    }

    /// Hands the expression out.
    pub fn build(self) -> (r: BooleanExpr)
        ensures
            r == self.boolean_expr,
    {
        self.boolean_expr
    }
}

impl ComparableBuilder {
    /// Wraps a finished comparable.
    pub fn new(comparable: Comparable) -> (r: ComparableBuilder)
        ensures
            r.comparable == comparable,
    {
        ComparableBuilder { comparable }
    }

    /// A singular path as a comparable.
    pub fn from_singular(singular_path: SingularPathBuilder) -> (r: ComparableBuilder)
        ensures
            r.comparable matches Comparable::SingularPath(sp) && s_built_singular(
                sp,
                singular_path,
            ),
    {
        ComparableBuilder { comparable: Comparable::SingularPath(singular_path.build()) }
    }

    /// Hands the comparable out.
    pub fn build(self) -> (r: Comparable)
        ensures
            r == self.comparable,
    {
        self.comparable
    }
}

impl SingularPathBuilder {
    /// Appends a key step.
    pub fn key(self, v: Value) -> (r: SingularPathBuilder)
        ensures
            r.is_absolute == self.is_absolute,
            r.segments@ == self.segments@.push(SingularSegment::Key(KeySelector(v))),
    {
        let SingularPathBuilder { is_absolute, mut segments } = self;
        segments.push(SingularSegment::Key(KeySelector(v)));
        SingularPathBuilder { is_absolute, segments }
    }

    /// Appends an index step.
    pub fn index(self, index: isize) -> (r: SingularPathBuilder)
        ensures
            r.is_absolute == self.is_absolute,
            r.segments@ == self.segments@.push(SingularSegment::Index(IndexSelector(index))),
    {
        let SingularPathBuilder { is_absolute, mut segments } = self;
        segments.push(SingularSegment::Index(IndexSelector(index)));
        SingularPathBuilder { is_absolute, segments }
    }

    /// Finishes the singular path, keeping its root.
    pub fn build(self) -> (r: SingularPath)
        ensures
            self.is_absolute ==> r == SingularPath::Abs(self.segments),
            !self.is_absolute ==> r == SingularPath::Rel(self.segments),
    {
        if self.is_absolute {
            SingularPath::Abs(self.segments)
        } else {
            SingularPath::Rel(self.segments)
        }
    }
}

impl CborPath {
    /// Starts a path expression.
    pub fn builder() -> (r: PathBuilder)
        ensures
            r.is_absolute,
            r.segments@.len() == 0,
    {
        abs_path()
    }
}

} // verus!
