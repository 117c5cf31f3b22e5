//! The compiled representation of a path expression: paths, segments,
//! selectors, filter expressions, comparables and functions.  An expression
//! is built once and never references a document; evaluation applies it to
//! whatever document is supplied.

use vstd::prelude::*;
use crate::regexp::CompiledRegex;
use crate::value::Value;

verus! {

/// A whole path expression: segments rooted at the document root.
#[derive(Debug)]
pub struct CborPath(pub AbsolutePath);

/// Segments rooted at the document root.
#[derive(Debug)]
pub struct AbsolutePath(pub Vec<Segment>);

/// Segments rooted at the current node of an enclosing filter.
#[derive(Debug)]
pub struct RelativePath(pub Vec<Segment>);

/// A path usable inside a filter: absolute (`$`) or relative (`@`).
#[derive(Debug)]
pub enum FilterPath {
    /// Rooted at the document root.
    Abs(AbsolutePath),
    /// Rooted at the current node.
    Rel(RelativePath),
}

/// One stage of a path: turns each node of the current list into a new list
/// through its selectors.
#[derive(Debug)]
pub enum Segment {
    /// Applies the selectors to each current node.
    Child(Vec<Selector>),
    /// Applies the selectors to each current node and all its descendants.
    Descendant(Vec<Selector>),
}

/// One selection step within a segment.
#[derive(Debug)]
pub enum Selector {
    /// Selects the value at a map key.
    Key(KeySelector),
    /// Selects every child of an array or map.
    Wildcard,
    /// Selects one array element by (possibly negative) index.
    Index(IndexSelector),
    /// Selects a stretch of array elements.
    Slice(SliceSelector),
    /// Keeps the children for which a boolean expression holds.
    Filter(FilterSelector),
}

/// Selects the value at the first map key structurally equal to the literal.
#[derive(Debug, PartialEq)]
pub struct KeySelector(pub Value);

impl KeySelector {
    /// A key selector for this literal key.
    pub fn new(value: Value) -> (r: KeySelector)
        ensures
            r == (KeySelector(value)),
    {
        KeySelector(value)
    }
}

/// Selects one array element; a negative index counts from the end.
#[derive(Debug, PartialEq, Eq)]
pub struct IndexSelector(pub isize);

impl IndexSelector {
    /// An index selector for this offset.
    pub fn new(index: isize) -> (r: IndexSelector)
        ensures
            r == (IndexSelector(index)),
    {
        IndexSelector(index)
    }
}

/// Selects array elements between `start` and `end` at stride `step`.
#[derive(Debug, PartialEq, Eq)]
pub struct SliceSelector(pub isize, pub isize, pub isize);

impl SliceSelector {
    /// A slice selector over these bounds and stride.
    pub fn new(start: isize, end: isize, step: isize) -> (r: SliceSelector)
        ensures
            r == (SliceSelector(start, end, step)),
    {
        SliceSelector(start, end, step)
    }
}

/// Keeps the children of an array or map for which the expression holds.
#[derive(Debug)]
pub struct FilterSelector(pub BooleanExpr);

impl FilterSelector {
    /// A filter selector over this expression.
    pub fn new(boolean_expr: BooleanExpr) -> (r: FilterSelector)
        ensures
            r == (FilterSelector(boolean_expr)),
    {
        FilterSelector(boolean_expr)
    }
}

/// A boolean expression of a filter.
#[derive(Debug)]
pub enum BooleanExpr {
    /// Either side holds.
    Or(Box<BooleanExpr>, Box<BooleanExpr>),
    /// Both sides hold.
    And(Box<BooleanExpr>, Box<BooleanExpr>),
    /// The side does not hold.
    Not(Box<BooleanExpr>),
    /// Two comparables stand in a relation.
    Comparison(ComparisonExpr),
    /// The path selects at least one node.
    Path(FilterPath),
    /// A regular-expression predicate.
    Function(Function),
}

/// A comparison between two comparables.
#[derive(Debug)]
pub struct ComparisonExpr(pub Comparable, pub ComparisonOperator, pub Comparable);

impl ComparisonExpr {
    /// A comparison of `left` and `right` under `operator`.
    pub fn new(left: Comparable, operator: ComparisonOperator, right: Comparable) -> (r:
        ComparisonExpr)
        ensures
            r == (ComparisonExpr(left, operator, right)),
    {
        ComparisonExpr(left, operator, right)
    }
}

/// The comparison operators.
#[derive(Debug, PartialEq, Eq)]
pub enum ComparisonOperator {
    /// Equal.
    Eq,
    /// Not equal.
    Neq,
    /// Greater than.
    Gt,
    /// Greater than or equal.
    Gte,
    /// Lesser than.
    Lt,
    /// Lesser than or equal.
    Lte,
}

/// An operand of a comparison or an argument of a function.
#[derive(Debug)]
pub enum Comparable {
    /// A literal value.
    Value(Value),
    /// A path that selects at most one node.
    SingularPath(SingularPath),
    /// A function of paths or comparables.
    Function(Function),
}

/// A path that selects at most one node: key and index steps only.
#[derive(Debug)]
pub enum SingularPath {
    /// Rooted at the document root.
    Abs(Vec<SingularSegment>),
    /// Rooted at the current node.
    Rel(Vec<SingularSegment>),
}

/// One step of a singular path.
#[derive(Debug)]
pub enum SingularSegment {
    /// Selects the value at a map key.
    Key(KeySelector),
    /// Selects one array element by index.
    Index(IndexSelector),
}

/// The filter functions.
#[derive(Debug)]
pub enum Function {
    /// The element count, entry count or byte length of a comparable.
    Length(Box<Comparable>),
    /// How many nodes a path selects.
    Count(FilterPath),
    /// The node a path selects, when it selects exactly one.
    Value(FilterPath),
    /// Whether a regular expression matches the comparable's text.
    Regex(Box<Comparable>, CompiledRegex),
}

} // verus!
