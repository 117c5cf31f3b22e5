//! The mathematical model of evaluation: what a path expression selects
//! from a document, as a sequence of matches, each a location paired with
//! the node it addresses.

use vstd::prelude::*;
use crate::ast::{
    AbsolutePath, BooleanExpr, CborPath, Comparable, ComparisonExpr, ComparisonOperator,
    FilterPath, Function, IndexSelector, KeySelector, Segment, Selector, SingularPath,
    SingularSegment, SliceSelector,
};
use crate::path::PathStep;
use crate::regexp::regex_search;
use crate::value::{spec_dict_find, spec_value_eq, spec_value_lt, Node};

verus! {

// ---------------------------------------------------------------------------
// Index arithmetic.

/// A negative offset counts from the end: `len + i`; others stand as given.
pub open spec fn s_normalize(i: int, len: int) -> int {
    if i >= 0 {
        i
    } else {
        len + i
    }
}

/// Clamps an index into `[0, len]`.
pub open spec fn s_clamp(i: int, len: int) -> int {
    if i < 0 {
        0
    } else if i > len {
        len
    } else {
        i
    }
}

/// The absolute value.
pub open spec fn s_abs(a: int) -> int {
    if a < 0 {
        -a
    } else {
        a
    }
}

/// The remainder with the sign of the dividend, as machine division gives
/// it: `t_mod(-7, 3) == -1`, `t_mod(7, -3) == 1`.
pub open spec fn t_mod(a: int, b: int) -> int
    recommends
        b != 0,
{
    if a >= 0 {
        a % s_abs(b)
    } else {
        -((-a) % s_abs(b))
    }
}

/// The indices `lo, lo + step, …` that stay below `hi`, in that order.
pub open spec fn s_stride(lo: int, hi: int, step: int) -> Seq<int>
    decreases (if hi - lo > 0 { hi - lo } else { 0 }),
        when 0 < step
{
    if lo >= hi {
        Seq::empty()
    } else {
        seq![lo] + s_stride(lo + step, hi, step)
    }
}

/// The indices a slice over an array of length `len` selects, in the order
/// it hands the elements out.
///
/// For a positive step, bounds are normalized, clamped into `[0, len]`, and
/// walked upward.  For a negative step, the window of the backward walk is
/// computed first — its lower bound is the smallest index of the stride
/// grid above the normalized end — then walked upward at the step's
/// magnitude and reversed, so the elements come out in falling index order.
/// A window bound that falls below zero selects nothing, and a zero step
/// selects nothing.
pub open spec fn s_slice_indices(len: int, start: int, end: int, step: int) -> Seq<int> {
    if step > 0 {
        let lo = s_clamp(s_normalize(start, len), len);
        let hi = s_clamp(s_normalize(end, len), len);
        s_stride(lo, hi, step)
    } else if step < 0 {
        let ns = s_normalize(start, len);
        let ne = s_normalize(end, len);
        let a0 = ne + 1 + t_mod(ns, -step) - t_mod(ne + 1, step);
        let lo = if a0 < 0 || a0 > len {
            len
        } else {
            a0
        };
        let e0 = ns + 1;
        let hi = if e0 < 0 || e0 > len {
            len
        } else {
            e0
        };
        s_stride(lo, hi, -step).reverse()
    } else {
        Seq::empty()
    }
}

/// Every index of a stride lies in `[lo, hi)`.
pub proof fn lemma_stride_in_range(lo: int, hi: int, step: int)
    requires
        0 < step,
    ensures
        forall|k: int|
            0 <= k < s_stride(lo, hi, step).len() ==> lo <= #[trigger] s_stride(lo, hi, step)[k]
                < hi,
    decreases (if hi - lo > 0 { hi - lo } else { 0 }),
{
    if lo < hi {
        lemma_stride_in_range(lo + step, hi, step);
        let s = s_stride(lo, hi, step);
        let rest = s_stride(lo + step, hi, step);
        assert forall|k: int| 0 <= k < s.len() implies lo <= #[trigger] s[k] < hi by {
            if k == 0 {
                assert(s[0] == lo);
            } else {
                assert(s[k] == rest[k - 1]);
            }
        }
    }
}

/// Every index a slice selects lies within the array.
pub proof fn lemma_slice_indices_in_range(len: int, start: int, end: int, step: int)
    requires
        len >= 0,
    ensures
        forall|k: int|
            0 <= k < s_slice_indices(len, start, end, step).len() ==> 0 <= #[trigger] s_slice_indices(
                len,
                start,
                end,
                step,
            )[k] < len,
{
    if step > 0 {
        let lo = s_clamp(s_normalize(start, len), len);
        let hi = s_clamp(s_normalize(end, len), len);
        lemma_stride_in_range(lo, hi, step);
    } else if step < 0 {
        let ns = s_normalize(start, len);
        let ne = s_normalize(end, len);
        let a0 = ne + 1 + t_mod(ns, -step) - t_mod(ne + 1, step);
        let lo = if a0 < 0 || a0 > len {
            len
        } else {
            a0
        };
        let e0 = ns + 1;
        let hi = if e0 < 0 || e0 > len {
            len
        } else {
            e0
        };
        lemma_stride_in_range(lo, hi, -step);
    }
}

// ---------------------------------------------------------------------------
// Descendant expansion.

/// The descendants of a node, paired with their locations below `base`:
/// first all the node's children in document order, then, child by child,
/// each child's own descendants.
pub open spec fn s_desc(base: Seq<PathStep>, v: Node) -> Seq<(Seq<PathStep>, Node)>
    decreases v, 0int,
{
    match v {
        Node::Array(ch) => Seq::new(ch.len(), |i: int| (base.push(PathStep::Index(i)), ch[i]))
            + s_desc_arr(base, ch, 0),
        Node::Dict(es) => Seq::new(
            es.len(),
            |i: int| (base.push(PathStep::Key(es[i].0)), es[i].1),
        ) + s_desc_dict(base, es, 0),
        _ => Seq::empty(),
    }
}

/// The concatenated descendants of `ch[i..]`, each below its own location.
pub open spec fn s_desc_arr(base: Seq<PathStep>, ch: Seq<Node>, i: int) -> Seq<
    (Seq<PathStep>, Node),
>
    decreases ch, ch.len() - i,
{
    if i < 0 || i >= ch.len() {
        Seq::empty()
    } else {
        s_desc(base.push(PathStep::Index(i)), ch[i]) + s_desc_arr(base, ch, i + 1)
    }
}

/// The concatenated descendants of the values of `es[i..]`, each below its
/// own location.
pub open spec fn s_desc_dict(base: Seq<PathStep>, es: Seq<(Node, Node)>, i: int) -> Seq<
    (Seq<PathStep>, Node),
>
    decreases es, es.len() - i,
{
    if i < 0 || i >= es.len() {
        Seq::empty()
    } else {
        s_desc(base.push(PathStep::Key(es[i].0)), es[i].1) + s_desc_dict(base, es, i + 1)
    }
}

/// Each match of `cur[j..]` followed by its descendants.
pub open spec fn s_expand(cur: Seq<(Seq<PathStep>, Node)>, j: int) -> Seq<(Seq<PathStep>, Node)>
    decreases cur.len() - j,
{
    if j < 0 || j >= cur.len() {
        Seq::empty()
    } else {
        seq![cur[j]] + s_desc(cur[j].0, cur[j].1) + s_expand(cur, j + 1)
    }
}

// ---------------------------------------------------------------------------
// Comparison of resolved comparables.

/// Equality of two resolved comparables: two absent operands are equal, an
/// absent and a present one are not, and two present ones compare
/// structurally.
pub open spec fn s_cmp_eq(a: Option<Node>, b: Option<Node>) -> bool {
    match (a, b) {
        (Option::None, Option::None) => true,
        (Option::Some(x), Option::Some(y)) => spec_value_eq(x, y),
        _ => false,
    }
}

/// Order of two resolved comparables: only two present operands of one
/// ordered kind can stand in it.
pub open spec fn s_cmp_lt(a: Option<Node>, b: Option<Node>) -> bool {
    match (a, b) {
        (Option::Some(x), Option::Some(y)) => spec_value_lt(x, y),
        _ => false,
    }
}

// ---------------------------------------------------------------------------
// Singular paths.

/// What one singular step selects from a node.
pub open spec fn s_eval_sing_seg(seg: SingularSegment, v: Node) -> Option<Node> {
    match seg {
        SingularSegment::Key(ks) => match v {
            Node::Dict(es) => spec_dict_find(es, ks.0@),
            _ => Option::None,
        },
        SingularSegment::Index(isel) => match v {
            Node::Array(ch) => {
                let n = s_normalize(isel.0 as int, ch.len() as int);
                if 0 <= n < ch.len() {
                    Option::Some(ch[n])
                } else {
                    Option::None
                }
            },
            _ => Option::None,
        },
    }
}

/// Follows the singular steps from `i` on; absent as soon as one fails.
pub open spec fn s_eval_sing_segs(segs: Vec<SingularSegment>, i: int, v: Node) -> Option<Node>
    decreases segs, segs@.len() - i,
{
    if i < 0 || i >= segs@.len() {
        Option::Some(v)
    } else {
        match s_eval_sing_seg(segs@[i], v) {
            Option::Some(n) => s_eval_sing_segs(segs, i + 1, n),
            Option::None => Option::None,
        }
    }
}

/// The at-most-one node a singular path selects.
pub open spec fn s_eval_singular(sp: SingularPath, root: Node, cur: Node) -> Option<Node> {
    match sp {
        SingularPath::Abs(segs) => s_eval_sing_segs(segs, 0, root),
        SingularPath::Rel(segs) => s_eval_sing_segs(segs, 0, cur),
    }
}

// ---------------------------------------------------------------------------
// The evaluation proper.

/// The matches of a whole path expression against a document: locations
/// paired one to one with the nodes they address.
pub open spec fn s_eval_path(p: CborPath, doc: Node) -> Seq<(Seq<PathStep>, Node)> {
    s_eval_from(p.0.0, doc, doc)
}

/// The node of each match, in order.
pub open spec fn s_nodes(ms: Seq<(Seq<PathStep>, Node)>) -> Seq<Node> {
    ms.map_values(|m: (Seq<PathStep>, Node)| m.1)
}

/// The location of each match, in order.
pub open spec fn s_locs(ms: Seq<(Seq<PathStep>, Node)>) -> Seq<Seq<PathStep>> {
    ms.map_values(|m: (Seq<PathStep>, Node)| m.0)
}

/// The nodes a path expression selects, in order.
pub open spec fn s_read_nodes(p: CborPath, doc: Node) -> Seq<Node> {
    s_nodes(s_eval_path(p, doc))
}

/// The locations a path expression selects, in order.
pub open spec fn s_read_paths(p: CborPath, doc: Node) -> Seq<Seq<PathStep>> {
    s_locs(s_eval_path(p, doc))
}

/// Applies a segment list to a start node: the current match list begins as
/// the start node at the empty location and each segment maps it onward.
pub open spec fn s_eval_from(segs: Vec<Segment>, root: Node, start: Node) -> Seq<
    (Seq<PathStep>, Node),
>
    decreases segs, 4int, 0int,
{
    s_eval_segments(segs, 0, root, seq![(Seq::<PathStep>::empty(), start)])
}

/// Folds the segments from `i` on over the current match list.
pub open spec fn s_eval_segments(
    segs: Vec<Segment>,
    i: int,
    root: Node,
    cur: Seq<(Seq<PathStep>, Node)>,
) -> Seq<(Seq<PathStep>, Node)>
    decreases segs, 3int, segs@.len() - i,
{
    if i < 0 || i >= segs@.len() {
        cur
    } else {
        s_eval_segments(segs, i + 1, root, s_eval_segment(segs@[i], root, cur))
    }
}

/// What one segment turns the current match list into: a child segment
/// applies its selectors to every current node; a descendant segment first
/// expands every current node into itself and all its descendants.
pub open spec fn s_eval_segment(seg: Segment, root: Node, cur: Seq<(Seq<PathStep>, Node)>) -> Seq<
    (Seq<PathStep>, Node),
>
    decreases seg, 3int, 0int,
{
    match seg {
        Segment::Child(sels) => s_apply_to_all(sels, root, cur, 0),
        Segment::Descendant(sels) => s_apply_to_all(sels, root, s_expand(cur, 0), 0),
    }
}

/// Applies the selector list to each match of `cur[j..]` and concatenates:
/// node order outside, selector order inside.
pub open spec fn s_apply_to_all(
    sels: Vec<Selector>,
    root: Node,
    cur: Seq<(Seq<PathStep>, Node)>,
    j: int,
) -> Seq<(Seq<PathStep>, Node)>
    decreases sels, 3int, cur.len() - j,
{
    if j < 0 || j >= cur.len() {
        Seq::empty()
    } else {
        s_apply_selectors(sels, 0, root, cur[j]) + s_apply_to_all(sels, root, cur, j + 1)
    }
}

/// Concatenates what the selectors from `i` on select from one match.
pub open spec fn s_apply_selectors(
    sels: Vec<Selector>,
    i: int,
    root: Node,
    m: (Seq<PathStep>, Node),
) -> Seq<(Seq<PathStep>, Node)>
    decreases sels, 2int, sels@.len() - i,
{
    if i < 0 || i >= sels@.len() {
        Seq::empty()
    } else {
        s_eval_selector(sels@[i], root, m) + s_apply_selectors(sels, i + 1, root, m)
    }
}

/// What one selector selects from one match.
pub open spec fn s_eval_selector(sel: Selector, root: Node, m: (Seq<PathStep>, Node)) -> Seq<
    (Seq<PathStep>, Node),
>
    decreases sel, 3int, 0int,
{
    match sel {
        Selector::Key(ks) => match m.1 {
            Node::Dict(es) => match spec_dict_find(es, ks.0@) {
                Option::Some(v) => seq![(m.0.push(PathStep::Key(ks.0@)), v)],
                Option::None => Seq::empty(),
            },
            _ => Seq::empty(),
        },
        Selector::Wildcard => match m.1 {
            Node::Array(ch) => Seq::new(
                ch.len(),
                |i: int| (m.0.push(PathStep::Index(i)), ch[i]),
            ),
            Node::Dict(es) => Seq::new(
                es.len(),
                |i: int| (m.0.push(PathStep::Key(es[i].0)), es[i].1),
            ),
            _ => Seq::empty(),
        },
        Selector::Index(isel) => match m.1 {
            Node::Array(ch) => {
                let n = s_normalize(isel.0 as int, ch.len() as int);
                if 0 <= n < ch.len() {
                    seq![(m.0.push(PathStep::Index(n)), ch[n])]
                } else {
                    Seq::empty()
                }
            },
            _ => Seq::empty(),
        },
        Selector::Slice(ssel) => match m.1 {
            Node::Array(ch) => {
                let idxs = s_slice_indices(
                    ch.len() as int,
                    ssel.0 as int,
                    ssel.1 as int,
                    ssel.2 as int,
                );
                Seq::new(idxs.len(), |k: int| (m.0.push(PathStep::Index(idxs[k])), ch[idxs[k]]))
            },
            _ => Seq::empty(),
        },
        Selector::Filter(fs) => match m.1 {
            Node::Array(ch) => s_filter_arr(fs.0, root, m.0, ch, 0),
            Node::Dict(es) => s_filter_dict(fs.0, root, m.0, es, 0),
            _ => Seq::empty(),
        },
    }
}

/// The array elements from `i` on whose filter expression holds, paired
/// with their locations.
pub open spec fn s_filter_arr(
    e: BooleanExpr,
    root: Node,
    base: Seq<PathStep>,
    ch: Seq<Node>,
    i: int,
) -> Seq<(Seq<PathStep>, Node)>
    decreases e, 3int, ch.len() - i,
{
    if i < 0 || i >= ch.len() {
        Seq::empty()
    } else {
        (if s_eval_bool(e, root, ch[i]) {
            seq![(base.push(PathStep::Index(i)), ch[i])]
        } else {
            Seq::empty()
        }) + s_filter_arr(e, root, base, ch, i + 1)
    }
}

/// The map values from `i` on whose filter expression holds, paired with
/// their locations.
pub open spec fn s_filter_dict(
    e: BooleanExpr,
    root: Node,
    base: Seq<PathStep>,
    es: Seq<(Node, Node)>,
    i: int,
) -> Seq<(Seq<PathStep>, Node)>
    decreases e, 3int, es.len() - i,
{
    if i < 0 || i >= es.len() {
        Seq::empty()
    } else {
        (if s_eval_bool(e, root, es[i].1) {
            seq![(base.push(PathStep::Key(es[i].0)), es[i].1)]
        } else {
            Seq::empty()
        }) + s_filter_dict(e, root, base, es, i + 1)
    }
}

/// What a boolean expression decides for the current node.
pub open spec fn s_eval_bool(e: BooleanExpr, root: Node, cur: Node) -> bool
    decreases e, 2int, 0int,
{
    match e {
        BooleanExpr::Or(l, r) => s_eval_bool(*l, root, cur) || s_eval_bool(*r, root, cur),
        BooleanExpr::And(l, r) => s_eval_bool(*l, root, cur) && s_eval_bool(*r, root, cur),
        BooleanExpr::Not(inner) => !s_eval_bool(*inner, root, cur),
        BooleanExpr::Comparison(c) => s_eval_comparison(c, root, cur),
        BooleanExpr::Path(fp) => s_eval_filterpath(fp, root, cur).len() > 0,
        BooleanExpr::Function(f) => s_eval_fn_bool(f, root, cur),
    }
}

/// What a comparison decides: built from equality and order, with the
/// greater forms defined by swapping the sides.
pub open spec fn s_eval_comparison(c: ComparisonExpr, root: Node, cur: Node) -> bool
    decreases c, 2int, 0int,
{
    let l = s_eval_comparable(c.0, root, cur);
    let r = s_eval_comparable(c.2, root, cur);
    match c.1 {
        ComparisonOperator::Eq => s_cmp_eq(l, r),
        ComparisonOperator::Neq => !s_cmp_eq(l, r),
        ComparisonOperator::Gt => s_cmp_lt(r, l),
        ComparisonOperator::Gte => s_cmp_lt(r, l) || s_cmp_eq(l, r),
        ComparisonOperator::Lt => s_cmp_lt(l, r),
        ComparisonOperator::Lte => s_cmp_lt(l, r) || s_cmp_eq(l, r),
    }
}

/// The at-most-one node a comparable resolves to.
pub open spec fn s_eval_comparable(cmp: Comparable, root: Node, cur: Node) -> Option<Node>
    decreases cmp, 2int, 0int,
{
    match cmp {
        Comparable::Value(v) => Option::Some(v@),
        Comparable::SingularPath(sp) => s_eval_singular(sp, root, cur),
        Comparable::Function(f) => s_eval_fn_cmp(f, root, cur),
    }
}

/// The length a present node contributes: element or entry count for
/// containers, byte length for strings, one for every other value.
pub open spec fn s_length_of(n: Node) -> Node {
    match n {
        Node::Array(ch) => Node::Pos(ch.len() as u64),
        Node::Dict(es) => Node::Pos(es.len() as u64),
        Node::Text(bs) => Node::Pos(bs.len() as u64),
        Node::Bytes(bs) => Node::Pos(bs.len() as u64),
        _ => Node::Pos(1),
    }
}

/// What a function yields in comparable position: `length` and `count`
/// yield unsigned integers, `value` the single selected node or absent,
/// and the regex predicates nothing.
pub open spec fn s_eval_fn_cmp(f: Function, root: Node, cur: Node) -> Option<Node>
    decreases f, 2int, 0int,
{
    match f {
        Function::Length(c) => match s_eval_comparable(*c, root, cur) {
            Option::Some(n) => Option::Some(s_length_of(n)),
            Option::None => Option::None,
        },
        Function::Count(fp) => Option::Some(
            Node::Pos(s_eval_filterpath(fp, root, cur).len() as u64),
        ),
        Function::Value(fp) => {
            let ms = s_eval_filterpath(fp, root, cur);
            if ms.len() == 1 {
                Option::Some(ms[0].1)
            } else {
                Option::None
            }
        },
        Function::Regex(_c, _re) => Option::None,
    }
}

/// What a function decides in boolean position: only the regex predicates
/// are valid there, and only on text.
pub open spec fn s_eval_fn_bool(f: Function, root: Node, cur: Node) -> bool
    decreases f, 2int, 0int,
{
    match f {
        Function::Regex(c, re) => match s_eval_comparable(*c, root, cur) {
            Option::Some(Node::Text(t)) => regex_search(re.spec_pattern(), t),
            _ => false,
        },
        _ => false,
    }
}

/// The matches of a path in filter position: an absolute one starts over
/// from the root, a relative one from the current node.
pub open spec fn s_eval_filterpath(fp: FilterPath, root: Node, cur: Node) -> Seq<
    (Seq<PathStep>, Node),
>
    decreases fp, 2int, 0int,
{
    match fp {
        FilterPath::Abs(ap) => s_eval_from(ap.0, root, root),
        FilterPath::Rel(rp) => s_eval_from(rp.0, root, cur),
    }
}

} // verus!
