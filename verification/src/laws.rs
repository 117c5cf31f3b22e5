//! Laws of the engine, proved once and for all: determinism of reading,
//! the pairing of nodes and locations, the behaviour of rewriting, and the
//! symmetry of slices.

use vstd::prelude::*;
use crate::ast::{BooleanExpr, CborPath, Segment, Selector};
use crate::eval::{
    s_apply_selectors, s_apply_to_all, s_desc, s_desc_arr, s_desc_dict, s_eval_bool,
    s_eval_path, s_eval_segment, s_eval_segments, s_eval_selector, s_expand, s_filter_arr,
    s_filter_dict, s_normalize, s_read_nodes, s_read_paths, s_slice_indices, s_stride, t_mod,
};
use crate::eval::s_locs;
use crate::path::{spec_is_strict_prefix, spec_resolve, PathStep};
use crate::value::{spec_dict_find, spec_value_eq, Node};
use crate::write::{
    s_has_loc, s_has_strict_ext, s_rewrite, s_rewrite_arr, s_rewrite_dict, s_rewrite_reps,
    s_rewrite_reps_arr, s_rewrite_reps_dict, s_visited, s_visited_arr, s_visited_dict,
    NodeTransform,
};

verus! {

/// Reading is deterministic: evaluating the same expression twice against
/// the same document yields identical node lists.  Any two results that
/// `read` can hand back for one expression and one document are equal.
pub proof fn lemma_read_idempotent(p: CborPath, doc: Node, r1: Seq<Node>, r2: Seq<Node>)
    requires
        r1 == s_read_nodes(p, doc),
        r2 == s_read_nodes(p, doc),
    ensures
        r1 == r2,
{
}

/// The pairing of nodes and locations: `read` and `get_paths` select the
/// same number of entries, node `i` standing at location `i`.
pub proof fn lemma_pairing_lengths(p: CborPath, doc: Node)
    ensures
        s_read_nodes(p, doc).len() == s_read_paths(p, doc).len(),
{
}

/// A forward slice of stride one, reversed, is the backward slice over the
/// mirrored bounds: `slice(a, b, 1)` reversed equals `slice(b-1, a-1, -1)`
/// whenever `1 <= a <= b <= len`.
pub proof fn lemma_slice_symmetry(len: int, a: int, b: int)
    requires
        1 <= a <= b <= len,
    ensures
        s_slice_indices(len, a, b, 1).reverse() == s_slice_indices(len, b - 1, a - 1, -1),
{
    assert(s_slice_indices(len, a, b, 1) == s_stride(a, b, 1));
    assert(t_mod(b - 1, 1) == 0);
    assert(t_mod(a, -1) == 0);
    assert(s_slice_indices(len, b - 1, a - 1, -1) == s_stride(a, b, 1).reverse());
}

// ---------------------------------------------------------------------------
// Membership in a single-target set.

proof fn lemma_singleton_loc(t: Seq<PathStep>, x: Seq<PathStep>)
    ensures
        s_has_loc(seq![t], x) <==> x == t,
{
    if x == t {
        assert(seq![t][0] == x);
    }
}

proof fn lemma_singleton_ext(t: Seq<PathStep>, x: Seq<PathStep>)
    ensures
        s_has_strict_ext(seq![t], x) <==> spec_is_strict_prefix(x, t),
{
    if spec_is_strict_prefix(x, t) {
        assert(spec_is_strict_prefix(x, seq![t][0]));
    }
}

proof fn lemma_push_strict_prefix(a: Seq<PathStep>, x: PathStep)
    ensures
        spec_is_strict_prefix(a, a.push(x)),
{
}

proof fn lemma_push_eq(a: Seq<PathStep>, x: PathStep, y: PathStep)
    ensures
        (a.push(x) == a.push(y)) <==> x == y,
{
    if a.push(x) == a.push(y) {
        assert(a.push(x)[a.len() as int] == x);
        assert(a.push(y)[a.len() as int] == y);
    } else {
        if x == y {
            assert(a.push(x) =~= a.push(y));
        }
    }
}

// ---------------------------------------------------------------------------
// Deleting one match shrinks its container by exactly one.

proof fn lemma_delete_dict_entries(
    es: Seq<(Node, Node)>,
    loc: Seq<PathStep>,
    k: Node,
    j: int,
    i: int,
)
    requires
        0 <= j < es.len(),
        es[j].0 == k,
        forall|m: int| 0 <= m < es.len() && m != j ==> (#[trigger] es[m]).0 != k,
        0 <= i <= es.len(),
    ensures
        s_rewrite_dict(es, loc, seq![loc.push(PathStep::Key(k))], NodeTransform::Delete, i) =~= (
        if i <= j {
            es.subrange(i, j) + es.subrange(j + 1, es.len() as int)
        } else {
            es.subrange(i, es.len() as int)
        }),
    decreases es.len() - i,
{
    let t = loc.push(PathStep::Key(k));
    let targets = seq![t];
    if i < es.len() {
        lemma_delete_dict_entries(es, loc, k, j, i + 1);
        let child_loc = loc.push(PathStep::Key(es[i].0));
        lemma_singleton_loc(t, child_loc);
        lemma_singleton_ext(t, child_loc);
        lemma_push_eq(loc, PathStep::Key(es[i].0), PathStep::Key(k));
        assert(!spec_is_strict_prefix(child_loc, t));
        if i == j {
            assert(child_loc == t);
            assert(s_rewrite(es[i].1, child_loc, targets, NodeTransform::Delete) is None);
        } else {
            assert(es[i].0 != k);
            assert(child_loc != t);
            assert(s_rewrite(es[i].1, child_loc, targets, NodeTransform::Delete)
                == Option::Some(es[i].1));
        }
    }
}

/// Deleting a map-entry match removes exactly that entry: the map keeps
/// every other entry in order, so its entry count falls by one and the
/// matched key is gone (its key being unlike every other key).
pub proof fn lemma_delete_shrinks_dict(es: Seq<(Node, Node)>, loc: Seq<PathStep>, k: Node, j: int)
    requires
        0 <= j < es.len(),
        es[j].0 == k,
        forall|m: int| 0 <= m < es.len() && m != j ==> (#[trigger] es[m]).0 != k,
    ensures
        s_rewrite(Node::Dict(es), loc, seq![loc.push(PathStep::Key(k))], NodeTransform::Delete)
            == Option::Some(Node::Dict(es.remove(j))),
        es.remove(j).len() == es.len() - 1,
        forall|m: int| 0 <= m < es.remove(j).len() ==> (#[trigger] es.remove(j)[m]).0 != k,
{
    let t = loc.push(PathStep::Key(k));
    lemma_singleton_loc(t, loc);
    lemma_singleton_ext(t, loc);
    lemma_push_strict_prefix(loc, PathStep::Key(k));
    assert(loc != t) by {
        assert(loc.len() != t.len());
    }
    lemma_delete_dict_entries(es, loc, k, j, 0);
    assert(es.subrange(0, j) + es.subrange(j + 1, es.len() as int) =~= es.remove(j));
    assert(s_rewrite_dict(es, loc, seq![t], NodeTransform::Delete, 0) =~= es.remove(j));
}

proof fn lemma_delete_arr_elems(ch: Seq<Node>, loc: Seq<PathStep>, j: int, i: int)
    requires
        0 <= j < ch.len(),
        0 <= i <= ch.len(),
    ensures
        s_rewrite_arr(ch, loc, seq![loc.push(PathStep::Index(j))], NodeTransform::Delete, i) =~= (
        if i <= j {
            ch.subrange(i, j) + ch.subrange(j + 1, ch.len() as int)
        } else {
            ch.subrange(i, ch.len() as int)
        }),
    decreases ch.len() - i,
{
    let t = loc.push(PathStep::Index(j));
    let targets = seq![t];
    if i < ch.len() {
        lemma_delete_arr_elems(ch, loc, j, i + 1);
        let child_loc = loc.push(PathStep::Index(i));
        lemma_singleton_loc(t, child_loc);
        lemma_singleton_ext(t, child_loc);
        lemma_push_eq(loc, PathStep::Index(i), PathStep::Index(j));
        assert(!spec_is_strict_prefix(child_loc, t));
        if i == j {
            assert(s_rewrite(ch[i], child_loc, targets, NodeTransform::Delete) is None);
        } else {
            assert(s_rewrite(ch[i], child_loc, targets, NodeTransform::Delete) == Option::Some(
                ch[i],
            ));
        }
    }
}

/// Deleting an array-element match removes exactly that element: the array
/// keeps every other element in order, so later elements move down one
/// index and the length falls by one.
pub proof fn lemma_delete_shrinks_array(ch: Seq<Node>, loc: Seq<PathStep>, j: int)
    requires
        0 <= j < ch.len(),
    ensures
        s_rewrite(Node::Array(ch), loc, seq![loc.push(PathStep::Index(j))], NodeTransform::Delete)
            == Option::Some(Node::Array(ch.remove(j))),
        ch.remove(j).len() == ch.len() - 1,
        forall|m: int| j <= m < ch.remove(j).len() ==> ch.remove(j)[m] == ch[m + 1],
{
    let t = loc.push(PathStep::Index(j));
    lemma_singleton_loc(t, loc);
    lemma_singleton_ext(t, loc);
    lemma_push_strict_prefix(loc, PathStep::Index(j));
    assert(loc != t) by {
        assert(loc.len() != t.len());
    }
    lemma_delete_arr_elems(ch, loc, j, 0);
    assert(ch.subrange(0, j) + ch.subrange(j + 1, ch.len() as int) =~= ch.remove(j));
    assert(s_rewrite_arr(ch, loc, seq![t], NodeTransform::Delete, 0) =~= ch.remove(j));
}

// ---------------------------------------------------------------------------
// Rewriting with the identity transform gives the document back.

/// When every replacement is the visited node itself, the rewrite hands the
/// document back unchanged: running `write` with an identity transform is
/// the identity.
pub proof fn lemma_rewrite_identity(
    doc: Node,
    loc: Seq<PathStep>,
    targets: Seq<Seq<PathStep>>,
    reps: Seq<Option<Node>>,
    pos: int,
)
    requires
        0 <= pos,
        pos + s_visited(doc, loc, targets).len() <= reps.len(),
        forall|i: int|
            0 <= i < s_visited(doc, loc, targets).len() ==> reps[pos + i] == Option::Some(
                #[trigger] s_visited(doc, loc, targets)[i],
            ),
    ensures
        s_rewrite_reps(doc, loc, targets, reps, pos) == Option::Some(doc),
    decreases doc, 0int,
{
    if s_has_loc(targets, loc) {
        assert(s_visited(doc, loc, targets) =~= seq![doc]);
        assert(s_visited(doc, loc, targets)[0] == doc);
        assert(reps[pos] == Option::Some(doc));
    } else if s_has_strict_ext(targets, loc) {
        match doc {
            Node::Array(ch) => {
                lemma_rewrite_identity_arr(ch, loc, targets, reps, pos, 0);
                assert(s_rewrite_reps_arr(ch, loc, targets, reps, pos, 0) =~= ch);
            },
            Node::Dict(es) => {
                lemma_rewrite_identity_dict(es, loc, targets, reps, pos, 0);
                assert(s_rewrite_reps_dict(es, loc, targets, reps, pos, 0) =~= es);
            },
            _ => {},
        }
    }
}

proof fn lemma_rewrite_identity_arr(
    ch: Seq<Node>,
    loc: Seq<PathStep>,
    targets: Seq<Seq<PathStep>>,
    reps: Seq<Option<Node>>,
    pos: int,
    i: int,
)
    requires
        0 <= pos,
        0 <= i <= ch.len(),
        pos + s_visited_arr(ch, loc, targets, i).len() <= reps.len(),
        forall|k: int|
            0 <= k < s_visited_arr(ch, loc, targets, i).len() ==> reps[pos + k] == Option::Some(
                #[trigger] s_visited_arr(ch, loc, targets, i)[k],
            ),
    ensures
        s_rewrite_reps_arr(ch, loc, targets, reps, pos, i) =~= ch.subrange(i, ch.len() as int),
    decreases ch, 1int, ch.len() - i,
{
    if i < ch.len() {
        let child_loc = loc.push(PathStep::Index(i));
        let cv = s_visited(ch[i], child_loc, targets);
        assert(s_visited_arr(ch, loc, targets, i) =~= cv + s_visited_arr(ch, loc, targets, i + 1));
        assert forall|k: int| 0 <= k < cv.len() implies reps[pos + k] == Option::Some(
            #[trigger] cv[k],
        ) by {
            assert(s_visited_arr(ch, loc, targets, i)[k] == cv[k]);
        }
        lemma_rewrite_identity(ch[i], child_loc, targets, reps, pos);
        let pos2 = pos + cv.len();
        assert forall|k: int|
            0 <= k < s_visited_arr(ch, loc, targets, i + 1).len() implies reps[pos2 + k]
            == Option::Some(#[trigger] s_visited_arr(ch, loc, targets, i + 1)[k]) by {
            assert(s_visited_arr(ch, loc, targets, i)[cv.len() + k] == s_visited_arr(
                ch,
                loc,
                targets,
                i + 1,
            )[k]);
        }
        lemma_rewrite_identity_arr(ch, loc, targets, reps, pos2, i + 1);
    }
}

proof fn lemma_rewrite_identity_dict(
    es: Seq<(Node, Node)>,
    loc: Seq<PathStep>,
    targets: Seq<Seq<PathStep>>,
    reps: Seq<Option<Node>>,
    pos: int,
    i: int,
)
    requires
        0 <= pos,
        0 <= i <= es.len(),
        pos + s_visited_dict(es, loc, targets, i).len() <= reps.len(),
        forall|k: int|
            0 <= k < s_visited_dict(es, loc, targets, i).len() ==> reps[pos + k] == Option::Some(
                #[trigger] s_visited_dict(es, loc, targets, i)[k],
            ),
    ensures
        s_rewrite_reps_dict(es, loc, targets, reps, pos, i) =~= es.subrange(i, es.len() as int),
    decreases es, 1int, es.len() - i,
{
    if i < es.len() {
        let child_loc = loc.push(PathStep::Key(es[i].0));
        let cv = s_visited(es[i].1, child_loc, targets);
        assert(s_visited_dict(es, loc, targets, i) =~= cv + s_visited_dict(
            es,
            loc,
            targets,
            i + 1,
        ));
        assert forall|k: int| 0 <= k < cv.len() implies reps[pos + k] == Option::Some(
            #[trigger] cv[k],
        ) by {
            assert(s_visited_dict(es, loc, targets, i)[k] == cv[k]);
        }
        lemma_rewrite_identity(es[i].1, child_loc, targets, reps, pos);
        let pos2 = pos + cv.len();
        assert forall|k: int|
            0 <= k < s_visited_dict(es, loc, targets, i + 1).len() implies reps[pos2 + k]
            == Option::Some(#[trigger] s_visited_dict(es, loc, targets, i + 1)[k]) by {
            assert(s_visited_dict(es, loc, targets, i)[cv.len() + k] == s_visited_dict(
                es,
                loc,
                targets,
                i + 1,
            )[k]);
        }
        lemma_rewrite_identity_dict(es, loc, targets, reps, pos2, i + 1);
    }
}

// ---------------------------------------------------------------------------
// The pairing invariant: every selected location resolves to its node.

/// One resolution step: an index into an array, or the first matching key
/// of a map.
pub open spec fn s_step(n: Node, step: PathStep) -> Option<Node> {
    match (n, step) {
        (Node::Array(ch), PathStep::Index(i)) => {
            if 0 <= i < ch.len() {
                Option::Some(ch[i])
            } else {
                Option::None
            }
        },
        (Node::Dict(es), PathStep::Key(k)) => spec_dict_find(es, k),
        _ => Option::None,
    }
}

proof fn lemma_resolve_push(doc: Node, loc: Seq<PathStep>, step: PathStep)
    ensures
        spec_resolve(doc, loc.push(step)) == (match spec_resolve(doc, loc) {
            Option::Some(n) => s_step(n, step),
            Option::None => Option::None,
        }),
    decreases loc.len(),
{
    if loc.len() == 0 {
        reveal_with_fuel(spec_resolve, 2);
        assert(loc.push(step) =~= seq![step]);
        assert(seq![step].drop_first() =~= Seq::<PathStep>::empty());
        assert(seq![step][0] == step);
    } else {
        assert(loc.push(step)[0] == loc[0]);
        assert(loc.push(step).drop_first() =~= loc.drop_first().push(step));
        match s_step(doc, loc[0]) {
            Option::Some(m) => {
                lemma_resolve_push(m, loc.drop_first(), step);
            },
            Option::None => {},
        }
    }
}

/// Whether every map of the document keeps its keys apart: each key is
/// structurally equal to itself and structurally unlike every earlier key.
/// Documents with duplicate keys, or with keys that do not equal
/// themselves — a NaN or the undefined value — are not well keyed.
pub open spec fn s_well_keyed(v: Node) -> bool
    decreases v, 1int, 0int,
{
    match v {
        Node::Array(ch) => s_wk_arr(ch, 0),
        Node::Dict(es) => s_wk_keys(es) && s_wk_vals(es, 0),
        _ => true,
    }
}

/// Keys equal themselves and differ from every earlier key.
pub open spec fn s_wk_keys(es: Seq<(Node, Node)>) -> bool {
    forall|i: int|
        0 <= i < es.len() ==> spec_value_eq((#[trigger] es[i]).0, es[i].0) && (forall|j: int|
            0 <= j < i ==> !spec_value_eq((#[trigger] es[j]).0, es[i].0))
}

/// Every element of `ch[i..]` is well keyed.
pub open spec fn s_wk_arr(ch: Seq<Node>, i: int) -> bool
    decreases ch, 0int, ch.len() - i,
{
    if i < 0 || i >= ch.len() {
        true
    } else {
        s_well_keyed(ch[i]) && s_wk_arr(ch, i + 1)
    }
}

/// Every value of `es[i..]` is well keyed.
pub open spec fn s_wk_vals(es: Seq<(Node, Node)>, i: int) -> bool
    decreases es, 0int, es.len() - i,
{
    if i < 0 || i >= es.len() {
        true
    } else {
        s_well_keyed(es[i].1) && s_wk_vals(es, i + 1)
    }
}

proof fn lemma_wk_arr_elim(ch: Seq<Node>, i: int, k: int)
    requires
        s_wk_arr(ch, i),
        0 <= i <= k < ch.len(),
    ensures
        s_well_keyed(ch[k]),
    decreases k - i,
{
    if i < k {
        lemma_wk_arr_elim(ch, i + 1, k);
    }
}

proof fn lemma_wk_vals_elim(es: Seq<(Node, Node)>, i: int, k: int)
    requires
        s_wk_vals(es, i),
        0 <= i <= k < es.len(),
    ensures
        s_well_keyed(es[k].1),
    decreases k - i,
{
    if i < k {
        lemma_wk_vals_elim(es, i + 1, k);
    }
}

proof fn lemma_dict_find_is_entry(es: Seq<(Node, Node)>, k: Node, v: Node)
    requires
        spec_dict_find(es, k) == Option::Some(v),
    ensures
        exists|j: int| 0 <= j < es.len() && (#[trigger] es[j]).1 == v,
    decreases es.len(),
{
    if es.len() > 0 {
        if spec_value_eq(es[0].0, k) {
            assert(es[0].1 == v);
        } else {
            lemma_dict_find_is_entry(es.drop_first(), k, v);
            let j0 = choose|j: int|
                0 <= j < es.drop_first().len() && (#[trigger] es.drop_first()[j]).1 == v;
            assert(es[j0 + 1].1 == v);
        }
    }
}

/// A resolution step out of a well-keyed node lands on a well-keyed node.
proof fn lemma_wk_step(n: Node, step: PathStep, m: Node)
    requires
        s_well_keyed(n),
        s_step(n, step) == Option::Some(m),
    ensures
        s_well_keyed(m),
{
    match (n, step) {
        (Node::Array(ch), PathStep::Index(i)) => {
            lemma_wk_arr_elim(ch, 0, i);
        },
        (Node::Dict(es), PathStep::Key(k)) => {
            lemma_dict_find_is_entry(es, k, m);
            let j = choose|j: int| 0 <= j < es.len() && (#[trigger] es[j]).1 == m;
            lemma_wk_vals_elim(es, 0, j);
        },
        _ => {},
    }
}

/// Whatever a location of a well-keyed document resolves to is well keyed.
proof fn lemma_wk_resolve(doc: Node, loc: Seq<PathStep>, n: Node)
    requires
        s_well_keyed(doc),
        spec_resolve(doc, loc) == Option::Some(n),
    ensures
        s_well_keyed(n),
    decreases loc.len(),
{
    if loc.len() == 0 {
    } else {
        match s_step(doc, loc[0]) {
            Option::Some(m) => {
                lemma_wk_step(doc, loc[0], m);
                lemma_wk_resolve(m, loc.drop_first(), n);
            },
            Option::None => {},
        }
    }
}

/// Every match of the list resolves, within `doc`, to its own node.
pub open spec fn s_all_resolve(doc: Node, ms: Seq<(Seq<PathStep>, Node)>) -> bool {
    forall|i: int|
        0 <= i < ms.len() ==> spec_resolve(doc, (#[trigger] ms[i]).0) == Option::Some(ms[i].1)
}

proof fn lemma_all_resolve_concat(doc: Node, a: Seq<(Seq<PathStep>, Node)>, b: Seq<
    (Seq<PathStep>, Node),
>)
    requires
        s_all_resolve(doc, a),
        s_all_resolve(doc, b),
    ensures
        s_all_resolve(doc, a + b),
{
    assert forall|i: int| 0 <= i < (a + b).len() implies spec_resolve(doc, ((a + b)[i]).0)
        == Option::Some((a + b)[i].1) by {
        if i < a.len() {
            assert((a + b)[i] == a[i]);
        } else {
            assert((a + b)[i] == b[i - a.len()]);
        }
    }
}

proof fn lemma_desc_resolves(doc: Node, base: Seq<PathStep>, v: Node)
    requires
        s_well_keyed(doc),
        spec_resolve(doc, base) == Option::Some(v),
    ensures
        s_all_resolve(doc, s_desc(base, v)),
    decreases v, 1int, 0int,
{
    lemma_wk_resolve(doc, base, v);
    match v {
        Node::Array(ch) => {
            assert forall|k: int| 0 <= k < ch.len() implies spec_resolve(
                doc,
                base.push(PathStep::Index(k)),
            ) == Option::Some(#[trigger] ch[k]) by {
                lemma_resolve_push(doc, base, PathStep::Index(k));
            }
            let kids = Seq::new(ch.len(), |i: int| (base.push(PathStep::Index(i)), ch[i]));
            assert(s_all_resolve(doc, kids));
            lemma_desc_arr_resolves(doc, base, ch, 0);
            lemma_all_resolve_concat(doc, kids, s_desc_arr(base, ch, 0));
        },
        Node::Dict(es) => {
            assert forall|k: int| 0 <= k < es.len() implies spec_resolve(
                doc,
                base.push(PathStep::Key((#[trigger] es[k]).0)),
            ) == Option::Some(es[k].1) by {
                lemma_resolve_push(doc, base, PathStep::Key(es[k].0));
                crate::value::lemma_dict_find_characterized(es, es[k].0, k);
            }
            let kids = Seq::new(es.len(), |i: int| (base.push(PathStep::Key(es[i].0)), es[i].1));
            assert(s_all_resolve(doc, kids));
            lemma_desc_dict_resolves(doc, base, es, 0);
            lemma_all_resolve_concat(doc, kids, s_desc_dict(base, es, 0));
        },
        _ => {
            assert(s_desc(base, v) =~= Seq::<(Seq<PathStep>, Node)>::empty());
        },
    }
}

proof fn lemma_desc_arr_resolves(doc: Node, base: Seq<PathStep>, ch: Seq<Node>, i: int)
    requires
        s_well_keyed(doc),
        forall|k: int|
            0 <= k < ch.len() ==> spec_resolve(doc, base.push(PathStep::Index(k)))
                == Option::Some(#[trigger] ch[k]),
    ensures
        s_all_resolve(doc, s_desc_arr(base, ch, i)),
    decreases ch, 0int, ch.len() - i,
{
    if 0 <= i < ch.len() {
        lemma_desc_resolves(doc, base.push(PathStep::Index(i)), ch[i]);
        lemma_desc_arr_resolves(doc, base, ch, i + 1);
        lemma_all_resolve_concat(
            doc,
            s_desc(base.push(PathStep::Index(i)), ch[i]),
            s_desc_arr(base, ch, i + 1),
        );
    } else {
        assert(s_desc_arr(base, ch, i) =~= Seq::<(Seq<PathStep>, Node)>::empty());
    }
}

proof fn lemma_desc_dict_resolves(doc: Node, base: Seq<PathStep>, es: Seq<(Node, Node)>, i: int)
    requires
        s_well_keyed(doc),
        forall|k: int|
            0 <= k < es.len() ==> spec_resolve(doc, base.push(PathStep::Key((#[trigger] es[k]).0)))
                == Option::Some(es[k].1),
    ensures
        s_all_resolve(doc, s_desc_dict(base, es, i)),
    decreases es, 0int, es.len() - i,
{
    if 0 <= i < es.len() {
        lemma_desc_resolves(doc, base.push(PathStep::Key(es[i].0)), es[i].1);
        lemma_desc_dict_resolves(doc, base, es, i + 1);
        lemma_all_resolve_concat(
            doc,
            s_desc(base.push(PathStep::Key(es[i].0)), es[i].1),
            s_desc_dict(base, es, i + 1),
        );
    } else {
        assert(s_desc_dict(base, es, i) =~= Seq::<(Seq<PathStep>, Node)>::empty());
    }
}

proof fn lemma_expand_resolves(doc: Node, cur: Seq<(Seq<PathStep>, Node)>, j: int)
    requires
        s_well_keyed(doc),
        s_all_resolve(doc, cur),
    ensures
        s_all_resolve(doc, s_expand(cur, j)),
    decreases cur.len() - j,
{
    if 0 <= j < cur.len() {
        lemma_expand_resolves(doc, cur, j + 1);
        lemma_desc_resolves(doc, cur[j].0, cur[j].1);
        assert(s_all_resolve(doc, seq![cur[j]])) by {
            assert(seq![cur[j]][0] == cur[j]);
        }
        lemma_all_resolve_concat(doc, seq![cur[j]], s_desc(cur[j].0, cur[j].1));
        lemma_all_resolve_concat(
            doc,
            seq![cur[j]] + s_desc(cur[j].0, cur[j].1),
            s_expand(cur, j + 1),
        );
    } else {
        assert(s_expand(cur, j) =~= Seq::<(Seq<PathStep>, Node)>::empty());
    }
}

proof fn lemma_filter_arr_resolves(
    e: BooleanExpr,
    doc: Node,
    root: Node,
    base: Seq<PathStep>,
    ch: Seq<Node>,
    i: int,
)
    requires
        forall|k: int|
            0 <= k < ch.len() ==> spec_resolve(doc, base.push(PathStep::Index(k)))
                == Option::Some(#[trigger] ch[k]),
    ensures
        s_all_resolve(doc, s_filter_arr(e, root, base, ch, i)),
    decreases ch.len() - i,
{
    if 0 <= i < ch.len() {
        lemma_filter_arr_resolves(e, doc, root, base, ch, i + 1);
        let head: Seq<(Seq<PathStep>, Node)> = if s_eval_bool(e, root, ch[i]) {
            seq![(base.push(PathStep::Index(i)), ch[i])]
        } else {
            Seq::empty()
        };
        assert(s_all_resolve(doc, head)) by {
            if s_eval_bool(e, root, ch[i]) {
                assert(head[0] == (base.push(PathStep::Index(i)), ch[i]));
            }
        }
        lemma_all_resolve_concat(doc, head, s_filter_arr(e, root, base, ch, i + 1));
    } else {
        assert(s_filter_arr(e, root, base, ch, i) =~= Seq::<(Seq<PathStep>, Node)>::empty());
    }
}

proof fn lemma_filter_dict_resolves(
    e: BooleanExpr,
    doc: Node,
    root: Node,
    base: Seq<PathStep>,
    es: Seq<(Node, Node)>,
    i: int,
)
    requires
        forall|k: int|
            0 <= k < es.len() ==> spec_resolve(doc, base.push(PathStep::Key((#[trigger] es[k]).0)))
                == Option::Some(es[k].1),
    ensures
        s_all_resolve(doc, s_filter_dict(e, root, base, es, i)),
    decreases es.len() - i,
{
    if 0 <= i < es.len() {
        lemma_filter_dict_resolves(e, doc, root, base, es, i + 1);
        let head: Seq<(Seq<PathStep>, Node)> = if s_eval_bool(e, root, es[i].1) {
            seq![(base.push(PathStep::Key(es[i].0)), es[i].1)]
        } else {
            Seq::empty()
        };
        assert(s_all_resolve(doc, head)) by {
            if s_eval_bool(e, root, es[i].1) {
                assert(head[0] == (base.push(PathStep::Key(es[i].0)), es[i].1));
            }
        }
        lemma_all_resolve_concat(doc, head, s_filter_dict(e, root, base, es, i + 1));
    } else {
        assert(s_filter_dict(e, root, base, es, i) =~= Seq::<(Seq<PathStep>, Node)>::empty());
    }
}

proof fn lemma_selector_resolves(sel: Selector, doc: Node, root: Node, m: (Seq<PathStep>, Node))
    requires
        s_well_keyed(doc),
        spec_resolve(doc, m.0) == Option::Some(m.1),
    ensures
        s_all_resolve(doc, s_eval_selector(sel, root, m)),
{
    lemma_wk_resolve(doc, m.0, m.1);
    match sel {
        Selector::Key(ks) => {
            match m.1 {
                Node::Dict(es) => {
                    match spec_dict_find(es, ks.0@) {
                        Option::Some(v) => {
                            lemma_resolve_push(doc, m.0, PathStep::Key(ks.0@));
                            let out = seq![(m.0.push(PathStep::Key(ks.0@)), v)];
                            assert(out[0] == (m.0.push(PathStep::Key(ks.0@)), v));
                        },
                        Option::None => {},
                    }
                },
                _ => {},
            }
        },
        Selector::Wildcard => {
            match m.1 {
                Node::Array(ch) => {
                    let out = Seq::new(ch.len(), |i: int| (m.0.push(PathStep::Index(i)), ch[i]));
                    assert forall|i: int| 0 <= i < out.len() implies spec_resolve(doc, (out[i]).0)
                        == Option::Some(out[i].1) by {
                        lemma_resolve_push(doc, m.0, PathStep::Index(i));
                    }
                },
                Node::Dict(es) => {
                    let out = Seq::new(
                        es.len(),
                        |i: int| (m.0.push(PathStep::Key(es[i].0)), es[i].1),
                    );
                    assert forall|i: int| 0 <= i < out.len() implies spec_resolve(doc, (out[i]).0)
                        == Option::Some(out[i].1) by {
                        lemma_resolve_push(doc, m.0, PathStep::Key(es[i].0));
                        crate::value::lemma_dict_find_characterized(es, es[i].0, i);
                    }
                },
                _ => {},
            }
        },
        Selector::Index(isel) => {
            match m.1 {
                Node::Array(ch) => {
                    let n = s_normalize(isel.0 as int, ch.len() as int);
                    if 0 <= n < ch.len() {
                        lemma_resolve_push(doc, m.0, PathStep::Index(n));
                        let out = seq![(m.0.push(PathStep::Index(n)), ch[n])];
                        assert(out[0] == (m.0.push(PathStep::Index(n)), ch[n]));
                    }
                },
                _ => {},
            }
        },
        Selector::Slice(ssel) => {
            match m.1 {
                Node::Array(ch) => {
                    let idxs = s_slice_indices(
                        ch.len() as int,
                        ssel.0 as int,
                        ssel.1 as int,
                        ssel.2 as int,
                    );
                    crate::eval::lemma_slice_indices_in_range(
                        ch.len() as int,
                        ssel.0 as int,
                        ssel.1 as int,
                        ssel.2 as int,
                    );
                    let out = Seq::new(
                        idxs.len(),
                        |k: int| (m.0.push(PathStep::Index(idxs[k])), ch[idxs[k]]),
                    );
                    assert forall|k: int| 0 <= k < out.len() implies spec_resolve(doc, (out[k]).0)
                        == Option::Some(out[k].1) by {
                        lemma_resolve_push(doc, m.0, PathStep::Index(idxs[k]));
                    }
                },
                _ => {},
            }
        },
        Selector::Filter(fs) => {
            match m.1 {
                Node::Array(ch) => {
                    assert forall|k: int| 0 <= k < ch.len() implies spec_resolve(
                        doc,
                        m.0.push(PathStep::Index(k)),
                    ) == Option::Some(#[trigger] ch[k]) by {
                        lemma_resolve_push(doc, m.0, PathStep::Index(k));
                    }
                    lemma_filter_arr_resolves(fs.0, doc, root, m.0, ch, 0);
                },
                Node::Dict(es) => {
                    assert forall|k: int| 0 <= k < es.len() implies spec_resolve(
                        doc,
                        m.0.push(PathStep::Key((#[trigger] es[k]).0)),
                    ) == Option::Some(es[k].1) by {
                        lemma_resolve_push(doc, m.0, PathStep::Key(es[k].0));
                        crate::value::lemma_dict_find_characterized(es, es[k].0, k);
                    }
                    lemma_filter_dict_resolves(fs.0, doc, root, m.0, es, 0);
                },
                _ => {},
            }
        },
    }
}

proof fn lemma_selectors_resolve(
    sels: Vec<Selector>,
    i: int,
    doc: Node,
    root: Node,
    m: (Seq<PathStep>, Node),
)
    requires
        s_well_keyed(doc),
        spec_resolve(doc, m.0) == Option::Some(m.1),
    ensures
        s_all_resolve(doc, s_apply_selectors(sels, i, root, m)),
    decreases sels@.len() - i,
{
    if 0 <= i < sels@.len() {
        lemma_selector_resolves(sels@[i], doc, root, m);
        lemma_selectors_resolve(sels, i + 1, doc, root, m);
        lemma_all_resolve_concat(
            doc,
            s_eval_selector(sels@[i], root, m),
            s_apply_selectors(sels, i + 1, root, m),
        );
    } else {
        assert(s_apply_selectors(sels, i, root, m) =~= Seq::<(Seq<PathStep>, Node)>::empty());
    }
}

proof fn lemma_apply_to_all_resolves(
    sels: Vec<Selector>,
    doc: Node,
    root: Node,
    cur: Seq<(Seq<PathStep>, Node)>,
    j: int,
)
    requires
        s_well_keyed(doc),
        s_all_resolve(doc, cur),
    ensures
        s_all_resolve(doc, s_apply_to_all(sels, root, cur, j)),
    decreases cur.len() - j,
{
    if 0 <= j < cur.len() {
        lemma_selectors_resolve(sels, 0, doc, root, cur[j]);
        lemma_apply_to_all_resolves(sels, doc, root, cur, j + 1);
        lemma_all_resolve_concat(
            doc,
            s_apply_selectors(sels, 0, root, cur[j]),
            s_apply_to_all(sels, root, cur, j + 1),
        );
    } else {
        assert(s_apply_to_all(sels, root, cur, j) =~= Seq::<(Seq<PathStep>, Node)>::empty());
    }
}

proof fn lemma_segment_resolves(seg: Segment, doc: Node, root: Node, cur: Seq<
    (Seq<PathStep>, Node),
>)
    requires
        s_well_keyed(doc),
        s_all_resolve(doc, cur),
    ensures
        s_all_resolve(doc, s_eval_segment(seg, root, cur)),
{
    match seg {
        Segment::Child(sels) => {
            lemma_apply_to_all_resolves(sels, doc, root, cur, 0);
        },
        Segment::Descendant(sels) => {
            lemma_expand_resolves(doc, cur, 0);
            lemma_apply_to_all_resolves(sels, doc, root, s_expand(cur, 0), 0);
        },
    }
}

proof fn lemma_segments_resolve(
    segs: Vec<Segment>,
    i: int,
    doc: Node,
    root: Node,
    cur: Seq<(Seq<PathStep>, Node)>,
)
    requires
        s_well_keyed(doc),
        s_all_resolve(doc, cur),
    ensures
        s_all_resolve(doc, s_eval_segments(segs, i, root, cur)),
    decreases segs@.len() - i,
{
    if 0 <= i < segs@.len() {
        lemma_segment_resolves(segs@[i], doc, root, cur);
        lemma_segments_resolve(segs, i + 1, doc, root, s_eval_segment(segs@[i], root, cur));
    }
}

/// The pairing invariant, resolution half: on a well-keyed document, the
/// location at position `i` of `get_paths` resolves to the node at
/// position `i` of `read`.  One map with duplicate keys, such as the map
/// whose two entries both carry one key, breaks this and is ruled out.
pub proof fn lemma_pairing_resolution(p: CborPath, doc: Node, i: int)
    requires
        s_well_keyed(doc),
        0 <= i < s_read_nodes(p, doc).len(),
    ensures
        spec_resolve(doc, s_read_paths(p, doc)[i]) == Option::Some(s_read_nodes(p, doc)[i]),
{
    let seed = seq![(Seq::<PathStep>::empty(), doc)];
    assert(s_all_resolve(doc, seed)) by {
        assert(seed[0] == (Seq::<PathStep>::empty(), doc));
    }
    lemma_segments_resolve(p.0.0, 0, doc, doc, seed);
    let ms = s_eval_path(p, doc);
    assert(spec_resolve(doc, (ms[i]).0) == Option::Some(ms[i].1));
}

// ---------------------------------------------------------------------------
// Setting and re-reading: one filter-free child segment.

/// A selector that decides by structure alone: a key, the wildcard, an
/// index or a slice, but not a filter.
pub open spec fn s_structural_selector(sel: Selector) -> bool {
    !(sel matches Selector::Filter(_))
}

/// A scalar whose structural equality is plain equality: no float, whose
/// zeros blur and whose NaN never matches, and no undefined value.
pub open spec fn s_plain_scalar(v: Node) -> bool {
    match v {
        Node::Pos(_) => true,
        Node::Neg(_) => true,
        Node::Bool(_) => true,
        Node::Null => true,
        Node::Text(_) => true,
        Node::Bytes(_) => true,
        _ => false,
    }
}

/// Whether the top-level map keys of the document are plain scalars.
pub open spec fn s_top_keys_plain(doc: Node) -> bool {
    match doc {
        Node::Dict(es) => forall|i: int| 0 <= i < es.len() ==> s_plain_scalar((#[trigger] es[i]).0),
        _ => true,
    }
}

/// For a plain scalar, structural equality pins the other side down.
proof fn lemma_plain_eq(k: Node, x: Node)
    requires
        s_plain_scalar(k),
        spec_value_eq(k, x),
    ensures
        k == x,
{
    match (k, x) {
        (Node::Text(a), Node::Text(b)) => {
            assert(a == b);
        },
        (Node::Bytes(a), Node::Bytes(b)) => {
            assert(a == b);
        },
        _ => {},
    }
}

/// Structural selectors never look at the root.
proof fn lemma_selector_root_irrelevant(sel: Selector, r1: Node, r2: Node, m: (Seq<PathStep>, Node))
    requires
        s_structural_selector(sel),
    ensures
        s_eval_selector(sel, r1, m) == s_eval_selector(sel, r2, m),
{
}

proof fn lemma_selectors_root_irrelevant(
    sels: Vec<Selector>,
    i: int,
    r1: Node,
    r2: Node,
    m: (Seq<PathStep>, Node),
)
    requires
        forall|j: int| 0 <= j < sels@.len() ==> s_structural_selector(#[trigger] sels@[j]),
    ensures
        s_apply_selectors(sels, i, r1, m) == s_apply_selectors(sels, i, r2, m),
    decreases sels@.len() - i,
{
    if 0 <= i < sels@.len() {
        lemma_selector_root_irrelevant(sels@[i], r1, r2, m);
        lemma_selectors_root_irrelevant(sels, i + 1, r1, r2, m);
    }
}

/// Every match a selector takes from the root of a document stands one
/// step deep.
proof fn lemma_selector_targets_shallow(sel: Selector, root: Node, doc: Node, idx: int)
    requires
        0 <= idx < s_eval_selector(sel, root, (Seq::<PathStep>::empty(), doc)).len(),
    ensures
        s_eval_selector(sel, root, (Seq::<PathStep>::empty(), doc))[idx].0.len() == 1,
{
    let out = s_eval_selector(sel, root, (Seq::<PathStep>::empty(), doc));
    match sel {
        Selector::Key(_) => {},
        Selector::Wildcard => {},
        Selector::Index(_) => {},
        Selector::Slice(_) => {},
        Selector::Filter(fs) => {
            match doc {
                Node::Array(ch) => {
                    lemma_filter_arr_shallow(fs.0, root, ch, 0, idx);
                },
                Node::Dict(es) => {
                    lemma_filter_dict_shallow(fs.0, root, es, 0, idx);
                },
                _ => {},
            }
        },
    }
}

proof fn lemma_filter_arr_shallow(e: BooleanExpr, root: Node, ch: Seq<Node>, i: int, idx: int)
    requires
        0 <= idx < s_filter_arr(e, root, Seq::<PathStep>::empty(), ch, i).len(),
    ensures
        s_filter_arr(e, root, Seq::<PathStep>::empty(), ch, i)[idx].0.len() == 1,
    decreases ch.len() - i,
{
    if 0 <= i < ch.len() {
        let head: Seq<(Seq<PathStep>, Node)> = if s_eval_bool(e, root, ch[i]) {
            seq![(Seq::<PathStep>::empty().push(PathStep::Index(i)), ch[i])]
        } else {
            Seq::empty()
        };
        if idx >= head.len() {
            lemma_filter_arr_shallow(e, root, ch, i + 1, idx - head.len());
        }
    }
}

proof fn lemma_filter_dict_shallow(
    e: BooleanExpr,
    root: Node,
    es: Seq<(Node, Node)>,
    i: int,
    idx: int,
)
    requires
        0 <= idx < s_filter_dict(e, root, Seq::<PathStep>::empty(), es, i).len(),
    ensures
        s_filter_dict(e, root, Seq::<PathStep>::empty(), es, i)[idx].0.len() == 1,
    decreases es.len() - i,
{
    if 0 <= i < es.len() {
        let head: Seq<(Seq<PathStep>, Node)> = if s_eval_bool(e, root, es[i].1) {
            seq![(Seq::<PathStep>::empty().push(PathStep::Key(es[i].0)), es[i].1)]
        } else {
            Seq::empty()
        };
        if idx >= head.len() {
            lemma_filter_dict_shallow(e, root, es, i + 1, idx - head.len());
        }
    }
}

/// Every match a selector list takes from the root stands one step deep.
proof fn lemma_selectors_targets_shallow(sels: Vec<Selector>, i: int, root: Node, doc: Node, idx: int)
    requires
        0 <= idx < s_apply_selectors(sels, i, root, (Seq::<PathStep>::empty(), doc)).len(),
    ensures
        s_apply_selectors(sels, i, root, (Seq::<PathStep>::empty(), doc))[idx].0.len() == 1,
    decreases sels@.len() - i,
{
    if 0 <= i < sels@.len() {
        let head = s_eval_selector(sels@[i], root, (Seq::<PathStep>::empty(), doc));
        if idx < head.len() {
            lemma_selector_targets_shallow(sels@[i], root, doc, idx);
        } else {
            lemma_selectors_targets_shallow(sels, i + 1, root, doc, idx - head.len());
        }
    }
}

/// A location one selector picks is among the locations of the whole list.
proof fn lemma_selector_loc_in_list(
    sels: Vec<Selector>,
    i: int,
    j: int,
    root: Node,
    m: (Seq<PathStep>, Node),
    x: Seq<PathStep>,
)
    requires
        0 <= i <= j < sels@.len(),
        s_has_loc(s_locs(s_eval_selector(sels@[j], root, m)), x),
    ensures
        s_has_loc(s_locs(s_apply_selectors(sels, i, root, m)), x),
    decreases j - i,
{
    let head = s_eval_selector(sels@[i], root, m);
    let rest = s_apply_selectors(sels, i + 1, root, m);
    if i == j {
        let idx = choose|idx: int|
            0 <= idx < s_locs(head).len() && #[trigger] s_locs(head)[idx] == x;
        assert(s_locs(head + rest)[idx] == x);
    } else {
        lemma_selector_loc_in_list(sels, i + 1, j, root, m, x);
        let idx = choose|idx: int|
            0 <= idx < s_locs(rest).len() && #[trigger] s_locs(rest)[idx] == x;
        assert(s_locs(head + rest)[head.len() + idx] == x);
    }
}

/// With one-step targets, rewriting an array replaces exactly the targeted
/// elements.
proof fn lemma_assign_shape_arr(
    ch: Seq<Node>,
    targets: Seq<Seq<PathStep>>,
    v: Node,
    i: int,
)
    requires
        forall|t: int| 0 <= t < targets.len() ==> (#[trigger] targets[t]).len() == 1,
        0 <= i <= ch.len(),
    ensures
        s_rewrite_arr(ch, Seq::<PathStep>::empty(), targets, NodeTransform::Assign(v), i) =~= Seq::new(
            (ch.len() - i) as nat,
            |m: int|
                if s_has_loc(targets, seq![PathStep::Index(i + m)]) {
                    v
                } else {
                    ch[i + m]
                },
        ),
    decreases ch.len() - i,
{
    if i < ch.len() {
        lemma_assign_shape_arr(ch, targets, v, i + 1);
        let child_loc = Seq::<PathStep>::empty().push(PathStep::Index(i));
        assert(child_loc =~= seq![PathStep::Index(i)]);
        assert(!s_has_strict_ext(targets, child_loc)) by {
            if s_has_strict_ext(targets, child_loc) {
                let t = choose|t: int|
                    0 <= t < targets.len() && spec_is_strict_prefix(
                        child_loc,
                        #[trigger] targets[t],
                    );
                assert(targets[t].len() == 1);
            }
        }
        let lhs = s_rewrite_arr(ch, Seq::<PathStep>::empty(), targets, NodeTransform::Assign(v), i);
        let rest = s_rewrite_arr(
            ch,
            Seq::<PathStep>::empty(),
            targets,
            NodeTransform::Assign(v),
            i + 1,
        );
        let rhs = Seq::new(
            (ch.len() - i) as nat,
            |m: int|
                if s_has_loc(targets, seq![PathStep::Index(i + m)]) {
                    v
                } else {
                    ch[i + m]
                },
        );
        let head: Seq<Node> = if s_has_loc(targets, child_loc) {
            seq![v]
        } else {
            seq![ch[i]]
        };
        if s_has_loc(targets, child_loc) {
            assert(s_rewrite(ch[i], child_loc, targets, NodeTransform::Assign(v))
                == Option::Some(v));
        } else {
            assert(s_rewrite(ch[i], child_loc, targets, NodeTransform::Assign(v))
                == Option::Some(ch[i]));
        }
        assert(lhs =~= head + rest);
        assert forall|m: int| 0 <= m < rhs.len() implies lhs[m] == rhs[m] by {
            if m == 0 {
                assert(lhs[0] == head[0]);
            } else {
                assert(lhs[m] == rest[m - 1]);
                assert(rest[m - 1] == (if s_has_loc(targets, seq![PathStep::Index(i + m)]) {
                    v
                } else {
                    ch[i + m]
                }));
            }
        }
        assert(lhs =~= rhs);
    }
}

/// With one-step targets, rewriting a map replaces exactly the values at
/// targeted keys and keeps every key.
proof fn lemma_assign_shape_dict(
    es: Seq<(Node, Node)>,
    targets: Seq<Seq<PathStep>>,
    v: Node,
    i: int,
)
    requires
        forall|t: int| 0 <= t < targets.len() ==> (#[trigger] targets[t]).len() == 1,
        0 <= i <= es.len(),
    ensures
        s_rewrite_dict(es, Seq::<PathStep>::empty(), targets, NodeTransform::Assign(v), i)
            =~= Seq::new(
            (es.len() - i) as nat,
            |m: int|
                (
                    es[i + m].0,
                    if s_has_loc(targets, seq![PathStep::Key(es[i + m].0)]) {
                        v
                    } else {
                        es[i + m].1
                    },
                ),
        ),
    decreases es.len() - i,
{
    if i < es.len() {
        lemma_assign_shape_dict(es, targets, v, i + 1);
        let child_loc = Seq::<PathStep>::empty().push(PathStep::Key(es[i].0));
        assert(child_loc =~= seq![PathStep::Key(es[i].0)]);
        assert(!s_has_strict_ext(targets, child_loc)) by {
            if s_has_strict_ext(targets, child_loc) {
                let t = choose|t: int|
                    0 <= t < targets.len() && spec_is_strict_prefix(
                        child_loc,
                        #[trigger] targets[t],
                    );
                assert(targets[t].len() == 1);
            }
        }
        let lhs = s_rewrite_dict(
            es,
            Seq::<PathStep>::empty(),
            targets,
            NodeTransform::Assign(v),
            i,
        );
        let rest = s_rewrite_dict(
            es,
            Seq::<PathStep>::empty(),
            targets,
            NodeTransform::Assign(v),
            i + 1,
        );
        let rhs = Seq::new(
            (es.len() - i) as nat,
            |m: int|
                (
                    es[i + m].0,
                    if s_has_loc(targets, seq![PathStep::Key(es[i + m].0)]) {
                        v
                    } else {
                        es[i + m].1
                    },
                ),
        );
        let head: Seq<(Node, Node)> = if s_has_loc(targets, child_loc) {
            seq![(es[i].0, v)]
        } else {
            seq![(es[i].0, es[i].1)]
        };
        if s_has_loc(targets, child_loc) {
            assert(s_rewrite(es[i].1, child_loc, targets, NodeTransform::Assign(v))
                == Option::Some(v));
        } else {
            assert(s_rewrite(es[i].1, child_loc, targets, NodeTransform::Assign(v))
                == Option::Some(es[i].1));
        }
        assert(lhs =~= head + rest);
        assert forall|m: int| 0 <= m < rhs.len() implies lhs[m] == rhs[m] by {
            if m == 0 {
                assert(lhs[0] == head[0]);
            } else {
                assert(lhs[m] == rest[m - 1]);
                assert(rest[m - 1] == (
                    es[i + m].0,
                    if s_has_loc(targets, seq![PathStep::Key(es[i + m].0)]) {
                        v
                    } else {
                        es[i + m].1
                    },
                ));
            }
        }
        assert(lhs =~= rhs);
    }
}

/// The document with every targeted one-step child replaced by `v`.
pub open spec fn s_assigned(doc: Node, targets: Seq<Seq<PathStep>>, v: Node) -> Node {
    match doc {
        Node::Array(ch) => Node::Array(
            Seq::new(
                ch.len(),
                |m: int|
                    if s_has_loc(targets, seq![PathStep::Index(m)]) {
                        v
                    } else {
                        ch[m]
                    },
            ),
        ),
        Node::Dict(es) => Node::Dict(
            Seq::new(
                es.len(),
                |m: int|
                    (
                        es[m].0,
                        if s_has_loc(targets, seq![PathStep::Key(es[m].0)]) {
                            v
                        } else {
                            es[m].1
                        },
                    ),
            ),
        ),
        _ => doc,
    }
}

proof fn lemma_dict_find_index(es: Seq<(Node, Node)>, k: Node)
    ensures
        spec_dict_find(es, k) is Some ==> exists|j: int|
            {
                &&& 0 <= j < es.len()
                &&& spec_value_eq((#[trigger] es[j]).0, k)
                &&& (forall|j2: int| 0 <= j2 < j ==> !spec_value_eq((#[trigger] es[j2]).0, k))
                &&& spec_dict_find(es, k) == Option::Some(es[j].1)
            },
        spec_dict_find(es, k) is None ==> forall|j: int|
            0 <= j < es.len() ==> !spec_value_eq((#[trigger] es[j]).0, k),
    decreases es.len(),
{
    if es.len() > 0 {
        if spec_value_eq(es[0].0, k) {
            assert(spec_value_eq(es[0].0, k) && spec_dict_find(es, k) == Option::Some(es[0].1));
        } else {
            lemma_dict_find_index(es.drop_first(), k);
            let rest = es.drop_first();
            if spec_dict_find(es, k) is Some {
                let j0 = choose|j: int|
                    {
                        &&& 0 <= j < rest.len()
                        &&& spec_value_eq((#[trigger] rest[j]).0, k)
                        &&& (forall|j2: int|
                            0 <= j2 < j ==> !spec_value_eq((#[trigger] rest[j2]).0, k))
                        &&& spec_dict_find(rest, k) == Option::Some(rest[j].1)
                    };
                assert forall|j2: int| 0 <= j2 < j0 + 1 implies !spec_value_eq(
                    (#[trigger] es[j2]).0,
                    k,
                ) by {
                    if j2 > 0 {
                        assert(rest[j2 - 1] == es[j2]);
                    }
                }
                assert(es[j0 + 1] == rest[j0]);
                assert(spec_value_eq(es[j0 + 1].0, k) && spec_dict_find(es, k) == Option::Some(
                    es[j0 + 1].1,
                ));
            } else {
                assert forall|j: int| 0 <= j < es.len() implies !spec_value_eq(
                    (#[trigger] es[j]).0,
                    k,
                ) by {
                    if j > 0 {
                        assert(rest[j - 1] == es[j]);
                    }
                }
            }
        }
    }
}

/// Re-selecting from the assigned document: one structural selector finds
/// the same locations, each now carrying the new value.
proof fn lemma_selector_reselect(
    sel: Selector,
    r1: Node,
    r2: Node,
    doc: Node,
    targets: Seq<Seq<PathStep>>,
    v: Node,
)
    requires
        s_structural_selector(sel),
        s_top_keys_plain(doc),
        forall|idx: int|
            0 <= idx < s_eval_selector(sel, r1, (Seq::<PathStep>::empty(), doc)).len()
                ==> s_has_loc(
                targets,
                (#[trigger] s_eval_selector(sel, r1, (Seq::<PathStep>::empty(), doc))[idx]).0,
            ),
    ensures
        s_locs(
            s_eval_selector(sel, r2, (Seq::<PathStep>::empty(), s_assigned(doc, targets, v))),
        ) == s_locs(s_eval_selector(sel, r1, (Seq::<PathStep>::empty(), doc))),
        forall|idx: int|
            0 <= idx < s_eval_selector(
                sel,
                r2,
                (Seq::<PathStep>::empty(), s_assigned(doc, targets, v)),
            ).len() ==> (#[trigger] s_eval_selector(
                sel,
                r2,
                (Seq::<PathStep>::empty(), s_assigned(doc, targets, v)),
            )[idx]).1 == v,
{
    let e: Seq<PathStep> = Seq::empty();
    let out1 = s_eval_selector(sel, r1, (e, doc));
    let nd = s_assigned(doc, targets, v);
    let out2 = s_eval_selector(sel, r2, (e, nd));
    match sel {
        Selector::Key(ks) => {
            match doc {
                Node::Dict(es) => {
                    let es2 = nd->Dict_0;
                    lemma_dict_find_index(es, ks.0@);
                    match spec_dict_find(es, ks.0@) {
                        Option::Some(found) => {
                            let j = choose|j: int|
                                {
                                    &&& 0 <= j < es.len()
                                    &&& spec_value_eq((#[trigger] es[j]).0, ks.0@)
                                    &&& (forall|j2: int|
                                        0 <= j2 < j ==> !spec_value_eq(
                                            (#[trigger] es[j2]).0,
                                            ks.0@,
                                        ))
                                    &&& spec_dict_find(es, ks.0@) == Option::Some(es[j].1)
                                };
                            assert(out1 =~= seq![(e.push(PathStep::Key(ks.0@)), es[j].1)]);
                            assert(s_has_loc(targets, out1[0].0));
                            lemma_plain_eq(es[j].0, ks.0@);
                            assert(es[j].0 == ks.0@);
                            assert(e.push(PathStep::Key(ks.0@)) =~= seq![PathStep::Key(ks.0@)]);
                            assert(es2[j] == (es[j].0, v));
                            assert forall|j2: int| 0 <= j2 < j implies !spec_value_eq(
                                (#[trigger] es2[j2]).0,
                                ks.0@,
                            ) by {
                                assert(es2[j2].0 == es[j2].0);
                            }
                            crate::value::lemma_dict_find_characterized(es2, ks.0@, j);
                            assert(out2 =~= seq![(e.push(PathStep::Key(ks.0@)), v)]);
                            assert(s_locs(out2) =~= s_locs(out1));
                        },
                        Option::None => {
                            assert forall|j: int| 0 <= j < es2.len() implies !spec_value_eq(
                                (#[trigger] es2[j]).0,
                                ks.0@,
                            ) by {
                                assert(es2[j].0 == es[j].0);
                            }
                            crate::value::lemma_dict_find_none(es2, ks.0@);
                            assert(out2 =~= Seq::<(Seq<PathStep>, Node)>::empty());
                            assert(s_locs(out2) =~= s_locs(out1));
                        },
                    }
                },
                _ => {
                    assert(s_locs(out2) =~= s_locs(out1));
                },
            }
        },
        Selector::Wildcard => {
            match doc {
                Node::Array(ch) => {
                    let ch2 = nd->Array_0;
                    assert forall|m: int| 0 <= m < ch2.len() implies #[trigger] ch2[m] == v by {
                        assert(out1[m].0 == e.push(PathStep::Index(m)));
                        assert(s_has_loc(targets, out1[m].0));
                        assert(e.push(PathStep::Index(m)) =~= seq![PathStep::Index(m)]);
                    }
                    assert(s_locs(out2) =~= s_locs(out1));
                },
                Node::Dict(es) => {
                    let es2 = nd->Dict_0;
                    assert forall|m: int| 0 <= m < es2.len() implies (#[trigger] es2[m]).1 == v
                        && es2[m].0 == es[m].0 by {
                        assert(out1[m].0 == e.push(PathStep::Key(es[m].0)));
                        assert(s_has_loc(targets, out1[m].0));
                        assert(e.push(PathStep::Key(es[m].0)) =~= seq![PathStep::Key(es[m].0)]);
                    }
                    assert(s_locs(out2) =~= s_locs(out1));
                },
                _ => {
                    assert(s_locs(out2) =~= s_locs(out1));
                },
            }
        },
        Selector::Index(isel) => {
            match doc {
                Node::Array(ch) => {
                    let ch2 = nd->Array_0;
                    let n = s_normalize(isel.0 as int, ch.len() as int);
                    if 0 <= n < ch.len() {
                        assert(out1 =~= seq![(e.push(PathStep::Index(n)), ch[n])]);
                        assert(s_has_loc(targets, out1[0].0));
                        assert(e.push(PathStep::Index(n)) =~= seq![PathStep::Index(n)]);
                        assert(ch2[n] == v);
                        assert(out2 =~= seq![(e.push(PathStep::Index(n)), v)]);
                        assert(s_locs(out2) =~= s_locs(out1));
                    } else {
                        assert(s_locs(out2) =~= s_locs(out1));
                    }
                },
                _ => {
                    assert(s_locs(out2) =~= s_locs(out1));
                },
            }
        },
        Selector::Slice(ssel) => {
            match doc {
                Node::Array(ch) => {
                    let ch2 = nd->Array_0;
                    let idxs = s_slice_indices(
                        ch.len() as int,
                        ssel.0 as int,
                        ssel.1 as int,
                        ssel.2 as int,
                    );
                    crate::eval::lemma_slice_indices_in_range(
                        ch.len() as int,
                        ssel.0 as int,
                        ssel.1 as int,
                        ssel.2 as int,
                    );
                    assert forall|kk: int| 0 <= kk < idxs.len() implies #[trigger] ch2[idxs[kk]]
                        == v by {
                        assert(out1[kk].0 == e.push(PathStep::Index(idxs[kk])));
                        assert(s_has_loc(targets, out1[kk].0));
                        assert(e.push(PathStep::Index(idxs[kk])) =~= seq![
                            PathStep::Index(idxs[kk]),
                        ]);
                    }
                    assert(s_locs(out2) =~= s_locs(out1));
                    assert forall|idx: int| 0 <= idx < out2.len() implies (#[trigger] out2[idx]).1
                        == v by {
                        assert(out2[idx].1 == ch2[idxs[idx]]);
                    }
                },
                _ => {
                    assert(s_locs(out2) =~= s_locs(out1));
                },
            }
        },
        Selector::Filter(_) => {},
    }
}

proof fn lemma_scalar_selects_nothing(sels: Vec<Selector>, i: int, root: Node, m: (Seq<PathStep>, Node))
    requires
        !(m.1 matches Node::Array(_)),
        !(m.1 matches Node::Dict(_)),
    ensures
        s_apply_selectors(sels, i, root, m).len() == 0,
    decreases sels@.len() - i,
{
    if 0 <= i < sels@.len() {
        lemma_scalar_selects_nothing(sels, i + 1, root, m);
        assert(s_eval_selector(sels@[i], root, m) =~= Seq::<(Seq<PathStep>, Node)>::empty());
    }
}

/// Re-selecting from the assigned document with a whole selector list.
proof fn lemma_selectors_reselect(
    sels: Vec<Selector>,
    i: int,
    r1: Node,
    r2: Node,
    doc: Node,
    targets: Seq<Seq<PathStep>>,
    v: Node,
)
    requires
        forall|j: int| 0 <= j < sels@.len() ==> s_structural_selector(#[trigger] sels@[j]),
        s_top_keys_plain(doc),
        forall|idx: int|
            0 <= idx < s_apply_selectors(sels, i, r1, (Seq::<PathStep>::empty(), doc)).len()
                ==> s_has_loc(
                targets,
                (#[trigger] s_apply_selectors(sels, i, r1, (Seq::<PathStep>::empty(), doc))[idx]).0,
            ),
    ensures
        s_locs(
            s_apply_selectors(sels, i, r2, (Seq::<PathStep>::empty(), s_assigned(doc, targets, v))),
        ) == s_locs(s_apply_selectors(sels, i, r1, (Seq::<PathStep>::empty(), doc))),
        forall|idx: int|
            0 <= idx < s_apply_selectors(
                sels,
                i,
                r2,
                (Seq::<PathStep>::empty(), s_assigned(doc, targets, v)),
            ).len() ==> (#[trigger] s_apply_selectors(
                sels,
                i,
                r2,
                (Seq::<PathStep>::empty(), s_assigned(doc, targets, v)),
            )[idx]).1 == v,
    decreases sels@.len() - i,
{
    let e: Seq<PathStep> = Seq::empty();
    let nd = s_assigned(doc, targets, v);
    if 0 <= i < sels@.len() {
        let h1 = s_eval_selector(sels@[i], r1, (e, doc));
        let r1s = s_apply_selectors(sels, i + 1, r1, (e, doc));
        let h2 = s_eval_selector(sels@[i], r2, (e, nd));
        let r2s = s_apply_selectors(sels, i + 1, r2, (e, nd));
        assert forall|idx: int| 0 <= idx < h1.len() implies s_has_loc(
            targets,
            (#[trigger] h1[idx]).0,
        ) by {
            assert((h1 + r1s)[idx] == h1[idx]);
        }
        assert forall|idx: int| 0 <= idx < r1s.len() implies s_has_loc(
            targets,
            (#[trigger] r1s[idx]).0,
        ) by {
            assert((h1 + r1s)[h1.len() + idx] == r1s[idx]);
        }
        lemma_selector_reselect(sels@[i], r1, r2, doc, targets, v);
        lemma_selectors_reselect(sels, i + 1, r1, r2, doc, targets, v);
        assert(s_locs(h2 + r2s) =~= s_locs(h2) + s_locs(r2s));
        assert(s_locs(h1 + r1s) =~= s_locs(h1) + s_locs(r1s));
        assert forall|idx: int| 0 <= idx < (h2 + r2s).len() implies (#[trigger] (h2 + r2s)[idx]).1
            == v by {
            if idx < h2.len() {
                assert((h2 + r2s)[idx] == h2[idx]);
            } else {
                assert((h2 + r2s)[idx] == r2s[idx - h2.len()]);
            }
        }
    } else {
        assert(s_locs(s_apply_selectors(sels, i, r2, (e, nd))) =~= s_locs(
            s_apply_selectors(sels, i, r1, (e, doc)),
        ));
    }
}

/// Replacing every match of one filter-free child segment and selecting
/// again finds the same locations, each now carrying the new value: what
/// `set` writes is what a following read sees, one node per original match
/// location.  Selectors that decide by structure alone re-select their
/// locations because replacing values moves no key and no index; filters
/// are left out, since a replaced value can stop satisfying them, and map
/// keys must be plain scalars, since a key that blurs under structural
/// equality can miss the rewrite.
pub proof fn lemma_set_reselects_new_value(sels: Vec<Selector>, doc: Node, v: Node)
    requires
        forall|j: int| 0 <= j < sels@.len() ==> s_structural_selector(#[trigger] sels@[j]),
        s_top_keys_plain(doc),
    ensures
        ({
            let ms = s_apply_selectors(sels, 0, doc, (Seq::<PathStep>::empty(), doc));
            let targets = s_locs(ms);
            &&& s_rewrite(doc, Seq::<PathStep>::empty(), targets, NodeTransform::Assign(v))
                is Some
            &&& s_rewrite(doc, Seq::<PathStep>::empty(), targets, NodeTransform::Assign(v))
                matches Some(nd) ==> {
                let ms2 = s_apply_selectors(sels, 0, nd, (Seq::<PathStep>::empty(), nd));
                &&& s_locs(ms2) == targets
                &&& forall|idx: int| 0 <= idx < ms2.len() ==> (#[trigger] ms2[idx]).1 == v
            }
        }),
{
    let e: Seq<PathStep> = Seq::empty();
    let ms = s_apply_selectors(sels, 0, doc, (e, doc));
    let targets = s_locs(ms);
    assert forall|t: int| 0 <= t < targets.len() implies (#[trigger] targets[t]).len() == 1 by {
        lemma_selectors_targets_shallow(sels, 0, doc, doc, t);
    }
    assert forall|idx: int| 0 <= idx < ms.len() implies s_has_loc(
        targets,
        (#[trigger] ms[idx]).0,
    ) by {
        assert(s_locs(ms)[idx] == ms[idx].0);
    }
    assert(!s_has_loc(targets, e)) by {
        if s_has_loc(targets, e) {
            let t = choose|t: int| 0 <= t < targets.len() && #[trigger] targets[t] == e;
            assert(targets[t].len() == 1);
        }
    }
    if targets.len() == 0 {
        assert(!s_has_strict_ext(targets, e));
        assert(s_rewrite(doc, e, targets, NodeTransform::Assign(v)) == Option::Some(doc));
        assert(ms.len() == 0);
    } else {
        assert(s_has_strict_ext(targets, e)) by {
            assert(spec_is_strict_prefix(e, targets[0]));
        }
        match doc {
            Node::Array(ch) => {
                lemma_assign_shape_arr(ch, targets, v, 0);
                assert(s_rewrite_arr(ch, e, targets, NodeTransform::Assign(v), 0)
                    =~= s_assigned(doc, targets, v)->Array_0);
                assert(s_rewrite(doc, e, targets, NodeTransform::Assign(v)) == Option::Some(
                    s_assigned(doc, targets, v),
                ));
            },
            Node::Dict(es) => {
                lemma_assign_shape_dict(es, targets, v, 0);
                assert(s_rewrite_dict(es, e, targets, NodeTransform::Assign(v), 0)
                    =~= s_assigned(doc, targets, v)->Dict_0);
                assert(s_rewrite(doc, e, targets, NodeTransform::Assign(v)) == Option::Some(
                    s_assigned(doc, targets, v),
                ));
            },
            _ => {
                lemma_scalar_selects_nothing(sels, 0, doc, (e, doc));
                assert(false);
            },
        }
        let nd = s_assigned(doc, targets, v);
        lemma_selectors_reselect(sels, 0, doc, nd, doc, targets, v);
        lemma_selectors_root_irrelevant(sels, 0, nd, doc, (e, nd));
    }
}

} // verus!
