//! The mutation engine: rebuilds a document around a set of target
//! locations, replacing or removing each targeted node and passing
//! everything else through unchanged.
//!
//! A node whose location is an exact target is handed to the transform and
//! never descended into; a node whose location sits strictly above some
//! target is rebuilt from its rewritten children; any other node passes
//! through as it stands.  Deleting an array element closes the gap, and
//! deleting a map value removes its key with it.

use vstd::prelude::*;
use crate::ast::CborPath;
use crate::error::Error;
use crate::eval::s_read_paths;
use crate::path::{spec_is_strict_prefix, Path, PathStep};
use crate::value::{
    entries_of, lemma_entries_of, lemma_nodes_of, nodes_of, value_clone, Node, Value,
};
use crate::cbor_path::paths_view;

verus! {

// ---------------------------------------------------------------------------
// Transforms.

/// What happens to a targeted node.
#[derive(Debug)]
pub enum Transform {
    /// Replace it by a fixed value.
    Assign(Value),
    /// Remove it.
    Delete,
    /// Clear it: zero a number, empty a container, keep anything else.
    Clear,
}

/// The mathematical shape of a transform.
#[verifier::ext_equal]
pub enum NodeTransform {
    /// Replace by a fixed node.
    Assign(Node),
    /// Remove.
    Delete,
    /// Clear.
    Clear,
}

impl View for Transform {
    type V = NodeTransform;

    open spec fn view(&self) -> NodeTransform {
        match self {
            Transform::Assign(v) => NodeTransform::Assign(v@),
            Transform::Delete => NodeTransform::Delete,
            Transform::Clear => NodeTransform::Clear,
        }
    }
}

/// The cleared form of a node: integers and floats go to zero, containers
/// empty out, and strings, booleans, null and undefined stay as they are.
pub open spec fn s_clear_value(v: Node) -> Node {
    match v {
        Node::Pos(_) => Node::Pos(0),
        Node::Neg(_) => Node::Pos(0),
        Node::Float(_) => Node::Float(0),
        Node::Array(_) => Node::Array(Seq::empty()),
        Node::Dict(_) => Node::Dict(Seq::empty()),
        _ => v,
    }
}

/// Whether clearing changes a node's kind of content: true for numbers and
/// containers, which clearing counts.
pub open spec fn s_clearable(v: Node) -> bool {
    match v {
        Node::Pos(_) => true,
        Node::Neg(_) => true,
        Node::Float(_) => true,
        Node::Array(_) => true,
        Node::Dict(_) => true,
        _ => false,
    }
}

/// What a transform makes of a targeted node.
pub open spec fn s_transform(t: NodeTransform, v: Node) -> Option<Node> {
    match t {
        NodeTransform::Assign(x) => Option::Some(x),
        NodeTransform::Delete => Option::None,
        NodeTransform::Clear => Option::Some(s_clear_value(v)),
    }
}

// ---------------------------------------------------------------------------
// Target membership.

/// Whether `loc` is one of the targets.
pub open spec fn s_has_loc(targets: Seq<Seq<PathStep>>, loc: Seq<PathStep>) -> bool {
    exists|i: int| 0 <= i < targets.len() && targets[i] == loc
}

/// Whether some target lies strictly below `loc`.
pub open spec fn s_has_strict_ext(targets: Seq<Seq<PathStep>>, loc: Seq<PathStep>) -> bool {
    exists|i: int|
        0 <= i < targets.len() && spec_is_strict_prefix(loc, #[trigger] targets[i])
}

// ---------------------------------------------------------------------------
// The rewrite, as a function of document, targets and transform.

/// The rewritten node at location `loc`, or nothing when it is removed.
///
/// An exact target is transformed without descending into it; a strict
/// ancestor of a target is rebuilt from its rewritten children; everything
/// else passes through.
pub open spec fn s_rewrite(
    doc: Node,
    loc: Seq<PathStep>,
    targets: Seq<Seq<PathStep>>,
    t: NodeTransform,
) -> Option<Node>
    decreases doc, 0int,
{
    if s_has_loc(targets, loc) {
        s_transform(t, doc)
    } else if s_has_strict_ext(targets, loc) {
        match doc {
            Node::Array(ch) => Option::Some(Node::Array(s_rewrite_arr(ch, loc, targets, t, 0))),
            Node::Dict(es) => Option::Some(Node::Dict(s_rewrite_dict(es, loc, targets, t, 0))),
            _ => Option::Some(doc),
        }
    } else {
        Option::Some(doc)
    }
}

/// The rewritten elements of `ch[i..]`; a removed element leaves no hole.
pub open spec fn s_rewrite_arr(
    ch: Seq<Node>,
    loc: Seq<PathStep>,
    targets: Seq<Seq<PathStep>>,
    t: NodeTransform,
    i: int,
) -> Seq<Node>
    decreases ch, ch.len() - i,
{
    if i < 0 || i >= ch.len() {
        Seq::empty()
    } else {
        (match s_rewrite(ch[i], loc.push(PathStep::Index(i)), targets, t) {
            Option::Some(n) => seq![n],
            Option::None => Seq::empty(),
        }) + s_rewrite_arr(ch, loc, targets, t, i + 1)
    }
}

/// The rewritten entries of `es[i..]`; a removed value takes its key along.
pub open spec fn s_rewrite_dict(
    es: Seq<(Node, Node)>,
    loc: Seq<PathStep>,
    targets: Seq<Seq<PathStep>>,
    t: NodeTransform,
    i: int,
) -> Seq<(Node, Node)>
    decreases es, es.len() - i,
{
    if i < 0 || i >= es.len() {
        Seq::empty()
    } else {
        (match s_rewrite(es[i].1, loc.push(PathStep::Key(es[i].0)), targets, t) {
            Option::Some(n) => seq![(es[i].0, n)],
            Option::None => Seq::empty(),
        }) + s_rewrite_dict(es, loc, targets, t, i + 1)
    }
}

/// The targeted nodes the rewrite hands to the transform, in traversal
/// order: a nested target below an exact target is never reached.
pub open spec fn s_visited(doc: Node, loc: Seq<PathStep>, targets: Seq<Seq<PathStep>>) -> Seq<
    Node,
>
    decreases doc, 0int,
{
    if s_has_loc(targets, loc) {
        seq![doc]
    } else if s_has_strict_ext(targets, loc) {
        match doc {
            Node::Array(ch) => s_visited_arr(ch, loc, targets, 0),
            Node::Dict(es) => s_visited_dict(es, loc, targets, 0),
            _ => Seq::empty(),
        }
    } else {
        Seq::empty()
    }
}

/// The targeted nodes within `ch[i..]`.
pub open spec fn s_visited_arr(
    ch: Seq<Node>,
    loc: Seq<PathStep>,
    targets: Seq<Seq<PathStep>>,
    i: int,
) -> Seq<Node>
    decreases ch, ch.len() - i,
{
    if i < 0 || i >= ch.len() {
        Seq::empty()
    } else {
        s_visited(ch[i], loc.push(PathStep::Index(i)), targets) + s_visited_arr(
            ch,
            loc,
            targets,
            i + 1,
        )
    }
}

/// The targeted nodes within the values of `es[i..]`.
pub open spec fn s_visited_dict(
    es: Seq<(Node, Node)>,
    loc: Seq<PathStep>,
    targets: Seq<Seq<PathStep>>,
    i: int,
) -> Seq<Node>
    decreases es, es.len() - i,
{
    if i < 0 || i >= es.len() {
        Seq::empty()
    } else {
        s_visited(es[i].1, loc.push(PathStep::Key(es[i].0)), targets) + s_visited_dict(
            es,
            loc,
            targets,
            i + 1,
        )
    }
}

/// How many of these nodes clearing counts.
pub open spec fn s_count_clearable(vs: Seq<Node>) -> int
    decreases vs.len(),
{
    if vs.len() == 0 {
        0
    } else {
        (if s_clearable(vs[0]) {
            1int
        } else {
            0int
        }) + s_count_clearable(vs.drop_first())
    }
}

// ---------------------------------------------------------------------------
// Executable membership tests.

/// Whether `loc` is one of the targets.
#[verifier::loop_isolation(false)]
fn contains_loc(targets: &Vec<Path>, loc: &Path) -> (r: bool)
    ensures
        r == s_has_loc(paths_view(targets@), loc@),
{
    let mut i: usize = 0;
    while i < targets.len()
        invariant
            0 <= i <= targets.len(),
            forall|k: int| 0 <= k < i ==> #[trigger] paths_view(targets@)[k] != loc@,
        decreases targets.len() - i,
    {
        if targets[i].equals(loc) {
            proof {
                assert(paths_view(targets@)[i as int] == loc@);
            }
            return true;
        }
        i = i + 1;
    }
    false
}

/// Whether some target lies strictly below `loc`.
#[verifier::loop_isolation(false)]
fn has_strict_ext(targets: &Vec<Path>, loc: &Path) -> (r: bool)
    ensures
        r == s_has_strict_ext(paths_view(targets@), loc@),
{
    let mut i: usize = 0;
    while i < targets.len()
        invariant
            0 <= i <= targets.len(),
            forall|k: int|
                0 <= k < i ==> !spec_is_strict_prefix(loc@, #[trigger] paths_view(targets@)[k]),
        decreases targets.len() - i,
    {
        if loc.is_parent_of(&targets[i]) {
            proof {
                assert(spec_is_strict_prefix(loc@, paths_view(targets@)[i as int]));
            }
            return true;
        }
        i = i + 1;
    }
    false
}

// ---------------------------------------------------------------------------
// Executable transforms and the rewrite itself.

/// The cleared form of a node.
fn clear_value(v: &Value) -> (r: Value)
    ensures
        r@ == s_clear_value(v@),
{
    match v {
        Value::Pos(_) => Value::Pos(0),
        Value::Neg(_) => Value::Pos(0),
        Value::Float(_) => Value::Float(0),
        Value::Array(_) => {
            let r = Value::Array(Vec::new());
            proof {
                assert(r@ == Node::Array(Seq::<Node>::empty()));
                assert(s_clear_value(v@) == Node::Array(Seq::<Node>::empty()));
            }
            r
        },
        Value::Dict(_) => {
            let r = Value::Dict(Vec::new());
            proof {
                assert(r@ == Node::Dict(Seq::<(Node, Node)>::empty()));
                assert(s_clear_value(v@) == Node::Dict(Seq::<(Node, Node)>::empty()));
            }
            r
        },
        _ => value_clone(v),
    }
}

/// Whether clearing counts this node.
fn is_clearable(v: &Value) -> (r: bool)
    ensures
        r == s_clearable(v@),
{
    match v {
        Value::Pos(_) => true,
        Value::Neg(_) => true,
        Value::Float(_) => true,
        Value::Array(_) => true,
        Value::Dict(_) => true,
        _ => false,
    }
}

/// What the transform makes of a targeted node.
fn apply_transform(t: &Transform, v: &Value) -> (r: Option<Value>)
    ensures
        crate::cbor_path::opt_view(r) == s_transform(t@, v@),
{
    match t {
        Transform::Assign(x) => Some(value_clone(x)),
        Transform::Delete => None,
        Transform::Clear => Some(clear_value(v)),
    }
}

/// Rebuilds the node at `loc` around the targets, or removes it.
#[verifier::loop_isolation(false)]
fn rewrite_with(doc: &Value, loc: &Path, targets: &Vec<Path>, t: &Transform) -> (r: Option<Value>)
    ensures
        crate::cbor_path::opt_view(r) == s_rewrite(doc@, loc@, paths_view(targets@), t@),
    decreases *doc,
{
    let ghost tv = paths_view(targets@);
    if contains_loc(targets, loc) {
        apply_transform(t, doc)
    } else if has_strict_ext(targets, loc) {
        match doc {
            Value::Array(ch) => {
                proof {
                    lemma_nodes_of(ch@);
                }
                let ghost chn = nodes_of(ch@);
                let mut out: Vec<Value> = Vec::new();
                let mut i: usize = 0;
                proof {
                    assert(nodes_of(out@) + s_rewrite_arr(chn, loc@, tv, t@, 0) =~= s_rewrite_arr(
                        chn,
                        loc@,
                        tv,
                        t@,
                        0,
                    ));
                }
                while i < ch.len()
                    invariant
                        0 <= i <= ch.len(),
                        nodes_of(out@) + s_rewrite_arr(chn, loc@, tv, t@, i as int)
                            =~= s_rewrite_arr(chn, loc@, tv, t@, 0),
                    decreases ch.len() - i,
                {
                    let ghost out_before = out@;
                    let child_loc = loc.append_index(i);
                    match rewrite_with(&ch[i], &child_loc, targets, t) {
                        Some(n) => {
                            out.push(n);
                        },
                        None => {},
                    }
                    proof {
                        lemma_nodes_of(out@);
                        lemma_nodes_of(out_before);
                        assert(nodes_of(out@) + s_rewrite_arr(chn, loc@, tv, t@, i as int + 1)
                            =~= s_rewrite_arr(chn, loc@, tv, t@, 0));
                    }
                    i = i + 1;
                }
                let r = Some(Value::Array(out));
                proof {
                    assert(s_rewrite_arr(chn, loc@, tv, t@, ch@.len() as int) =~= Seq::empty());
                    assert(nodes_of(out@) =~= s_rewrite_arr(chn, loc@, tv, t@, 0));
                }
                r
            },
            Value::Dict(es) => {
                proof {
                    lemma_entries_of(es@);
                }
                let ghost esn = entries_of(es@);
                let mut out: Vec<(Value, Value)> = Vec::new();
                let mut i: usize = 0;
                proof {
                    assert(entries_of(out@) + s_rewrite_dict(esn, loc@, tv, t@, 0)
                        =~= s_rewrite_dict(esn, loc@, tv, t@, 0));
                }
                while i < es.len()
                    invariant
                        0 <= i <= es.len(),
                        entries_of(out@) + s_rewrite_dict(esn, loc@, tv, t@, i as int)
                            =~= s_rewrite_dict(esn, loc@, tv, t@, 0),
                    decreases es.len() - i,
                {
                    let ghost out_before = out@;
                    let child_loc = loc.append_key(&es[i].0);
                    match rewrite_with(&es[i].1, &child_loc, targets, t) {
                        Some(n) => {
                            out.push((value_clone(&es[i].0), n));
                        },
                        None => {},
                    }
                    proof {
                        lemma_entries_of(out@);
                        lemma_entries_of(out_before);
                        assert(entries_of(out@) + s_rewrite_dict(esn, loc@, tv, t@, i as int + 1)
                            =~= s_rewrite_dict(esn, loc@, tv, t@, 0));
                    }
                    i = i + 1;
                }
                let r = Some(Value::Dict(out));
                proof {
                    assert(s_rewrite_dict(esn, loc@, tv, t@, es@.len() as int) =~= Seq::empty());
                    assert(entries_of(out@) =~= s_rewrite_dict(esn, loc@, tv, t@, 0));
                }
                r
            },
            _ => Some(value_clone(doc)),
        }
    } else {
        Some(value_clone(doc))
    }
}

/// Collects the targeted nodes the rewrite visits, in traversal order.
#[verifier::loop_isolation(false)]
fn collect_visited(doc: &Value, loc: &Path, targets: &Vec<Path>) -> (r: Vec<Value>)
    ensures
        nodes_of(r@) == s_visited(doc@, loc@, paths_view(targets@)),
    decreases *doc,
{
    let ghost tv = paths_view(targets@);
    let mut out: Vec<Value> = Vec::new();
    if contains_loc(targets, loc) {
        out.push(value_clone(doc));
        proof {
            lemma_nodes_of(out@);
            assert(nodes_of(out@) =~= s_visited(doc@, loc@, tv));
        }
        return out;
    }
    if !has_strict_ext(targets, loc) {
        proof {
            assert(nodes_of(out@) =~= s_visited(doc@, loc@, tv));
        }
        return out;
    }
    match doc {
        Value::Array(ch) => {
            proof {
                lemma_nodes_of(ch@);
            }
            let ghost chn = nodes_of(ch@);
            let mut i: usize = 0;
            proof {
                assert(nodes_of(out@) + s_visited_arr(chn, loc@, tv, 0) =~= s_visited_arr(
                    chn,
                    loc@,
                    tv,
                    0,
                ));
            }
            while i < ch.len()
                invariant
                    0 <= i <= ch.len(),
                    nodes_of(out@) + s_visited_arr(chn, loc@, tv, i as int) =~= s_visited_arr(
                        chn,
                        loc@,
                        tv,
                        0,
                    ),
                decreases ch.len() - i,
            {
                let ghost out_before = out@;
                let child_loc = loc.append_index(i);
                let mut part = collect_visited(&ch[i], &child_loc, targets);
                let ghost part_before = part@;
                out.append(&mut part);
                proof {
                    lemma_nodes_of(out@);
                    lemma_nodes_of(out_before);
                    lemma_nodes_of(part_before);
                    assert(nodes_of(out@) =~= nodes_of(out_before) + nodes_of(part_before));
                    assert(nodes_of(out@) + s_visited_arr(chn, loc@, tv, i as int + 1)
                        =~= s_visited_arr(chn, loc@, tv, 0));
                }
                i = i + 1;
            }
            proof {
                assert(s_visited_arr(chn, loc@, tv, ch@.len() as int) =~= Seq::empty());
                assert(nodes_of(out@) =~= s_visited(doc@, loc@, tv));
            }
        },
        Value::Dict(es) => {
            proof {
                lemma_entries_of(es@);
            }
            let ghost esn = entries_of(es@);
            let mut i: usize = 0;
            proof {
                assert(nodes_of(out@) + s_visited_dict(esn, loc@, tv, 0) =~= s_visited_dict(
                    esn,
                    loc@,
                    tv,
                    0,
                ));
            }
            while i < es.len()
                invariant
                    0 <= i <= es.len(),
                    nodes_of(out@) + s_visited_dict(esn, loc@, tv, i as int) =~= s_visited_dict(
                        esn,
                        loc@,
                        tv,
                        0,
                    ),
                decreases es.len() - i,
            {
                let ghost out_before = out@;
                let child_loc = loc.append_key(&es[i].0);
                let mut part = collect_visited(&es[i].1, &child_loc, targets);
                let ghost part_before = part@;
                out.append(&mut part);
                proof {
                    lemma_nodes_of(out@);
                    lemma_nodes_of(out_before);
                    lemma_nodes_of(part_before);
                    assert(nodes_of(out@) =~= nodes_of(out_before) + nodes_of(part_before));
                    assert(nodes_of(out@) + s_visited_dict(esn, loc@, tv, i as int + 1)
                        =~= s_visited_dict(esn, loc@, tv, 0));
                }
                i = i + 1;
            }
            proof {
                assert(s_visited_dict(esn, loc@, tv, es@.len() as int) =~= Seq::empty());
                assert(nodes_of(out@) =~= s_visited(doc@, loc@, tv));
            }
        },
        _ => {
            proof {
                assert(nodes_of(out@) =~= s_visited(doc@, loc@, tv));
            }
        },
    }
    out
}

/// How many of these values clearing counts.
#[verifier::loop_isolation(false)]
fn count_clearable(vs: &Vec<Value>) -> (r: usize)
    ensures
        r as int == s_count_clearable(nodes_of(vs@)),
{
    proof {
        lemma_nodes_of(vs@);
    }
    let ghost ns = nodes_of(vs@);
    let mut count: usize = 0;
    let mut i: usize = 0;
    proof {
        lemma_count_clearable_skip(ns, 0);
    }
    while i < vs.len()
        invariant
            0 <= i <= vs.len(),
            count <= i,
            count as int + s_count_clearable(ns.skip(i as int)) == s_count_clearable(ns),
        decreases vs.len() - i,
    {
        proof {
            assert(ns.skip(i as int).drop_first() =~= ns.skip(i as int + 1));
            assert(ns.skip(i as int)[0] == ns[i as int]);
        }
        if is_clearable(&vs[i]) {
            count = count + 1;
        }
        i = i + 1;
    }
    proof {
        assert(ns.skip(vs@.len() as int) =~= Seq::empty());
    }
    count
}

proof fn lemma_count_clearable_skip(ns: Seq<Node>, i: int)
    requires
        0 <= i <= ns.len(),
    ensures
        s_count_clearable(ns.skip(0)) == s_count_clearable(ns),
{
    assert(ns.skip(0) =~= ns);
}


// ---------------------------------------------------------------------------
// Rewriting with one prepared replacement per visited target.

/// The models of a list of optional replacement values.
pub open spec fn opts_view(s: Seq<Option<Value>>) -> Seq<Option<Node>> {
    Seq::new(s.len(), |i: int| crate::cbor_path::opt_view(s[i]))
}

/// The rewritten node at `loc` when the visited targets take their
/// replacements from `reps`, starting at position `pos`: the rewrite
/// consumes one replacement per visited target, in traversal order.
pub open spec fn s_rewrite_reps(
    doc: Node,
    loc: Seq<PathStep>,
    targets: Seq<Seq<PathStep>>,
    reps: Seq<Option<Node>>,
    pos: int,
) -> Option<Node>
    decreases doc, 0int,
{
    if s_has_loc(targets, loc) {
        if 0 <= pos < reps.len() {
            reps[pos]
        } else {
            Option::None
        }
    } else if s_has_strict_ext(targets, loc) {
        match doc {
            Node::Array(ch) => Option::Some(
                Node::Array(s_rewrite_reps_arr(ch, loc, targets, reps, pos, 0)),
            ),
            Node::Dict(es) => Option::Some(
                Node::Dict(s_rewrite_reps_dict(es, loc, targets, reps, pos, 0)),
            ),
            _ => Option::Some(doc),
        }
    } else {
        Option::Some(doc)
    }
}

/// The rewritten elements of `ch[i..]`, each child consuming as many
/// replacements as it visits.
pub open spec fn s_rewrite_reps_arr(
    ch: Seq<Node>,
    loc: Seq<PathStep>,
    targets: Seq<Seq<PathStep>>,
    reps: Seq<Option<Node>>,
    pos: int,
    i: int,
) -> Seq<Node>
    decreases ch, ch.len() - i,
{
    if i < 0 || i >= ch.len() {
        Seq::empty()
    } else {
        (match s_rewrite_reps(ch[i], loc.push(PathStep::Index(i)), targets, reps, pos) {
            Option::Some(n) => seq![n],
            Option::None => Seq::empty(),
        }) + s_rewrite_reps_arr(
            ch,
            loc,
            targets,
            reps,
            pos + s_visited(ch[i], loc.push(PathStep::Index(i)), targets).len(),
            i + 1,
        )
    }
}

/// The rewritten entries of the values of `es[i..]`.
pub open spec fn s_rewrite_reps_dict(
    es: Seq<(Node, Node)>,
    loc: Seq<PathStep>,
    targets: Seq<Seq<PathStep>>,
    reps: Seq<Option<Node>>,
    pos: int,
    i: int,
) -> Seq<(Node, Node)>
    decreases es, es.len() - i,
{
    if i < 0 || i >= es.len() {
        Seq::empty()
    } else {
        (match s_rewrite_reps(es[i].1, loc.push(PathStep::Key(es[i].0)), targets, reps, pos) {
            Option::Some(n) => seq![(es[i].0, n)],
            Option::None => Seq::empty(),
        }) + s_rewrite_reps_dict(
            es,
            loc,
            targets,
            reps,
            pos + s_visited(es[i].1, loc.push(PathStep::Key(es[i].0)), targets).len(),
            i + 1,
        )
    }
}

/// Rebuilds the node at `loc`, consuming one replacement per visited
/// target in traversal order.
#[verifier::loop_isolation(false)]
fn rewrite_with_reps(
    doc: &Value,
    loc: &Path,
    targets: &Vec<Path>,
    reps: &Vec<Option<Value>>,
    pos: &mut usize,
) -> (r: Option<Value>)
    requires
        *old(pos) + s_visited(doc@, loc@, paths_view(targets@)).len() <= reps@.len(),
    ensures
        crate::cbor_path::opt_view(r) == s_rewrite_reps(
            doc@,
            loc@,
            paths_view(targets@),
            opts_view(reps@),
            *old(pos) as int,
        ),
        *final(pos) == *old(pos) + s_visited(doc@, loc@, paths_view(targets@)).len(),
    decreases *doc,
{
    let ghost tv = paths_view(targets@);
    let ghost rv = opts_view(reps@);
    if contains_loc(targets, loc) {
        proof {
            assert(s_visited(doc@, loc@, tv) =~= seq![doc@]);
        }
        let reps_len = reps.len();
        proof {
            assert(*pos < reps_len);
        }
        let rep = match &reps[*pos] {
            Some(v) => Some(value_clone(v)),
            None => None,
        };
        *pos = *pos + 1;
        rep
    } else if has_strict_ext(targets, loc) {
        match doc {
            Value::Array(ch) => {
                proof {
                    lemma_nodes_of(ch@);
                }
                let ghost chn = nodes_of(ch@);
                let ghost pos0 = *pos as int;
                let mut out: Vec<Value> = Vec::new();
                let mut i: usize = 0;
                proof {
                    assert(s_visited(doc@, loc@, tv) == s_visited_arr(chn, loc@, tv, 0));
                    assert(nodes_of(out@) + s_rewrite_reps_arr(chn, loc@, tv, rv, pos0, 0)
                        =~= s_rewrite_reps_arr(chn, loc@, tv, rv, pos0, 0));
                }
                while i < ch.len()
                    invariant
                        0 <= i <= ch.len(),
                        *pos as int == pos0 + s_visited_arr_prefix(chn, loc@, tv, i as int),
                        *pos + s_visited_arr(chn, loc@, tv, i as int).len() <= reps@.len(),
                        nodes_of(out@) + s_rewrite_reps_arr(chn, loc@, tv, rv, *pos as int, i as int)
                            =~= s_rewrite_reps_arr(chn, loc@, tv, rv, pos0, 0),
                    decreases ch.len() - i,
                {
                    let ghost out_before = out@;
                    let ghost pos_before = *pos as int;
                    let child_loc = loc.append_index(i);
                    match rewrite_with_reps(&ch[i], &child_loc, targets, reps, pos) {
                        Some(n) => {
                            out.push(n);
                        },
                        None => {},
                    }
                    proof {
                        lemma_nodes_of(out@);
                        lemma_nodes_of(out_before);
                        assert(nodes_of(out@) + s_rewrite_reps_arr(
                            chn,
                            loc@,
                            tv,
                            rv,
                            *pos as int,
                            i as int + 1,
                        ) =~= s_rewrite_reps_arr(chn, loc@, tv, rv, pos0, 0));
                    }
                    i = i + 1;
                }
                let r = Some(Value::Array(out));
                proof {
                    assert(s_rewrite_reps_arr(chn, loc@, tv, rv, *pos as int, ch@.len() as int)
                        =~= Seq::empty());
                    assert(nodes_of(out@) =~= s_rewrite_reps_arr(chn, loc@, tv, rv, pos0, 0));
                    lemma_visited_arr_split(chn, loc@, tv, ch@.len() as int);
                    assert(s_visited_arr(chn, loc@, tv, ch@.len() as int) =~= Seq::empty());
                }
                r
            },
            Value::Dict(es) => {
                proof {
                    lemma_entries_of(es@);
                }
                let ghost esn = entries_of(es@);
                let ghost pos0 = *pos as int;
                let mut out: Vec<(Value, Value)> = Vec::new();
                let mut i: usize = 0;
                proof {
                    assert(s_visited(doc@, loc@, tv) == s_visited_dict(esn, loc@, tv, 0));
                    assert(entries_of(out@) + s_rewrite_reps_dict(esn, loc@, tv, rv, pos0, 0)
                        =~= s_rewrite_reps_dict(esn, loc@, tv, rv, pos0, 0));
                }
                while i < es.len()
                    invariant
                        0 <= i <= es.len(),
                        *pos as int == pos0 + s_visited_dict_prefix(esn, loc@, tv, i as int),
                        *pos + s_visited_dict(esn, loc@, tv, i as int).len() <= reps@.len(),
                        entries_of(out@) + s_rewrite_reps_dict(
                            esn,
                            loc@,
                            tv,
                            rv,
                            *pos as int,
                            i as int,
                        ) =~= s_rewrite_reps_dict(esn, loc@, tv, rv, pos0, 0),
                    decreases es.len() - i,
                {
                    let ghost out_before = out@;
                    let child_loc = loc.append_key(&es[i].0);
                    match rewrite_with_reps(&es[i].1, &child_loc, targets, reps, pos) {
                        Some(n) => {
                            out.push((value_clone(&es[i].0), n));
                        },
                        None => {},
                    }
                    proof {
                        lemma_entries_of(out@);
                        lemma_entries_of(out_before);
                        assert(entries_of(out@) + s_rewrite_reps_dict(
                            esn,
                            loc@,
                            tv,
                            rv,
                            *pos as int,
                            i as int + 1,
                        ) =~= s_rewrite_reps_dict(esn, loc@, tv, rv, pos0, 0));
                    }
                    i = i + 1;
                }
                let r = Some(Value::Dict(out));
                proof {
                    assert(s_rewrite_reps_dict(esn, loc@, tv, rv, *pos as int, es@.len() as int)
                        =~= Seq::empty());
                    assert(entries_of(out@) =~= s_rewrite_reps_dict(esn, loc@, tv, rv, pos0, 0));
                    lemma_visited_dict_split(esn, loc@, tv, es@.len() as int);
                    assert(s_visited_dict(esn, loc@, tv, es@.len() as int) =~= Seq::empty());
                }
                r
            },
            _ => {
                proof {
                    assert(s_visited(doc@, loc@, tv) =~= Seq::<Node>::empty());
                }
                Some(value_clone(doc))
            },
        }
    } else {
        proof {
            assert(s_visited(doc@, loc@, tv) =~= Seq::<Node>::empty());
        }
        Some(value_clone(doc))
    }
}

/// The count of visited targets within the first `i` children.
pub open spec fn s_visited_arr_prefix(
    ch: Seq<Node>,
    loc: Seq<PathStep>,
    targets: Seq<Seq<PathStep>>,
    i: int,
) -> int
    decreases (if i > 0 { i } else { 0 }),
{
    if i <= 0 {
        0
    } else {
        s_visited_arr_prefix(ch, loc, targets, i - 1) + s_visited(
            ch[i - 1],
            loc.push(PathStep::Index(i - 1)),
            targets,
        ).len()
    }
}

/// The count of visited targets within the values of the first `i` entries.
pub open spec fn s_visited_dict_prefix(
    es: Seq<(Node, Node)>,
    loc: Seq<PathStep>,
    targets: Seq<Seq<PathStep>>,
    i: int,
) -> int
    decreases (if i > 0 { i } else { 0 }),
{
    if i <= 0 {
        0
    } else {
        s_visited_dict_prefix(es, loc, targets, i - 1) + s_visited(
            es[i - 1].1,
            loc.push(PathStep::Key(es[i - 1].0)),
            targets,
        ).len()
    }
}

/// The visited count of a child list splits at any point.
proof fn lemma_visited_arr_split(
    ch: Seq<Node>,
    loc: Seq<PathStep>,
    targets: Seq<Seq<PathStep>>,
    i: int,
)
    requires
        0 <= i <= ch.len(),
    ensures
        s_visited_arr_prefix(ch, loc, targets, i) + s_visited_arr(ch, loc, targets, i).len()
            == s_visited_arr(ch, loc, targets, 0).len(),
    decreases i,
{
    if i == 0 {
    } else {
        lemma_visited_arr_split(ch, loc, targets, i - 1);
        assert(s_visited_arr(ch, loc, targets, i - 1) =~= s_visited(
            ch[i - 1],
            loc.push(PathStep::Index(i - 1)),
            targets,
        ) + s_visited_arr(ch, loc, targets, i));
    }
}

/// The visited count of an entry list splits at any point.
proof fn lemma_visited_dict_split(
    es: Seq<(Node, Node)>,
    loc: Seq<PathStep>,
    targets: Seq<Seq<PathStep>>,
    i: int,
)
    requires
        0 <= i <= es.len(),
    ensures
        s_visited_dict_prefix(es, loc, targets, i) + s_visited_dict(es, loc, targets, i).len()
            == s_visited_dict(es, loc, targets, 0).len(),
    decreases i,
{
    if i == 0 {
    } else {
        lemma_visited_dict_split(es, loc, targets, i - 1);
        assert(s_visited_dict(es, loc, targets, i - 1) =~= s_visited(
            es[i - 1].1,
            loc.push(PathStep::Key(es[i - 1].0)),
            targets,
        ) + s_visited_dict(es, loc, targets, i));
    }
}

// ---------------------------------------------------------------------------
// The write operations.

impl CborPath {
    /// Replaces every matched node by `value` and hands back the new
    /// document; a document without matches comes back unchanged.
    pub fn set(&self, doc: &Value, value: &Value) -> (r: Value)
        ensures
            Option::Some(r@) == s_rewrite(
                doc@,
                Seq::<PathStep>::empty(),
                s_read_paths(*self, doc@),
                NodeTransform::Assign(value@),
            ),
    {
        let paths = self.get_paths(doc);
        let t = Transform::Assign(value_clone(value));
        let root_loc = Path::new();
        match rewrite_with(doc, &root_loc, &paths, &t) {
            Some(v) => v,
            None => {
                proof {
                    assert(false);
                }
                value_clone(doc)
            },
        }
    }

    /// Removes every matched node and hands back the new document; when
    /// the document root itself is matched there is nothing to hand back,
    /// and a write error is reported instead.
    pub fn delete(&self, doc: &Value) -> (r: Result<Value, Error>)
        ensures
            r matches Ok(v) ==> Option::Some(v@) == s_rewrite(
                doc@,
                Seq::<PathStep>::empty(),
                s_read_paths(*self, doc@),
                NodeTransform::Delete,
            ),
            r is Err <==> s_rewrite(
                doc@,
                Seq::<PathStep>::empty(),
                s_read_paths(*self, doc@),
                NodeTransform::Delete,
            ) is None,
            r matches Err(e) ==> e is Write,
    {
        let paths = self.get_paths(doc);
        let t = Transform::Delete;
        let root_loc = Path::new();
        match rewrite_with(doc, &root_loc, &paths, &t) {
            Some(v) => Ok(v),
            None => Err(Error::Write("cannot delete the document root".to_owned())),
        }
    }

    /// Rewrites the document through a caller-supplied transform: every
    /// matched node, outermost first and each visited once, is handed to
    /// the transform, which yields its replacement or, with none, removes
    /// it.  A transform error aborts the rewrite and is handed back
    /// untouched; removing the document root itself is reported as a write
    /// error.  Success is owed whenever the transform cannot fail and
    /// either the root is not matched or the transform never removes.
    #[verifier::loop_isolation(false)]
    pub fn write<F: Fn(Value) -> Result<Option<Value>, Error>>(&self, doc: &Value, f: F) -> (r:
        Result<Value, Error>)
        requires
            forall|v: Value| #[trigger] call_requires(f, (v,)),
        ensures
            r matches Ok(v) ==> exists|reps: Seq<Option<Value>>, args: Seq<Value>|
                #![trigger opts_view(reps), args.len()]
                {
                    let visited = s_visited(
                        doc@,
                        Seq::<PathStep>::empty(),
                        s_read_paths(*self, doc@),
                    );
                    &&& reps.len() == visited.len()
                    &&& args.len() == visited.len()
                    &&& forall|i: int|
                        0 <= i < visited.len() ==> (#[trigger] args[i])@ == visited[i]
                            && call_ensures(f, (args[i],), Result::<Option<Value>, Error>::Ok(reps[i]))
                    &&& Option::Some(v@) == s_rewrite_reps(
                        doc@,
                        Seq::<PathStep>::empty(),
                        s_read_paths(*self, doc@),
                        opts_view(reps),
                        0,
                    )
                },
            ((forall|v: Value, e: Error|
                !(#[trigger] call_ensures(f, (v,), Result::<Option<Value>, Error>::Err(e))))
                && !s_has_loc(s_read_paths(*self, doc@), Seq::<PathStep>::empty())) ==> r is Ok,
            ((forall|v: Value, e: Error|
                !(#[trigger] call_ensures(f, (v,), Result::<Option<Value>, Error>::Err(e))))
                && (forall|v: Value|
                !(#[trigger] call_ensures(
                    f,
                    (v,),
                    Result::<Option<Value>, Error>::Ok(Option::<Value>::None),
                )))) ==> r is Ok,
            r matches Err(e) ==> ({
                let visited = s_visited(doc@, Seq::<PathStep>::empty(), s_read_paths(*self, doc@));
                ||| exists|i: int, arg: Value|
                    #![trigger visited[i], call_ensures(f, (arg,), Result::<Option<Value>, Error>::Err(e))]
                    {
                        &&& 0 <= i < visited.len()
                        &&& arg@ == visited[i]
                        &&& call_ensures(f, (arg,), Result::<Option<Value>, Error>::Err(e))
                    }
                ||| {
                    &&& e is Write
                    &&& s_has_loc(s_read_paths(*self, doc@), Seq::<PathStep>::empty())
                    &&& exists|arg: Value|
                        arg@ == doc@ && #[trigger] call_ensures(
                            f,
                            (arg,),
                            Result::<Option<Value>, Error>::Ok(Option::<Value>::None),
                        )
                }
            }),
    {
        let paths = self.get_paths(doc);
        let root_loc = Path::new();
        let visited = collect_visited(doc, &root_loc, &paths);
        let ghost vs = s_visited(doc@, Seq::<PathStep>::empty(), paths_view(paths@));
        proof {
            lemma_nodes_of(visited@);
        }
        let mut reps: Vec<Option<Value>> = Vec::new();
        let ghost mut args: Seq<Value> = Seq::empty();
        let mut i: usize = 0;
        while i < visited.len()
            invariant
                0 <= i <= visited.len(),
                reps@.len() == i,
                args.len() == i,
                forall|k: int|
                    0 <= k < i ==> (#[trigger] args[k])@ == vs[k] && call_ensures(
                        f,
                        (args[k],),
                        Result::<Option<Value>, Error>::Ok(reps@[k]),
                    ),
            decreases visited.len() - i,
        {
            let arg = value_clone(&visited[i]);
            let ghost arg_ghost = arg;
            match f(arg) {
                Ok(o) => {
                    reps.push(o);
                    proof {
                        args = args.push(arg_ghost);
                    }
                },
                Err(e) => {
                    proof {
                        assert(paths_view(paths@) == s_read_paths(*self, doc@));
                        assert(arg_ghost@ == vs[i as int]);
                        assert(call_ensures(
                            f,
                            (arg_ghost,),
                            Result::<Option<Value>, Error>::Err(e),
                        ));
                    }
                    return Err(e);
                },
            }
            i = i + 1;
        }
        let mut pos: usize = 0;
        let out = rewrite_with_reps(doc, &root_loc, &paths, &reps, &mut pos);
        match out {
            Some(v) => {
                proof {
                    let ghost reps_g = reps@;
                    let ghost args_g = args;
                    assert(reps_g.len() == vs.len());
                    assert(Option::Some(v@) == s_rewrite_reps(
                        doc@,
                        Seq::<PathStep>::empty(),
                        paths_view(paths@),
                        opts_view(reps_g),
                        0,
                    ));
                }
                Ok(v)
            },
            None => {
                proof {
                    let tv = paths_view(paths@);
                    let rv = opts_view(reps@);
                    assert(tv == s_read_paths(*self, doc@));
                    assert(s_rewrite_reps(doc@, Seq::<PathStep>::empty(), tv, rv, 0) is None);
                    assert(s_has_loc(tv, Seq::<PathStep>::empty()));
                    assert(vs =~= seq![doc@]);
                    assert(vs[0] == doc@);
                    assert(rv.len() == 1);
                    assert(rv[0] is None);
                    assert(reps@[0] is None) by {
                        match reps@[0] {
                            Option::Some(w) => {
                                assert(rv[0] == Option::Some(w@));
                            },
                            Option::None => {},
                        }
                    }
                    assert(args[0]@ == doc@);
                    assert(Result::<Option<Value>, Error>::Ok(reps@[0])
                        == Result::<Option<Value>, Error>::Ok(Option::<Value>::None));
                    assert(call_ensures(
                        f,
                        (args[0],),
                        Result::<Option<Value>, Error>::Ok(Option::<Value>::None),
                    ));
                }
                Err(Error::Write("cannot remove the document root".to_owned()))
            },
        }
    }

    /// Clears every matched node — numbers to zero, containers to empty,
    /// anything else unchanged — and hands back the new document together
    /// with how many nodes were cleared.
    pub fn clear(&self, doc: &Value) -> (r: (Value, usize))
        ensures
            Option::Some(r.0@) == s_rewrite(
                doc@,
                Seq::<PathStep>::empty(),
                s_read_paths(*self, doc@),
                NodeTransform::Clear,
            ),
            r.1 as int == s_count_clearable(
                s_visited(doc@, Seq::<PathStep>::empty(), s_read_paths(*self, doc@)),
            ),
    {
        let paths = self.get_paths(doc);
        let t = Transform::Clear;
        let root_loc = Path::new();
        let visited = collect_visited(doc, &root_loc, &paths);
        let count = count_clearable(&visited);
        match rewrite_with(doc, &root_loc, &paths, &t) {
            Some(v) => (v, count),
            None => {
                proof {
                    assert(false);
                }
                (value_clone(doc), count)
            },
        }
    }
}


} // verus!
