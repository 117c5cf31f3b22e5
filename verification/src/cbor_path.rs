//! The evaluator: applies a compiled path expression to a document and
//! hands back the selected nodes, or the nodes paired with their
//! locations.  Each function is proved against the model in `eval`.

use vstd::prelude::*;
use crate::ast::{
    AbsolutePath, BooleanExpr, CborPath, Comparable, ComparisonExpr, ComparisonOperator,
    FilterPath, Function, IndexSelector, KeySelector, RelativePath, Segment, Selector,
    SingularPath, SingularSegment, SliceSelector,
};
use crate::eval::{
    s_apply_selectors, s_apply_to_all, s_cmp_eq, s_cmp_lt, s_desc, s_desc_arr, s_desc_dict,
    s_eval_bool, s_eval_comparable, s_eval_comparison, s_eval_filterpath, s_eval_fn_bool,
    s_eval_fn_cmp, s_eval_from, s_eval_path, s_eval_segment, s_eval_segments, s_eval_selector,
    s_eval_sing_seg, s_eval_sing_segs, s_eval_singular, s_expand, s_filter_arr, s_filter_dict,
    s_length_of, s_normalize,
    s_locs, s_nodes, s_read_nodes, s_read_paths, s_slice_indices, s_stride,
    lemma_slice_indices_in_range, s_clamp,
    t_mod,
};
use crate::path::{Path, PathStep};
use crate::value::{
    entries_of, lemma_dict_find_characterized, lemma_dict_find_none, lemma_entries_of,
    lemma_nodes_of, nodes_of, spec_dict_find, spec_value_eq, value_clone, value_equals,
    value_lesser_than, Node, Value,
};

verus! {

// ---------------------------------------------------------------------------
// Views of executable match lists.

/// The model of a list of matches.
pub open spec fn matches_view(v: Seq<(Path, Value)>) -> Seq<(Seq<PathStep>, Node)> {
    Seq::new(v.len(), |i: int| (v[i].0@, v[i].1@))
}

/// `matches_view` distributes over concatenation.
pub proof fn lemma_matches_view_concat(a: Seq<(Path, Value)>, b: Seq<(Path, Value)>)
    ensures
        matches_view(a + b) =~= matches_view(a) + matches_view(b),
{
}

/// The model of a list of locations.
pub open spec fn paths_view(v: Seq<Path>) -> Seq<Seq<PathStep>> {
    Seq::new(v.len(), |i: int| v[i]@)
}

/// The model of an optional value.
pub open spec fn opt_view(o: Option<Value>) -> Option<Node> {
    match o {
        Option::Some(v) => Option::Some(v@),
        Option::None => Option::None,
    }
}

// ---------------------------------------------------------------------------
// Shared lookups and index arithmetic.

/// The value at the first key of `entries` structurally equal to `key`.
#[verifier::loop_isolation(false)]
fn dict_find_value<'a>(entries: &'a Vec<(Value, Value)>, key: &Value) -> (r: Option<&'a Value>)
    ensures
        r is Some <==> spec_dict_find(entries_of(entries@), key@) is Some,
        r matches Some(v) ==> spec_dict_find(entries_of(entries@), key@) == Option::Some(v@),
{
    proof {
        lemma_entries_of(entries@);
    }
    let ghost es = entries_of(entries@);
    let mut j: usize = 0;
    while j < entries.len()
        invariant
            0 <= j <= entries.len(),
            forall|j2: int| 0 <= j2 < j ==> !spec_value_eq((#[trigger] es[j2]).0, key@),
        decreases entries.len() - j,
    {
        if value_equals(&entries[j].0, key) {
            proof {
                lemma_dict_find_characterized(es, key@, j as int);
            }
            return Some(&entries[j].1);
        }
        j = j + 1;
    }
    proof {
        lemma_dict_find_none(es, key@);
    }
    None
}

/// Normalizes a possibly negative offset against a length and keeps it only
/// when it lands inside `[0, len)`.
fn norm_index(i: isize, len: usize) -> (r: Option<usize>)
    ensures
        r is Some <==> 0 <= s_normalize(i as int, len as int) < len,
        r matches Some(k) ==> k as int == s_normalize(i as int, len as int),
{
    if i >= 0 {
        let u = i as usize;
        if u < len {
            Some(u)
        } else {
            None
        }
    } else {
        let n: i128 = len as i128 + i as i128;
        if n >= 0 {
            Some(n as usize)
        } else {
            None
        }
    }
}

/// Normalizes a possibly negative offset against a length: a negative
/// offset counts from the end.  No clamping happens here; the result may
/// still lie outside `[0, len)`.
pub fn normalize_index(i: isize, len: usize) -> (r: isize)
    requires
        len <= isize::MAX as usize,
    ensures
        r as int == s_normalize(i as int, len as int),
{
    if i >= 0 {
        i
    } else {
        len as isize + i
    }
}

/// The `length` of a present node: element or entry count for containers,
/// byte length for strings, one for every other value.
fn length_value(v: &Value) -> (r: Value)
    ensures
        r@ == s_length_of(v@),
{
    match v {
        Value::Array(ch) => {
            proof {
                lemma_nodes_of(ch@);
            }
            Value::Pos(ch.len() as u64)
        },
        Value::Dict(es) => {
            proof {
                lemma_entries_of(es@);
            }
            Value::Pos(es.len() as u64)
        },
        Value::Text(bs) => Value::Pos(bs.len() as u64),
        Value::Bytes(bs) => Value::Pos(bs.len() as u64),
        _ => Value::Pos(1),
    }
}

/// Equality of two resolved comparables.
fn cmp_eq(a: &Option<Value>, b: &Option<Value>) -> (r: bool)
    ensures
        r == s_cmp_eq(opt_view(*a), opt_view(*b)),
{
    match (a, b) {
        (Option::None, Option::None) => true,
        (Option::Some(x), Option::Some(y)) => value_equals(x, y),
        _ => false,
    }
}

/// Order of two resolved comparables.
fn cmp_lt(a: &Option<Value>, b: &Option<Value>) -> (r: bool)
    ensures
        r == s_cmp_lt(opt_view(*a), opt_view(*b)),
{
    match (a, b) {
        (Option::Some(x), Option::Some(y)) => value_lesser_than(x, y),
        _ => false,
    }
}

// ---------------------------------------------------------------------------
// Singular paths.

/// Follows the steps of a singular path from a start node.
#[verifier::loop_isolation(false)]
fn eval_sing_segs(segs: &Vec<SingularSegment>, start: &Value) -> (r: Option<Value>)
    ensures
        opt_view(r) == s_eval_sing_segs(*segs, 0, start@),
{
    let mut current: &Value = start;
    let mut i: usize = 0;
    while i < segs.len()
        invariant
            0 <= i <= segs.len(),
            s_eval_sing_segs(*segs, 0, start@) == s_eval_sing_segs(*segs, i as int, current@),
        decreases segs.len() - i,
    {
        match (&segs[i], current) {
            (SingularSegment::Key(ks), Value::Dict(entries)) => {
                match dict_find_value(entries, &ks.0) {
                    Some(v) => {
                        current = v;
                    },
                    None => {
                        return None;
                    },
                }
            },
            (SingularSegment::Index(isel), Value::Array(ch)) => {
                proof {
                    lemma_nodes_of(ch@);
                }
                match norm_index(isel.0, ch.len()) {
                    Some(k) => {
                        current = &ch[k];
                    },
                    None => {
                        return None;
                    },
                }
            },
            _ => {
                return None;
            },
        }
        i = i + 1;
    }
    Some(value_clone(current))
}

/// The at-most-one node a singular path selects.
fn eval_singular(sp: &SingularPath, root: &Value, cur: &Value) -> (r: Option<Value>)
    ensures
        opt_view(r) == s_eval_singular(*sp, root@, cur@),
{
    match sp {
        SingularPath::Abs(segs) => eval_sing_segs(segs, root),
        SingularPath::Rel(segs) => eval_sing_segs(segs, cur),
    }
}

// ---------------------------------------------------------------------------
// Descendant expansion.

/// The descendants of `v`, paired with their locations below `base`.
#[verifier::loop_isolation(false)]
fn descend(base: &Path, v: &Value) -> (r: Vec<(Path, Value)>)
    ensures
        matches_view(r@) == s_desc(base@, v@),
    decreases *v,
{
    let mut out: Vec<(Path, Value)> = Vec::new();
    match v {
        Value::Array(ch) => {
            proof {
                lemma_nodes_of(ch@);
            }
            let ghost chn = nodes_of(ch@);
            let mut i: usize = 0;
            while i < ch.len()
                invariant
                    0 <= i <= ch.len(),
                    out@.len() == i,
                    forall|k: int|
                        0 <= k < i ==> (#[trigger] out@[k]).0@ == base@.push(PathStep::Index(k))
                            && out@[k].1@ == chn[k],
                decreases ch.len() - i,
            {
                out.push((base.append_index(i), value_clone(&ch[i])));
                i = i + 1;
            }
            let ghost kids = Seq::new(ch@.len(), |k: int| (base@.push(PathStep::Index(k)), chn[k]));
            proof {
                assert(matches_view(out@) =~= kids + s_desc_arr_prefix(base@, chn, 0));
            }
            let mut j: usize = 0;
            while j < ch.len()
                invariant
                    0 <= j <= ch.len(),
                    matches_view(out@) =~= kids + s_desc_arr_prefix(base@, chn, j as int),
                decreases ch.len() - j,
            {
                let ghost out_before = out@;
                let child_base = base.append_index(j);
                let mut d = descend(&child_base, &ch[j]);
                let ghost d_before = d@;
                out.append(&mut d);
                proof {
                    lemma_matches_view_concat(out_before, d_before);
                    assert(chn[j as int] == (ch@[j as int])@);
                    assert(matches_view(d_before) == s_desc(
                        base@.push(PathStep::Index(j as int)),
                        chn[j as int],
                    ));
                    assert(s_desc_arr_prefix(base@, chn, j as int + 1) =~= s_desc_arr_prefix(
                        base@,
                        chn,
                        j as int,
                    ) + s_desc(base@.push(PathStep::Index(j as int)), chn[j as int]));
                    assert(matches_view(out@) =~= kids + s_desc_arr_prefix(base@, chn, j as int + 1));
                }
                j = j + 1;
            }
            proof {
                lemma_desc_arr_prefix_full(base@, chn);
                assert(matches_view(out@) =~= s_desc(base@, v@));
            }
        },
        Value::Dict(es) => {
            proof {
                lemma_entries_of(es@);
            }
            let ghost esn = entries_of(es@);
            let mut i: usize = 0;
            while i < es.len()
                invariant
                    0 <= i <= es.len(),
                    out@.len() == i,
                    forall|k: int|
                        0 <= k < i ==> (#[trigger] out@[k]).0@ == base@.push(
                            PathStep::Key(esn[k].0),
                        ) && out@[k].1@ == esn[k].1,
                decreases es.len() - i,
            {
                out.push((base.append_key(&es[i].0), value_clone(&es[i].1)));
                i = i + 1;
            }
            let ghost kids = Seq::new(
                es@.len(),
                |k: int| (base@.push(PathStep::Key(esn[k].0)), esn[k].1),
            );
            proof {
                assert(matches_view(out@) =~= kids + s_desc_dict_prefix(base@, esn, 0));
            }
            let mut j: usize = 0;
            while j < es.len()
                invariant
                    0 <= j <= es.len(),
                    matches_view(out@) =~= kids + s_desc_dict_prefix(base@, esn, j as int),
                decreases es.len() - j,
            {
                let ghost out_before = out@;
                let child_base = base.append_key(&es[j].0);
                let mut d = descend(&child_base, &es[j].1);
                let ghost d_before = d@;
                out.append(&mut d);
                proof {
                    lemma_matches_view_concat(out_before, d_before);
                    assert(esn[j as int] == ((es@[j as int].0)@, (es@[j as int].1)@));
                    assert(matches_view(d_before) == s_desc(
                        base@.push(PathStep::Key(esn[j as int].0)),
                        esn[j as int].1,
                    ));
                    assert(s_desc_dict_prefix(base@, esn, j as int + 1) =~= s_desc_dict_prefix(
                        base@,
                        esn,
                        j as int,
                    ) + s_desc(base@.push(PathStep::Key(esn[j as int].0)), esn[j as int].1));
                    assert(matches_view(out@) =~= kids + s_desc_dict_prefix(
                        base@,
                        esn,
                        j as int + 1,
                    ));
                }
                j = j + 1;
            }
            proof {
                lemma_desc_dict_prefix_full(base@, esn);
                assert(matches_view(out@) =~= s_desc(base@, v@));
            }
        },
        _ => {
            proof {
                assert(matches_view(out@) =~= s_desc(base@, v@));
            }
        },
    }
    out
}

/// The concatenated descendants of `ch[..i]`: what the expansion has built
/// after the first `i` children.
pub open spec fn s_desc_arr_prefix(base: Seq<PathStep>, ch: Seq<Node>, i: int) -> Seq<
    (Seq<PathStep>, Node),
>
    decreases (if i > 0 { i } else { 0 }),
{
    if i <= 0 {
        Seq::empty()
    } else {
        s_desc_arr_prefix(base, ch, i - 1) + s_desc(base.push(PathStep::Index(i - 1)), ch[i - 1])
    }
}

/// The concatenated descendants of the values of `es[..i]`.
pub open spec fn s_desc_dict_prefix(base: Seq<PathStep>, es: Seq<(Node, Node)>, i: int) -> Seq<
    (Seq<PathStep>, Node),
>
    decreases (if i > 0 { i } else { 0 }),
{
    if i <= 0 {
        Seq::empty()
    } else {
        s_desc_dict_prefix(base, es, i - 1) + s_desc(
            base.push(PathStep::Key(es[i - 1].0)),
            es[i - 1].1,
        )
    }
}

proof fn lemma_desc_arr_prefix_join(base: Seq<PathStep>, ch: Seq<Node>, i: int)
    requires
        0 <= i <= ch.len(),
    ensures
        s_desc_arr_prefix(base, ch, i) + s_desc_arr(base, ch, i) =~= s_desc_arr(base, ch, 0),
    decreases i,
{
    if i == 0 {
        assert(s_desc_arr_prefix(base, ch, 0) + s_desc_arr(base, ch, 0) =~= s_desc_arr(
            base,
            ch,
            0,
        ));
    } else {
        lemma_desc_arr_prefix_join(base, ch, i - 1);
        assert(s_desc_arr(base, ch, i - 1) =~= s_desc(base.push(PathStep::Index(i - 1)), ch[i - 1])
            + s_desc_arr(base, ch, i));
        assert(s_desc_arr_prefix(base, ch, i) + s_desc_arr(base, ch, i) =~= s_desc_arr_prefix(
            base,
            ch,
            i - 1,
        ) + s_desc_arr(base, ch, i - 1));
    }
}

proof fn lemma_desc_arr_prefix_full(base: Seq<PathStep>, ch: Seq<Node>)
    ensures
        s_desc_arr_prefix(base, ch, ch.len() as int) =~= s_desc_arr(base, ch, 0),
{
    lemma_desc_arr_prefix_join(base, ch, ch.len() as int);
    assert(s_desc_arr(base, ch, ch.len() as int) =~= Seq::empty());
    assert(s_desc_arr_prefix(base, ch, ch.len() as int) + Seq::empty() =~= s_desc_arr_prefix(
        base,
        ch,
        ch.len() as int,
    ));
}

proof fn lemma_desc_dict_prefix_join(base: Seq<PathStep>, es: Seq<(Node, Node)>, i: int)
    requires
        0 <= i <= es.len(),
    ensures
        s_desc_dict_prefix(base, es, i) + s_desc_dict(base, es, i) =~= s_desc_dict(base, es, 0),
    decreases i,
{
    if i == 0 {
        assert(s_desc_dict_prefix(base, es, 0) + s_desc_dict(base, es, 0) =~= s_desc_dict(
            base,
            es,
            0,
        ));
    } else {
        lemma_desc_dict_prefix_join(base, es, i - 1);
        assert(s_desc_dict(base, es, i - 1) =~= s_desc(
            base.push(PathStep::Key(es[i - 1].0)),
            es[i - 1].1,
        ) + s_desc_dict(base, es, i));
        assert(s_desc_dict_prefix(base, es, i) + s_desc_dict(base, es, i) =~= s_desc_dict_prefix(
            base,
            es,
            i - 1,
        ) + s_desc_dict(base, es, i - 1));
    }
}

proof fn lemma_desc_dict_prefix_full(base: Seq<PathStep>, es: Seq<(Node, Node)>)
    ensures
        s_desc_dict_prefix(base, es, es.len() as int) =~= s_desc_dict(base, es, 0),
{
    lemma_desc_dict_prefix_join(base, es, es.len() as int);
    assert(s_desc_dict(base, es, es.len() as int) =~= Seq::empty());
    assert(s_desc_dict_prefix(base, es, es.len() as int) + Seq::empty() =~= s_desc_dict_prefix(
        base,
        es,
        es.len() as int,
    ));
}

// ---------------------------------------------------------------------------
// Slices.

/// The remainder with the sign of the dividend.
fn t_mod128(a: i128, b: i128) -> (r: i128)
    requires
        b != 0,
        -0x100_0000_0000_0000_0000 <= a <= 0x100_0000_0000_0000_0000,
        -0x8000_0000_0000_0000 <= b <= 0x8000_0000_0000_0000,
    ensures
        r as int == t_mod(a as int, b as int),
{
    let ab: i128 = if b < 0 {
        -b
    } else {
        b
    };
    if a >= 0 {
        a % ab
    } else {
        -((-a) % ab)
    }
}

/// The elements a slice selects from an array, paired with their locations.
#[verifier::loop_isolation(false)]
fn eval_slice(ssel: &SliceSelector, base: &Path, ch: &Vec<Value>) -> (r: Vec<(Path, Value)>)
    ensures
        matches_view(r@) == Seq::new(
            s_slice_indices(ch@.len() as int, ssel.0 as int, ssel.1 as int, ssel.2 as int).len(),
            |k: int|
                (
                    base@.push(
                        PathStep::Index(
                            s_slice_indices(
                                ch@.len() as int,
                                ssel.0 as int,
                                ssel.1 as int,
                                ssel.2 as int,
                            )[k],
                        ),
                    ),
                    nodes_of(ch@)[s_slice_indices(
                        ch@.len() as int,
                        ssel.0 as int,
                        ssel.1 as int,
                        ssel.2 as int,
                    )[k]],
                ),
        ),
{
    proof {
        lemma_nodes_of(ch@);
    }
    let ghost chn = nodes_of(ch@);
    let ghost idxs = s_slice_indices(ch@.len() as int, ssel.0 as int, ssel.1 as int, ssel.2 as int);
    let len: usize = ch.len();
    let li: i128 = len as i128;
    let step = ssel.2;
    if step == 0 {
        let out: Vec<(Path, Value)> = Vec::new();
        proof {
            assert(matches_view(out@) =~= Seq::new(
                idxs.len(),
                |k: int| (base@.push(PathStep::Index(idxs[k])), chn[idxs[k]]),
            ));
        }
        return out;
    }
    let s0: i128 = ssel.0 as i128;
    let e0: i128 = ssel.1 as i128;
    let st: i128 = step as i128;
    let ns: i128 = if s0 >= 0 {
        s0
    } else {
        li + s0
    };
    let ne: i128 = if e0 >= 0 {
        e0
    } else {
        li + e0
    };
    if step > 0 {
        let lo: i128 = if ns < 0 {
            0
        } else if ns > li {
            li
        } else {
            ns
        };
        let hi: i128 = if ne < 0 {
            0
        } else if ne > li {
            li
        } else {
            ne
        };
        proof {
            assert(idxs == s_stride(lo as int, hi as int, st as int));
            lemma_slice_indices_in_range(ch@.len() as int, ssel.0 as int, ssel.1 as int, ssel.2 as int);
        }
        let out = collect_stride(base, ch, lo, hi, st);
        proof {
            assert(matches_view(out@) =~= Seq::new(
                idxs.len(),
                |k: int| (base@.push(PathStep::Index(idxs[k])), chn[idxs[k]]),
            ));
        }
        out
    } else {
        let a0: i128 = ne + 1 + t_mod128(ns, -st) - t_mod128(ne + 1, st);
        let lo: i128 = if a0 < 0 || a0 > li {
            li
        } else {
            a0
        };
        let e1: i128 = ns + 1;
        let hi: i128 = if e1 < 0 || e1 > li {
            li
        } else {
            e1
        };
        let ghost fwd_idxs = s_stride(lo as int, hi as int, (-st) as int);
        proof {
            assert(idxs == fwd_idxs.reverse());
            lemma_slice_indices_in_range(ch@.len() as int, ssel.0 as int, ssel.1 as int, ssel.2 as int);
        }
        let fwd = collect_stride(base, ch, lo, hi, -st);
        let mut out: Vec<(Path, Value)> = Vec::new();
        let mut t: usize = fwd.len();
        while t > 0
            invariant
                0 <= t <= fwd.len(),
                out@.len() == fwd.len() - t,
                forall|k: int|
                    0 <= k < out@.len() ==> (#[trigger] out@[k]).0@ == fwd@[fwd@.len() - 1 - k].0@
                        && out@[k].1@ == fwd@[fwd@.len() - 1 - k].1@,
            decreases t,
        {
            t = t - 1;
            out.push((fwd[t].0.duplicate(), value_clone(&fwd[t].1)));
        }
        proof {
            let n = fwd_idxs.len() as int;
            assert(matches_view(fwd@).len() == n);
            assert(fwd@.len() == n);
            assert(idxs.len() == n);
            assert(out@.len() == n);
            assert forall|k: int| 0 <= k < idxs.len() implies (#[trigger] matches_view(out@)[k])
                == (base@.push(PathStep::Index(idxs[k])), chn[idxs[k]]) by {
                assert(idxs[k] == fwd_idxs[n - 1 - k]);
                assert(matches_view(fwd@)[n - 1 - k] == (
                    base@.push(PathStep::Index(fwd_idxs[n - 1 - k])),
                    chn[fwd_idxs[n - 1 - k]],
                ));
                assert(fwd@[n - 1 - k].0@ == base@.push(PathStep::Index(fwd_idxs[n - 1 - k])));
                assert(fwd@[n - 1 - k].1@ == chn[fwd_idxs[n - 1 - k]]);
                assert(out@[k].0@ == fwd@[n - 1 - k].0@);
                assert(out@[k].1@ == fwd@[n - 1 - k].1@);
                assert(matches_view(out@)[k] == (out@[k].0@, out@[k].1@));
            }
            assert(matches_view(out@) =~= Seq::new(
                idxs.len(),
                |k: int| (base@.push(PathStep::Index(idxs[k])), chn[idxs[k]]),
            ));
        }
        out
    }
}

/// Walks indices `lo, lo + st, …` below `hi` and collects those elements.
#[verifier::loop_isolation(false)]
fn collect_stride(base: &Path, ch: &Vec<Value>, lo: i128, hi: i128, st: i128) -> (r: Vec<
    (Path, Value),
>)
    requires
        0 < st,
        0 <= lo,
        hi <= ch@.len(),
        -0x100_0000_0000_0000_0000 <= lo,
        hi <= 0x100_0000_0000_0000_0000,
        st <= 0x8000_0000_0000_0000,
    ensures
        matches_view(r@) == Seq::new(
            s_stride(lo as int, hi as int, st as int).len(),
            |k: int|
                (
                    base@.push(PathStep::Index(s_stride(lo as int, hi as int, st as int)[k])),
                    nodes_of(ch@)[s_stride(lo as int, hi as int, st as int)[k]],
                ),
        ),
{
    proof {
        lemma_nodes_of(ch@);
    }
    let ghost chn = nodes_of(ch@);
    let ghost idxs = s_stride(lo as int, hi as int, st as int);
    let clen: usize = ch.len();
    proof {
        assert(ch@.len() == clen as int);
    }
    let mut out: Vec<(Path, Value)> = Vec::new();
    let ghost mut done: Seq<int> = Seq::empty();
    let mut cur: i128 = lo;
    proof {
        assert(done + s_stride(cur as int, hi as int, st as int) =~= idxs);
    }
    while cur < hi
        invariant
            0 <= cur,
            done + s_stride(cur as int, hi as int, st as int) =~= idxs,
            out@.len() == done.len(),
            forall|k: int|
                0 <= k < done.len() ==> 0 <= #[trigger] done[k] < ch@.len() && (out@[k]).0@
                    == base@.push(PathStep::Index(done[k])) && out@[k].1@ == chn[done[k]],
        decreases (if hi - cur > 0 { hi - cur } else { 0 }),
    {
        proof {
            assert(s_stride(cur as int, hi as int, st as int) == seq![cur as int] + s_stride(
                cur as int + st as int,
                hi as int,
                st as int,
            ));
            assert(0 <= cur < ch@.len());
        }
        let idx: usize = cur as usize;
        proof {
            assert(idx as int == cur as int);
        }
        out.push((base.append_index(idx), value_clone(&ch[idx])));
        proof {
            done = done.push(cur as int);
            assert(done + s_stride(cur as int + st as int, hi as int, st as int) =~= idxs);
        }
        cur = cur + st;
    }
    proof {
        assert(s_stride(cur as int, hi as int, st as int) =~= Seq::empty());
        assert(done =~= idxs);
        assert(matches_view(out@) =~= Seq::new(
            idxs.len(),
            |k: int| (base@.push(PathStep::Index(idxs[k])), chn[idxs[k]]),
        ));
    }
    out
}

// ---------------------------------------------------------------------------
// The mutually recursive evaluation cycle.

/// What one selector selects from one match.
#[verifier::loop_isolation(false)]
fn eval_selector(sel: &Selector, root: &Value, m: &(Path, Value)) -> (r: Vec<(Path, Value)>)
    ensures
        matches_view(r@) == s_eval_selector(*sel, root@, (m.0@, m.1@)),
    decreases *sel, 3int, 0int,
{
    let mut out: Vec<(Path, Value)> = Vec::new();
    match sel {
        Selector::Key(ks) => {
            match &m.1 {
                Value::Dict(entries) => {
                    proof {
                        lemma_entries_of(entries@);
                    }
                    match dict_find_value(entries, &ks.0) {
                        Some(v) => {
                            out.push((m.0.append_key(&ks.0), value_clone(v)));
                        },
                        None => {},
                    }
                },
                _ => {},
            }
            proof {
                assert(matches_view(out@) =~= s_eval_selector(*sel, root@, (m.0@, m.1@)));
            }
        },
        Selector::Wildcard => {
            match &m.1 {
                Value::Array(ch) => {
                    proof {
                        lemma_nodes_of(ch@);
                    }
                    let ghost chn = nodes_of(ch@);
                    let mut i: usize = 0;
                    while i < ch.len()
                        invariant
                            0 <= i <= ch.len(),
                            out@.len() == i,
                            forall|k: int|
                                0 <= k < i ==> (#[trigger] out@[k]).0@ == m.0@.push(
                                    PathStep::Index(k),
                                ) && out@[k].1@ == chn[k],
                        decreases ch.len() - i,
                    {
                        out.push((m.0.append_index(i), value_clone(&ch[i])));
                        i = i + 1;
                    }
                },
                Value::Dict(es) => {
                    proof {
                        lemma_entries_of(es@);
                    }
                    let ghost esn = entries_of(es@);
                    let mut i: usize = 0;
                    while i < es.len()
                        invariant
                            0 <= i <= es.len(),
                            out@.len() == i,
                            forall|k: int|
                                0 <= k < i ==> (#[trigger] out@[k]).0@ == m.0@.push(
                                    PathStep::Key(esn[k].0),
                                ) && out@[k].1@ == esn[k].1,
                        decreases es.len() - i,
                    {
                        out.push((m.0.append_key(&es[i].0), value_clone(&es[i].1)));
                        i = i + 1;
                    }
                },
                _ => {},
            }
            proof {
                assert(matches_view(out@) =~= s_eval_selector(*sel, root@, (m.0@, m.1@)));
            }
        },
        Selector::Index(isel) => {
            match &m.1 {
                Value::Array(ch) => {
                    proof {
                        lemma_nodes_of(ch@);
                    }
                    match norm_index(isel.0, ch.len()) {
                        Some(k) => {
                            out.push((m.0.append_index(k), value_clone(&ch[k])));
                        },
                        None => {},
                    }
                },
                _ => {},
            }
            proof {
                assert(matches_view(out@) =~= s_eval_selector(*sel, root@, (m.0@, m.1@)));
            }
        },
        Selector::Slice(ssel) => {
            match &m.1 {
                Value::Array(ch) => {
                    proof {
                        lemma_nodes_of(ch@);
                    }
                    out = eval_slice(ssel, &m.0, ch);
                },
                _ => {},
            }
            proof {
                assert(matches_view(out@) =~= s_eval_selector(*sel, root@, (m.0@, m.1@)));
            }
        },
        Selector::Filter(fs) => {
            match &m.1 {
                Value::Array(ch) => {
                    proof {
                        lemma_nodes_of(ch@);
                    }
                    let ghost chn = nodes_of(ch@);
                    let mut i: usize = 0;
                    proof {
                        assert(matches_view(out@) + s_filter_arr(fs.0, root@, m.0@, chn, 0)
                            =~= s_filter_arr(fs.0, root@, m.0@, chn, 0));
                    }
                    while i < ch.len()
                        invariant
                            0 <= i <= ch.len(),
                            matches_view(out@) + s_filter_arr(fs.0, root@, m.0@, chn, i as int)
                                =~= s_filter_arr(fs.0, root@, m.0@, chn, 0),
                        decreases ch.len() - i,
                    {
                        let ghost out_before = out@;
                        if eval_bool(&fs.0, root, &ch[i]) {
                            out.push((m.0.append_index(i), value_clone(&ch[i])));
                        }
                        proof {
                            assert(matches_view(out@) + s_filter_arr(
                                fs.0,
                                root@,
                                m.0@,
                                chn,
                                i as int + 1,
                            ) =~= s_filter_arr(fs.0, root@, m.0@, chn, 0));
                        }
                        i = i + 1;
                    }
                    proof {
                        assert(s_filter_arr(fs.0, root@, m.0@, chn, ch@.len() as int)
                            =~= Seq::empty());
                        assert(matches_view(out@) =~= s_filter_arr(fs.0, root@, m.0@, chn, 0));
                    }
                },
                Value::Dict(es) => {
                    proof {
                        lemma_entries_of(es@);
                    }
                    let ghost esn = entries_of(es@);
                    let mut i: usize = 0;
                    proof {
                        assert(matches_view(out@) + s_filter_dict(fs.0, root@, m.0@, esn, 0)
                            =~= s_filter_dict(fs.0, root@, m.0@, esn, 0));
                    }
                    while i < es.len()
                        invariant
                            0 <= i <= es.len(),
                            matches_view(out@) + s_filter_dict(fs.0, root@, m.0@, esn, i as int)
                                =~= s_filter_dict(fs.0, root@, m.0@, esn, 0),
                        decreases es.len() - i,
                    {
                        if eval_bool(&fs.0, root, &es[i].1) {
                            out.push((m.0.append_key(&es[i].0), value_clone(&es[i].1)));
                        }
                        proof {
                            assert(matches_view(out@) + s_filter_dict(
                                fs.0,
                                root@,
                                m.0@,
                                esn,
                                i as int + 1,
                            ) =~= s_filter_dict(fs.0, root@, m.0@, esn, 0));
                        }
                        i = i + 1;
                    }
                    proof {
                        assert(s_filter_dict(fs.0, root@, m.0@, esn, es@.len() as int)
                            =~= Seq::empty());
                        assert(matches_view(out@) =~= s_filter_dict(fs.0, root@, m.0@, esn, 0));
                    }
                },
                _ => {},
            }
            proof {
                assert(matches_view(out@) =~= s_eval_selector(*sel, root@, (m.0@, m.1@)));
            }
        },
    }
    out
}

/// Concatenates what the selectors select from one match.
#[verifier::loop_isolation(false)]
fn apply_selectors(sels: &Vec<Selector>, root: &Value, m: &(Path, Value)) -> (r: Vec<
    (Path, Value),
>)
    ensures
        matches_view(r@) == s_apply_selectors(*sels, 0, root@, (m.0@, m.1@)),
    decreases *sels, 2int, 0int,
{
    let mut out: Vec<(Path, Value)> = Vec::new();
    let mut i: usize = 0;
    proof {
        assert(matches_view(out@) + s_apply_selectors(*sels, 0, root@, (m.0@, m.1@))
            =~= s_apply_selectors(*sels, 0, root@, (m.0@, m.1@)));
    }
    while i < sels.len()
        invariant
            0 <= i <= sels.len(),
            matches_view(out@) + s_apply_selectors(*sels, i as int, root@, (m.0@, m.1@))
                =~= s_apply_selectors(*sels, 0, root@, (m.0@, m.1@)),
        decreases sels.len() - i,
    {
        let ghost out_before = out@;
        let mut part = eval_selector(&sels[i], root, m);
        let ghost part_before = part@;
        out.append(&mut part);
        proof {
            lemma_matches_view_concat(out_before, part_before);
            assert(matches_view(out@) + s_apply_selectors(*sels, i as int + 1, root@, (m.0@, m.1@))
                =~= s_apply_selectors(*sels, 0, root@, (m.0@, m.1@)));
        }
        i = i + 1;
    }
    out
}

/// Applies the selector list to every match in order and concatenates.
#[verifier::loop_isolation(false)]
fn apply_to_all(sels: &Vec<Selector>, root: &Value, cur: &Vec<(Path, Value)>) -> (r: Vec<
    (Path, Value),
>)
    ensures
        matches_view(r@) == s_apply_to_all(*sels, root@, matches_view(cur@), 0),
    decreases *sels, 3int, 0int,
{
    let mut out: Vec<(Path, Value)> = Vec::new();
    let mut j: usize = 0;
    proof {
        assert(matches_view(out@) + s_apply_to_all(*sels, root@, matches_view(cur@), 0)
            =~= s_apply_to_all(*sels, root@, matches_view(cur@), 0));
    }
    while j < cur.len()
        invariant
            0 <= j <= cur.len(),
            matches_view(out@) + s_apply_to_all(*sels, root@, matches_view(cur@), j as int)
                =~= s_apply_to_all(*sels, root@, matches_view(cur@), 0),
        decreases cur.len() - j,
    {
        let ghost out_before = out@;
        let mut part = apply_selectors(sels, root, &cur[j]);
        let ghost part_before = part@;
        out.append(&mut part);
        proof {
            lemma_matches_view_concat(out_before, part_before);
            assert((matches_view(cur@)[j as int]) == (cur@[j as int].0@, cur@[j as int].1@));
            assert(matches_view(out@) + s_apply_to_all(*sels, root@, matches_view(cur@), j as int
                + 1) =~= s_apply_to_all(*sels, root@, matches_view(cur@), 0));
        }
        j = j + 1;
    }
    out
}

/// Each match followed by its descendants, in order.
#[verifier::loop_isolation(false)]
fn expand_all(cur: &Vec<(Path, Value)>) -> (r: Vec<(Path, Value)>)
    ensures
        matches_view(r@) == s_expand(matches_view(cur@), 0),
{
    let mut out: Vec<(Path, Value)> = Vec::new();
    let mut j: usize = 0;
    proof {
        assert(matches_view(out@) + s_expand(matches_view(cur@), 0) =~= s_expand(
            matches_view(cur@),
            0,
        ));
    }
    while j < cur.len()
        invariant
            0 <= j <= cur.len(),
            matches_view(out@) + s_expand(matches_view(cur@), j as int) =~= s_expand(
                matches_view(cur@),
                0,
            ),
        decreases cur.len() - j,
    {
        let ghost out_before = out@;
        out.push((cur[j].0.duplicate(), value_clone(&cur[j].1)));
        let ghost out_mid = out@;
        let mut d = descend(&cur[j].0, &cur[j].1);
        let ghost d_before = d@;
        out.append(&mut d);
        proof {
            lemma_matches_view_concat(out_mid, d_before);
            assert((matches_view(cur@)[j as int]) == (cur@[j as int].0@, cur@[j as int].1@));
            assert(matches_view(out_mid) =~= matches_view(out_before) + seq![
                matches_view(cur@)[j as int],
            ]);
            assert(matches_view(out@) + s_expand(matches_view(cur@), j as int + 1) =~= s_expand(
                matches_view(cur@),
                0,
            ));
        }
        j = j + 1;
    }
    out
}

/// What one segment turns the current match list into.
fn eval_segment(seg: &Segment, root: &Value, cur: &Vec<(Path, Value)>) -> (r: Vec<(Path, Value)>)
    ensures
        matches_view(r@) == s_eval_segment(*seg, root@, matches_view(cur@)),
    decreases *seg, 3int, 0int,
{
    match seg {
        Segment::Child(sels) => apply_to_all(sels, root, cur),
        Segment::Descendant(sels) => {
            let expanded = expand_all(cur);
            apply_to_all(sels, root, &expanded)
        },
    }
}

/// Applies a segment list to a start node.
#[verifier::loop_isolation(false)]
fn eval_from(segs: &Vec<Segment>, root: &Value, start: &Value) -> (r: Vec<(Path, Value)>)
    ensures
        matches_view(r@) == s_eval_from(*segs, root@, start@),
    decreases *segs, 4int, 0int,
{
    let mut cur: Vec<(Path, Value)> = Vec::new();
    cur.push((Path::new(), value_clone(start)));
    proof {
        assert(matches_view(cur@) =~= seq![(Seq::<PathStep>::empty(), start@)]);
    }
    let mut i: usize = 0;
    while i < segs.len()
        invariant
            0 <= i <= segs.len(),
            s_eval_segments(*segs, i as int, root@, matches_view(cur@)) == s_eval_from(
                *segs,
                root@,
                start@,
            ),
        decreases segs.len() - i,
    {
        cur = eval_segment(&segs[i], root, &cur);
        i = i + 1;
    }
    cur
}

/// The matches of a path in filter position.
fn eval_filterpath(fp: &FilterPath, root: &Value, cur: &Value) -> (r: Vec<(Path, Value)>)
    ensures
        matches_view(r@) == s_eval_filterpath(*fp, root@, cur@),
    decreases *fp, 2int, 0int,
{
    match fp {
        FilterPath::Abs(ap) => eval_from(&ap.0, root, root),
        FilterPath::Rel(rp) => eval_from(&rp.0, root, cur),
    }
}

/// Decides a boolean expression for the current node.
fn eval_bool(e: &BooleanExpr, root: &Value, cur: &Value) -> (r: bool)
    ensures
        r == s_eval_bool(*e, root@, cur@),
    decreases *e, 2int, 0int,
{
    match e {
        BooleanExpr::Or(l, rr) => eval_bool(l, root, cur) || eval_bool(rr, root, cur),
        BooleanExpr::And(l, rr) => eval_bool(l, root, cur) && eval_bool(rr, root, cur),
        BooleanExpr::Not(inner) => !eval_bool(inner, root, cur),
        BooleanExpr::Comparison(c) => eval_comparison(c, root, cur),
        BooleanExpr::Path(fp) => {
            let ms = eval_filterpath(fp, root, cur);
            ms.len() > 0
        },
        BooleanExpr::Function(f) => eval_fn_bool(f, root, cur),
    }
}

/// Decides a comparison for the current node.
fn eval_comparison(c: &ComparisonExpr, root: &Value, cur: &Value) -> (r: bool)
    ensures
        r == s_eval_comparison(*c, root@, cur@),
    decreases *c, 2int, 0int,
{
    let l = eval_comparable(&c.0, root, cur);
    let rgt = eval_comparable(&c.2, root, cur);
    match c.1 {
        ComparisonOperator::Eq => cmp_eq(&l, &rgt),
        ComparisonOperator::Neq => !cmp_eq(&l, &rgt),
        ComparisonOperator::Gt => cmp_lt(&rgt, &l),
        ComparisonOperator::Gte => cmp_lt(&rgt, &l) || cmp_eq(&l, &rgt),
        ComparisonOperator::Lt => cmp_lt(&l, &rgt),
        ComparisonOperator::Lte => cmp_lt(&l, &rgt) || cmp_eq(&l, &rgt),
    }
}

/// Resolves a comparable to at most one node.
fn eval_comparable(cmp: &Comparable, root: &Value, cur: &Value) -> (r: Option<Value>)
    ensures
        opt_view(r) == s_eval_comparable(*cmp, root@, cur@),
    decreases *cmp, 2int, 0int,
{
    match cmp {
        Comparable::Value(v) => Some(value_clone(v)),
        Comparable::SingularPath(sp) => eval_singular(sp, root, cur),
        Comparable::Function(f) => eval_fn_cmp(f, root, cur),
    }
}

/// What a function yields in comparable position.
fn eval_fn_cmp(f: &Function, root: &Value, cur: &Value) -> (r: Option<Value>)
    ensures
        opt_view(r) == s_eval_fn_cmp(*f, root@, cur@),
    decreases *f, 2int, 0int,
{
    match f {
        Function::Length(c) => match eval_comparable(c, root, cur) {
            Some(n) => Some(length_value(&n)),
            None => None,
        },
        Function::Count(fp) => {
            let ms = eval_filterpath(fp, root, cur);
            Some(Value::Pos(ms.len() as u64))
        },
        Function::Value(fp) => {
            let ms = eval_filterpath(fp, root, cur);
            if ms.len() == 1 {
                Some(value_clone(&ms[0].1))
            } else {
                None
            }
        },
        Function::Regex(_c, _re) => None,
    }
}

/// What a function decides in boolean position.
fn eval_fn_bool(f: &Function, root: &Value, cur: &Value) -> (r: bool)
    ensures
        r == s_eval_fn_bool(*f, root@, cur@),
    decreases *f, 2int, 0int,
{
    match f {
        Function::Regex(c, re) => match eval_comparable(c, root, cur) {
            Some(Value::Text(t)) => re.is_match(&t),
            _ => false,
        },
        _ => false,
    }
}

// ---------------------------------------------------------------------------
// Projections.

/// The node of each match, copied out in order.
#[verifier::loop_isolation(false)]
fn project_nodes(ms: &Vec<(Path, Value)>) -> (r: Vec<Value>)
    ensures
        nodes_of(r@) == s_nodes(matches_view(ms@)),
{
    let mut out: Vec<Value> = Vec::new();
    let mut i: usize = 0;
    while i < ms.len()
        invariant
            0 <= i <= ms.len(),
            out@.len() == i,
            forall|k: int| 0 <= k < i ==> (#[trigger] out@[k])@ == matches_view(ms@)[k].1,
        decreases ms.len() - i,
    {
        out.push(value_clone(&ms[i].1));
        i = i + 1;
    }
    proof {
        lemma_nodes_of(out@);
        assert(nodes_of(out@) =~= s_nodes(matches_view(ms@)));
    }
    out
}

/// The location of each match, copied out in order.
#[verifier::loop_isolation(false)]
fn project_paths(ms: &Vec<(Path, Value)>) -> (r: Vec<Path>)
    ensures
        paths_view(r@) == s_locs(matches_view(ms@)),
{
    let mut out: Vec<Path> = Vec::new();
    let mut i: usize = 0;
    while i < ms.len()
        invariant
            0 <= i <= ms.len(),
            out@.len() == i,
            forall|k: int| 0 <= k < i ==> (#[trigger] out@[k])@ == matches_view(ms@)[k].0,
        decreases ms.len() - i,
    {
        out.push(ms[i].0.duplicate());
        i = i + 1;
    }
    proof {
        assert(paths_view(out@) =~= s_locs(matches_view(ms@)));
    }
    out
}

// ---------------------------------------------------------------------------
// The public evaluation API.

impl CborPath {
    /// A path expression over these segments.
    pub fn new(segments: Vec<Segment>) -> (r: CborPath)
        ensures
            r == (CborPath(AbsolutePath(segments))),
    {
        CborPath(AbsolutePath(segments))
    }

    /// Applies the expression to a document and hands back the selected
    /// nodes, in order.  Evaluation is total: no match means an empty list,
    /// never an error.
    pub fn read(&self, doc: &Value) -> (r: Vec<Value>)
        ensures
            nodes_of(r@) == s_read_nodes(*self, doc@),
    {
        let ms = eval_from(&self.0.0, doc, doc);
        project_nodes(&ms)
    }

    /// Applies the expression to a document and hands back the location of
    /// each selected node, in the order of `read`.
    pub fn get_paths(&self, doc: &Value) -> (r: Vec<Path>)
        ensures
            paths_view(r@) == s_read_paths(*self, doc@),
    {
        let ms = eval_from(&self.0.0, doc, doc);
        project_paths(&ms)
    }
}

impl AbsolutePath {
    /// An absolute path over these segments.
    pub fn new(segments: Vec<Segment>) -> (r: AbsolutePath)
        ensures
            r == (AbsolutePath(segments)),
    {
        AbsolutePath(segments)
    }

    /// The nodes the segments select from the root.
    pub fn read(&self, root: &Value) -> (r: Vec<Value>)
        ensures
            nodes_of(r@) == s_nodes(s_eval_from(self.0, root@, root@)),
    {
        let ms = eval_from(&self.0, root, root);
        project_nodes(&ms)
    }

    /// The locations the segments select from the root, in the order of
    /// `read`.
    pub fn get_paths(&self, root: &Value) -> (r: Vec<Path>)
        ensures
            paths_view(r@) == s_locs(s_eval_from(self.0, root@, root@)),
    {
        let ms = eval_from(&self.0, root, root);
        project_paths(&ms)
    }
}

impl RelativePath {
    /// A relative path over these segments.
    pub fn new(segments: Vec<Segment>) -> (r: RelativePath)
        ensures
            r == (RelativePath(segments)),
    {
        RelativePath(segments)
    }

    /// The nodes the segments select from the current node.
    pub fn evaluate(&self, root: &Value, current: &Value) -> (r: Vec<Value>)
        ensures
            nodes_of(r@) == s_nodes(s_eval_from(self.0, root@, current@)),
    {
        let ms = eval_from(&self.0, root, current);
        project_nodes(&ms)
    }
}

impl FilterPath {
    /// The nodes the path selects: from the root when absolute, from the
    /// current node when relative.
    pub fn evaluate(&self, root: &Value, current: &Value) -> (r: Vec<Value>)
        ensures
            nodes_of(r@) == s_nodes(s_eval_filterpath(*self, root@, current@)),
    {
        let ms = eval_filterpath(self, root, current);
        project_nodes(&ms)
    }
}

impl CborPath {
    /// The path of zero segments: it selects the document root itself.
    pub fn root() -> (r: CborPath)
        ensures
            r.0.0@.len() == 0,
    {
        CborPath(AbsolutePath(Vec::new()))
    }
}

impl BooleanExpr {
    /// What the expression decides for the current node under this root.
    pub fn read(&self, root: &Value, current: &Value) -> (r: bool)
        ensures
            r == s_eval_bool(*self, root@, current@),
    {
        eval_bool(self, root, current)
    }
}

impl ComparisonExpr {
    /// What the comparison decides for the current node under this root.
    pub fn read(&self, root: &Value, current: &Value) -> (r: bool)
        ensures
            r == s_eval_comparison(*self, root@, current@),
    {
        eval_comparison(self, root, current)
    }
}

impl SingularPath {
    /// The at-most-one node the path selects, copied out.
    pub fn read(&self, root: &Value, current: &Value) -> (r: Option<Value>)
        ensures
            opt_view(r) == s_eval_singular(*self, root@, current@),
    {
        eval_singular(self, root, current)
    }
}

} // verus!
