//! Building a path expression from a document value that writes the path
//! syntax down: segments, selectors, filter expressions and functions, as
//! a grammar over the document model.  `from_value` accepts exactly the
//! well-formed values and the expression it builds mirrors the value.

use vstd::prelude::*;
use crate::ast::{
    AbsolutePath, BooleanExpr, CborPath, Comparable, ComparisonExpr, ComparisonOperator,
    FilterPath, Function, IndexSelector, KeySelector, RelativePath, Segment, Selector,
    SingularPath, SingularSegment, SliceSelector,
};
use crate::error::Error;
use crate::regexp::{regex_valid, CompiledRegex};
use crate::value::{entries_of, lemma_entries_of, lemma_nodes_of, nodes_of, Node, Value};

verus! {

// ---------------------------------------------------------------------------
// Keywords of the path syntax.

/// The identifiers and operators the syntax knows.
pub enum KeyWord {
    /// `$`
    Dollar,
    /// `@`
    AtSign,
    /// `..`
    Descend,
    /// `*`
    Star,
    /// `#`
    Hash,
    /// `:`
    Colon,
    /// `?`
    Question,
    /// `&&`
    AndAnd,
    /// `||`
    OrOr,
    /// `!`
    Bang,
    /// `<`
    Lt,
    /// `<=`
    Lte,
    /// `==`
    EqEq,
    /// `!=`
    Neq,
    /// `>=`
    Gte,
    /// `>`
    Gt,
    /// `match`
    Match,
    /// `search`
    Search,
    /// `length`
    Length,
    /// `count`
    Count,
    /// `value`
    ValueOf,
    /// anything else
    Other,
}

/// Which keyword a text spells, byte for byte.
pub open spec fn spec_kw(t: Seq<u8>) -> KeyWord {
    if t.len() == 1 {
        if t[0] == 0x24 {
            KeyWord::Dollar
        } else if t[0] == 0x40 {
            KeyWord::AtSign
        } else if t[0] == 0x2a {
            KeyWord::Star
        } else if t[0] == 0x23 {
            KeyWord::Hash
        } else if t[0] == 0x3a {
            KeyWord::Colon
        } else if t[0] == 0x3f {
            KeyWord::Question
        } else if t[0] == 0x21 {
            KeyWord::Bang
        } else if t[0] == 0x3c {
            KeyWord::Lt
        } else if t[0] == 0x3e {
            KeyWord::Gt
        } else {
            KeyWord::Other
        }
    } else if t.len() == 2 {
        if t[0] == 0x2e && t[1] == 0x2e {
            KeyWord::Descend
        } else if t[0] == 0x26 && t[1] == 0x26 {
            KeyWord::AndAnd
        } else if t[0] == 0x7c && t[1] == 0x7c {
            KeyWord::OrOr
        } else if t[0] == 0x3c && t[1] == 0x3d {
            KeyWord::Lte
        } else if t[0] == 0x3d && t[1] == 0x3d {
            KeyWord::EqEq
        } else if t[0] == 0x21 && t[1] == 0x3d {
            KeyWord::Neq
        } else if t[0] == 0x3e && t[1] == 0x3d {
            KeyWord::Gte
        } else {
            KeyWord::Other
        }
    } else if t.len() == 5 {
        if t[0] == 0x6d && t[1] == 0x61 && t[2] == 0x74 && t[3] == 0x63 && t[4] == 0x68 {
            KeyWord::Match
        } else if t[0] == 0x63 && t[1] == 0x6f && t[2] == 0x75 && t[3] == 0x6e && t[4] == 0x74 {
            KeyWord::Count
        } else if t[0] == 0x76 && t[1] == 0x61 && t[2] == 0x6c && t[3] == 0x75 && t[4] == 0x65 {
            KeyWord::ValueOf
        } else {
            KeyWord::Other
        }
    } else if t.len() == 6 {
        if t[0] == 0x73 && t[1] == 0x65 && t[2] == 0x61 && t[3] == 0x72 && t[4] == 0x63 && t[5]
            == 0x68 {
            KeyWord::Search
        } else if t[0] == 0x6c && t[1] == 0x65 && t[2] == 0x6e && t[3] == 0x67 && t[4] == 0x74
            && t[5] == 0x68 {
            KeyWord::Length
        } else {
            KeyWord::Other
        }
    } else {
        KeyWord::Other
    }
}

/// Decides which keyword a text spells.
fn keyword_of(t: &Vec<u8>) -> (r: KeyWord)
    ensures
        r == spec_kw(t@),
{
    if t.len() == 1 {
        if t[0] == 0x24 {
            KeyWord::Dollar
        } else if t[0] == 0x40 {
            KeyWord::AtSign
        } else if t[0] == 0x2a {
            KeyWord::Star
        } else if t[0] == 0x23 {
            KeyWord::Hash
        } else if t[0] == 0x3a {
            KeyWord::Colon
        } else if t[0] == 0x3f {
            KeyWord::Question
        } else if t[0] == 0x21 {
            KeyWord::Bang
        } else if t[0] == 0x3c {
            KeyWord::Lt
        } else if t[0] == 0x3e {
            KeyWord::Gt
        } else {
            KeyWord::Other
        }
    } else if t.len() == 2 {
        if t[0] == 0x2e && t[1] == 0x2e {
            KeyWord::Descend
        } else if t[0] == 0x26 && t[1] == 0x26 {
            KeyWord::AndAnd
        } else if t[0] == 0x7c && t[1] == 0x7c {
            KeyWord::OrOr
        } else if t[0] == 0x3c && t[1] == 0x3d {
            KeyWord::Lte
        } else if t[0] == 0x3d && t[1] == 0x3d {
            KeyWord::EqEq
        } else if t[0] == 0x21 && t[1] == 0x3d {
            KeyWord::Neq
        } else if t[0] == 0x3e && t[1] == 0x3d {
            KeyWord::Gte
        } else {
            KeyWord::Other
        }
    } else if t.len() == 5 {
        if t[0] == 0x6d && t[1] == 0x61 && t[2] == 0x74 && t[3] == 0x63 && t[4] == 0x68 {
            KeyWord::Match
        } else if t[0] == 0x63 && t[1] == 0x6f && t[2] == 0x75 && t[3] == 0x6e && t[4] == 0x74 {
            KeyWord::Count
        } else if t[0] == 0x76 && t[1] == 0x61 && t[2] == 0x6c && t[3] == 0x75 && t[4] == 0x65 {
            KeyWord::ValueOf
        } else {
            KeyWord::Other
        }
    } else if t.len() == 6 {
        if t[0] == 0x73 && t[1] == 0x65 && t[2] == 0x61 && t[3] == 0x72 && t[4] == 0x63 && t[5]
            == 0x68 {
            KeyWord::Search
        } else if t[0] == 0x6c && t[1] == 0x65 && t[2] == 0x6e && t[3] == 0x67 && t[4] == 0x74
            && t[5] == 0x68 {
            KeyWord::Length
        } else {
            KeyWord::Other
        }
    } else {
        KeyWord::Other
    }
}

/// The pattern of a whole-string match: the pattern anchored by `^` and `$`.
pub open spec fn s_anchored(pat: Seq<u8>) -> Seq<u8> {
    seq![0x5eu8] + pat + seq![0x24u8]
}

// ---------------------------------------------------------------------------
// Well-formedness: which values write a path down.

/// A scalar that can stand as a key literal or a literal comparable.
pub open spec fn s_key_literal(v: Node) -> bool {
    match v {
        Node::Pos(_) => true,
        Node::Neg(_) => true,
        Node::Float(_) => true,
        Node::Bool(_) => true,
        Node::Null => true,
        Node::Text(_) => true,
        Node::Bytes(_) => true,
        _ => false,
    }
}

/// An integer node whose value fits a signed machine index.
pub open spec fn s_int_node(v: Node) -> bool {
    match v {
        Node::Pos(n) => n <= isize::MAX as u64,
        Node::Neg(n) => n <= isize::MAX as u64,
        _ => false,
    }
}

/// The signed value of an integer node.
pub open spec fn s_int_of(v: Node) -> int {
    match v {
        Node::Pos(n) => n as int,
        Node::Neg(n) => -1 - (n as int),
        _ => 0,
    }
}

/// A single-entry map whose key is text, with that keyword and value.
pub open spec fn s_dict_form(v: Node) -> Option<(KeyWord, Node)> {
    match v {
        Node::Dict(es) => {
            if es.len() == 1 {
                match es[0].0 {
                    Node::Text(t) => Option::Some((spec_kw(t), es[0].1)),
                    _ => Option::None,
                }
            } else {
                Option::None
            }
        },
        _ => Option::None,
    }
}

/// Whether a value writes a segment list down: the bare root or current
/// identifier, or an array led by the expected identifier.
pub open spec fn s_wf_segments_with(v: Node, absolute: bool) -> bool
    decreases v, 3int, 0int,
{
    match v {
        Node::Text(t) => spec_kw(t) == KeyWord::Dollar || spec_kw(t) == KeyWord::AtSign,
        Node::Array(ch) => {
            &&& ch.len() >= 1
            &&& ch[0] == Node::Text(
                if absolute {
                    seq![0x24u8]
                } else {
                    seq![0x40u8]
                },
            )
            &&& s_wf_segment_list(ch, 1)
        },
        _ => false,
    }
}

/// Whether a value writes one segment down.
pub open spec fn s_wf_segment(v: Node) -> bool
    decreases v, 2int, 0int,
{
    if s_key_literal(v) {
        true
    } else {
        match v {
            Node::Array(items) => s_wf_selector_list(items, 0),
            _ => match s_dict_form(v) {
                Option::Some((kw, arg)) => {
                    if kw == KeyWord::Descend {
                        s_wf_descend_arg(arg)
                    } else {
                        s_wf_dict_selector(kw, arg)
                    }
                },
                Option::None => false,
            },
        }
    }
}

/// Whether a value is fit for the descendant form: one selector or an
/// array of selectors.
pub open spec fn s_wf_descend_arg(v: Node) -> bool
    decreases v, 1int, 0int,
{
    if s_wf_single_selector(v) {
        true
    } else {
        match v {
            Node::Array(items) => s_wf_selector_list(items, 0),
            _ => false,
        }
    }
}

/// Whether a value writes exactly one selector down.
pub open spec fn s_wf_single_selector(v: Node) -> bool
    decreases v, 0int, 0int,
{
    if s_key_literal(v) {
        true
    } else {
        match s_dict_form(v) {
            Option::Some((kw, arg)) => s_wf_dict_selector(kw, arg),
            Option::None => false,
        }
    }
}

/// Whether a keyword with this argument writes a selector down.
pub open spec fn s_wf_dict_selector(kw: KeyWord, arg: Node) -> bool
    decreases arg, 3int, 0int,
{
    match kw {
        KeyWord::Star => arg == Node::Pos(1),
        KeyWord::Hash => s_int_node(arg),
        KeyWord::Colon => s_wf_slice(arg),
        KeyWord::Question => s_wf_bool(arg),
        _ => false,
    }
}

/// Whether a value writes a slice down: three integers, the step not zero.
pub open spec fn s_wf_slice(v: Node) -> bool {
    match v {
        Node::Array(items) => {
            &&& items.len() == 3
            &&& s_int_node(items[0])
            &&& s_int_node(items[1])
            &&& s_int_node(items[2])
            &&& s_int_of(items[2]) != 0
        },
        _ => false,
    }
}

/// Whether a value writes a boolean expression down.
pub open spec fn s_wf_bool(v: Node) -> bool
    decreases v, 2int, 0int,
{
    match v {
        Node::Array(_) => s_wf_filterpath(v),
        _ => match s_dict_form(v) {
            Option::Some((kw, arg)) => {
                if kw == KeyWord::AndAnd || kw == KeyWord::OrOr {
                    match arg {
                        Node::Array(items) => items.len() == 2 && s_wf_bool(items[0])
                            && s_wf_bool(items[1]),
                        _ => false,
                    }
                } else if kw == KeyWord::Bang {
                    s_wf_bool(arg)
                } else if kw == KeyWord::Lt || kw == KeyWord::Lte || kw == KeyWord::EqEq || kw
                    == KeyWord::Neq || kw == KeyWord::Gte || kw == KeyWord::Gt {
                    match arg {
                        Node::Array(items) => items.len() == 2 && s_wf_comparable(items[0])
                            && s_wf_comparable(items[1]),
                        _ => false,
                    }
                } else if kw == KeyWord::Match {
                    match arg {
                        Node::Array(items) => items.len() == 2 && s_wf_comparable(items[0])
                            && (items[1] matches Node::Text(p) && regex_valid(s_anchored(p))),
                        _ => false,
                    }
                } else if kw == KeyWord::Search {
                    match arg {
                        Node::Array(items) => items.len() == 2 && s_wf_comparable(items[0])
                            && (items[1] matches Node::Text(p) && regex_valid(p)),
                        _ => false,
                    }
                } else {
                    false
                }
            },
            Option::None => false,
        },
    }
}

/// Whether a value writes a filter path down: a bare identifier or an
/// array led by one.
pub open spec fn s_wf_filterpath(v: Node) -> bool
    decreases v, 1int, 0int,
{
    match v {
        Node::Text(t) => spec_kw(t) == KeyWord::Dollar || spec_kw(t) == KeyWord::AtSign,
        Node::Array(ch) => {
            &&& ch.len() >= 1
            &&& (ch[0] == Node::Text(seq![0x24u8]) || ch[0] == Node::Text(seq![0x40u8]))
            &&& s_wf_segment_list(ch, 1)
        },
        _ => false,
    }
}

/// Whether a value writes a comparable down.
pub open spec fn s_wf_comparable(v: Node) -> bool
    decreases v, 2int, 0int,
{
    if s_key_literal(v) {
        true
    } else {
        match v {
            Node::Array(_) => s_wf_singular(v),
            _ => match s_dict_form(v) {
                Option::Some((kw, arg)) => {
                    if kw == KeyWord::Length {
                        s_wf_comparable(arg)
                    } else if kw == KeyWord::Count || kw == KeyWord::ValueOf {
                        s_wf_filterpath(arg)
                    } else {
                        false
                    }
                },
                Option::None => false,
            },
        }
    }
}

/// Whether a value writes a singular path down.
pub open spec fn s_wf_singular(v: Node) -> bool
    decreases v, 1int, 0int,
{
    match v {
        Node::Array(ch) => {
            &&& ch.len() >= 1
            &&& (ch[0] == Node::Text(seq![0x24u8]) || ch[0] == Node::Text(seq![0x40u8]))
            &&& s_wf_sing_list(ch, 1)
        },
        _ => false,
    }
}

/// Whether a value writes a singular step down.
pub open spec fn s_wf_sing_seg(v: Node) -> bool
    decreases v, 0int, 0int,
{
    if s_key_literal(v) {
        true
    } else {
        match s_dict_form(v) {
            Option::Some((kw, arg)) => kw == KeyWord::Hash && s_int_node(arg),
            Option::None => false,
        }
    }
}

/// Whether a value writes a whole path expression down.
pub open spec fn s_wf_cbor_path(v: Node) -> bool {
    s_wf_segments_with(v, true)
}

/// Whether every element of `ch[i..]` writes a segment down.
pub open spec fn s_wf_segment_list(ch: Seq<Node>, i: int) -> bool
    decreases ch, 2int, ch.len() - i,
{
    if i < 0 || i >= ch.len() {
        true
    } else {
        s_wf_segment(ch[i]) && s_wf_segment_list(ch, i + 1)
    }
}

/// Whether every element of `items[i..]` writes one selector down.
pub open spec fn s_wf_selector_list(items: Seq<Node>, i: int) -> bool
    decreases items, 0int, items.len() - i,
{
    if i < 0 || i >= items.len() {
        true
    } else {
        s_wf_single_selector(items[i]) && s_wf_selector_list(items, i + 1)
    }
}

/// Whether every element of `ch[i..]` writes a singular step down.
pub open spec fn s_wf_sing_list(ch: Seq<Node>, i: int) -> bool
    decreases ch, 0int, ch.len() - i,
{
    if i < 0 || i >= ch.len() {
        true
    } else {
        s_wf_sing_seg(ch[i]) && s_wf_sing_list(ch, i + 1)
    }
}

proof fn lemma_wf_segment_list_intro(ch: Seq<Node>, i: int)
    requires
        forall|k: int| i <= k < ch.len() ==> s_wf_segment(#[trigger] ch[k]),
    ensures
        s_wf_segment_list(ch, i),
    decreases (if ch.len() - i > 0 { ch.len() - i } else { 0 }),
{
    if 0 <= i < ch.len() {
        lemma_wf_segment_list_intro(ch, i + 1);
    }
}

proof fn lemma_wf_segment_list_neg(ch: Seq<Node>, i: int, k: int)
    requires
        i <= k < ch.len(),
        0 <= i,
        !s_wf_segment(ch[k]),
    ensures
        !s_wf_segment_list(ch, i),
    decreases k - i,
{
    if i < k {
        lemma_wf_segment_list_neg(ch, i + 1, k);
    }
}

proof fn lemma_wf_selector_list_intro(items: Seq<Node>, i: int)
    requires
        forall|k: int| i <= k < items.len() ==> s_wf_single_selector(#[trigger] items[k]),
    ensures
        s_wf_selector_list(items, i),
    decreases (if items.len() - i > 0 { items.len() - i } else { 0 }),
{
    if 0 <= i < items.len() {
        lemma_wf_selector_list_intro(items, i + 1);
    }
}

proof fn lemma_wf_selector_list_neg(items: Seq<Node>, i: int, k: int)
    requires
        i <= k < items.len(),
        0 <= i,
        !s_wf_single_selector(items[k]),
    ensures
        !s_wf_selector_list(items, i),
    decreases k - i,
{
    if i < k {
        lemma_wf_selector_list_neg(items, i + 1, k);
    }
}

proof fn lemma_wf_sing_list_intro(ch: Seq<Node>, i: int)
    requires
        forall|k: int| i <= k < ch.len() ==> s_wf_sing_seg(#[trigger] ch[k]),
    ensures
        s_wf_sing_list(ch, i),
    decreases (if ch.len() - i > 0 { ch.len() - i } else { 0 }),
{
    if 0 <= i < ch.len() {
        lemma_wf_sing_list_intro(ch, i + 1);
    }
}

proof fn lemma_wf_sing_list_neg(ch: Seq<Node>, i: int, k: int)
    requires
        i <= k < ch.len(),
        0 <= i,
        !s_wf_sing_seg(ch[k]),
    ensures
        !s_wf_sing_list(ch, i),
    decreases k - i,
{
    if i < k {
        lemma_wf_sing_list_neg(ch, i + 1, k);
    }
}

// ---------------------------------------------------------------------------
// The mirror relation: which expression a well-formed value denotes.

/// Whether a selector is the key selector for this literal.
pub open spec fn s_rel_key_sel(sel: Selector, v: Node) -> bool {
    &&& sel matches Selector::Key(ks)
    &&& ks.0@ == v
}

/// Whether a segment list mirrors the value that writes it down.
pub open spec fn s_rel_segments(segs: Seq<Segment>, v: Node) -> bool
    decreases v, 3int, 0int,
{
    match v {
        Node::Text(_) => segs.len() == 0,
        Node::Array(ch) => {
            &&& segs.len() == ch.len() - 1
            &&& s_rel_segment_list(segs, ch, 1)
        },
        _ => false,
    }
}

/// Whether `segs[i-1..]` mirror `ch[i..]`, element by element.
pub open spec fn s_rel_segment_list(segs: Seq<Segment>, ch: Seq<Node>, i: int) -> bool
    decreases ch, 2int, ch.len() - i,
{
    if i < 1 || i >= ch.len() {
        true
    } else {
        s_rel_segment(segs[i - 1], ch[i]) && s_rel_segment_list(segs, ch, i + 1)
    }
}

/// Whether `sels` mirror `items[i..]`, element by element.
pub open spec fn s_rel_selector_list(sels: Seq<Selector>, items: Seq<Node>, i: int) -> bool
    decreases items, 0int, items.len() - i,
{
    if i < 0 || i >= items.len() {
        true
    } else {
        s_rel_single(sels[i], items[i]) && s_rel_selector_list(sels, items, i + 1)
    }
}

/// Whether `ss[i-1..]` mirror `ch[i..]`, element by element.
pub open spec fn s_rel_sing_list(ss: Seq<SingularSegment>, ch: Seq<Node>, i: int) -> bool
    decreases ch, 0int, ch.len() - i,
{
    if i < 1 || i >= ch.len() {
        true
    } else {
        s_rel_sing_seg(ss[i - 1], ch[i]) && s_rel_sing_list(ss, ch, i + 1)
    }
}

proof fn lemma_rel_segment_list_intro(segs: Seq<Segment>, ch: Seq<Node>, i: int)
    requires
        forall|k: int| i <= k < ch.len() ==> s_rel_segment(segs[k - 1], #[trigger] ch[k]),
    ensures
        s_rel_segment_list(segs, ch, i),
    decreases (if ch.len() - i > 0 { ch.len() - i } else { 0 }),
{
    if 1 <= i < ch.len() {
        lemma_rel_segment_list_intro(segs, ch, i + 1);
    }
}

proof fn lemma_rel_selector_list_intro(sels: Seq<Selector>, items: Seq<Node>, i: int)
    requires
        forall|k: int| i <= k < items.len() ==> s_rel_single(sels[k], #[trigger] items[k]),
    ensures
        s_rel_selector_list(sels, items, i),
    decreases (if items.len() - i > 0 { items.len() - i } else { 0 }),
{
    if 0 <= i < items.len() {
        lemma_rel_selector_list_intro(sels, items, i + 1);
    }
}

proof fn lemma_rel_sing_list_intro(ss: Seq<SingularSegment>, ch: Seq<Node>, i: int)
    requires
        forall|k: int| i <= k < ch.len() ==> s_rel_sing_seg(ss[k - 1], #[trigger] ch[k]),
    ensures
        s_rel_sing_list(ss, ch, i),
    decreases (if ch.len() - i > 0 { ch.len() - i } else { 0 }),
{
    if 1 <= i < ch.len() {
        lemma_rel_sing_list_intro(ss, ch, i + 1);
    }
}

/// Whether a segment mirrors the value that writes it down.
pub open spec fn s_rel_segment(s: Segment, v: Node) -> bool
    decreases v, 2int, 0int,
{
    if s_key_literal(v) {
        &&& s matches Segment::Child(sels)
        &&& sels@.len() == 1
        &&& s_rel_key_sel(sels@[0], v)
    } else {
        match v {
            Node::Array(items) => {
                &&& s matches Segment::Child(sels)
                &&& sels@.len() == items.len()
                &&& s_rel_selector_list(sels@, items, 0)
            },
            _ => match s_dict_form(v) {
                Option::Some((kw, arg)) => {
                    if kw == KeyWord::Descend {
                        &&& s matches Segment::Descendant(sels)
                        &&& s_rel_descend(sels@, arg)
                    } else {
                        &&& s matches Segment::Child(sels)
                        &&& sels@.len() == 1
                        &&& s_rel_dict_selector(sels@[0], kw, arg)
                    }
                },
                Option::None => false,
            },
        }
    }
}

/// Whether a selector list mirrors the argument of a descendant form.
pub open spec fn s_rel_descend(sels: Seq<Selector>, arg: Node) -> bool
    decreases arg, 1int, 0int,
{
    if s_wf_single_selector(arg) {
        sels.len() == 1 && s_rel_single(sels[0], arg)
    } else {
        match arg {
            Node::Array(items) => {
                &&& sels.len() == items.len()
                &&& s_rel_selector_list(sels, items, 0)
            },
            _ => false,
        }
    }
}

/// Whether a selector mirrors the value that writes it down.
pub open spec fn s_rel_single(sel: Selector, v: Node) -> bool
    decreases v, 0int, 0int,
{
    if s_key_literal(v) {
        s_rel_key_sel(sel, v)
    } else {
        match s_dict_form(v) {
            Option::Some((kw, arg)) => s_rel_dict_selector(sel, kw, arg),
            Option::None => false,
        }
    }
}

/// Whether a selector mirrors a keyword form with this argument.
pub open spec fn s_rel_dict_selector(sel: Selector, kw: KeyWord, arg: Node) -> bool
    decreases arg, 3int, 0int,
{
    match kw {
        KeyWord::Star => sel == Selector::Wildcard,
        KeyWord::Hash => {
            &&& sel matches Selector::Index(isel)
            &&& isel.0 as int == s_int_of(arg)
        },
        KeyWord::Colon => match arg {
            Node::Array(items) => {
                &&& sel matches Selector::Slice(ss)
                &&& items.len() == 3
                &&& ss.0 as int == s_int_of(items[0])
                &&& ss.1 as int == s_int_of(items[1])
                &&& ss.2 as int == s_int_of(items[2])
            },
            _ => false,
        },
        KeyWord::Question => {
            &&& sel matches Selector::Filter(fs)
            &&& s_rel_bool(fs.0, arg)
        },
        _ => false,
    }
}

/// Whether a boolean expression mirrors the value that writes it down.
pub open spec fn s_rel_bool(e: BooleanExpr, v: Node) -> bool
    decreases v, 2int, 0int,
{
    match v {
        Node::Array(_) => {
            &&& e matches BooleanExpr::Path(fp)
            &&& s_rel_filterpath(fp, v)
        },
        _ => match s_dict_form(v) {
            Option::Some((kw, arg)) => {
                if kw == KeyWord::AndAnd {
                    match arg {
                        Node::Array(items) => {
                            &&& items.len() == 2
                            &&& e matches BooleanExpr::And(l, r)
                            &&& s_rel_bool(*l, items[0])
                            &&& s_rel_bool(*r, items[1])
                        },
                        _ => false,
                    }
                } else if kw == KeyWord::OrOr {
                    match arg {
                        Node::Array(items) => {
                            &&& items.len() == 2
                            &&& e matches BooleanExpr::Or(l, r)
                            &&& s_rel_bool(*l, items[0])
                            &&& s_rel_bool(*r, items[1])
                        },
                        _ => false,
                    }
                } else if kw == KeyWord::Bang {
                    &&& e matches BooleanExpr::Not(inner)
                    &&& s_rel_bool(*inner, arg)
                } else if kw == KeyWord::Lt || kw == KeyWord::Lte || kw == KeyWord::EqEq || kw
                    == KeyWord::Neq || kw == KeyWord::Gte || kw == KeyWord::Gt {
                    match arg {
                        Node::Array(items) => {
                            &&& items.len() == 2
                            &&& e matches BooleanExpr::Comparison(c)
                            &&& c.1 == s_op_of(kw)
                            &&& s_rel_comparable(c.0, items[0])
                            &&& s_rel_comparable(c.2, items[1])
                        },
                        _ => false,
                    }
                } else if kw == KeyWord::Match {
                    match arg {
                        Node::Array(items) => {
                            &&& items.len() == 2
                            &&& items[1] matches Node::Text(p)
                            &&& e matches BooleanExpr::Function(f)
                            &&& f matches Function::Regex(c, re)
                            &&& s_rel_comparable(*c, items[0])
                            &&& re.spec_pattern() == s_anchored(p)
                        },
                        _ => false,
                    }
                } else if kw == KeyWord::Search {
                    match arg {
                        Node::Array(items) => {
                            &&& items.len() == 2
                            &&& items[1] matches Node::Text(p)
                            &&& e matches BooleanExpr::Function(f)
                            &&& f matches Function::Regex(c, re)
                            &&& s_rel_comparable(*c, items[0])
                            &&& re.spec_pattern() == p
                        },
                        _ => false,
                    }
                } else {
                    false
                }
            },
            Option::None => false,
        },
    }
}

/// The operator a comparison keyword denotes.
pub open spec fn s_op_of(kw: KeyWord) -> ComparisonOperator {
    match kw {
        KeyWord::Lt => ComparisonOperator::Lt,
        KeyWord::Lte => ComparisonOperator::Lte,
        KeyWord::EqEq => ComparisonOperator::Eq,
        KeyWord::Neq => ComparisonOperator::Neq,
        KeyWord::Gte => ComparisonOperator::Gte,
        _ => ComparisonOperator::Gt,
    }
}

/// Whether a filter path mirrors the value that writes it down.
pub open spec fn s_rel_filterpath(fp: FilterPath, v: Node) -> bool
    decreases v, 1int, 0int,
{
    match v {
        Node::Text(t) => {
            ||| {
                &&& spec_kw(t) == KeyWord::Dollar
                &&& fp matches FilterPath::Abs(ap)
                &&& ap.0@.len() == 0
            }
            ||| {
                &&& spec_kw(t) == KeyWord::AtSign
                &&& fp matches FilterPath::Rel(rp)
                &&& rp.0@.len() == 0
            }
        },
        Node::Array(ch) => {
            &&& ch.len() >= 1
            &&& {
                ||| {
                    &&& ch[0] == Node::Text(seq![0x24u8])
                    &&& fp matches FilterPath::Abs(ap)
                    &&& ap.0@.len() == ch.len() - 1
                    &&& s_rel_segment_list(ap.0@, ch, 1)
                }
                ||| {
                    &&& ch[0] == Node::Text(seq![0x40u8])
                    &&& fp matches FilterPath::Rel(rp)
                    &&& rp.0@.len() == ch.len() - 1
                    &&& s_rel_segment_list(rp.0@, ch, 1)
                }
            }
        },
        _ => false,
    }
}

/// Whether a comparable mirrors the value that writes it down.
pub open spec fn s_rel_comparable(c: Comparable, v: Node) -> bool
    decreases v, 2int, 0int,
{
    if s_key_literal(v) {
        &&& c matches Comparable::Value(x)
        &&& x@ == v
    } else {
        match v {
            Node::Array(_) => {
                &&& c matches Comparable::SingularPath(sp)
                &&& s_rel_singular(sp, v)
            },
            _ => match s_dict_form(v) {
                Option::Some((kw, arg)) => {
                    if kw == KeyWord::Length {
                        &&& c matches Comparable::Function(f)
                        &&& f matches Function::Length(inner)
                        &&& s_rel_comparable(*inner, arg)
                    } else if kw == KeyWord::Count {
                        &&& c matches Comparable::Function(f)
                        &&& f matches Function::Count(fp)
                        &&& s_rel_filterpath(fp, arg)
                    } else if kw == KeyWord::ValueOf {
                        &&& c matches Comparable::Function(f)
                        &&& f matches Function::Value(fp)
                        &&& s_rel_filterpath(fp, arg)
                    } else {
                        false
                    }
                },
                Option::None => false,
            },
        }
    }
}

/// Whether a singular path mirrors the value that writes it down.
pub open spec fn s_rel_singular(sp: SingularPath, v: Node) -> bool
    decreases v, 1int, 0int,
{
    match v {
        Node::Array(ch) => {
            &&& ch.len() >= 1
            &&& {
                ||| {
                    &&& ch[0] == Node::Text(seq![0x24u8])
                    &&& sp matches SingularPath::Abs(ss)
                    &&& ss@.len() == ch.len() - 1
                    &&& s_rel_sing_list(ss@, ch, 1)
                }
                ||| {
                    &&& ch[0] == Node::Text(seq![0x40u8])
                    &&& sp matches SingularPath::Rel(ss)
                    &&& ss@.len() == ch.len() - 1
                    &&& s_rel_sing_list(ss@, ch, 1)
                }
            }
        },
        _ => false,
    }
}

/// Whether a singular step mirrors the value that writes it down.
pub open spec fn s_rel_sing_seg(g: SingularSegment, v: Node) -> bool
    decreases v, 0int, 0int,
{
    if s_key_literal(v) {
        &&& g matches SingularSegment::Key(ks)
        &&& ks.0@ == v
    } else {
        match s_dict_form(v) {
            Option::Some((kw, arg)) => {
                &&& kw == KeyWord::Hash
                &&& g matches SingularSegment::Index(isel)
                &&& isel.0 as int == s_int_of(arg)
            },
            Option::None => false,
        }
    }
}

/// Whether a whole path expression mirrors the value that writes it down.
pub open spec fn s_rel_cbor_path(p: CborPath, v: Node) -> bool {
    s_rel_segments(p.0.0@, v)
}

// ---------------------------------------------------------------------------
// The parsers.

/// Decides whether a value is a key literal.
fn is_key_literal(v: &Value) -> (r: bool)
    ensures
        r == s_key_literal(v@),
{
    match v {
        Value::Pos(_) => true,
        Value::Neg(_) => true,
        Value::Float(_) => true,
        Value::Bool(_) => true,
        Value::Null => true,
        Value::Text(_) => true,
        Value::Bytes(_) => true,
        _ => false,
    }
}

/// The keyword form of a single-entry map with a text key, if any.
fn dict_form_of<'a>(v: &'a Value) -> (r: Option<(KeyWord, &'a Value)>)
    ensures
        r is Some <==> s_dict_form(v@) is Some,
        r matches Some(p) ==> s_dict_form(v@) == Option::Some((p.0, p.1@)),
        r matches Some(p) ==> (decreases_to!(*v => *p.1)),
{
    match v {
        Value::Dict(es) => {
            proof {
                lemma_entries_of(es@);
            }
            if es.len() != 1 {
                return None;
            }
            match &es[0].0 {
                Value::Text(t) => Some((keyword_of(t), &es[0].1)),
                _ => None,
            }
        },
        _ => None,
    }
}

/// Reads an integer node into a signed index, rejecting what overflows it.
fn parse_int(v: &Value) -> (r: Result<isize, Error>)
    ensures
        r is Ok <==> s_int_node(v@),
        r matches Ok(i) ==> i as int == s_int_of(v@),
        r matches Err(e) ==> e is Conversion,
{
    match v {
        Value::Pos(n) => {
            if *n <= isize::MAX as u64 {
                Ok(*n as isize)
            } else {
                Err(Error::Conversion("integer does not fit an index".to_owned()))
            }
        },
        Value::Neg(n) => {
            if *n <= isize::MAX as u64 {
                Ok(-1 - (*n as isize))
            } else {
                Err(Error::Conversion("integer does not fit an index".to_owned()))
            }
        },
        _ => Err(Error::Conversion("expected an integer".to_owned())),
    }
}

/// Reads a slice form: three integers whose step is not zero.
fn parse_slice(v: &Value) -> (r: Result<SliceSelector, Error>)
    ensures
        r is Ok <==> s_wf_slice(v@),
        r matches Ok(ss) ==> s_rel_dict_selector(Selector::Slice(ss), KeyWord::Colon, v@),
        r matches Err(e) ==> e is Conversion,
{
    match v {
        Value::Array(items) => {
            proof {
                lemma_nodes_of(items@);
            }
            if items.len() != 3 {
                return Err(Error::Conversion("expected an array of three integers".to_owned()));
            }
            let start = match parse_int(&items[0]) {
                Ok(i) => i,
                Err(e) => {
                    return Err(e);
                },
            };
            let end = match parse_int(&items[1]) {
                Ok(i) => i,
                Err(e) => {
                    return Err(e);
                },
            };
            let step = match parse_int(&items[2]) {
                Ok(i) => i,
                Err(e) => {
                    return Err(e);
                },
            };
            if step == 0 {
                return Err(Error::Conversion("slice step must not be zero".to_owned()));
            }
            Ok(SliceSelector(start, end, step))
        },
        _ => Err(Error::Conversion("expected an array of three integers".to_owned())),
    }
}

/// Reads one selector from a keyword form.
fn parse_dict_selector(kw: KeyWord, arg: &Value) -> (r: Result<Selector, Error>)
    ensures
        r is Ok <==> s_wf_dict_selector(kw, arg@),
        r matches Ok(sel) ==> s_rel_dict_selector(sel, kw, arg@),
        r matches Err(e) ==> e is Conversion,
    decreases *arg, 4int,
{
    match kw {
        KeyWord::Star => {
            match arg {
                Value::Pos(n) => {
                    if *n == 1 {
                        Ok(Selector::Wildcard)
                    } else {
                        Err(Error::Conversion("cannot parse wildcard".to_owned()))
                    }
                },
                _ => Err(Error::Conversion("cannot parse wildcard".to_owned())),
            }
        },
        KeyWord::Hash => match parse_int(arg) {
            Ok(i) => Ok(Selector::Index(IndexSelector(i))),
            Err(e) => Err(e),
        },
        KeyWord::Colon => match parse_slice(arg) {
            Ok(ss) => Ok(Selector::Slice(ss)),
            Err(e) => Err(e),
        },
        KeyWord::Question => match parse_bool(arg) {
            Ok(e) => Ok(Selector::Filter(crate::ast::FilterSelector(e))),
            Err(e) => Err(e),
        },
        _ => Err(Error::Conversion("expected a selector".to_owned())),
    }
}

/// Reads exactly one selector.
fn parse_single_selector(v: &Value) -> (r: Result<Selector, Error>)
    ensures
        r is Ok <==> s_wf_single_selector(v@),
        r matches Ok(sel) ==> s_rel_single(sel, v@),
        r matches Err(e) ==> e is Conversion,
    decreases *v, 5int,
{
    if is_key_literal(v) {
        return Ok(Selector::Key(KeySelector(crate::value::value_clone(v))));
    }
    match dict_form_of(v) {
        Some((kw, arg)) => parse_dict_selector(kw, arg),
        None => Err(Error::Conversion("expected a selector".to_owned())),
    }
}

/// Reads one segment.
fn parse_segment(v: &Value) -> (r: Result<Segment, Error>)
    ensures
        r is Ok <==> s_wf_segment(v@),
        r matches Ok(s) ==> s_rel_segment(s, v@),
        r matches Err(e) ==> e is Conversion,
    decreases *v, 6int,
{
    if is_key_literal(v) {
        let sel = Selector::Key(KeySelector(crate::value::value_clone(v)));
        let segment = Segment::Child(vec![sel]);
        return Ok(segment);
    }
    match v {
        Value::Array(items) => {
            proof {
                lemma_nodes_of(items@);
            }
            let ghost itn = nodes_of(items@);
            let mut sels: Vec<Selector> = Vec::new();
            let mut i: usize = 0;
            #[verifier::loop_isolation(false)]
            while i < items.len()
                invariant
                    0 <= i <= items.len(),
                    sels@.len() == i,
                    forall|k: int| 0 <= k < i ==> s_wf_single_selector(#[trigger] itn[k]),
                    forall|k: int| 0 <= k < i ==> s_rel_single(#[trigger] sels@[k], itn[k]),
                decreases items.len() - i,
            {
                match parse_single_selector(&items[i]) {
                    Ok(sel) => {
                        sels.push(sel);
                    },
                    Err(e) => {
                        proof {
                            lemma_wf_selector_list_neg(itn, 0, i as int);
                        }
                        return Err(e);
                    },
                }
                i = i + 1;
            }
            proof {
                lemma_wf_selector_list_intro(itn, 0);
                lemma_rel_selector_list_intro(sels@, itn, 0);
            }
            Ok(Segment::Child(sels))
        },
        _ => {
            match dict_form_of(v) {
                Some((kw, arg)) => {
                    match kw {
                        KeyWord::Descend => {
                            match parse_descend_arg(arg) {
                                Ok(sels) => Ok(Segment::Descendant(sels)),
                                Err(e) => Err(e),
                            }
                        },
                        _ => {
                            match parse_dict_selector(kw, arg) {
                                Ok(sel) => Ok(Segment::Child(vec![sel])),
                                Err(e) => Err(e),
                            }
                        },
                    }
                },
                None => Err(Error::Conversion("expected a segment".to_owned())),
            }
        },
    }
}

/// Reads the argument of a descendant form: one selector or an array of
/// selectors.
fn parse_descend_arg(v: &Value) -> (r: Result<Vec<Selector>, Error>)
    ensures
        r is Ok <==> s_wf_descend_arg(v@),
        r matches Ok(sels) ==> s_rel_descend(sels@, v@),
        r matches Err(e) ==> e is Conversion,
    decreases *v, 6int,
{
    match v {
        Value::Array(items) => {
            proof {
                lemma_nodes_of(items@);
                assert(!s_wf_single_selector(v@));
            }
            let ghost itn = nodes_of(items@);
            let mut sels: Vec<Selector> = Vec::new();
            let mut i: usize = 0;
            #[verifier::loop_isolation(false)]
            while i < items.len()
                invariant
                    0 <= i <= items.len(),
                    sels@.len() == i,
                    forall|k: int| 0 <= k < i ==> s_wf_single_selector(#[trigger] itn[k]),
                    forall|k: int| 0 <= k < i ==> s_rel_single(#[trigger] sels@[k], itn[k]),
                decreases items.len() - i,
            {
                match parse_single_selector(&items[i]) {
                    Ok(sel) => {
                        sels.push(sel);
                    },
                    Err(e) => {
                        proof {
                            lemma_wf_selector_list_neg(itn, 0, i as int);
                        }
                        return Err(e);
                    },
                }
                i = i + 1;
            }
            proof {
                lemma_wf_selector_list_intro(itn, 0);
                lemma_rel_selector_list_intro(sels@, itn, 0);
            }
            Ok(sels)
        },
        _ => {
            match parse_single_selector(v) {
                Ok(sel) => Ok(vec![sel]),
                Err(e) => Err(e),
            }
        },
    }
}

/// Reads a boolean expression.
fn parse_bool(v: &Value) -> (r: Result<BooleanExpr, Error>)
    ensures
        r is Ok <==> s_wf_bool(v@),
        r matches Ok(e) ==> s_rel_bool(e, v@),
        r matches Err(e) ==> e is Conversion,
    decreases *v, 3int,
{
    match v {
        Value::Array(_) => {
            match parse_filterpath(v) {
                Ok(fp) => Ok(BooleanExpr::Path(fp)),
                Err(e) => Err(e),
            }
        },
        _ => {
            match dict_form_of(v) {
                Some((kw, arg)) => {
                    match kw {
                        KeyWord::AndAnd | KeyWord::OrOr => {
                            let both = match arg {
                                Value::Array(items) => {
                                    proof {
                                        lemma_nodes_of(items@);
                                    }
                                    if items.len() != 2 {
                                        None
                                    } else {
                                        let l = match parse_bool(&items[0]) {
                                            Ok(x) => x,
                                            Err(e) => {
                                                return Err(e);
                                            },
                                        };
                                        let rr = match parse_bool(&items[1]) {
                                            Ok(x) => x,
                                            Err(e) => {
                                                return Err(e);
                                            },
                                        };
                                        Some((l, rr))
                                    }
                                },
                                _ => None,
                            };
                            match both {
                                Some((l, rr)) => {
                                    if matches!(kw, KeyWord::AndAnd) {
                                        Ok(BooleanExpr::And(Box::new(l), Box::new(rr)))
                                    } else {
                                        Ok(BooleanExpr::Or(Box::new(l), Box::new(rr)))
                                    }
                                },
                                None => Err(
                                    Error::Conversion(
                                        "expected an array of two expressions".to_owned(),
                                    ),
                                ),
                            }
                        },
                        KeyWord::Bang => {
                            match parse_bool(arg) {
                                Ok(inner) => Ok(BooleanExpr::Not(Box::new(inner))),
                                Err(e) => Err(e),
                            }
                        },
                        KeyWord::Lt | KeyWord::Lte | KeyWord::EqEq | KeyWord::Neq | KeyWord::Gte
                            | KeyWord::Gt => {
                            match arg {
                                Value::Array(items) => {
                                    proof {
                                        lemma_nodes_of(items@);
                                    }
                                    if items.len() != 2 {
                                        return Err(
                                            Error::Conversion(
                                                "expected an array of two comparables".to_owned(),
                                            ),
                                        );
                                    }
                                    let l = match parse_comparable(&items[0]) {
                                        Ok(x) => x,
                                        Err(e) => {
                                            return Err(e);
                                        },
                                    };
                                    let rr = match parse_comparable(&items[1]) {
                                        Ok(x) => x,
                                        Err(e) => {
                                            return Err(e);
                                        },
                                    };
                                    let op = match kw {
                                        KeyWord::Lt => ComparisonOperator::Lt,
                                        KeyWord::Lte => ComparisonOperator::Lte,
                                        KeyWord::EqEq => ComparisonOperator::Eq,
                                        KeyWord::Neq => ComparisonOperator::Neq,
                                        KeyWord::Gte => ComparisonOperator::Gte,
                                        _ => ComparisonOperator::Gt,
                                    };
                                    Ok(BooleanExpr::Comparison(ComparisonExpr(l, op, rr)))
                                },
                                _ => Err(
                                    Error::Conversion(
                                        "expected an array of two comparables".to_owned(),
                                    ),
                                ),
                            }
                        },
                        KeyWord::Match | KeyWord::Search => {
                            match arg {
                                Value::Array(items) => {
                                    proof {
                                        lemma_nodes_of(items@);
                                    }
                                    if items.len() != 2 {
                                        return Err(
                                            Error::Conversion(
                                                "expected a comparable and a pattern".to_owned(),
                                            ),
                                        );
                                    }
                                    let c = match parse_comparable(&items[0]) {
                                        Ok(x) => x,
                                        Err(e) => {
                                            return Err(e);
                                        },
                                    };
                                    match &items[1] {
                                        Value::Text(p) => {
                                            let re = if matches!(kw, KeyWord::Match) {
                                                let mut pat: Vec<u8> = Vec::new();
                                                pat.push(0x5e);
                                                let mut k: usize = 0;
                                                #[verifier::loop_isolation(false)]
                                                while k < p.len()
                                                    invariant
                                                        0 <= k <= p.len(),
                                                        pat@ =~= seq![0x5eu8] + p@.take(k as int),
                                                    decreases p.len() - k,
                                                {
                                                    pat.push(p[k]);
                                                    proof {
                                                        assert(pat@ =~= seq![0x5eu8] + p@.take(
                                                            k as int + 1,
                                                        ));
                                                    }
                                                    k = k + 1;
                                                }
                                                pat.push(0x24);
                                                proof {
                                                    assert(p@.take(p@.len() as int) =~= p@);
                                                    assert(pat@ =~= s_anchored(p@));
                                                }
                                                CompiledRegex::compile(pat.as_slice())
                                            } else {
                                                CompiledRegex::compile(p.as_slice())
                                            };
                                            match re {
                                                Ok(re) => Ok(
                                                    BooleanExpr::Function(
                                                        Function::Regex(Box::new(c), re),
                                                    ),
                                                ),
                                                Err(e) => Err(e),
                                            }
                                        },
                                        _ => Err(
                                            Error::Conversion("expected a pattern".to_owned()),
                                        ),
                                    }
                                },
                                _ => Err(
                                    Error::Conversion(
                                        "expected a comparable and a pattern".to_owned(),
                                    ),
                                ),
                            }
                        },
                        _ => Err(Error::Conversion("expected a boolean expression".to_owned())),
                    }
                },
                None => Err(Error::Conversion("expected a boolean expression".to_owned())),
            }
        },
    }
}

/// Reads a filter path: a bare identifier or an array led by one.
fn parse_filterpath(v: &Value) -> (r: Result<FilterPath, Error>)
    ensures
        r is Ok <==> s_wf_filterpath(v@),
        r matches Ok(fp) ==> s_rel_filterpath(fp, v@),
        r matches Err(e) ==> e is Conversion,
    decreases *v, 2int,
{
    match v {
        Value::Text(t) => {
            match keyword_of(t) {
                KeyWord::Dollar => Ok(FilterPath::Abs(AbsolutePath(Vec::new()))),
                KeyWord::AtSign => Ok(FilterPath::Rel(RelativePath(Vec::new()))),
                _ => Err(Error::Conversion("expected a path identifier".to_owned())),
            }
        },
        Value::Array(ch) => {
            proof {
                lemma_nodes_of(ch@);
            }
            let ghost chn = nodes_of(ch@);
            if ch.len() == 0 {
                return Err(Error::Conversion("expected a path identifier".to_owned()));
            }
            let absolute = match &ch[0] {
                Value::Text(t) => {
                    match keyword_of(t) {
                        KeyWord::Dollar => {
                            proof {
                                assert(t@ =~= seq![0x24u8]);
                            }
                            true
                        },
                        KeyWord::AtSign => {
                            proof {
                                assert(t@ =~= seq![0x40u8]);
                            }
                            false
                        },
                        _ => {
                            proof {
                                assert(t@ != seq![0x24u8] && t@ != seq![0x40u8]);
                            }
                            return Err(
                                Error::Conversion("expected a path identifier".to_owned()),
                            );
                        },
                    }
                },
                _ => {
                    return Err(Error::Conversion("expected a path identifier".to_owned()));
                },
            };
            let mut segs: Vec<Segment> = Vec::new();
            let mut i: usize = 1;
            #[verifier::loop_isolation(false)]
            while i < ch.len()
                invariant
                    1 <= i <= ch.len(),
                    segs@.len() == i - 1,
                    forall|k: int| 1 <= k < i ==> s_wf_segment(#[trigger] chn[k]),
                    forall|k: int| 0 <= k < segs@.len() ==> s_rel_segment(
                        #[trigger] segs@[k],
                        chn[k + 1],
                    ),
                decreases ch.len() - i,
            {
                match parse_segment(&ch[i]) {
                    Ok(s) => {
                        segs.push(s);
                    },
                    Err(e) => {
                        proof {
                            lemma_wf_segment_list_neg(chn, 1, i as int);
                        }
                        return Err(e);
                    },
                }
                i = i + 1;
            }
            proof {
                lemma_wf_segment_list_intro(chn, 1);
                assert(forall|k: int|
                    1 <= k < chn.len() ==> s_rel_segment(segs@[k - 1], #[trigger] chn[k]));
                lemma_rel_segment_list_intro(segs@, chn, 1);
            }
            if absolute {
                Ok(FilterPath::Abs(AbsolutePath(segs)))
            } else {
                Ok(FilterPath::Rel(RelativePath(segs)))
            }
        },
        _ => Err(Error::Conversion("expected a path".to_owned())),
    }
}

/// Reads a comparable.
fn parse_comparable(v: &Value) -> (r: Result<Comparable, Error>)
    ensures
        r is Ok <==> s_wf_comparable(v@),
        r matches Ok(c) ==> s_rel_comparable(c, v@),
        r matches Err(e) ==> e is Conversion,
    decreases *v, 3int,
{
    if is_key_literal(v) {
        return Ok(Comparable::Value(crate::value::value_clone(v)));
    }
    match v {
        Value::Array(_) => {
            match parse_singular(v) {
                Ok(sp) => Ok(Comparable::SingularPath(sp)),
                Err(e) => Err(e),
            }
        },
        _ => {
            match dict_form_of(v) {
                Some((kw, arg)) => {
                    match kw {
                        KeyWord::Length => {
                            match parse_comparable(arg) {
                                Ok(inner) => Ok(
                                    Comparable::Function(Function::Length(Box::new(inner))),
                                ),
                                Err(e) => Err(e),
                            }
                        },
                        KeyWord::Count => {
                            match parse_filterpath(arg) {
                                Ok(fp) => Ok(Comparable::Function(Function::Count(fp))),
                                Err(e) => Err(e),
                            }
                        },
                        KeyWord::ValueOf => {
                            match parse_filterpath(arg) {
                                Ok(fp) => Ok(Comparable::Function(Function::Value(fp))),
                                Err(e) => Err(e),
                            }
                        },
                        _ => Err(Error::Conversion("expected a comparable".to_owned())),
                    }
                },
                None => Err(Error::Conversion("expected a comparable".to_owned())),
            }
        },
    }
}

/// Reads a singular path.
fn parse_singular(v: &Value) -> (r: Result<SingularPath, Error>)
    ensures
        r is Ok <==> s_wf_singular(v@),
        r matches Ok(sp) ==> s_rel_singular(sp, v@),
        r matches Err(e) ==> e is Conversion,
    decreases *v, 2int,
{
    match v {
        Value::Array(ch) => {
            proof {
                lemma_nodes_of(ch@);
            }
            let ghost chn = nodes_of(ch@);
            if ch.len() == 0 {
                return Err(Error::Conversion("expected a path identifier".to_owned()));
            }
            let absolute = match &ch[0] {
                Value::Text(t) => {
                    match keyword_of(t) {
                        KeyWord::Dollar => {
                            proof {
                                assert(t@ =~= seq![0x24u8]);
                            }
                            true
                        },
                        KeyWord::AtSign => {
                            proof {
                                assert(t@ =~= seq![0x40u8]);
                            }
                            false
                        },
                        _ => {
                            proof {
                                assert(t@ != seq![0x24u8] && t@ != seq![0x40u8]);
                            }
                            return Err(
                                Error::Conversion("expected a path identifier".to_owned()),
                            );
                        },
                    }
                },
                _ => {
                    return Err(Error::Conversion("expected a path identifier".to_owned()));
                },
            };
            let mut ss: Vec<SingularSegment> = Vec::new();
            let mut i: usize = 1;
            #[verifier::loop_isolation(false)]
            while i < ch.len()
                invariant
                    1 <= i <= ch.len(),
                    ss@.len() == i - 1,
                    forall|k: int| 1 <= k < i ==> s_wf_sing_seg(#[trigger] chn[k]),
                    forall|k: int| 0 <= k < ss@.len() ==> s_rel_sing_seg(
                        #[trigger] ss@[k],
                        chn[k + 1],
                    ),
                decreases ch.len() - i,
            {
                match parse_sing_seg(&ch[i]) {
                    Ok(s) => {
                        ss.push(s);
                    },
                    Err(e) => {
                        proof {
                            lemma_wf_sing_list_neg(chn, 1, i as int);
                        }
                        return Err(e);
                    },
                }
                i = i + 1;
            }
            proof {
                lemma_wf_sing_list_intro(chn, 1);
                assert(forall|k: int|
                    1 <= k < chn.len() ==> s_rel_sing_seg(ss@[k - 1], #[trigger] chn[k]));
                lemma_rel_sing_list_intro(ss@, chn, 1);
            }
            if absolute {
                Ok(SingularPath::Abs(ss))
            } else {
                Ok(SingularPath::Rel(ss))
            }
        },
        _ => Err(Error::Conversion("expected a singular path".to_owned())),
    }
}

/// Reads a singular step.
fn parse_sing_seg(v: &Value) -> (r: Result<SingularSegment, Error>)
    ensures
        r is Ok <==> s_wf_sing_seg(v@),
        r matches Ok(g) ==> s_rel_sing_seg(g, v@),
        r matches Err(e) ==> e is Conversion,
    decreases *v, 1int,
{
    if is_key_literal(v) {
        return Ok(SingularSegment::Key(KeySelector(crate::value::value_clone(v))));
    }
    match dict_form_of(v) {
        Some((kw, arg)) => {
            match kw {
                KeyWord::Hash => {
                    match parse_int(arg) {
                        Ok(i) => Ok(SingularSegment::Index(IndexSelector(i))),
                        Err(e) => Err(e),
                    }
                },
                _ => Err(Error::Conversion("expected a singular step".to_owned())),
            }
        },
        None => Err(Error::Conversion("expected a singular step".to_owned())),
    }
}

impl CborPath {
    /// Builds a path expression from the value that writes it down: the
    /// bare root identifier, or an array led by it and followed by
    /// segments.  Exactly the well-formed values are accepted, and the
    /// expression built mirrors the value.
    pub fn from_value(value: &Value) -> (r: Result<CborPath, Error>)
        ensures
            r is Ok <==> s_wf_cbor_path(value@),
            r matches Ok(p) ==> s_rel_cbor_path(p, value@),
            r matches Err(e) ==> e is Conversion,
    {
        match value {
            Value::Text(t) => {
                match keyword_of(t) {
                    KeyWord::Dollar | KeyWord::AtSign => Ok(CborPath(AbsolutePath(Vec::new()))),
                    _ => Err(Error::Conversion("expected a path identifier".to_owned())),
                }
            },
            Value::Array(ch) => {
                proof {
                    lemma_nodes_of(ch@);
                }
                let ghost chn = nodes_of(ch@);
                if ch.len() == 0 {
                    return Err(Error::Conversion("expected a path identifier".to_owned()));
                }
                match &ch[0] {
                    Value::Text(t) => {
                        match keyword_of(t) {
                            KeyWord::Dollar => {
                                proof {
                                    assert(t@ =~= seq![0x24u8]);
                                }
                            },
                            _ => {
                                proof {
                                    assert(t@ != seq![0x24u8]);
                                }
                                return Err(
                                    Error::Conversion("expected a path identifier".to_owned()),
                                );
                            },
                        }
                    },
                    _ => {
                        return Err(Error::Conversion("expected a path identifier".to_owned()));
                    },
                }
                let mut segs: Vec<Segment> = Vec::new();
                let mut i: usize = 1;
                #[verifier::loop_isolation(false)]
                while i < ch.len()
                    invariant
                        1 <= i <= ch.len(),
                        segs@.len() == i - 1,
                        forall|k: int| 1 <= k < i ==> s_wf_segment(#[trigger] chn[k]),
                        forall|k: int| 0 <= k < segs@.len() ==> s_rel_segment(
                            #[trigger] segs@[k],
                            chn[k + 1],
                        ),
                    decreases ch.len() - i,
                {
                    match parse_segment(&ch[i]) {
                        Ok(s) => {
                            segs.push(s);
                        },
                        Err(e) => {
                            proof {
                                lemma_wf_segment_list_neg(chn, 1, i as int);
                            }
                            return Err(e);
                        },
                    }
                    i = i + 1;
                }
                proof {
                    lemma_wf_segment_list_intro(chn, 1);
                    assert(forall|k: int|
                        1 <= k < chn.len() ==> s_rel_segment(segs@[k - 1], #[trigger] chn[k]));
                    lemma_rel_segment_list_intro(segs@, chn, 1);
                }
                Ok(CborPath(AbsolutePath(segs)))
            },
            _ => Err(Error::Conversion("cannot parse a path from this value".to_owned())),
        }
    }
}


} // verus!
