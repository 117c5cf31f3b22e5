//! The document model: a CBOR-like tree of scalars, arrays and maps,
//! with the structural equality and the in-kind ordering the engine uses.
//!
//! `Value` is the executable tree; its view is the mathematical tree `Node`,
//! and every contract of the engine speaks of `Node`s.

use vstd::prelude::*;

verus! {

/// A node of a document: a scalar, an array of nodes, or a map of
/// key/value pairs (keys need not be unique; entry order is meaningful).
///
/// Text holds UTF-8 bytes; a float is carried as the bits of an IEEE-754
/// double, so that documents stay within the integer world of the proofs.
#[derive(Debug, PartialEq, Eq)]
pub enum Value {
    /// An unsigned integer.
    Pos(u64),
    /// A negative integer; `Neg(n)` denotes `-1 - n`.
    Neg(u64),
    /// An IEEE-754 double, by its bits.
    Float(u64),
    /// A boolean.
    Bool(bool),
    /// The null value.
    Null,
    /// The undefined value.
    Undefined,
    /// A text string, as UTF-8 bytes.
    Text(Vec<u8>),
    /// A byte string.
    Bytes(Vec<u8>),
    /// An array of nodes.
    Array(Vec<Value>),
    /// A map: ordered key/value entries.
    Dict(Vec<(Value, Value)>),
}

/// The mathematical shape of a document node: what `Value` denotes.
#[verifier::ext_equal]
pub enum Node {
    /// An unsigned integer.
    Pos(u64),
    /// A negative integer; `Neg(n)` denotes `-1 - n`.
    Neg(u64),
    /// An IEEE-754 double, by its bits.
    Float(u64),
    /// A boolean.
    Bool(bool),
    /// The null value.
    Null,
    /// The undefined value.
    Undefined,
    /// A text string, as UTF-8 bytes.
    Text(Seq<u8>),
    /// A byte string.
    Bytes(Seq<u8>),
    /// An array of nodes.
    Array(Seq<Node>),
    /// A map: ordered key/value entries.
    Dict(Seq<(Node, Node)>),
}

/// The node a value denotes.
pub open spec fn node_of(v: Value) -> Node
    decreases v,
{
    match v {
        Value::Pos(x) => Node::Pos(x),
        Value::Neg(x) => Node::Neg(x),
        Value::Float(x) => Node::Float(x),
        Value::Bool(x) => Node::Bool(x),
        Value::Null => Node::Null,
        Value::Undefined => Node::Undefined,
        Value::Text(x) => Node::Text(x@),
        Value::Bytes(x) => Node::Bytes(x@),
        Value::Array(x) => Node::Array(nodes_of(x@)),
        Value::Dict(x) => Node::Dict(entries_of(x@)),
    }
}

/// The nodes a sequence of values denotes, element-wise.
pub open spec fn nodes_of(s: Seq<Value>) -> Seq<Node>
    decreases s,
{
    if s.len() == 0 {
        Seq::empty()
    } else {
        seq![node_of(s[0])] + nodes_of(s.drop_first())
    }
}

/// The node pairs a sequence of value pairs denotes, element-wise.
pub open spec fn entries_of(s: Seq<(Value, Value)>) -> Seq<(Node, Node)>
    decreases s,
{
    if s.len() == 0 {
        Seq::empty()
    } else {
        seq![(node_of(s[0].0), node_of(s[0].1))] + entries_of(s.drop_first())
    }
}

impl View for Value {
    type V = Node;

    open spec fn view(&self) -> Node {
        node_of(*self)
    }
}

/// `nodes_of` maps `node_of` over the elements.
pub broadcast proof fn lemma_nodes_of(s: Seq<Value>)
    ensures
        (#[trigger] nodes_of(s)).len() == s.len(),
        forall|i: int| 0 <= i < s.len() ==> nodes_of(s)[i] == node_of(s[i]),
    decreases s.len(),
{
    if s.len() > 0 {
        lemma_nodes_of(s.drop_first());
    }
}

/// `entries_of` maps `node_of` over both sides of the entries.
pub broadcast proof fn lemma_entries_of(s: Seq<(Value, Value)>)
    ensures
        (#[trigger] entries_of(s)).len() == s.len(),
        forall|i: int|
            0 <= i < s.len() ==> entries_of(s)[i] == (node_of(s[i].0), node_of(s[i].1)),
    decreases s.len(),
{
    if s.len() > 0 {
        lemma_entries_of(s.drop_first());
    }
}

// ---------------------------------------------------------------------------
// IEEE-754 double comparison, on the bits.
//
// A double is NaN when its exponent field is all ones and its fraction is not
// zero; NaN compares equal or less to nothing.  Positive and negative zero
// are equal.  Otherwise, for doubles of equal sign the order of the bit
// patterns agrees with the numeric order for positive sign and is its
// reverse for negative sign, and every negative double is below every
// positive one.

/// Whether these bits denote an IEEE-754 double NaN.
pub open spec fn spec_float_is_nan(a: u64) -> bool {
    a & 0x7ff0_0000_0000_0000 == 0x7ff0_0000_0000_0000 && a & 0x000f_ffff_ffff_ffff != 0
}

/// Whether these bits denote a zero (of either sign).
pub open spec fn spec_float_is_zero(a: u64) -> bool {
    a & 0x7fff_ffff_ffff_ffff == 0
}

/// IEEE-754 equality of two doubles, given by their bits.
pub open spec fn spec_float_eq(a: u64, b: u64) -> bool {
    !spec_float_is_nan(a) && !spec_float_is_nan(b) && (a == b || (spec_float_is_zero(a)
        && spec_float_is_zero(b)))
}

/// IEEE-754 `<` on two doubles, given by their bits.
pub open spec fn spec_float_lt(a: u64, b: u64) -> bool {
    &&& !spec_float_is_nan(a)
    &&& !spec_float_is_nan(b)
    &&& !(spec_float_is_zero(a) && spec_float_is_zero(b))
    &&& if a >> 63 == 1 && b >> 63 == 0 {
        true
    } else if a >> 63 == 0 && b >> 63 == 1 {
        false
    } else if a >> 63 == 0 {
        a < b
    } else {
        a > b
    }
}

/// Decides IEEE-754 equality of two doubles given by their bits.
pub fn float_eq(a: u64, b: u64) -> (r: bool)
    ensures
        r == spec_float_eq(a, b),
{
    let nan_a: bool = a & 0x7ff0_0000_0000_0000 == 0x7ff0_0000_0000_0000 && a
        & 0x000f_ffff_ffff_ffff != 0;
    let nan_b: bool = b & 0x7ff0_0000_0000_0000 == 0x7ff0_0000_0000_0000 && b
        & 0x000f_ffff_ffff_ffff != 0;
    let zero_a: bool = a & 0x7fff_ffff_ffff_ffff == 0;
    let zero_b: bool = b & 0x7fff_ffff_ffff_ffff == 0;
    !nan_a && !nan_b && (a == b || (zero_a && zero_b))
}

/// Decides IEEE-754 `<` on two doubles given by their bits.
pub fn float_lt(a: u64, b: u64) -> (r: bool)
    ensures
        r == spec_float_lt(a, b),
{
    let nan_a: bool = a & 0x7ff0_0000_0000_0000 == 0x7ff0_0000_0000_0000 && a
        & 0x000f_ffff_ffff_ffff != 0;
    let nan_b: bool = b & 0x7ff0_0000_0000_0000 == 0x7ff0_0000_0000_0000 && b
        & 0x000f_ffff_ffff_ffff != 0;
    let zero_a: bool = a & 0x7fff_ffff_ffff_ffff == 0;
    let zero_b: bool = b & 0x7fff_ffff_ffff_ffff == 0;
    if nan_a || nan_b || (zero_a && zero_b) {
        false
    } else if a >> 63 == 1 && b >> 63 == 0 {
        true
    } else if a >> 63 == 0 && b >> 63 == 1 {
        false
    } else if a >> 63 == 0 {
        a < b
    } else {
        a > b
    }
}

// ---------------------------------------------------------------------------
// Lexicographic order on byte strings.

/// Lexicographic `<` on byte sequences: a proper prefix is below its
/// extensions, and otherwise the first differing byte decides.
pub open spec fn spec_bytes_lt(a: Seq<u8>, b: Seq<u8>) -> bool
    decreases a.len(),
{
    if b.len() == 0 {
        false
    } else if a.len() == 0 {
        true
    } else if a[0] != b[0] {
        a[0] < b[0]
    } else {
        spec_bytes_lt(a.drop_first(), b.drop_first())
    }
}

proof fn lemma_bytes_lt_skip(a: Seq<u8>, b: Seq<u8>, i: int)
    requires
        0 <= i <= a.len(),
        0 <= i <= b.len(),
        forall|j: int| 0 <= j < i ==> a[j] == b[j],
    ensures
        spec_bytes_lt(a, b) == spec_bytes_lt(a.skip(i), b.skip(i)),
    decreases i,
{
    if i > 0 {
        assert(a.len() > 0 && b.len() > 0);
        assert(a[0] == b[0]);
        assert(a.drop_first().skip(i - 1) =~= a.skip(i));
        assert(b.drop_first().skip(i - 1) =~= b.skip(i));
        assert(forall|j: int|
            0 <= j < i - 1 ==> a.drop_first()[j] == #[trigger] b.drop_first()[j]);
        lemma_bytes_lt_skip(a.drop_first(), b.drop_first(), i - 1);
    } else {
        assert(a.skip(0) =~= a);
        assert(b.skip(0) =~= b);
    }
}

/// Decides the lexicographic order of two byte strings.
#[verifier::loop_isolation(false)]
pub fn bytes_lt(a: &Vec<u8>, b: &Vec<u8>) -> (r: bool)
    ensures
        r == spec_bytes_lt(a@, b@),
{
    let mut i: usize = 0;
    loop
        invariant
            0 <= i <= a.len(),
            0 <= i <= b.len(),
            forall|j: int| 0 <= j < i ==> a@[j] == b@[j],
        decreases a.len() - i,
    {
        proof {
            lemma_bytes_lt_skip(a@, b@, i as int);
        }
        if i == b.len() {
            return false;
        }
        if i == a.len() {
            return true;
        }
        if a[i] != b[i] {
            return a[i] < b[i];
        }
        i = i + 1;
    }
}

// ---------------------------------------------------------------------------
// Structural equality.

/// Structural equality of two nodes.
///
/// Scalars of one kind compare by value (floats by IEEE-754 equality, so no
/// NaN equals anything; the undefined value equals nothing).  Arrays are
/// equal when they have the same length and are element-wise equal in order.
/// Maps are equal when they have the same entry count and every entry of the
/// first finds, at the first entry of the second whose key matches its key,
/// a structurally equal value; under duplicate keys this scan is not
/// symmetric, which is kept as the engine defines it.
pub open spec fn spec_value_eq(a: Node, b: Node) -> bool
    decreases a,
{
    match (a, b) {
        (Node::Pos(x), Node::Pos(y)) => x == y,
        (Node::Neg(x), Node::Neg(y)) => x == y,
        (Node::Float(x), Node::Float(y)) => spec_float_eq(x, y),
        (Node::Bool(x), Node::Bool(y)) => x == y,
        (Node::Null, Node::Null) => true,
        (Node::Text(x), Node::Text(y)) => x == y,
        (Node::Bytes(x), Node::Bytes(y)) => x == y,
        (Node::Array(x), Node::Array(y)) => {
            &&& x.len() == y.len()
            &&& forall|i: int| 0 <= i < x.len() ==> spec_value_eq(#[trigger] x[i], y[i])
        },
        (Node::Dict(x), Node::Dict(y)) => {
            &&& x.len() == y.len()
            &&& forall|i: int| 0 <= i < x.len() ==> spec_dict_entry_found(#[trigger] x[i], y)
        },
        _ => false,
    }
}

/// Whether the first entry of `ys` whose key matches `entry`'s key carries a
/// value structurally equal to `entry`'s value.
pub open spec fn spec_dict_entry_found(entry: (Node, Node), ys: Seq<(Node, Node)>) -> bool
    decreases entry,
{
    exists|j: int|
        {
            &&& 0 <= j < ys.len()
            &&& spec_value_eq(entry.0, (#[trigger] ys[j]).0)
            &&& spec_value_eq(entry.1, ys[j].1)
            &&& forall|j2: int| 0 <= j2 < j ==> !spec_value_eq(entry.0, (#[trigger] ys[j2]).0)
        }
}

/// The first value in `entries` whose key is structurally equal to `key`.
pub open spec fn spec_dict_find(entries: Seq<(Node, Node)>, key: Node) -> Option<Node>
    decreases entries.len(),
{
    if entries.len() == 0 {
        Option::None
    } else if spec_value_eq(entries[0].0, key) {
        Option::Some(entries[0].1)
    } else {
        spec_dict_find(entries.drop_first(), key)
    }
}

proof fn lemma_dict_find_skip(entries: Seq<(Node, Node)>, key: Node, i: int)
    requires
        0 <= i <= entries.len(),
        forall|j: int| 0 <= j < i ==> !spec_value_eq((#[trigger] entries[j]).0, key),
    ensures
        spec_dict_find(entries, key) == spec_dict_find(entries.skip(i), key),
    decreases i,
{
    if i > 0 {
        assert(entries.len() > 0);
        assert(!spec_value_eq(entries[0].0, key));
        assert(entries.drop_first().skip(i - 1) =~= entries.skip(i));
        assert(forall|j: int|
            0 <= j < i - 1 ==> !spec_value_eq((#[trigger] entries.drop_first()[j]).0, key));
        lemma_dict_find_skip(entries.drop_first(), key, i - 1);
    } else {
        assert(entries.skip(0) =~= entries);
    }
}

/// Relates the first-match scan to its index: `spec_dict_find` returns the
/// value at the first index whose key matches, and nothing when none does.
pub proof fn lemma_dict_find_characterized(entries: Seq<(Node, Node)>, key: Node, j: int)
    requires
        0 <= j < entries.len(),
        spec_value_eq(entries[j].0, key),
        forall|j2: int| 0 <= j2 < j ==> !spec_value_eq((#[trigger] entries[j2]).0, key),
    ensures
        spec_dict_find(entries, key) == Option::Some(entries[j].1),
{
    lemma_dict_find_skip(entries, key, j);
    assert(entries.skip(j)[0] == entries[j]);
}

/// When no key of `entries` matches `key`, the scan finds nothing.
pub proof fn lemma_dict_find_none(entries: Seq<(Node, Node)>, key: Node)
    requires
        forall|j: int| 0 <= j < entries.len() ==> !spec_value_eq((#[trigger] entries[j]).0, key),
    ensures
        spec_dict_find(entries, key) is None,
{
    lemma_dict_find_skip(entries, key, entries.len() as int);
}

/// Decides structural equality of two nodes.
#[verifier::loop_isolation(false)]
pub fn value_equals(a: &Value, b: &Value) -> (r: bool)
    ensures
        r == spec_value_eq(a@, b@),
    decreases *a,
{
    match (a, b) {
        (Value::Pos(x), Value::Pos(y)) => *x == *y,
        (Value::Neg(x), Value::Neg(y)) => *x == *y,
        (Value::Float(x), Value::Float(y)) => float_eq(*x, *y),
        (Value::Bool(x), Value::Bool(y)) => *x == *y,
        (Value::Null, Value::Null) => true,
        (Value::Text(x), Value::Text(y)) => bytes_equal(x, y),
        (Value::Bytes(x), Value::Bytes(y)) => bytes_equal(x, y),
        (Value::Array(x), Value::Array(y)) => {
            proof {
                lemma_nodes_of(x@);
                lemma_nodes_of(y@);
                assert(a@ == Node::Array(nodes_of(x@)));
                assert(b@ == Node::Array(nodes_of(y@)));
            }
            if x.len() != y.len() {
                return false;
            }
            let mut i: usize = 0;
            while i < x.len()
                invariant
                    0 <= i <= x.len(),
                    x.len() == y.len(),
                    forall|k: int|
                        0 <= k < i ==> spec_value_eq(#[trigger] nodes_of(x@)[k], nodes_of(y@)[k]),
                decreases x.len() - i,
            {
                if !value_equals(&x[i], &y[i]) {
                    proof {
                        let ii = i as int;
                        assert(!spec_value_eq(nodes_of(x@)[ii], nodes_of(y@)[ii]));
                        assert(!spec_value_eq(a@, b@));
                    }
                    return false;
                }
                i = i + 1;
            }
            true
        },
        (Value::Dict(x), Value::Dict(y)) => {
            proof {
                lemma_entries_of(x@);
                lemma_entries_of(y@);
            }
            if x.len() != y.len() {
                return false;
            }
            let ghost xs = entries_of(x@);
            let ghost ys = entries_of(y@);
            let mut i: usize = 0;
            while i < x.len()
                invariant
                    0 <= i <= x.len(),
                    x.len() == y.len(),
                    forall|k: int| 0 <= k < i ==> spec_dict_entry_found(#[trigger] xs[k], ys),
                decreases x.len() - i,
            {
                let mut j: usize = 0;
                let mut found: bool = false;
                while j < y.len() && !found
                    invariant
                        0 <= j <= y.len(),
                        0 <= i < x.len(),
                        x.len() == y.len(),
                        !found ==> forall|j2: int|
                            0 <= j2 < j ==> !spec_value_eq(xs[i as int].0, (#[trigger] ys[j2]).0),
                        found ==> spec_dict_entry_found(xs[i as int], ys),
                    decreases y.len() - j, if found { 0int } else { 1int },
                {
                    if value_equals(&x[i].0, &y[j].0) {
                        if value_equals(&x[i].1, &y[j].1) {
                            proof {
                                let ii = i as int;
                                let jj = j as int;
                                assert(spec_value_eq(xs[ii].0, ys[jj].0));
                                assert(spec_value_eq(xs[ii].1, ys[jj].1));
                                assert(spec_dict_entry_found(xs[ii], ys));
                            }
                            found = true;
                        } else {
                        proof {
                            let ii = i as int;
                            let jj = j as int;
                            assert forall|jm: int|
                                !(0 <= jm < ys.len() && spec_value_eq(
                                    xs[ii].0,
                                    (#[trigger] ys[jm]).0,
                                ) && spec_value_eq(xs[ii].1, ys[jm].1) && (forall|j2: int|
                                    0 <= j2 < jm ==> !spec_value_eq(
                                        xs[ii].0,
                                        (#[trigger] ys[j2]).0,
                                    ))) by {
                                if 0 <= jm < jj {
                                    assert(!spec_value_eq(xs[ii].0, ys[jm].0));
                                } else if jj < jm < ys.len() {
                                    assert(spec_value_eq(xs[ii].0, ys[jj].0));
                                }
                            }
                            assert(!spec_dict_entry_found(xs[ii], ys));
                        }
                        return false;
                        }
                    } else {
                        j = j + 1;
                    }
                }
                if !found {
                    proof {
                        let ii = i as int;
                        assert forall|jm: int|
                            !(0 <= jm < ys.len() && spec_value_eq(xs[ii].0, (#[trigger] ys[jm]).0)
                                && spec_value_eq(xs[ii].1, ys[jm].1) && (forall|j2: int|
                                0 <= j2 < jm ==> !spec_value_eq(
                                    xs[ii].0,
                                    (#[trigger] ys[j2]).0,
                                ))) by {
                            if 0 <= jm < ys.len() {
                                assert(!spec_value_eq(xs[ii].0, ys[jm].0));
                            }
                        }
                        assert(!spec_dict_entry_found(xs[ii], ys));
                    }
                    return false;
                }
                i = i + 1;
            }
            true
        },
        _ => false,
    }
}

/// Decides equality of two byte strings.
#[verifier::loop_isolation(false)]
fn bytes_equal(a: &Vec<u8>, b: &Vec<u8>) -> (r: bool)
    ensures
        r == (a@ == b@),
{
    if a.len() != b.len() {
        return false;
    }
    let mut i: usize = 0;
    while i < a.len()
        invariant
            0 <= i <= a.len(),
            a.len() == b.len(),
            forall|k: int| 0 <= k < i ==> a@[k] == b@[k],
        decreases a.len() - i,
    {
        if a[i] != b[i] {
            return false;
        }
        i = i + 1;
    }
    proof {
        assert(a@ =~= b@);
    }
    true
}

// ---------------------------------------------------------------------------
// In-kind ordering.

/// The `<` the comparison operators use: defined only between two unsigned
/// integers, two negative integers, two floats, two byte strings or two
/// text strings; everything else, containers and mixed kinds among it, is
/// not below anything.  Negative integers compare by their encoded payload
/// `n` of `-1 - n`, as the engine defines it.
pub open spec fn spec_value_lt(a: Node, b: Node) -> bool {
    match (a, b) {
        (Node::Pos(x), Node::Pos(y)) => x < y,
        (Node::Neg(x), Node::Neg(y)) => x < y,
        (Node::Float(x), Node::Float(y)) => spec_float_lt(x, y),
        (Node::Text(x), Node::Text(y)) => spec_bytes_lt(x, y),
        (Node::Bytes(x), Node::Bytes(y)) => spec_bytes_lt(x, y),
        _ => false,
    }
}

/// Decides the in-kind order of two nodes.
pub fn value_lesser_than(a: &Value, b: &Value) -> (r: bool)
    ensures
        r == spec_value_lt(a@, b@),
{
    match (a, b) {
        (Value::Pos(x), Value::Pos(y)) => *x < *y,
        (Value::Neg(x), Value::Neg(y)) => *x < *y,
        (Value::Float(x), Value::Float(y)) => float_lt(*x, *y),
        (Value::Text(x), Value::Text(y)) => bytes_lt(x, y),
        (Value::Bytes(x), Value::Bytes(y)) => bytes_lt(x, y),
        _ => false,
    }
}

// ---------------------------------------------------------------------------
// Identity.

/// Decides whether two values denote the very same node: floats by their
/// bits, maps entry by entry in order.  This is finer than structural
/// equality, which ignores zero signs and entry order.
#[verifier::loop_isolation(false)]
pub fn value_identical(a: &Value, b: &Value) -> (r: bool)
    ensures
        r == (a@ == b@),
    decreases *a,
{
    match (a, b) {
        (Value::Pos(x), Value::Pos(y)) => *x == *y,
        (Value::Neg(x), Value::Neg(y)) => *x == *y,
        (Value::Float(x), Value::Float(y)) => *x == *y,
        (Value::Bool(x), Value::Bool(y)) => *x == *y,
        (Value::Null, Value::Null) => true,
        (Value::Undefined, Value::Undefined) => true,
        (Value::Text(x), Value::Text(y)) => bytes_equal(x, y),
        (Value::Bytes(x), Value::Bytes(y)) => bytes_equal(x, y),
        (Value::Array(x), Value::Array(y)) => {
            proof {
                lemma_nodes_of(x@);
                lemma_nodes_of(y@);
            }
            if x.len() != y.len() {
                return false;
            }
            let mut i: usize = 0;
            while i < x.len()
                invariant
                    0 <= i <= x.len(),
                    x.len() == y.len(),
                    forall|k: int| 0 <= k < i ==> nodes_of(x@)[k] == #[trigger] nodes_of(y@)[k],
                decreases x.len() - i,
            {
                if !value_identical(&x[i], &y[i]) {
                    proof {
                        let ii = i as int;
                        assert(nodes_of(x@)[ii] != nodes_of(y@)[ii]);
                    }
                    return false;
                }
                i = i + 1;
            }
            proof {
                assert(nodes_of(x@) =~= nodes_of(y@));
            }
            true
        },
        (Value::Dict(x), Value::Dict(y)) => {
            proof {
                lemma_entries_of(x@);
                lemma_entries_of(y@);
            }
            if x.len() != y.len() {
                return false;
            }
            let mut i: usize = 0;
            while i < x.len()
                invariant
                    0 <= i <= x.len(),
                    x.len() == y.len(),
                    forall|k: int|
                        0 <= k < i ==> entries_of(x@)[k] == #[trigger] entries_of(y@)[k],
                decreases x.len() - i,
            {
                if !value_identical(&x[i].0, &y[i].0) {
                    proof {
                        let ii = i as int;
                        assert(entries_of(x@)[ii] != entries_of(y@)[ii]);
                    }
                    return false;
                }
                if !value_identical(&x[i].1, &y[i].1) {
                    proof {
                        let ii = i as int;
                        assert(entries_of(x@)[ii] != entries_of(y@)[ii]);
                    }
                    return false;
                }
                proof {
                    let ii = i as int;
                    assert(entries_of(x@)[ii] =~= entries_of(y@)[ii]);
                }
                i = i + 1;
            }
            proof {
                assert(entries_of(x@) =~= entries_of(y@));
            }
            true
        },
        _ => false,
    }
}

// ---------------------------------------------------------------------------
// Deep copy.

/// Copies a node; the copy denotes the same node as its source.
#[verifier::loop_isolation(false)]
pub fn value_clone(v: &Value) -> (r: Value)
    ensures
        r@ == v@,
    decreases *v,
{
    match v {
        Value::Pos(x) => Value::Pos(*x),
        Value::Neg(x) => Value::Neg(*x),
        Value::Float(x) => Value::Float(*x),
        Value::Bool(x) => Value::Bool(*x),
        Value::Null => Value::Null,
        Value::Undefined => Value::Undefined,
        Value::Text(x) => Value::Text(bytes_clone(x)),
        Value::Bytes(x) => Value::Bytes(bytes_clone(x)),
        Value::Array(x) => {
            proof {
                lemma_nodes_of(x@);
            }
            let mut out: Vec<Value> = Vec::new();
            let mut i: usize = 0;
            while i < x.len()
                invariant
                    0 <= i <= x.len(),
                    out@.len() == i,
                    forall|k: int| 0 <= k < i ==> (#[trigger] out@[k])@ == nodes_of(x@)[k],
                decreases x.len() - i,
            {
                out.push(value_clone(&x[i]));
                i = i + 1;
            }
            proof {
                lemma_nodes_of(out@);
                assert(nodes_of(out@) =~= nodes_of(x@));
            }
            Value::Array(out)
        },
        Value::Dict(x) => {
            proof {
                lemma_entries_of(x@);
            }
            let mut out: Vec<(Value, Value)> = Vec::new();
            let mut i: usize = 0;
            while i < x.len()
                invariant
                    0 <= i <= x.len(),
                    out@.len() == i,
                    forall|k: int|
                        0 <= k < i ==> ((#[trigger] out@[k]).0@, out@[k].1@) == entries_of(
                            x@,
                        )[k],
                decreases x.len() - i,
            {
                let pair = (value_clone(&x[i].0), value_clone(&x[i].1));
                out.push(pair);
                i = i + 1;
            }
            proof {
                lemma_entries_of(out@);
                assert(entries_of(out@) =~= entries_of(x@));
            }
            Value::Dict(out)
        },
    }
}

/// Copies a byte string.
#[verifier::loop_isolation(false)]
fn bytes_clone(v: &Vec<u8>) -> (r: Vec<u8>)
    ensures
        r@ == v@,
{
    let mut out: Vec<u8> = Vec::new();
    let mut i: usize = 0;
    while i < v.len()
        invariant
            0 <= i <= v.len(),
            out@.len() == i,
            forall|k: int| 0 <= k < i ==> out@[k] == v@[k],
        decreases v.len() - i,
    {
        out.push(v[i]);
        i = i + 1;
    }
    proof {
        assert(out@ =~= v@);
    }
    out
}

} // verus!
