//! Locations: the structural address of a node inside a document, as a
//! sequence of array indices and map keys, and the resolution of such an
//! address against a document.

use vstd::prelude::*;
use crate::value::{
    lemma_entries_of, spec_dict_find, spec_value_eq, value_clone, value_equals, value_identical,
    lemma_dict_find_characterized, lemma_dict_find_none, Node, Value,
};

verus! {

/// The mathematical shape of one location step.
#[verifier::ext_equal]
pub enum PathStep {
    /// An index into an array.
    Index(int),
    /// A key of a map.
    Key(Node),
}

/// One element of a location: an array index or a map key.
#[derive(Debug, PartialEq, Eq)]
pub enum PathElement {
    /// Index in an array.
    Index(usize),
    /// Key in a map.
    Key(Value),
}

impl View for PathElement {
    type V = PathStep;

    open spec fn view(&self) -> PathStep {
        match self {
            PathElement::Index(i) => PathStep::Index(*i as int),
            PathElement::Key(k) => PathStep::Key(k@),
        }
    }
}

/// The steps a sequence of path elements denotes, element-wise.
pub open spec fn steps_of(s: Seq<PathElement>) -> Seq<PathStep> {
    Seq::new(s.len(), |i: int| s[i]@)
}

/// A location: the address of a node, from the document root downward.
#[derive(Debug, PartialEq, Eq)]
pub struct Path(Vec<PathElement>);

impl View for Path {
    type V = Seq<PathStep>;

    closed spec fn view(&self) -> Seq<PathStep> {
        steps_of(self.0@)
    }
}

impl Default for Path {
    /// The empty location: the document root.
    fn default() -> (r: Path)
        ensures
            r@ == Seq::<PathStep>::empty(),
    {
        let r = Path(Vec::new());
        proof {
            assert(r@ =~= Seq::<PathStep>::empty());
        }
        r
    }
}

impl Path {
    /// The empty location: the document root.
    pub fn new() -> (r: Path)
        ensures
            r@ == Seq::<PathStep>::empty(),
    {
        let r = Path(Vec::new());
        proof {
            assert(r@ =~= Seq::<PathStep>::empty());
        }
        r
    }

    /// A copy of this location with an array index appended.
    pub fn append_index(&self, index: usize) -> (r: Path)
        ensures
            r@ == self@.push(PathStep::Index(index as int)),
    {
        let mut elements = path_elements_clone(&self.0);
        elements.push(PathElement::Index(index));
        let r = Path(elements);
        proof {
            assert(r@ =~= self@.push(PathStep::Index(index as int)));
        }
        r
    }

    /// A copy of this location with a map key appended.
    pub fn append_key(&self, key: &Value) -> (r: Path)
        ensures
            r@ == self@.push(PathStep::Key(key@)),
    {
        let mut elements = path_elements_clone(&self.0);
        elements.push(PathElement::Key(value_clone(key)));
        let r = Path(elements);
        proof {
            assert(r@ =~= self@.push(PathStep::Key(key@)));
        }
        r
    }

    /// This location with an array index appended.
    pub fn idx(self, index: usize) -> (r: Path)
        ensures
            r@ == self@.push(PathStep::Index(index as int)),
    {
        let ghost old_self = self@;
        let Path(mut elements) = self;
        elements.push(PathElement::Index(index));
        let r = Path(elements);
        proof {
            assert(r@ =~= old_self.push(PathStep::Index(index as int)));
        }
        r
    }

    /// This location with a map key appended.
    pub fn key(self, key: Value) -> (r: Path)
        ensures
            r@ == self@.push(PathStep::Key(key@)),
    {
        let ghost old_self = self@;
        let Path(mut elements) = self;
        elements.push(PathElement::Key(key));
        let r = Path(elements);
        proof {
            assert(r@ =~= old_self.push(PathStep::Key(key@)));
        }
        r
    }

    /// A copy of this location.
    pub fn duplicate(&self) -> (r: Path)
        ensures
            r@ == self@,
    {
        Path(path_elements_clone(&self.0))
    }

    /// How many steps the location has.
    pub fn len(&self) -> (r: usize)
        ensures
            r == self@.len(),
    {
        self.0.len()
    }

    /// The location's elements, for a caller that walks them.
    pub fn elements(&self) -> (r: &Vec<PathElement>)
        ensures
            r@.len() == self@.len(),
            forall|i: int| 0 <= i < r@.len() ==> (#[trigger] r@[i])@ == self@[i],
    {
        &self.0
    }

    /// Drops the last step; the empty location stays empty.
    pub fn pop(&mut self) -> (r: Option<PathElement>)
        ensures
            old(self)@.len() == 0 ==> final(self)@ == old(self)@ && r is None,
            old(self)@.len() > 0 ==> final(self)@ == old(self)@.drop_last() && r is Some,
    {
        let r = self.0.pop();
        proof {
            if old(self)@.len() > 0 {
                assert(self@ =~= old(self)@.drop_last());
            } else {
                assert(self@ =~= old(self)@);
            }
        }
        r
    }

    /// Whether this location and `other` denote the same address.
    pub fn equals(&self, other: &Path) -> (r: bool)
        ensures
            r == (self@ == other@),
    {
        if self.0.len() != other.0.len() {
            proof {
                assert(self@.len() != other@.len());
            }
            return false;
        }
        let mut i: usize = 0;
        while i < self.0.len()
            invariant
                0 <= i <= self.0.len(),
                self.0.len() == other.0.len(),
                forall|k: int| 0 <= k < i ==> self@[k] == #[trigger] other@[k],
            decreases self.0.len() - i,
        {
            if !path_element_identical(&self.0[i], &other.0[i]) {
                proof {
                    let ii = i as int;
                    assert(self@[ii] != other@[ii]);
                }
                return false;
            }
            i = i + 1;
        }
        proof {
            assert(self@ =~= other@);
        }
        true
    }

    /// Whether this location is a strict prefix of `other`: an ancestor of
    /// the node `other` addresses.
    pub fn is_parent_of(&self, other: &Path) -> (r: bool)
        ensures
            r == spec_is_strict_prefix(self@, other@),
    {
        if self.0.len() >= other.0.len() {
            return false;
        }
        let mut i: usize = 0;
        while i < self.0.len()
            invariant
                0 <= i <= self.0.len(),
                self.0.len() < other.0.len(),
                forall|k: int| 0 <= k < i ==> self@[k] == #[trigger] other@[k],
            decreases self.0.len() - i,
        {
            if !path_element_identical(&self.0[i], &other.0[i]) {
                proof {
                    let ii = i as int;
                    assert(self@[ii] != other@[ii]);
                }
                return false;
            }
            i = i + 1;
        }
        true
    }
}

#[verifier::loop_isolation(false)]
fn path_elements_clone(v: &Vec<PathElement>) -> (r: Vec<PathElement>)
    ensures
        steps_of(r@) == steps_of(v@),
{
    let mut out: Vec<PathElement> = Vec::new();
    let mut i: usize = 0;
    while i < v.len()
        invariant
            0 <= i <= v.len(),
            out@.len() == i,
            forall|k: int| 0 <= k < i ==> (#[trigger] out@[k])@ == v@[k]@,
        decreases v.len() - i,
    {
        let e = match &v[i] {
            PathElement::Index(idx) => PathElement::Index(*idx),
            PathElement::Key(k) => PathElement::Key(value_clone(k)),
        };
        out.push(e);
        i = i + 1;
    }
    proof {
        assert(steps_of(out@) =~= steps_of(v@));
    }
    out
}

/// Decides whether two path elements denote the same step.
fn path_element_identical(a: &PathElement, b: &PathElement) -> (r: bool)
    ensures
        r == (a@ == b@),
{
    match (a, b) {
        (PathElement::Index(x), PathElement::Index(y)) => *x == *y,
        (PathElement::Key(x), PathElement::Key(y)) => value_identical(x, y),
        _ => false,
    }
}

/// Whether `a` is a prefix of `b`.
pub open spec fn spec_is_prefix(a: Seq<PathStep>, b: Seq<PathStep>) -> bool {
    a.len() <= b.len() && forall|i: int| 0 <= i < a.len() ==> a[i] == #[trigger] b[i]
}

/// Whether `a` is a strict prefix of `b`.
pub open spec fn spec_is_strict_prefix(a: Seq<PathStep>, b: Seq<PathStep>) -> bool {
    a.len() < b.len() && forall|i: int| 0 <= i < a.len() ==> a[i] == #[trigger] b[i]
}

// ---------------------------------------------------------------------------
// Resolution of a location against a document.

/// The node a location addresses within `doc`: the root for the empty
/// location; for an index step, that element of an array; for a key step,
/// the value at the first structurally matching key of a map; nothing when
/// a step does not apply.
pub open spec fn spec_resolve(doc: Node, loc: Seq<PathStep>) -> Option<Node>
    decreases loc.len(),
{
    if loc.len() == 0 {
        Option::Some(doc)
    } else {
        match (doc, loc[0]) {
            (Node::Array(children), PathStep::Index(i)) => {
                if 0 <= i < children.len() {
                    spec_resolve(children[i], loc.drop_first())
                } else {
                    Option::None
                }
            },
            (Node::Dict(entries), PathStep::Key(k)) => {
                match spec_dict_find(entries, k) {
                    Option::Some(v) => spec_resolve(v, loc.drop_first()),
                    Option::None => Option::None,
                }
            },
            _ => Option::None,
        }
    }
}

/// Follows a location through a document and hands back a copy of the node
/// it addresses, or nothing when the location does not resolve.
#[verifier::loop_isolation(false)]
pub fn resolve(doc: &Value, path: &Path) -> (r: Option<Value>)
    ensures
        r is Some <==> spec_resolve(doc@, path@) is Some,
        r matches Some(v) ==> spec_resolve(doc@, path@) == Option::Some(v@),
{
    let elements = path.elements();
    let mut current: &Value = doc;
    let mut i: usize = 0;
    proof {
        assert(path@.skip(0) =~= path@);
    }
    while i < elements.len()
        invariant
            0 <= i <= elements.len(),
            spec_resolve(doc@, path@) == spec_resolve(current@, path@.skip(i as int)),
        decreases elements.len() - i,
    {
        proof {
            assert(path@.skip(i as int)[0] == path@[i as int]);
            assert(path@.skip(i as int).drop_first() =~= path@.skip(i as int + 1));
        }
        match (current, &elements[i]) {
            (Value::Array(children), PathElement::Index(idx)) => {
                proof {
                    crate::value::lemma_nodes_of(children@);
                }
                if *idx < children.len() {
                    current = &children[*idx];
                } else {
                    return None;
                }
            },
            (Value::Dict(entries), PathElement::Key(k)) => {
                proof {
                    lemma_entries_of(entries@);
                }
                let ghost es = crate::value::entries_of(entries@);
                let mut j: usize = 0;
                let mut next: Option<&Value> = None;
                while j < entries.len() && next.is_none()
                    invariant
                        0 <= j <= entries.len(),
                        next is None ==> forall|j2: int|
                            0 <= j2 < j ==> !spec_value_eq((#[trigger] es[j2]).0, k@),
                        next matches Some(v) ==> spec_dict_find(es, k@) == Option::Some(v@),
                    decreases entries.len() - j, if next is Some { 0int } else { 1int },
                {
                    if value_equals(&entries[j].0, k) {
                        proof {
                            lemma_dict_find_characterized(es, k@, j as int);
                        }
                        next = Some(&entries[j].1);
                    } else {
                        j = j + 1;
                    }
                }
                match next {
                    Some(v) => {
                        current = v;
                    },
                    None => {
                        proof {
                            lemma_dict_find_none(es, k@);
                        }
                        return None;
                    },
                }
            },
            _ => {
                return None;
            },
        }
        i = i + 1;
    }
    proof {
        assert(path@.skip(elements.len() as int) =~= Seq::<PathStep>::empty());
    }
    Some(value_clone(current))
}

} // verus!
