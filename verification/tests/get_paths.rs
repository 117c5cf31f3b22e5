#![allow(dead_code)]

use cborpath::ast::{
    AbsolutePath, BooleanExpr, CborPath, Comparable, ComparisonExpr, ComparisonOperator,
    FilterPath, FilterSelector, Function, IndexSelector, KeySelector, RelativePath, Segment,
    Selector, SingularPath, SingularSegment, SliceSelector,
};
use cborpath::regexp::CompiledRegex;
use cborpath::path::Path;
use cborpath::value::Value;

fn text(s: &str) -> Value {
    Value::Text(s.as_bytes().to_vec())
}

fn num(i: i64) -> Value {
    if i >= 0 {
        Value::Pos(i as u64)
    } else {
        Value::Neg((-1 - i) as u64)
    }
}

fn float(x: f64) -> Value {
    Value::Float(x.to_bits())
}

fn array(items: Vec<Value>) -> Value {
    Value::Array(items)
}

fn dict(entries: Vec<(Value, Value)>) -> Value {
    Value::Dict(entries)
}

fn path(segments: Vec<Segment>) -> CborPath {
    CborPath(AbsolutePath(segments))
}

fn sel_key(s: &str) -> Selector {
    Selector::Key(KeySelector(text(s)))
}

fn seg_key(s: &str) -> Segment {
    Segment::Child(vec![sel_key(s)])
}

fn seg_wildcard() -> Segment {
    Segment::Child(vec![Selector::Wildcard])
}

fn seg_index(i: isize) -> Segment {
    Segment::Child(vec![Selector::Index(IndexSelector(i))])
}

fn seg_slice(a: isize, b: isize, c: isize) -> Segment {
    Segment::Child(vec![Selector::Slice(SliceSelector(a, b, c))])
}

fn seg_filter(e: BooleanExpr) -> Segment {
    Segment::Child(vec![Selector::Filter(FilterSelector(e))])
}

fn rel(segments: Vec<Segment>) -> FilterPath {
    FilterPath::Rel(RelativePath(segments))
}

fn abs(segments: Vec<Segment>) -> FilterPath {
    FilterPath::Abs(AbsolutePath(segments))
}

fn sing_rel(steps: Vec<SingularSegment>) -> Comparable {
    Comparable::SingularPath(SingularPath::Rel(steps))
}

fn sing_abs(steps: Vec<SingularSegment>) -> Comparable {
    Comparable::SingularPath(SingularPath::Abs(steps))
}

fn sing_key(s: &str) -> SingularSegment {
    SingularSegment::Key(KeySelector(text(s)))
}

fn lit(v: Value) -> Comparable {
    Comparable::Value(v)
}

fn cmp(l: Comparable, op: ComparisonOperator, r: Comparable) -> BooleanExpr {
    BooleanExpr::Comparison(ComparisonExpr(l, op, r))
}

fn c_eq(l: Comparable, r: Comparable) -> BooleanExpr {
    cmp(l, ComparisonOperator::Eq, r)
}

fn c_neq(l: Comparable, r: Comparable) -> BooleanExpr {
    cmp(l, ComparisonOperator::Neq, r)
}

fn c_lt(l: Comparable, r: Comparable) -> BooleanExpr {
    cmp(l, ComparisonOperator::Lt, r)
}

fn c_lte(l: Comparable, r: Comparable) -> BooleanExpr {
    cmp(l, ComparisonOperator::Lte, r)
}

fn c_gt(l: Comparable, r: Comparable) -> BooleanExpr {
    cmp(l, ComparisonOperator::Gt, r)
}

fn c_gte(l: Comparable, r: Comparable) -> BooleanExpr {
    cmp(l, ComparisonOperator::Gte, r)
}

fn present(fp: FilterPath) -> BooleanExpr {
    BooleanExpr::Path(fp)
}

fn b_and(l: BooleanExpr, r: BooleanExpr) -> BooleanExpr {
    BooleanExpr::And(Box::new(l), Box::new(r))
}

fn b_or(l: BooleanExpr, r: BooleanExpr) -> BooleanExpr {
    BooleanExpr::Or(Box::new(l), Box::new(r))
}

fn f_search(c: Comparable, pat: &str) -> BooleanExpr {
    BooleanExpr::Function(Function::Regex(
        Box::new(c),
        CompiledRegex::compile(pat.as_bytes()).unwrap(),
    ))
}

fn f_match(c: Comparable, pat: &str) -> BooleanExpr {
    let anchored = format!("^{pat}$");
    BooleanExpr::Function(Function::Regex(
        Box::new(c),
        CompiledRegex::compile(anchored.as_bytes()).unwrap(),
    ))
}

fn filter_doc() -> Value {
    dict(vec![
        (
            text("a"),
            array(vec![
                num(3),
                num(5),
                num(1),
                num(2),
                num(4),
                num(6),
                dict(vec![(text("b"), text("j"))]),
                dict(vec![(text("b"), text("k"))]),
                dict(vec![(text("b"), dict(vec![]))]),
                dict(vec![(text("b"), text("kilo"))]),
            ]),
        ),
        (
            text("o"),
            dict(vec![
                (text("p"), num(1)),
                (text("q"), num(2)),
                (text("r"), num(3)),
                (text("s"), num(5)),
                (text("t"), dict(vec![(text("u"), num(6))])),
            ]),
        ),
        (text("e"), text("f")),
    ])
}

fn book(entries: Vec<(&str, Value)>) -> Value {
    dict(entries.into_iter().map(|(k, v)| (text(k), v)).collect())
}

fn all_books() -> Vec<Value> {
    vec![
        book(vec![
            ("category", text("reference")),
            ("author", text("Nigel Rees")),
            ("title", text("Sayings of the Century")),
            ("price", float(8.95)),
        ]),
        book(vec![
            ("category", text("fiction")),
            ("author", text("Evelyn Waugh")),
            ("title", text("Sword of Honour")),
            ("price", float(12.99)),
        ]),
        book(vec![
            ("category", text("fiction")),
            ("author", text("Herman Melville")),
            ("title", text("Moby Dick")),
            ("isbn", text("0-553-21311-3")),
            ("price", float(8.99)),
        ]),
        book(vec![
            ("category", text("fiction")),
            ("author", text("J. R. R. Tolkien")),
            ("title", text("The Lord of the Rings")),
            ("isbn", text("0-395-19395-8")),
            ("price", float(22.99)),
        ]),
    ]
}

fn bicycle() -> Value {
    dict(vec![(text("color"), text("red")), (text("price"), num(399))])
}

fn store_doc() -> Value {
    dict(vec![(
        text("store"),
        dict(vec![
            (
                text("book"),
                array(vec![
                    book(vec![
                        ("category", text("reference")),
                        ("author", text("Nigel Rees")),
                        ("title", text("Sayings of the Century")),
                        ("price", float(8.95)),
                    ]),
                    book(vec![
                        ("category", text("fiction")),
                        ("author", text("Evelyn Waugh")),
                        ("title", text("Sword of Honour")),
                        ("price", float(12.99)),
                    ]),
                    book(vec![
                        ("category", text("fiction")),
                        ("author", text("Herman Melville")),
                        ("title", text("Moby Dick")),
                        ("isbn", text("0-553-21311-3")),
                        ("price", float(8.99)),
                    ]),
                    book(vec![
                        ("category", text("fiction")),
                        ("author", text("J. R. R. Tolkien")),
                        ("title", text("The Lord of the Rings")),
                        ("isbn", text("0-395-19395-8")),
                        ("price", float(22.99)),
                    ]),
                ]),
            ),
            (
                text("bicycle"),
                dict(vec![(text("color"), text("red")), (text("price"), num(399))]),
            ),
        ]),
    )])
}


fn p() -> Path {
    Path::new()
}

trait PathExt {
    fn k(self, s: &str) -> Path;
}

impl PathExt for Path {
    fn k(self, s: &str) -> Path {
        self.key(text(s))
    }
}

#[test]
fn get_paths_root() {
    let doc = dict(vec![(text("k"), text("v"))]);

    let cbor_path = CborPath::new(vec![]);
    let result = cbor_path.get_paths(&doc);
    assert_eq!(vec![Path::default()], result);
}

#[test]
fn get_paths_key() {
    let doc = dict(vec![
        (
            text("o"),
            dict(vec![(text("j j"), dict(vec![(text("k k"), num(3))]))]),
        ),
        (text("*"), dict(vec![(text("@"), num(2))])),
    ]);

    let cbor_path = path(vec![seg_key("o"), seg_key("j j"), seg_key("k k")]);
    assert_eq!(vec![p().k("o").k("j j").k("k k")], cbor_path.get_paths(&doc));

    let cbor_path = path(vec![seg_key("*"), seg_key("@")]);
    assert_eq!(vec![p().k("*").k("@")], cbor_path.get_paths(&doc));
}

#[test]
fn get_paths_wildcard() {
    let doc = dict(vec![
        (text("o"), dict(vec![(text("j"), num(1)), (text("k"), num(2))])),
        (text("a"), array(vec![num(5), num(3)])),
    ]);

    let cbor_path = path(vec![seg_wildcard()]);
    assert_eq!(vec![p().k("o"), p().k("a")], cbor_path.get_paths(&doc));

    let cbor_path = path(vec![seg_key("o"), seg_wildcard()]);
    assert_eq!(
        vec![p().k("o").k("j"), p().k("o").k("k")],
        cbor_path.get_paths(&doc)
    );

    let cbor_path = path(vec![
        seg_key("o"),
        Segment::Child(vec![Selector::Wildcard, Selector::Wildcard]),
    ]);
    assert_eq!(
        vec![
            p().k("o").k("j"),
            p().k("o").k("k"),
            p().k("o").k("j"),
            p().k("o").k("k"),
        ],
        cbor_path.get_paths(&doc)
    );

    let cbor_path = path(vec![seg_key("a"), seg_wildcard()]);
    assert_eq!(
        vec![p().k("a").idx(0), p().k("a").idx(1)],
        cbor_path.get_paths(&doc)
    );
}

#[test]
fn get_paths_index() {
    let doc = array(vec![text("a"), text("b")]);

    let cbor_path = path(vec![seg_index(1)]);
    assert_eq!(vec![p().idx(1)], cbor_path.get_paths(&doc));

    let cbor_path = path(vec![seg_index(-2)]);
    assert_eq!(vec![p().idx(0)], cbor_path.get_paths(&doc));
}

#[test]
fn get_paths_slice() {
    let doc = array(vec![
        text("a"),
        text("b"),
        text("c"),
        text("d"),
        text("e"),
        text("f"),
        text("g"),
    ]);

    let cbor_path = path(vec![seg_slice(1, 3, 1)]);
    assert_eq!(vec![p().idx(1), p().idx(2)], cbor_path.get_paths(&doc));

    let cbor_path = path(vec![seg_slice(1, 5, 2)]);
    assert_eq!(vec![p().idx(1), p().idx(3)], cbor_path.get_paths(&doc));

    let cbor_path = path(vec![seg_slice(5, 1, -2)]);
    assert_eq!(vec![p().idx(5), p().idx(3)], cbor_path.get_paths(&doc));

    let cbor_path = path(vec![seg_slice(0, 7, 3)]);
    assert_eq!(
        vec![p().idx(0), p().idx(3), p().idx(6)],
        cbor_path.get_paths(&doc)
    );

    let cbor_path = path(vec![seg_slice(6, -8, -3)]);
    assert_eq!(
        vec![p().idx(6), p().idx(3), p().idx(0)],
        cbor_path.get_paths(&doc)
    );

    let cbor_path = path(vec![seg_slice(5, -8, -3)]);
    assert_eq!(vec![p().idx(5), p().idx(2)], cbor_path.get_paths(&doc));

    let cbor_path = path(vec![seg_slice(6, -8, -1)]);
    assert_eq!(
        vec![
            p().idx(6),
            p().idx(5),
            p().idx(4),
            p().idx(3),
            p().idx(2),
            p().idx(1),
            p().idx(0),
        ],
        cbor_path.get_paths(&doc)
    );
}

#[test]
fn get_paths_filter() {
    let doc = filter_doc();

    let cbor_path = path(vec![
        seg_key("a"),
        seg_filter(c_eq(sing_rel(vec![sing_key("b")]), lit(text("kilo")))),
    ]);
    assert_eq!(vec![p().k("a").idx(9)], cbor_path.get_paths(&doc));

    let cbor_path = path(vec![seg_key("a"), seg_filter(c_gt(sing_rel(vec![]), lit(num(3))))]);
    assert_eq!(
        vec![p().k("a").idx(1), p().k("a").idx(4), p().k("a").idx(5)],
        cbor_path.get_paths(&doc)
    );

    let cbor_path = path(vec![seg_key("a"), seg_filter(present(rel(vec![seg_key("b")])))]);
    assert_eq!(
        vec![
            p().k("a").idx(6),
            p().k("a").idx(7),
            p().k("a").idx(8),
            p().k("a").idx(9),
        ],
        cbor_path.get_paths(&doc)
    );

    let cbor_path = path(vec![seg_filter(present(rel(vec![seg_wildcard()])))]);
    assert_eq!(vec![p().k("a"), p().k("o")], cbor_path.get_paths(&doc));

    let cbor_path = path(vec![seg_filter(present(rel(vec![seg_filter(present(rel(vec![
        seg_key("b"),
    ])))])))]);
    assert_eq!(vec![p().k("a")], cbor_path.get_paths(&doc));

    let cbor_path = path(vec![
        seg_key("o"),
        Segment::Child(vec![
            Selector::Filter(FilterSelector(c_lt(sing_rel(vec![]), lit(num(3))))),
            Selector::Filter(FilterSelector(c_lt(sing_rel(vec![]), lit(num(3))))),
        ]),
    ]);
    assert_eq!(
        vec![
            p().k("o").k("p"),
            p().k("o").k("q"),
            p().k("o").k("p"),
            p().k("o").k("q"),
        ],
        cbor_path.get_paths(&doc)
    );

    let cbor_path = path(vec![
        seg_key("a"),
        seg_filter(b_or(
            c_lt(sing_rel(vec![]), lit(num(2))),
            c_eq(sing_rel(vec![sing_key("b")]), lit(text("k"))),
        )),
    ]);
    assert_eq!(
        vec![p().k("a").idx(2), p().k("a").idx(7)],
        cbor_path.get_paths(&doc)
    );

    let cbor_path = path(vec![
        seg_key("a"),
        seg_filter(f_match(sing_rel(vec![sing_key("b")]), "[jk]")),
    ]);
    assert_eq!(
        vec![p().k("a").idx(6), p().k("a").idx(7)],
        cbor_path.get_paths(&doc)
    );

    let cbor_path = path(vec![
        seg_key("a"),
        seg_filter(f_search(sing_rel(vec![sing_key("b")]), "[jk]")),
    ]);
    assert_eq!(
        vec![p().k("a").idx(6), p().k("a").idx(7), p().k("a").idx(9)],
        cbor_path.get_paths(&doc)
    );

    let cbor_path = path(vec![
        seg_key("o"),
        seg_filter(b_and(
            c_gt(sing_rel(vec![]), lit(num(1))),
            c_lt(sing_rel(vec![]), lit(num(4))),
        )),
    ]);
    assert_eq!(
        vec![p().k("o").k("q"), p().k("o").k("r")],
        cbor_path.get_paths(&doc)
    );

    let cbor_path = path(vec![
        seg_key("o"),
        seg_filter(b_or(
            present(rel(vec![seg_key("u")])),
            present(rel(vec![seg_key("x")])),
        )),
    ]);
    assert_eq!(vec![p().k("o").k("t")], cbor_path.get_paths(&doc));

    let cbor_path = path(vec![
        seg_key("a"),
        seg_filter(c_eq(sing_rel(vec![sing_key("b")]), sing_abs(vec![sing_key("x")]))),
    ]);
    assert_eq!(
        vec![
            p().k("a").idx(0),
            p().k("a").idx(1),
            p().k("a").idx(2),
            p().k("a").idx(3),
            p().k("a").idx(4),
            p().k("a").idx(5),
        ],
        cbor_path.get_paths(&doc)
    );
}

#[test]
fn get_paths_child_segment() {
    let doc = array(vec![
        text("a"),
        text("b"),
        text("c"),
        text("d"),
        text("e"),
        text("f"),
        text("g"),
    ]);

    let cbor_path = path(vec![Segment::Child(vec![
        Selector::Index(IndexSelector(0)),
        Selector::Index(IndexSelector(3)),
    ])]);
    assert_eq!(vec![p().idx(0), p().idx(3)], cbor_path.get_paths(&doc));

    let cbor_path = path(vec![Segment::Child(vec![
        Selector::Slice(SliceSelector(0, 2, 1)),
        Selector::Index(IndexSelector(5)),
    ])]);
    assert_eq!(
        vec![p().idx(0), p().idx(1), p().idx(5)],
        cbor_path.get_paths(&doc)
    );

    let cbor_path = path(vec![Segment::Child(vec![
        Selector::Index(IndexSelector(0)),
        Selector::Index(IndexSelector(0)),
    ])]);
    assert_eq!(vec![p().idx(0), p().idx(0)], cbor_path.get_paths(&doc));
}

#[test]
fn get_paths_descendant_segment() {
    let doc = dict(vec![
        (text("o"), dict(vec![(text("j"), num(1)), (text("k"), num(2))])),
        (
            text("a"),
            array(vec![
                num(5),
                num(3),
                array(vec![
                    dict(vec![(text("j"), num(4))]),
                    dict(vec![(text("k"), num(6))]),
                ]),
            ]),
        ),
    ]);

    let cbor_path = path(vec![Segment::Descendant(vec![sel_key("j")])]);
    assert_eq!(
        vec![p().k("o").k("j"), p().k("a").idx(2).idx(0).k("j")],
        cbor_path.get_paths(&doc)
    );

    let cbor_path = path(vec![Segment::Descendant(vec![Selector::Index(IndexSelector(0))])]);
    assert_eq!(
        vec![p().k("a").idx(0), p().k("a").idx(2).idx(0)],
        cbor_path.get_paths(&doc)
    );

    let cbor_path = path(vec![Segment::Descendant(vec![Selector::Wildcard])]);
    assert_eq!(
        vec![
            p().k("o"),
            p().k("a"),
            p().k("o").k("j"),
            p().k("o").k("k"),
            p().k("a").idx(0),
            p().k("a").idx(1),
            p().k("a").idx(2),
            p().k("a").idx(2).idx(0),
            p().k("a").idx(2).idx(1),
            p().k("a").idx(2).idx(0).k("j"),
            p().k("a").idx(2).idx(1).k("k"),
        ],
        cbor_path.get_paths(&doc)
    );

    let cbor_path = path(vec![Segment::Descendant(vec![sel_key("o")])]);
    assert_eq!(vec![p().k("o")], cbor_path.get_paths(&doc));

    let cbor_path = path(vec![
        seg_key("o"),
        Segment::Descendant(vec![Selector::Wildcard, Selector::Wildcard]),
    ]);
    assert_eq!(
        vec![
            p().k("o").k("j"),
            p().k("o").k("k"),
            p().k("o").k("j"),
            p().k("o").k("k"),
        ],
        cbor_path.get_paths(&doc)
    );

    let cbor_path = path(vec![
        seg_key("a"),
        Segment::Descendant(vec![
            Selector::Index(IndexSelector(0)),
            Selector::Index(IndexSelector(1)),
        ]),
    ]);
    assert_eq!(
        vec![
            p().k("a").idx(0),
            p().k("a").idx(1),
            p().k("a").idx(2).idx(0),
            p().k("a").idx(2).idx(1),
        ],
        cbor_path.get_paths(&doc)
    );
}

#[test]
fn get_paths_null() {
    let doc = dict(vec![
        (text("a"), Value::Null),
        (text("b"), array(vec![Value::Null])),
        (text("c"), array(vec![dict(vec![])])),
        (text("null"), num(1)),
    ]);

    let cbor_path = path(vec![seg_key("a")]);
    assert_eq!(vec![p().k("a")], cbor_path.get_paths(&doc));

    let cbor_path = path(vec![seg_key("a"), seg_index(0)]);
    assert_eq!(Vec::<Path>::new(), cbor_path.get_paths(&doc));

    let cbor_path = path(vec![seg_key("a"), seg_key("d")]);
    assert_eq!(Vec::<Path>::new(), cbor_path.get_paths(&doc));

    let cbor_path = path(vec![seg_key("b"), seg_index(0)]);
    assert_eq!(vec![p().k("b").idx(0)], cbor_path.get_paths(&doc));

    let cbor_path = path(vec![seg_key("b"), seg_wildcard()]);
    assert_eq!(vec![p().k("b").idx(0)], cbor_path.get_paths(&doc));

    let cbor_path = path(vec![seg_key("b"), seg_filter(present(rel(vec![])))]);
    assert_eq!(vec![p().k("b").idx(0)], cbor_path.get_paths(&doc));

    let cbor_path = path(vec![
        seg_key("b"),
        seg_filter(c_eq(sing_rel(vec![]), lit(Value::Null))),
    ]);
    assert_eq!(vec![p().k("b").idx(0)], cbor_path.get_paths(&doc));

    let cbor_path = path(vec![
        seg_key("b"),
        seg_filter(c_eq(sing_rel(vec![sing_key("d")]), lit(Value::Null))),
    ]);
    assert_eq!(Vec::<Path>::new(), cbor_path.get_paths(&doc));

    let cbor_path = path(vec![seg_key("null")]);
    assert_eq!(vec![p().k("null")], cbor_path.get_paths(&doc));
}

#[test]
fn get_paths_count() {
    let doc = dict(vec![
        (text("o"), dict(vec![(text("j"), num(1)), (text("k"), num(2))])),
        (
            text("a"),
            array(vec![
                num(5),
                num(3),
                array(vec![
                    dict(vec![(text("j"), num(4))]),
                    dict(vec![(text("k"), num(6))]),
                ]),
            ]),
        ),
    ]);

    let cbor_path = path(vec![seg_filter(c_eq(
        Comparable::Function(Function::Count(rel(vec![seg_wildcard()]))),
        lit(num(2)),
    ))]);
    assert_eq!(vec![p().k("o")], cbor_path.get_paths(&doc));
}

#[test]
fn get_paths_filter_root_current() {
    let doc = dict(vec![
        (text("a"), dict(vec![(text("k"), num(1))])),
        (text("b"), dict(vec![(text("k"), num(3))])),
        (text("c"), num(2)),
    ]);

    let cbor_path = path(vec![Segment::Descendant(vec![Selector::Filter(FilterSelector(
        c_lt(sing_rel(vec![sing_key("k")]), sing_abs(vec![sing_key("c")])),
    ))])]);
    assert_eq!(vec![p().k("a")], cbor_path.get_paths(&doc));
}

#[test]
fn get_paths_store() {
    let doc = store_doc();

    let cbor_path = path(vec![
        seg_key("store"),
        seg_key("book"),
        seg_wildcard(),
        seg_key("author"),
    ]);
    let author_paths = vec![
        p().k("store").k("book").idx(0).k("author"),
        p().k("store").k("book").idx(1).k("author"),
        p().k("store").k("book").idx(2).k("author"),
        p().k("store").k("book").idx(3).k("author"),
    ];
    assert_eq!(author_paths, cbor_path.get_paths(&doc));

    let cbor_path = path(vec![Segment::Descendant(vec![sel_key("author")])]);
    let author_paths = vec![
        p().k("store").k("book").idx(0).k("author"),
        p().k("store").k("book").idx(1).k("author"),
        p().k("store").k("book").idx(2).k("author"),
        p().k("store").k("book").idx(3).k("author"),
    ];
    assert_eq!(author_paths, cbor_path.get_paths(&doc));

    let cbor_path = path(vec![seg_key("store"), seg_wildcard()]);
    assert_eq!(
        vec![p().k("store").k("book"), p().k("store").k("bicycle")],
        cbor_path.get_paths(&doc)
    );

    let cbor_path = path(vec![
        seg_key("store"),
        Segment::Descendant(vec![sel_key("price")]),
    ]);
    assert_eq!(
        vec![
            p().k("store").k("bicycle").k("price"),
            p().k("store").k("book").idx(0).k("price"),
            p().k("store").k("book").idx(1).k("price"),
            p().k("store").k("book").idx(2).k("price"),
            p().k("store").k("book").idx(3).k("price"),
        ],
        cbor_path.get_paths(&doc)
    );

    let cbor_path = path(vec![
        Segment::Descendant(vec![sel_key("book")]),
        seg_index(2),
    ]);
    assert_eq!(vec![p().k("store").k("book").idx(2)], cbor_path.get_paths(&doc));

    let cbor_path = path(vec![
        Segment::Descendant(vec![sel_key("book")]),
        seg_index(-1),
    ]);
    assert_eq!(vec![p().k("store").k("book").idx(3)], cbor_path.get_paths(&doc));

    let cbor_path = path(vec![
        Segment::Descendant(vec![sel_key("book")]),
        Segment::Child(vec![
            Selector::Index(IndexSelector(0)),
            Selector::Index(IndexSelector(1)),
        ]),
    ]);
    assert_eq!(
        vec![p().k("store").k("book").idx(0), p().k("store").k("book").idx(1)],
        cbor_path.get_paths(&doc)
    );

    let cbor_path = path(vec![
        Segment::Descendant(vec![sel_key("book")]),
        seg_slice(0, 2, 1),
    ]);
    assert_eq!(
        vec![p().k("store").k("book").idx(0), p().k("store").k("book").idx(1)],
        cbor_path.get_paths(&doc)
    );

    let cbor_path = path(vec![
        Segment::Descendant(vec![sel_key("book")]),
        seg_filter(present(rel(vec![seg_key("isbn")]))),
    ]);
    assert_eq!(
        vec![p().k("store").k("book").idx(2), p().k("store").k("book").idx(3)],
        cbor_path.get_paths(&doc)
    );

    let cbor_path = path(vec![
        Segment::Descendant(vec![sel_key("book")]),
        seg_filter(c_lt(sing_rel(vec![sing_key("price")]), lit(float(10.0)))),
    ]);
    assert_eq!(
        vec![p().k("store").k("book").idx(0), p().k("store").k("book").idx(2)],
        cbor_path.get_paths(&doc)
    );

    let cbor_path = path(vec![Segment::Descendant(vec![Selector::Wildcard])]);
    let mut expected = vec![
        p().k("store"),
        p().k("store").k("book"),
        p().k("store").k("bicycle"),
        p().k("store").k("book").idx(0),
        p().k("store").k("book").idx(1),
        p().k("store").k("book").idx(2),
        p().k("store").k("book").idx(3),
        p().k("store").k("bicycle").k("color"),
        p().k("store").k("bicycle").k("price"),
    ];
    let field_names = [
        vec!["category", "author", "title", "price"],
        vec!["category", "author", "title", "price"],
        vec!["category", "author", "title", "isbn", "price"],
        vec!["category", "author", "title", "isbn", "price"],
    ];
    for (i, names) in field_names.iter().enumerate() {
        for name in names {
            expected.push(p().k("store").k("book").idx(i).k(name));
        }
    }
    assert_eq!(expected, cbor_path.get_paths(&doc));
}
