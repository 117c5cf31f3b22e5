#![allow(dead_code)]

use cborpath::ast::{
    AbsolutePath, BooleanExpr, CborPath, Comparable, ComparisonExpr, ComparisonOperator,
    FilterPath, FilterSelector, Function, KeySelector, RelativePath, Segment, Selector,
    SingularPath, SingularSegment,
};
use cborpath::builder::{
    eq, gte, rel_path, segment, sing_rel_path, val, value, ComparableBuilder,
};
use cborpath::value::Value;

fn text(s: &str) -> Value {
    Value::Text(s.as_bytes().to_vec())
}

fn num(i: u64) -> Value {
    Value::Pos(i)
}

fn same_path(a: &CborPath, b: &CborPath) -> bool {
    format!("{a:?}") == format!("{b:?}")
}

#[test]
fn build() {
    let cbor_path = CborPath::builder()
        .key(text("a"))
        .filter(gte(
            ComparableBuilder::from_singular(sing_rel_path().key(text("b"))),
            val(num(5)),
        ))
        .build();

    let expected = CborPath::new(vec![
        Segment::Child(vec![Selector::Key(KeySelector::new(text("a")))]),
        Segment::Child(vec![Selector::Filter(FilterSelector::new(
            BooleanExpr::Comparison(ComparisonExpr::new(
                Comparable::SingularPath(SingularPath::Rel(vec![SingularSegment::Key(
                    KeySelector::new(text("b")),
                )])),
                ComparisonOperator::Gte,
                Comparable::Value(num(5)),
            )),
        ))]),
    ]);

    assert!(same_path(&expected, &cbor_path));
}

#[test]
fn value_function() {
    let cbor_path = CborPath::builder()
        .filter(eq(
            value(rel_path().descendant(segment().key(text("color")))),
            val(text("red")),
        ))
        .build();

    let expected = CborPath::new(vec![Segment::Child(vec![Selector::Filter(
        FilterSelector::new(BooleanExpr::Comparison(ComparisonExpr::new(
            Comparable::Function(Function::Value(FilterPath::Rel(RelativePath::new(vec![
                Segment::Descendant(vec![Selector::Key(KeySelector::new(text("color")))]),
            ])))),
            ComparisonOperator::Eq,
            Comparable::Value(text("red")),
        ))),
    )])]);

    assert!(same_path(&expected, &cbor_path));
}

#[test]
fn search_builder_compiles_valid_patterns_only() {
    let good = cborpath::builder::search(val(text("x")), "[jk]");
    assert!(good.is_ok());

    let bad = cborpath::builder::search(val(text("x")), "[");
    assert!(bad.is_err());

    let anchored = cborpath::builder::_match(val(text("x")), "[jk]");
    assert!(anchored.is_ok());
}
