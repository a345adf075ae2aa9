use circom_tfhe_rs::builder::CircuitBuilder;
use circom_tfhe_rs::feed_map::FeedMap;
use circom_tfhe_rs::lexer::{chars_of, span_value, tokenize};
use circom_tfhe_rs::outputs::insert_id;
use circom_tfhe_rs::{BuilderError, Gate, Node, ParseError, ValueType};

#[test]
fn tokenize_splits_on_blanks() {
    let chars = chars_of("  12\tab  c ");
    let spans = tokenize(&chars, 0, chars.len());
    assert_eq!(spans, vec![(2, 4), (5, 7), (9, 10)]);
}

#[test]
fn span_value_reads_decimal_and_detects_overflow() {
    let chars = chars_of("4096 18446744073709551616");
    assert_eq!(span_value(&chars, 0, 4), Some(4096));
    assert_eq!(span_value(&chars, 5, chars.len()), None);
}

#[test]
fn insert_id_keeps_ids_ascending_and_distinct() {
    let mut ids: Vec<usize> = Vec::new();
    for z in [5, 2, 9, 5, 7] {
        insert_id(&mut ids, z);
    }
    assert_eq!(ids, vec![2, 5, 7, 9]);
}

#[test]
fn feed_map_resolves_and_overwrites() {
    let mut m = FeedMap::new();
    m.define(3, Node { index: 0 });
    m.define(3, Node { index: 4 });
    assert!(matches!(m.resolve(3), Ok(Node { index: 4 })));
    assert!(matches!(m.resolve(2), Err(ParseError::UninitializedFeed(2))));
}

#[test]
fn builder_allocates_feeds_in_order() {
    let mut b = CircuitBuilder::new();
    let a = b.add_input_by_type(ValueType::Bits(2));
    let z = b.add_and_gate(a.feeds[0], a.feeds[1]);
    let w = b.add_inv_gate(z);
    let v = b.add_xor_gate(w, a.feeds[0]);
    assert_eq!(v, Node { index: 4 });
    b.add_output(ValueType::Bit.to_bin_repr(&[v]).unwrap());
    let c = b.build();
    assert_eq!(c.feed_count(), 5);
    assert_eq!(c.gates()[1], Gate::Inv { x: Node { index: 2 }, z: Node { index: 3 } });
    assert_eq!(c.outputs()[0].feeds, vec![Node { index: 4 }]);
}

#[test]
fn value_type_widths() {
    assert_eq!(ValueType::Bit.len(), 1);
    assert_eq!(ValueType::U8.len(), 8);
    assert_eq!(ValueType::U16.len(), 16);
    assert_eq!(ValueType::U32.len(), 32);
    assert_eq!(ValueType::U64.len(), 64);
    assert_eq!(ValueType::U128.len(), 128);
    assert_eq!(ValueType::Bits(3).len(), 3);
}

#[test]
fn to_bin_repr_rejects_wrong_width() {
    let r = ValueType::U8.to_bin_repr(&[Node { index: 0 }]);
    assert_eq!(r, Err(BuilderError::WidthMismatch { expected: 8, actual: 1 }));
}
