use tilescene::tile::{Layer, Value};
use tilescene::tags::{resolve_numeric, resolve_string, resolve_value};
use tilescene::numeric::{double_bits_milli, float_bits_milli, parse_decimal_milli};

fn value_double(f: f64) -> Value {
    let mut v = empty_value();
    v.double_bits = Some(f.to_bits());
    v
}

fn value_string(s: &[u8]) -> Value {
    let mut v = empty_value();
    v.string_value = Some(s.to_vec());
    v
}

fn value_int(i: i64) -> Value {
    let mut v = empty_value();
    v.int_value = Some(i);
    v
}

fn empty_value() -> Value {
    Value {
        string_value: None,
        float_bits: None,
        double_bits: None,
        int_value: None,
        uint_value: None,
        sint_value: None,
        bool_value: None,
    }
}

fn test_layer(keys: &[&[u8]], values: Vec<Value>) -> Layer {
    Layer {
        name: b"buildings".to_vec(),
        keys: keys.iter().map(|k| k.to_vec()).collect(),
        values,
        features: Vec::new(),
    }
}

#[test]
fn empty_tag_list_resolves_to_absent() {
    let layer = test_layer(&[b"height"], vec![value_double(3.0)]);
    let tags: Vec<u32> = Vec::new();
    assert_eq!(resolve_numeric(&tags, &layer, &b"height".to_vec()), None);
    assert_eq!(resolve_string(&tags, &layer, &b"height".to_vec()), None);
    assert_eq!(resolve_value(&tags, &layer, &b"height".to_vec()), None);
}

#[test]
fn odd_trailing_tag_is_ignored() {
    let layer = test_layer(&[b"height"], vec![value_double(3.0)]);
    let even: Vec<u32> = vec![0, 0];
    let odd: Vec<u32> = vec![0, 0, 0];
    assert_eq!(
        resolve_numeric(&even, &layer, &b"height".to_vec()),
        resolve_numeric(&odd, &layer, &b"height".to_vec()),
    );
    assert_eq!(resolve_numeric(&odd, &layer, &b"height".to_vec()), Some(3000));
    // a lone index resolves nothing
    let lone: Vec<u32> = vec![0];
    assert_eq!(resolve_numeric(&lone, &layer, &b"height".to_vec()), None);
}

#[test]
fn last_matching_pair_wins() {
    let layer = test_layer(&[b"height"], vec![value_double(3.0), value_double(9.0)]);
    let tags: Vec<u32> = vec![0, 0, 0, 1];
    assert_eq!(resolve_numeric(&tags, &layer, &b"height".to_vec()), Some(9000));
    // in the other order the other pair is last
    let tags2: Vec<u32> = vec![0, 1, 0, 0];
    assert_eq!(resolve_numeric(&tags2, &layer, &b"height".to_vec()), Some(3000));
}

#[test]
fn out_of_range_pairs_are_skipped() {
    let layer = test_layer(&[b"height"], vec![value_double(3.0)]);
    // a later pair with a bad value index must not clobber the good match
    let tags: Vec<u32> = vec![0, 0, 0, 9];
    assert_eq!(resolve_numeric(&tags, &layer, &b"height".to_vec()), Some(3000));
    // a bad key index is skipped too
    let tags2: Vec<u32> = vec![9, 0, 0, 0];
    assert_eq!(resolve_numeric(&tags2, &layer, &b"height".to_vec()), Some(3000));
}

#[test]
fn unmatched_key_resolves_to_absent() {
    let layer = test_layer(&[b"height"], vec![value_double(3.0)]);
    let tags: Vec<u32> = vec![0, 0];
    assert_eq!(resolve_numeric(&tags, &layer, &b"width".to_vec()), None);
}

#[test]
fn numeric_prefers_double_over_other_fields() {
    let mut v = value_double(2.5);
    v.int_value = Some(7);
    v.string_value = Some(b"99".to_vec());
    let layer = test_layer(&[b"height"], vec![v]);
    let tags: Vec<u32> = vec![0, 0];
    assert_eq!(resolve_numeric(&tags, &layer, &b"height".to_vec()), Some(2500));
}

#[test]
fn numeric_from_each_representation() {
    assert_eq!(double_bits_milli(2.5f64.to_bits()), Some(2500));
    assert_eq!(double_bits_milli((-0.125f64).to_bits()), Some(-125));
    assert_eq!(double_bits_milli(0.0f64.to_bits()), Some(0));
    assert_eq!(float_bits_milli(1.5f32.to_bits()), Some(1500));
    assert_eq!(float_bits_milli((-4.0f32).to_bits()), Some(-4000));
    let layer = test_layer(
        &[b"a", b"b", b"c"],
        vec![value_int(-7), value_string(b"12.5"), value_string(b"3")],
    );
    assert_eq!(resolve_numeric(&vec![0, 0], &layer, &b"a".to_vec()), Some(-7000));
    assert_eq!(resolve_numeric(&vec![1, 1], &layer, &b"b".to_vec()), Some(12500));
    assert_eq!(resolve_numeric(&vec![2, 2], &layer, &b"c".to_vec()), Some(3000));
}

#[test]
fn non_finite_doubles_resolve_to_absent() {
    assert_eq!(double_bits_milli(f64::NAN.to_bits()), None);
    assert_eq!(double_bits_milli(f64::INFINITY.to_bits()), None);
    assert_eq!(double_bits_milli(f64::NEG_INFINITY.to_bits()), None);
}

#[test]
fn double_truncates_toward_zero() {
    // 0.0001 is below one thousandth
    assert_eq!(double_bits_milli(0.0001f64.to_bits()), Some(0));
    assert_eq!(double_bits_milli((-0.0001f64).to_bits()), Some(0));
    // 1/3 truncates to 333 thousandths
    assert_eq!(double_bits_milli((1.0f64 / 3.0).to_bits()), Some(333));
}

#[test]
fn decimal_strings_parse_exactly() {
    assert_eq!(parse_decimal_milli(&b"12.5".to_vec()), Some(12500));
    assert_eq!(parse_decimal_milli(&b"-3.25".to_vec()), Some(-3250));
    assert_eq!(parse_decimal_milli(&b"+0.5".to_vec()), Some(500));
    assert_eq!(parse_decimal_milli(&b".5".to_vec()), Some(500));
    assert_eq!(parse_decimal_milli(&b"12.".to_vec()), Some(12000));
    assert_eq!(parse_decimal_milli(&b"0".to_vec()), Some(0));
    // fraction digits past the third are truncated
    assert_eq!(parse_decimal_milli(&b"1.23456".to_vec()), Some(1234));
}

#[test]
fn malformed_decimal_strings_are_absent() {
    assert_eq!(parse_decimal_milli(&b"".to_vec()), None);
    assert_eq!(parse_decimal_milli(&b"-".to_vec()), None);
    assert_eq!(parse_decimal_milli(&b".".to_vec()), None);
    assert_eq!(parse_decimal_milli(&b"abc".to_vec()), None);
    assert_eq!(parse_decimal_milli(&b"1e3".to_vec()), None);
    assert_eq!(parse_decimal_milli(&b"1.2.3".to_vec()), None);
    assert_eq!(parse_decimal_milli(&b"12a".to_vec()), None);
}

#[test]
fn string_resolution_uses_string_field_only() {
    let layer = test_layer(&[b"kind"], vec![value_int(7)]);
    let tags: Vec<u32> = vec![0, 0];
    // the matched value has no string representation
    assert_eq!(resolve_string(&tags, &layer, &b"kind".to_vec()), None);
    let layer2 = test_layer(&[b"kind"], vec![value_string(b"grass")]);
    assert_eq!(
        resolve_string(&tags, &layer2, &b"kind".to_vec()),
        Some(b"grass".to_vec())
    );
}
