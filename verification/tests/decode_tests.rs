use tilescene::decode::{decode, DecodeError};
use tilescene::tile::GeomType;

fn vint(mut v: u64, out: &mut Vec<u8>) {
    loop {
        let low = (v & 0x7f) as u8;
        v >>= 7;
        if v == 0 {
            out.push(low);
            return;
        }
        out.push(low | 0x80);
    }
}

fn key(field: u64, wire: u64, out: &mut Vec<u8>) {
    vint(field << 3 | wire, out);
}

fn chunk(field: u64, bytes: &[u8], out: &mut Vec<u8>) {
    key(field, 2, out);
    vint(bytes.len() as u64, out);
    out.extend_from_slice(bytes);
}

fn value_string(s: &[u8]) -> Vec<u8> {
    let mut v = Vec::new();
    chunk(1, s, &mut v);
    v
}

fn value_double_bits(bits: u64) -> Vec<u8> {
    let mut v = Vec::new();
    key(3, 1, &mut v);
    v.extend_from_slice(&bits.to_le_bytes());
    v
}

fn value_float_bits(bits: u32) -> Vec<u8> {
    let mut v = Vec::new();
    key(2, 5, &mut v);
    v.extend_from_slice(&bits.to_le_bytes());
    v
}

fn value_int(i: i64) -> Vec<u8> {
    let mut v = Vec::new();
    key(4, 0, &mut v);
    vint(i as u64, &mut v);
    v
}

fn value_uint(u: u64) -> Vec<u8> {
    let mut v = Vec::new();
    key(5, 0, &mut v);
    vint(u, &mut v);
    v
}

fn value_sint(i: i64) -> Vec<u8> {
    let mut v = Vec::new();
    key(6, 0, &mut v);
    vint(((i << 1) ^ (i >> 63)) as u64, &mut v);
    v
}

fn value_bool(b: bool) -> Vec<u8> {
    let mut v = Vec::new();
    key(7, 0, &mut v);
    vint(if b { 1 } else { 0 }, &mut v);
    v
}

fn feature(tags: &[u32], gtype: u64, geometry: &[u32]) -> Vec<u8> {
    let mut f = Vec::new();
    let mut tag_bytes = Vec::new();
    for t in tags {
        vint(*t as u64, &mut tag_bytes);
    }
    chunk(2, &tag_bytes, &mut f);
    key(3, 0, &mut f);
    vint(gtype, &mut f);
    let mut geom_bytes = Vec::new();
    for g in geometry {
        vint(*g as u64, &mut geom_bytes);
    }
    chunk(4, &geom_bytes, &mut f);
    f
}

fn layer(name: &[u8], keys: &[&[u8]], values: &[Vec<u8>], features: &[Vec<u8>]) -> Vec<u8> {
    let mut l = Vec::new();
    chunk(1, name, &mut l);
    for f in features {
        chunk(2, f, &mut l);
    }
    for k in keys {
        chunk(3, k, &mut l);
    }
    for v in values {
        chunk(4, v, &mut l);
    }
    l
}

fn tile(layers: &[Vec<u8>]) -> Vec<u8> {
    let mut t = Vec::new();
    for l in layers {
        chunk(3, l, &mut t);
    }
    t
}

#[test]
fn empty_payload_is_empty_tile() {
    let t = decode(&Vec::new()).unwrap();
    assert_eq!(t.layers.len(), 0);
}

#[test]
fn one_layer_decodes_exactly() {
    let f = feature(&[0, 0, 1, 1], 3, &[9, 0, 0, 15]);
    let l = layer(
        b"buildings",
        &[b"height", b"kind"],
        &[value_double_bits(5.0f64.to_bits()), value_string(b"tower")],
        &[f],
    );
    let bytes = tile(&[l]);
    let t = decode(&bytes).unwrap();
    assert_eq!(t.layers.len(), 1);
    let l0 = &t.layers[0];
    assert_eq!(l0.name, b"buildings".to_vec());
    assert_eq!(l0.keys.len(), 2);
    assert_eq!(l0.keys[0], b"height".to_vec());
    assert_eq!(l0.keys[1], b"kind".to_vec());
    assert_eq!(l0.values.len(), 2);
    assert_eq!(l0.values[0].double_bits, Some(5.0f64.to_bits()));
    assert_eq!(l0.values[1].string_value, Some(b"tower".to_vec()));
    assert_eq!(l0.features.len(), 1);
    let f0 = &l0.features[0];
    assert_eq!(f0.tags, vec![0, 0, 1, 1]);
    assert_eq!(f0.geom_type, GeomType::Polygon);
    assert_eq!(f0.geometry, vec![9, 0, 0, 15]);
}

#[test]
fn all_value_variants_decode() {
    let l = layer(
        b"x",
        &[],
        &[
            value_float_bits(1.5f32.to_bits()),
            value_int(-7),
            value_uint(42),
            value_sint(-3),
            value_bool(true),
        ],
        &[],
    );
    let bytes = tile(&[l]);
    let t = decode(&bytes).unwrap();
    let vs = &t.layers[0].values;
    assert_eq!(vs[0].float_bits, Some(1.5f32.to_bits()));
    assert_eq!(vs[1].int_value, Some(-7));
    assert_eq!(vs[2].uint_value, Some(42));
    assert_eq!(vs[3].sint_value, Some(-3));
    assert_eq!(vs[4].bool_value, Some(true));
}

#[test]
fn truncated_payload_is_rejected() {
    let l = layer(b"roads", &[], &[], &[]);
    let mut bytes = tile(&[l]);
    bytes.pop();
    assert_eq!(decode(&bytes), Err(DecodeError::Truncated));
}

#[test]
fn truncated_varint_is_rejected() {
    // a key byte with its continuation bit set and nothing after it
    let bytes = vec![0x80u8];
    assert_eq!(decode(&bytes), Err(DecodeError::Truncated));
}

#[test]
fn overlong_varint_is_rejected() {
    // eleven continuation bytes can encode no 64-bit value
    let bytes = vec![0xffu8; 11];
    assert_eq!(decode(&bytes), Err(DecodeError::VarintOverflow));
}

#[test]
fn layer_with_wrong_wire_type_is_rejected() {
    // tile field 3 (layers) must be length-delimited, not a varint
    let mut bytes = Vec::new();
    key(3, 0, &mut bytes);
    vint(1, &mut bytes);
    assert_eq!(decode(&bytes), Err(DecodeError::InvalidWireType));
}

#[test]
fn wire_type_that_does_not_exist_is_rejected() {
    let mut bytes = Vec::new();
    key(9, 4, &mut bytes);
    assert_eq!(decode(&bytes), Err(DecodeError::InvalidWireType));
}

#[test]
fn oversized_tag_value_is_rejected() {
    // a tag index beyond 32 bits
    let mut f = Vec::new();
    key(2, 0, &mut f);
    vint(0x1_0000_0000u64, &mut f);
    let l = layer(b"roads", &[], &[], &[f]);
    let bytes = tile(&[l]);
    assert_eq!(decode(&bytes), Err(DecodeError::IntOutOfRange));
}

#[test]
fn unknown_fields_are_skipped() {
    let mut l = Vec::new();
    chunk(1, b"roads", &mut l);
    // unknown varint, 64-bit, length-delimited and 32-bit fields
    key(9, 0, &mut l);
    vint(12345, &mut l);
    key(10, 1, &mut l);
    l.extend_from_slice(&[1, 2, 3, 4, 5, 6, 7, 8]);
    chunk(11, b"junk", &mut l);
    key(12, 5, &mut l);
    l.extend_from_slice(&[9, 9, 9, 9]);
    let bytes = tile(&[l]);
    let t = decode(&bytes).unwrap();
    assert_eq!(t.layers[0].name, b"roads".to_vec());
    assert_eq!(t.layers[0].keys.len(), 0);
}

#[test]
fn non_packed_tags_concatenate() {
    // tags sent one by one on wire type 0, then a packed run
    let mut f = Vec::new();
    key(2, 0, &mut f);
    vint(3, &mut f);
    key(2, 0, &mut f);
    vint(4, &mut f);
    let mut packed = Vec::new();
    vint(5, &mut packed);
    vint(6, &mut packed);
    chunk(2, &packed, &mut f);
    let l = layer(b"roads", &[], &[], &[f]);
    let bytes = tile(&[l]);
    let t = decode(&bytes).unwrap();
    assert_eq!(t.layers[0].features[0].tags, vec![3, 4, 5, 6]);
}

#[test]
fn chunk_overrunning_message_is_rejected() {
    // a layer whose declared length runs past the payload end
    let mut bytes = Vec::new();
    key(3, 2, &mut bytes);
    vint(100, &mut bytes);
    bytes.push(0);
    assert_eq!(decode(&bytes), Err(DecodeError::Truncated));
}

#[test]
fn unknown_geom_type_code_reads_as_unknown() {
    let f = feature(&[], 7, &[]);
    let l = layer(b"roads", &[], &[], &[f]);
    let bytes = tile(&[l]);
    let t = decode(&bytes).unwrap();
    assert_eq!(t.layers[0].features[0].geom_type, GeomType::Unknown);
}
