//! Attribute resolver: looks a named key up in a feature's tag-index list.
//!
//! A tag-index list is read in consecutive (key index, value index) pairs
//! against the owning layer's key and value dictionaries. A pair whose
//! indices fall outside the dictionaries is skipped; an odd trailing
//! element is ignored; when several pairs carry the same key, the last one
//! wins. Failed lookups are absent values, never errors.

use vstd::prelude::*;
use crate::tile::{Layer, LayerModel, Value, ValueModel};
use crate::numeric::{
    sp_double_milli, sp_float_milli, sp_parse_decimal_milli, double_bits_milli, float_bits_milli,
    parse_decimal_milli,
};

verus! {

/// Whether two byte strings hold the same bytes.
pub fn bytes_eq(a: &Vec<u8>, b: &Vec<u8>) -> (r: bool)
    ensures
        r == (a@ == b@),
{
    if a.len() != b.len() {
        proof {
            assert(a@ != b@);
        }
        return false;
    }
    let mut i: usize = 0;
    while i < a.len()
        invariant
            i <= a@.len() == b@.len(),
            forall|j: int| 0 <= j < i ==> a@[j] == b@[j],
        decreases a@.len() - i,
    {
        if a[i] != b[i] {
            return false;
        }
        i = i + 1;
    }
    proof {
        assert(a@ =~= b@);
    }
    true
}

/// Copies a byte string.
pub fn copy_bytes(v: &Vec<u8>) -> (r: Vec<u8>)
    ensures
        r@ == v@,
{
    let mut out: Vec<u8> = Vec::new();
    let mut i: usize = 0;
    while i < v.len()
        invariant
            i <= v@.len(),
            out@ =~= v@.subrange(0, i as int),
        decreases v@.len() - i,
    {
        out.push(v[i]);
        i = i + 1;
    }
    proof {
        assert(out@ =~= v@);
    }
    out
}

impl Value {
    /// A copy of this value, field for field.
    pub fn duplicate(&self) -> (r: Value)
        ensures
            r@ == self@,
    {
        Value {
            string_value: match &self.string_value {
                Some(s) => Some(copy_bytes(s)),
                None => None,
            },
            float_bits: self.float_bits,
            double_bits: self.double_bits,
            int_value: self.int_value,
            uint_value: self.uint_value,
            sint_value: self.sint_value,
            bool_value: self.bool_value,
        }
    }
}

/// Whether the `i`-th tag pair references valid dictionary slots and its
/// key is `key`.
pub open spec fn sp_pair_matches(tags: Seq<u32>, layer: LayerModel, key: Seq<u8>, i: int) -> bool {
    &&& tags[2 * i] < layer.keys.len()
    &&& tags[2 * i + 1] < layer.values.len()
    &&& layer.keys[tags[2 * i] as int] == key
}

/// The value resolved from the first `n` tag pairs: the value of the last
/// matching valid pair, or nothing.
pub open spec fn sp_resolve_prefix(
    tags: Seq<u32>,
    layer: LayerModel,
    key: Seq<u8>,
    n: int,
) -> Option<ValueModel>
    decreases n,
{
    if n <= 0 {
        None
    } else if sp_pair_matches(tags, layer, key, n - 1) {
        Some(layer.values[tags[2 * (n - 1) + 1] as int])
    } else {
        sp_resolve_prefix(tags, layer, key, n - 1)
    }
}

/// The value `key` resolves to in a tag-index list: last valid match wins,
/// malformed pairs and an odd trailing element are ignored.
pub open spec fn sp_resolve(tags: Seq<u32>, layer: LayerModel, key: Seq<u8>) -> Option<
    ValueModel,
> {
    sp_resolve_prefix(tags, layer, key, tags.len() as int / 2)
}

/// Resolves `key` against a feature's tag-index list and its layer's
/// dictionaries. Returns the value of the last well-formed matching pair.
pub fn resolve_value(tags: &Vec<u32>, layer: &Layer, key: &Vec<u8>) -> (r: Option<Value>)
    ensures
        match r {
            Some(v) => sp_resolve(tags@, layer@, key@) == Some(v@),
            None => sp_resolve(tags@, layer@, key@) == None::<ValueModel>,
        },
{
    let len = tags.len();
    let n = len / 2;
    let mut out: Option<Value> = None;
    let mut i: usize = 0;
    while i < n
        invariant
            len == tags@.len(),
            n == tags@.len() / 2,
            i <= n,
            match out {
                Some(v) => sp_resolve_prefix(tags@, layer@, key@, i as int) == Some(v@),
                None => sp_resolve_prefix(tags@, layer@, key@, i as int) == None::<ValueModel>,
            },
        decreases n - i,
    {
        proof {
            assert(2 * (i as int) + 1 < tags@.len());
        }
        let ki = tags[2 * i] as usize;
        let vi = tags[2 * i + 1] as usize;
        if ki < layer.keys.len() && vi < layer.values.len() {
            if bytes_eq(&layer.keys[ki], key) {
                proof {
                    assert(layer@.keys[ki as int] == layer.keys@[ki as int]@);
                    assert(sp_pair_matches(tags@, layer@, key@, i as int));
                    assert(layer@.values[vi as int] == layer.values@[vi as int]@);
                }
                out = Some(layer.values[vi].duplicate());
            } else {
                proof {
                    assert(layer@.keys[ki as int] == layer.keys@[ki as int]@);
                    assert(!sp_pair_matches(tags@, layer@, key@, i as int));
                }
            }
        } else {
            proof {
                assert(!sp_pair_matches(tags@, layer@, key@, i as int));
            }
        }
        i = i + 1;
    }
    out
}

/// The milli-unit number a resolved value denotes: the first populated
/// representation in the order 64-bit float, 32-bit float, signed,
/// unsigned, zigzag-signed, then a decimal string; absent when none is
/// populated, the representation is not finite, or its thousandths
/// overflow.
pub open spec fn sp_coerce_numeric(v: ValueModel) -> Option<int> {
    if v.double_bits is Some {
        sp_double_milli(v.double_bits->0)
    } else if v.float_bits is Some {
        sp_float_milli(v.float_bits->0)
    } else if v.int_value is Some {
        let i = v.int_value->0 as int;
        if -9223372036854775 <= i <= 9223372036854775 {
            Some(i * 1000)
        } else {
            None
        }
    } else if v.uint_value is Some {
        let u = v.uint_value->0 as int;
        if u <= 9223372036854775 {
            Some(u * 1000)
        } else {
            None
        }
    } else if v.sint_value is Some {
        let i = v.sint_value->0 as int;
        if -9223372036854775 <= i <= 9223372036854775 {
            Some(i * 1000)
        } else {
            None
        }
    } else if v.string_value is Some {
        sp_parse_decimal_milli(v.string_value->0)
    } else {
        None
    }
}

/// Interprets one resolved value as a milli-unit number.
pub fn coerce_numeric(v: &Value) -> (r: Option<i64>)
    ensures
        match r {
            Some(x) => sp_coerce_numeric(v@) == Some(x as int),
            None => sp_coerce_numeric(v@) == None::<int>,
        },
{
    if let Some(b) = v.double_bits {
        double_bits_milli(b)
    } else if let Some(b) = v.float_bits {
        float_bits_milli(b)
    } else if let Some(i) = v.int_value {
        if -9223372036854775i64 <= i && i <= 9223372036854775i64 {
            Some(i * 1000)
        } else {
            None
        }
    } else if let Some(u) = v.uint_value {
        if u <= 9223372036854775u64 {
            Some((u * 1000) as i64)
        } else {
            None
        }
    } else if let Some(i) = v.sint_value {
        if -9223372036854775i64 <= i && i <= 9223372036854775i64 {
            Some(i * 1000)
        } else {
            None
        }
    } else if let Some(s) = &v.string_value {
        parse_decimal_milli(s)
    } else {
        None
    }
}

/// What a numeric lookup resolves to: the last matching pair's value,
/// coerced to milli-units.
pub open spec fn sp_resolve_numeric(tags: Seq<u32>, layer: LayerModel, key: Seq<u8>) -> Option<
    int,
> {
    match sp_resolve(tags, layer, key) {
        Some(v) => sp_coerce_numeric(v),
        None => None,
    }
}

/// Resolves `key` to a milli-unit number, trying the representations of
/// the matched value in the order 64-bit float, 32-bit float, signed,
/// unsigned, zigzag-signed, decimal string.
pub fn resolve_numeric(tags: &Vec<u32>, layer: &Layer, key: &Vec<u8>) -> (r: Option<i64>)
    ensures
        match r {
            Some(x) => sp_resolve_numeric(tags@, layer@, key@) == Some(x as int),
            None => sp_resolve_numeric(tags@, layer@, key@) == None::<int>,
        },
{
    match resolve_value(tags, layer, key) {
        Some(v) => coerce_numeric(&v),
        None => None,
    }
}

/// What a string lookup resolves to: the last matching pair's string
/// representation, if it has one.
pub open spec fn sp_resolve_string(tags: Seq<u32>, layer: LayerModel, key: Seq<u8>) -> Option<
    Seq<u8>,
> {
    match sp_resolve(tags, layer, key) {
        Some(v) => v.string_value,
        None => None,
    }
}

/// Resolves `key` to its string representation.
pub fn resolve_string(tags: &Vec<u32>, layer: &Layer, key: &Vec<u8>) -> (r: Option<Vec<u8>>)
    ensures
        match r {
            Some(s) => sp_resolve_string(tags@, layer@, key@) == Some(s@),
            None => sp_resolve_string(tags@, layer@, key@) == None::<Seq<u8>>,
        },
{
    match resolve_value(tags, layer, key) {
        Some(v) => match &v.string_value {
            Some(s) => Some(copy_bytes(s)),
            None => None,
        },
        None => None,
    }
}

/// An odd trailing element of a tag-index list is ignored: resolution
/// behaves as if it were absent.
pub proof fn lemma_odd_trailing_tag_ignored(tags: Seq<u32>, layer: LayerModel, key: Seq<u8>)
    requires
        tags.len() % 2 == 1,
    ensures
        sp_resolve(tags, layer, key) == sp_resolve(tags.drop_last(), layer, key),
{
    let t2 = tags.drop_last();
    assert(tags.len() as int / 2 == t2.len() as int / 2);
    lemma_resolve_prefix_same(tags, t2, layer, key, tags.len() as int / 2);
}

/// Two tag lists that agree on their first `n` pairs resolve alike.
proof fn lemma_resolve_prefix_same(
    t1: Seq<u32>,
    t2: Seq<u32>,
    layer: LayerModel,
    key: Seq<u8>,
    n: int,
)
    requires
        2 * n <= t1.len(),
        2 * n <= t2.len(),
        forall|j: int| 0 <= j < 2 * n ==> t1[j] == t2[j],
    ensures
        sp_resolve_prefix(t1, layer, key, n) == sp_resolve_prefix(t2, layer, key, n),
    decreases n,
{
    if n > 0 {
        lemma_resolve_prefix_same(t1, t2, layer, key, n - 1);
    }
}

/// When several pairs carry the same key, the pair with the highest
/// position decides: if pair `j` matches, the resolved value comes from
/// some matching pair at position `j` or later, after which nothing
/// matches.
pub proof fn lemma_last_match_wins(tags: Seq<u32>, layer: LayerModel, key: Seq<u8>, j: int)
    requires
        0 <= j,
        2 * j + 1 < tags.len(),
        sp_pair_matches(tags, layer, key, j),
    ensures
        exists|w: int|
            {
                &&& j <= w < tags.len() as int / 2
                &&& #[trigger] sp_pair_matches(tags, layer, key, w)
                &&& sp_resolve(tags, layer, key) == Some(layer.values[tags[2 * w + 1] as int])
                &&& forall|u: int|
                    w < u < tags.len() as int / 2 ==> !sp_pair_matches(tags, layer, key, u)
            },
{
    lemma_resolve_from_match(tags, layer, key, j, tags.len() as int / 2);
}

/// Helper for `lemma_last_match_wins`: the resolution of the first `n`
/// pairs, given a match at `j < n`, is the value of the last match in
/// `[j, n)`.
proof fn lemma_resolve_from_match(tags: Seq<u32>, layer: LayerModel, key: Seq<u8>, j: int, n: int)
    requires
        0 <= j < n,
        2 * n <= tags.len(),
        sp_pair_matches(tags, layer, key, j),
    ensures
        exists|w: int|
            {
                &&& j <= w < n
                &&& #[trigger] sp_pair_matches(tags, layer, key, w)
                &&& sp_resolve_prefix(tags, layer, key, n) == Some(
                    layer.values[tags[2 * w + 1] as int],
                )
                &&& forall|u: int| w < u < n ==> !sp_pair_matches(tags, layer, key, u)
            },
    decreases n,
{
    if sp_pair_matches(tags, layer, key, n - 1) {
        let w = n - 1;
        assert(j <= w < n && sp_pair_matches(tags, layer, key, w) && sp_resolve_prefix(
            tags,
            layer,
            key,
            n,
        ) == Some(layer.values[tags[2 * w + 1] as int]) && forall|u: int|
            w < u < n ==> !sp_pair_matches(tags, layer, key, u));
    } else {
        lemma_resolve_from_match(tags, layer, key, j, n - 1);
        let w = choose|w: int|
            {
                &&& j <= w < n - 1
                &&& #[trigger] sp_pair_matches(tags, layer, key, w)
                &&& sp_resolve_prefix(tags, layer, key, n - 1) == Some(
                    layer.values[tags[2 * w + 1] as int],
                )
                &&& forall|u: int| w < u < n - 1 ==> !sp_pair_matches(tags, layer, key, u)
            };
        assert(forall|u: int| w < u < n ==> !sp_pair_matches(tags, layer, key, u));
        assert(j <= w < n && sp_pair_matches(tags, layer, key, w) && sp_resolve_prefix(
            tags,
            layer,
            key,
            n,
        ) == Some(layer.values[tags[2 * w + 1] as int]));
    }
}

/// A zero-length tag-index list resolves every lookup to absent.
pub proof fn lemma_empty_tags_resolve_absent(layer: LayerModel, key: Seq<u8>)
    ensures
        sp_resolve(Seq::<u32>::empty(), layer, key) == None::<ValueModel>,
        sp_resolve_numeric(Seq::<u32>::empty(), layer, key) == None::<int>,
        sp_resolve_string(Seq::<u32>::empty(), layer, key) == None::<Seq<u8>>,
{
}

} // verus!
