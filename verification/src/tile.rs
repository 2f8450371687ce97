//! Data model of a decoded vector tile: layers, features, typed tag values,
//! and 2D integer points.

use vstd::prelude::*;

verus! {

/// A 2D point with integer coordinates.
///
/// The same point type carries tile-local quantized coordinates (extent
/// 0..4096 per axis), projected world coordinates, and recentered scene
/// coordinates; which unit applies is stated by the function that produces
/// the points.
#[derive(Clone, Copy, PartialEq, Eq, Structural, Debug)]
pub struct Pt {
    pub x: i64,
    pub y: i64,
}

/// A typed tag value from a layer's value dictionary.
///
/// As on the wire, each numeric or string field is optional and more than
/// one may be populated; attribute resolution picks the first populated
/// representation in a fixed order. Floating-point fields are carried as
/// their raw bit patterns, read little-endian from the payload; they are
/// interpreted only by the exact fixed-point conversion in `tags`.
#[derive(Clone, PartialEq, Eq, Debug)]
pub struct Value {
    pub string_value: Option<Vec<u8>>,
    pub float_bits: Option<u32>,
    pub double_bits: Option<u64>,
    pub int_value: Option<i64>,
    pub uint_value: Option<u64>,
    pub sint_value: Option<i64>,
    pub bool_value: Option<bool>,
}

/// Mathematical model of a `Value`.
#[verifier::ext_equal]
pub struct ValueModel {
    pub string_value: Option<Seq<u8>>,
    pub float_bits: Option<u32>,
    pub double_bits: Option<u64>,
    pub int_value: Option<i64>,
    pub uint_value: Option<u64>,
    pub sint_value: Option<i64>,
    pub bool_value: Option<bool>,
}

impl View for Value {
    type V = ValueModel;

    open spec fn view(&self) -> ValueModel {
        ValueModel {
            string_value: match self.string_value {
                Some(ref s) => Some(s@),
                None => None,
            },
            float_bits: self.float_bits,
            double_bits: self.double_bits,
            int_value: self.int_value,
            uint_value: self.uint_value,
            sint_value: self.sint_value,
            bool_value: self.bool_value,
        }
    }
}

impl Value {
    /// A value with no populated field.
    pub fn empty() -> (v: Value)
        ensures
            v@ == Value::empty_model(),
    {
        Value {
            string_value: None,
            float_bits: None,
            double_bits: None,
            int_value: None,
            uint_value: None,
            sint_value: None,
            bool_value: None,
        }
    }

    pub open spec fn empty_model() -> ValueModel {
        ValueModel {
            string_value: None,
            float_bits: None,
            double_bits: None,
            int_value: None,
            uint_value: None,
            sint_value: None,
            bool_value: None,
        }
    }
}

/// The geometry type of a feature.
#[derive(Clone, Copy, PartialEq, Eq, Structural, Debug)]
pub enum GeomType {
    Unknown,
    Point,
    Linestring,
    Polygon,
}

/// One geometric entity: a geometry-command stream plus a flat tag-index
/// list, interpreted in consecutive (key index, value index) pairs.
#[derive(Clone, PartialEq, Eq, Debug)]
pub struct Feature {
    pub tags: Vec<u32>,
    pub geom_type: GeomType,
    pub geometry: Vec<u32>,
}

/// Mathematical model of a `Feature`.
#[verifier::ext_equal]
pub struct FeatureModel {
    pub tags: Seq<u32>,
    pub geom_type: GeomType,
    pub geometry: Seq<u32>,
}

impl View for Feature {
    type V = FeatureModel;

    open spec fn view(&self) -> FeatureModel {
        FeatureModel { tags: self.tags@, geom_type: self.geom_type, geometry: self.geometry@ }
    }
}

impl Feature {
    /// A feature with no tags and no geometry.
    pub fn empty() -> (f: Feature)
        ensures
            f@ == (FeatureModel {
                tags: Seq::<u32>::empty(),
                geom_type: GeomType::Unknown,
                geometry: Seq::<u32>::empty(),
            }),
    {
        Feature { tags: Vec::new(), geom_type: GeomType::Unknown, geometry: Vec::new() }
    }
}

/// A named group of features sharing one key/value tag dictionary.
///
/// Names, keys and string values are byte strings exactly as they stand in
/// the payload; the pipeline compares them byte for byte.
#[derive(Clone, PartialEq, Eq, Debug)]
pub struct Layer {
    pub name: Vec<u8>,
    pub keys: Vec<Vec<u8>>,
    pub values: Vec<Value>,
    pub features: Vec<Feature>,
}

/// Mathematical model of a `Layer`.
#[verifier::ext_equal]
pub struct LayerModel {
    pub name: Seq<u8>,
    pub keys: Seq<Seq<u8>>,
    pub values: Seq<ValueModel>,
    pub features: Seq<FeatureModel>,
}

impl View for Layer {
    type V = LayerModel;

    open spec fn view(&self) -> LayerModel {
        LayerModel {
            name: self.name@,
            keys: Seq::new(self.keys@.len(), |i: int| self.keys@[i]@),
            values: Seq::new(self.values@.len(), |i: int| self.values@[i]@),
            features: Seq::new(self.features@.len(), |i: int| self.features@[i]@),
        }
    }
}

impl Layer {
    /// A layer with an empty name and empty dictionaries.
    pub fn empty() -> (l: Layer)
        ensures
            l@ == (LayerModel {
                name: Seq::<u8>::empty(),
                keys: Seq::<Seq<u8>>::empty(),
                values: Seq::<ValueModel>::empty(),
                features: Seq::<FeatureModel>::empty(),
            }),
    {
        let l = Layer { name: Vec::new(), keys: Vec::new(), values: Vec::new(), features: Vec::new() };
        proof {
            assert(l@.name =~= Seq::<u8>::empty());
            assert(l@.keys =~= Seq::<Seq<u8>>::empty());
            assert(l@.values =~= Seq::<ValueModel>::empty());
            assert(l@.features =~= Seq::<FeatureModel>::empty());
        }
        l
    }
}

/// An ordered sequence of layers, produced once per decode call.
#[derive(Clone, PartialEq, Eq, Debug)]
pub struct Tile {
    pub layers: Vec<Layer>,
}

/// Mathematical model of a `Tile`.
#[verifier::ext_equal]
pub struct TileModel {
    pub layers: Seq<LayerModel>,
}

impl View for Tile {
    type V = TileModel;

    open spec fn view(&self) -> TileModel {
        TileModel { layers: Seq::new(self.layers@.len(), |i: int| self.layers@[i]@) }
    }
}

impl Tile {
    /// A tile with no layers.
    pub fn empty() -> (t: Tile)
        ensures
            t@ == (TileModel { layers: Seq::<LayerModel>::empty() }),
    {
        let t = Tile { layers: Vec::new() };
        proof {
            assert(t@.layers =~= Seq::<LayerModel>::empty());
        }
        t
    }
}

} // verus!
