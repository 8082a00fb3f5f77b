//! The generic messages of a vector tile: a tile of named layers, each with
//! its features, its key list and its value dictionary.
//!
//! These are plain records. Each has a view that replaces strings and vectors
//! by sequences; the contracts of the codec are stated over the views.

use vstd::prelude::*;

verus! {

/// The views of the elements of a sequence, in order.
pub open spec fn views<T: View>(s: Seq<T>) -> Seq<T::V> {
    Seq::new(s.len(), |i: int| s[i]@)
}

/// The view of a value that may be absent.
pub open spec fn optional_view<T: View>(o: Option<T>) -> Option<T::V> {
    match o {
        Some(x) => Some(x@),
        None => None,
    }
}

/// Appending an element appends its view.
pub proof fn lemma_views_push<T: View>(s: Seq<T>, x: T)
    ensures
        views(s.push(x)) == views(s).push(x@),
{
    assert(views(s.push(x)) =~= views(s).push(x@));
}

/// The kind of shape a feature draws.
#[derive(Clone, Copy, Debug, PartialEq, Eq)]
pub enum GeomType {
    Unknown,
    Point,
    LineString,
    Polygon,
}

impl GeomType {
    /// The number that stands for the kind in a feature.
    pub open spec fn spec_number(self) -> i32 {
        match self {
            GeomType::Unknown => 0,
            GeomType::Point => 1,
            GeomType::LineString => 2,
            GeomType::Polygon => 3,
        }
    }

    /// The number that stands for the kind in a feature.
    pub fn number(self) -> (r: i32)
        ensures
            r == self.spec_number(),
    {
        match self {
            GeomType::Unknown => 0,
            GeomType::Point => 1,
            GeomType::LineString => 2,
            GeomType::Polygon => 3,
        }
    }
}

/// One entry of a layer's value dictionary. Each member is present or
/// absent on its own; the two floating point members are kept as the bit
/// patterns that travel in the message.
#[derive(Clone, Debug, PartialEq, Eq)]
pub struct Value {
    pub string_value: Option<String>,
    pub float_bits: Option<u32>,
    pub double_bits: Option<u64>,
    pub int_value: Option<i64>,
    pub uint_value: Option<u64>,
    pub sint_value: Option<i64>,
    pub bool_value: Option<bool>,
}

/// What a [`Value`] holds.
pub ghost struct ValueView {
    pub string_value: Option<Seq<char>>,
    pub float_bits: Option<u32>,
    pub double_bits: Option<u64>,
    pub int_value: Option<i64>,
    pub uint_value: Option<u64>,
    pub sint_value: Option<i64>,
    pub bool_value: Option<bool>,
}

impl ValueView {
    /// The value with every member absent.
    pub open spec fn empty() -> ValueView {
        ValueView {
            string_value: None,
            float_bits: None,
            double_bits: None,
            int_value: None,
            uint_value: None,
            sint_value: None,
            bool_value: None,
        }
    }

    /// The text member, or the empty text where it is absent.
    pub open spec fn text(self) -> Seq<char> {
        match self.string_value {
            Some(s) => s,
            None => Seq::empty(),
        }
    }

    /// The unsigned member, or zero where it is absent.
    pub open spec fn uint(self) -> u64 {
        match self.uint_value {
            Some(v) => v,
            None => 0,
        }
    }

    /// The boolean member, or `false` where it is absent.
    pub open spec fn flag(self) -> bool {
        match self.bool_value {
            Some(v) => v,
            None => false,
        }
    }
}

impl View for Value {
    type V = ValueView;

    open spec fn view(&self) -> ValueView {
        ValueView {
            string_value: match self.string_value {
                Some(s) => Some(s@),
                None => None,
            },
            float_bits: self.float_bits,
            double_bits: self.double_bits,
            int_value: self.int_value,
            uint_value: self.uint_value,
            sint_value: self.sint_value,
            bool_value: self.bool_value,
        }
    }
}

impl Default for Value {
    fn default() -> (r: Value)
        ensures
            r@ == ValueView::empty(),
    {
        Value {
            string_value: None,
            float_bits: None,
            double_bits: None,
            int_value: None,
            uint_value: None,
            sint_value: None,
            bool_value: None,
        }
    }
}

impl Value {
    /// A value that holds a text and nothing else.
    pub fn from_string(value: String) -> (r: Value)
        ensures
            r@ == (ValueView { string_value: Some(value@), ..ValueView::empty() }),
    {
        Value {
            string_value: Some(value),
            float_bits: None,
            double_bits: None,
            int_value: None,
            uint_value: None,
            sint_value: None,
            bool_value: None,
        }
    }

    /// A value that holds a boolean and nothing else.
    pub fn from_bool(v: bool) -> (r: Value)
        ensures
            r@ == (ValueView { bool_value: Some(v), ..ValueView::empty() }),
    {
        Value {
            string_value: None,
            float_bits: None,
            double_bits: None,
            int_value: None,
            uint_value: None,
            sint_value: None,
            bool_value: Some(v),
        }
    }

    /// A value that holds an unsigned integer and nothing else.
    pub fn from_uint(v: u64) -> (r: Value)
        ensures
            r@ == (ValueView { uint_value: Some(v), ..ValueView::empty() }),
    {
        Value {
            string_value: None,
            float_bits: None,
            double_bits: None,
            int_value: None,
            uint_value: Some(v),
            sint_value: None,
            bool_value: None,
        }
    }

    /// A value that holds a signed integer and nothing else.
    pub fn from_int(v: i64) -> (r: Value)
        ensures
            r@ == (ValueView { int_value: Some(v), ..ValueView::empty() }),
    {
        Value {
            string_value: None,
            float_bits: None,
            double_bits: None,
            int_value: Some(v),
            uint_value: None,
            sint_value: None,
            bool_value: None,
        }
    }

    /// A copy of the text member, empty where the member is absent.
    pub fn string_value(&self) -> (r: String)
        ensures
            r@ == self@.text(),
    {
        match &self.string_value {
            Some(s) => s.clone(),
            None => String::new(),
        }
    }

    /// The unsigned member, zero where it is absent.
    pub fn uint_value(&self) -> (r: u64)
        ensures
            r == self@.uint(),
    {
        match self.uint_value {
            Some(v) => v,
            None => 0,
        }
    }

    /// The boolean member, `false` where it is absent.
    pub fn bool_value(&self) -> (r: bool)
        ensures
            r == self@.flag(),
    {
        match self.bool_value {
            Some(v) => v,
            None => false,
        }
    }

    /// A copy with the same members.
    pub fn duplicate(&self) -> (r: Value)
        ensures
            r@ == self@,
    {
        Value {
            string_value: match &self.string_value {
                Some(s) => Some(s.clone()),
                None => None,
            },
            float_bits: self.float_bits,
            double_bits: self.double_bits,
            int_value: self.int_value,
            uint_value: self.uint_value,
            sint_value: self.sint_value,
            bool_value: self.bool_value,
        }
    }
}

/// One feature of a layer: a shape and the tags that describe it. `tags`
/// holds pairs of a position in the layer's key list and a position in its
/// value dictionary.
#[derive(Clone, Debug, PartialEq, Eq)]
pub struct Feature {
    pub id: Option<u64>,
    pub tags: Vec<u32>,
    pub type_: Option<i32>,
    pub geometry: Vec<u32>,
}

/// What a [`Feature`] holds.
pub ghost struct FeatureView {
    pub id: Option<u64>,
    pub tags: Seq<u32>,
    pub type_: Option<i32>,
    pub geometry: Seq<u32>,
}

impl View for Feature {
    type V = FeatureView;

    open spec fn view(&self) -> FeatureView {
        FeatureView {
            id: self.id,
            tags: self.tags@,
            type_: self.type_,
            geometry: self.geometry@,
        }
    }
}

impl Default for Feature {
    fn default() -> (r: Feature)
        ensures
            r@ == (FeatureView {
                id: None,
                tags: Seq::empty(),
                type_: None,
                geometry: Seq::empty(),
            }),
    {
        Feature { id: None, tags: Vec::new(), type_: None, geometry: Vec::new() }
    }
}

/// One named layer of a tile.
#[derive(Clone, Debug, PartialEq, Eq)]
pub struct Layer {
    pub version: Option<u32>,
    pub name: Option<String>,
    pub features: Vec<Feature>,
    pub keys: Vec<String>,
    pub values: Vec<Value>,
    pub extent: Option<u32>,
}

/// What a [`Layer`] holds.
pub ghost struct LayerView {
    pub version: Option<u32>,
    pub name: Option<Seq<char>>,
    pub features: Seq<FeatureView>,
    pub keys: Seq<Seq<char>>,
    pub values: Seq<ValueView>,
    pub extent: Option<u32>,
}

impl LayerView {
    /// The version, or 1 where the layer states none.
    pub open spec fn version_or_default(self) -> u32 {
        match self.version {
            Some(v) => v,
            None => 1,
        }
    }

    /// The name, or the empty text where the layer states none.
    pub open spec fn name_or_default(self) -> Seq<char> {
        match self.name {
            Some(s) => s,
            None => Seq::empty(),
        }
    }
}

impl View for Layer {
    type V = LayerView;

    open spec fn view(&self) -> LayerView {
        LayerView {
            version: self.version,
            name: match self.name {
                Some(s) => Some(s@),
                None => None,
            },
            features: views(self.features@),
            keys: views(self.keys@),
            values: views(self.values@),
            extent: self.extent,
        }
    }
}

impl Default for Layer {
    fn default() -> (r: Layer)
        ensures
            r@ == (LayerView {
                version: None,
                name: None,
                features: Seq::empty(),
                keys: Seq::empty(),
                values: Seq::empty(),
                extent: None,
            }),
    {
        let r = Layer {
            version: None,
            name: None,
            features: Vec::new(),
            keys: Vec::new(),
            values: Vec::new(),
            extent: None,
        };
        assert(r@.features =~= Seq::empty());
        assert(r@.keys =~= Seq::empty());
        assert(r@.values =~= Seq::empty());
        r
    }
}

impl Layer {
    /// The version, 1 where the layer states none.
    pub fn version(&self) -> (r: u32)
        ensures
            r == self@.version_or_default(),
    {
        match self.version {
            Some(v) => v,
            None => 1,
        }
    }

    /// A copy of the name, empty where the layer states none.
    pub fn name(&self) -> (r: String)
        ensures
            r@ == self@.name_or_default(),
    {
        match &self.name {
            Some(s) => s.clone(),
            None => String::new(),
        }
    }
}

/// A whole tile: its layers in order.
#[derive(Clone, Debug, PartialEq, Eq)]
pub struct Tile {
    pub layers: Vec<Layer>,
}

/// What a [`Tile`] holds.
pub ghost struct TileView {
    pub layers: Seq<LayerView>,
}

impl View for Tile {
    type V = TileView;

    open spec fn view(&self) -> TileView {
        TileView { layers: views(self.layers@) }
    }
}

impl Default for Tile {
    fn default() -> (r: Tile)
        ensures
            r@.layers == Seq::<LayerView>::empty(),
    {
        let r = Tile { layers: Vec::new() };
        assert(r@.layers =~= Seq::empty());
        r
    }
}

} // verus!
