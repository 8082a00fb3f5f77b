//! The codec between typed points and the features of one layer.
//!
//! A [`Point`] holds a position and one value per field of its layer. A
//! field is coded by the automatic codec of its kind unless the schema
//! switches that half off; then the [`FieldCodec`] that the caller supplies
//! does the work.

use vstd::prelude::*;
use vstd::arithmetic::div_mod::lemma_fundamental_div_mod_converse;
use crate::coordinate::{
    clamped_zoom, geometry_of, screen_x_of, screen_y_of, Coordinate, CoordinateView, EXTENT,
};
use crate::schema::{FieldKind, LayerSchema, LayerSchemaView};
use crate::vector_tile::{
    optional_view, views, Feature, FeatureView, GeomType, Layer, LayerView, Value, ValueView,
};

verus! {

/// The layer version that this codec writes and reads.
pub const LAYER_VERSION: u32 = 2;

/// The value of one field of a point.
#[derive(Clone, Debug, PartialEq, Eq)]
pub enum FieldValue {
    Bool(bool),
    UInt(u64),
    Text(String),
    /// The value of a field of kind [`FieldKind::Custom`], as it travels.
    Raw(Value),
}

/// What a [`FieldValue`] holds.
pub ghost enum FieldValueView {
    Bool(bool),
    UInt(u64),
    Text(Seq<char>),
    Raw(ValueView),
}

impl View for FieldValue {
    type V = FieldValueView;

    open spec fn view(&self) -> FieldValueView {
        match self {
            FieldValue::Bool(b) => FieldValueView::Bool(*b),
            FieldValue::UInt(n) => FieldValueView::UInt(*n),
            FieldValue::Text(s) => FieldValueView::Text(s@),
            FieldValue::Raw(w) => FieldValueView::Raw(w@),
        }
    }
}

/// Whether a value is one that a field of this kind holds.
pub open spec fn fits(kind: FieldKind, value: FieldValueView) -> bool {
    match value {
        FieldValueView::Bool(_) => kind == FieldKind::Bool,
        FieldValueView::UInt(n) => kind.is_number() && n <= kind.limit(),
        FieldValueView::Text(_) => kind == FieldKind::Text,
        FieldValueView::Raw(_) => kind == FieldKind::Custom,
    }
}

/// The value of a field that no tag mentions.
pub open spec fn default_value(kind: FieldKind) -> FieldValueView {
    match kind {
        FieldKind::Bool => FieldValueView::Bool(false),
        FieldKind::Text => FieldValueView::Text(Seq::empty()),
        FieldKind::Custom => FieldValueView::Raw(ValueView::empty()),
        _ => FieldValueView::UInt(0),
    }
}

/// A number cut down to the width of a kind.
pub open spec fn narrowed(kind: FieldKind, n: u64) -> u64 {
    match kind {
        FieldKind::U8 => n % 0x100,
        FieldKind::U16 => n % 0x1_0000,
        FieldKind::U32 => n % 0x1_0000_0000,
        _ => n,
    }
}

/// The generic value that the automatic codec writes for a value: a
/// boolean, a number widened to 64 bits, or a text.
pub open spec fn auto_encoded(value: FieldValueView) -> ValueView {
    match value {
        FieldValueView::Bool(b) => ValueView { bool_value: Some(b), ..ValueView::empty() },
        FieldValueView::UInt(n) => ValueView { uint_value: Some(n), ..ValueView::empty() },
        FieldValueView::Text(s) => ValueView { string_value: Some(s), ..ValueView::empty() },
        FieldValueView::Raw(w) => w,
    }
}

/// The value that the automatic codec reads from a generic value. A member
/// that is absent reads as `false`, zero or the empty text, and a number is
/// cut down to the field's width.
pub open spec fn auto_decoded(kind: FieldKind, wire: ValueView) -> FieldValueView {
    match kind {
        FieldKind::Bool => FieldValueView::Bool(wire.flag()),
        FieldKind::Text => FieldValueView::Text(wire.text()),
        FieldKind::Custom => FieldValueView::Raw(wire),
        _ => FieldValueView::UInt(narrowed(kind, wire.uint())),
    }
}

/// The views of a list of values that may be absent.
pub open spec fn optional_views<T: View>(s: Seq<Option<T>>) -> Seq<Option<T::V>> {
    Seq::new(s.len(), |i: int| optional_view(s[i]))
}

/// The entry at position `i` of a list of optional entries; past the end
/// of the list there is none.
pub open spec fn entry_at<T>(s: Seq<Option<T>>, i: int) -> Option<T> {
    if 0 <= i < s.len() {
        s[i]
    } else {
        None
    }
}

/// A codec for the fields whose automatic encoder or decoder is switched
/// off. The library asks it once for each value it has to code. Both halves
/// are functions: what they answer is `encoded` and `decoded` of what they
/// are asked. A codec that is written outside verified code leaves the two
/// as they stand here, and nothing is then known of its answers.
pub trait FieldCodec {
    /// The generic value that the codec gives for a value of the named
    /// field of the named layer.
    open spec fn encoded(&self, layer: Seq<char>, field: Seq<char>, value: FieldValueView) -> ValueView {
        arbitrary()
    }

    /// The value that the codec reads from a generic value for the named
    /// field of the named layer, or `None` where it reads none.
    open spec fn decoded(&self, layer: Seq<char>, field: Seq<char>, wire: ValueView) -> Option<
        FieldValueView,
    > {
        arbitrary()
    }

    /// Encodes the value of the named field of the named layer.
    fn encode(&self, layer: &str, field: &str, value: &FieldValue) -> (r: Value)
        ensures
            r@ == self.encoded(layer@, field@, value@),
    ;

    /// Decodes the value of the named field of the named layer, or returns
    /// `None` where the generic value stands for none.
    fn decode(&self, layer: &str, field: &str, wire: &Value) -> (r: Option<FieldValue>)
        ensures
            optional_view(r) == self.decoded(layer@, field@, wire@),
    ;
}

/// The codec of a schema without custom fields: it encodes to the empty
/// value and decodes nothing.
#[derive(Clone, Copy, Debug, PartialEq, Eq)]
pub struct Automatic;

impl FieldCodec for Automatic {
    open spec fn encoded(&self, layer: Seq<char>, field: Seq<char>, value: FieldValueView) -> ValueView {
        ValueView::empty()
    }

    open spec fn decoded(&self, layer: Seq<char>, field: Seq<char>, wire: ValueView) -> Option<
        FieldValueView,
    > {
        None
    }

    fn encode(&self, layer: &str, field: &str, value: &FieldValue) -> (r: Value) {
        Value::default()
    }

    fn decode(&self, layer: &str, field: &str, wire: &Value) -> (r: Option<FieldValue>) {
        None
    }
}

/// The generic value of the value of field `j`: the automatic one, or what
/// the custom encoder answered, the empty value where it gave no answer.
pub open spec fn field_encoded(
    layer: LayerSchemaView,
    j: int,
    value: FieldValueView,
    custom: Option<ValueView>,
) -> ValueView {
    if layer.fields[j].auto_encode {
        auto_encoded(value)
    } else {
        match custom {
            Some(wire) => wire,
            None => ValueView::empty(),
        }
    }
}

/// The value of field `j` that a generic value stands for: the automatic
/// one, or what the custom decoder answered. A custom decoder fails where
/// it gave no answer or a value of another kind.
pub open spec fn field_decoded(
    layer: LayerSchemaView,
    j: int,
    wire: ValueView,
    answer: Option<FieldValueView>,
) -> Option<FieldValueView> {
    if layer.fields[j].auto_decode {
        Some(auto_decoded(layer.fields[j].kind, wire))
    } else {
        match answer {
            Some(value) => if fits(layer.fields[j].kind, value) {
                Some(value)
            } else {
                None
            },
            None => None,
        }
    }
}

/// A point of a layer: where it lies, and the values of the layer's fields
/// in the order of the schema.
#[derive(Clone, Debug, PartialEq, Eq)]
pub struct Point {
    pub coordinate: Coordinate,
    pub values: Vec<FieldValue>,
}

/// What a [`Point`] holds.
pub ghost struct PointView {
    pub coordinate: CoordinateView,
    pub values: Seq<FieldValueView>,
}

impl View for Point {
    type V = PointView;

    open spec fn view(&self) -> PointView {
        PointView { coordinate: self.coordinate@, values: views(self.values@) }
    }
}

/// Whether a point has one value for each field of the layer, each of the
/// field's kind.
pub open spec fn point_fits(layer: LayerSchemaView, point: PointView) -> bool {
    &&& point.values.len() == layer.fields.len()
    &&& forall|j: int|
        0 <= j < layer.fields.len() ==> fits(layer.fields[j].kind, #[trigger] point.values[j])
}

/// The values of a point that no tag has touched.
pub open spec fn default_values(layer: LayerSchemaView) -> Seq<FieldValueView> {
    Seq::new(layer.fields.len(), |j: int| default_value(layer.fields[j].kind))
}

/// Why a feature is no point of the layer.
#[derive(Clone, Debug, PartialEq, Eq)]
pub enum DecodeError {
    /// The geometry does not have the three words of a single point.
    BadGeometry,
    /// The tags do not come in pairs.
    BadTags,
    /// A tag names a key or a value that the layer does not have.
    InvalidTagReference,
    /// The decoder of the named field rejected the value.
    FieldDecodeFailed(String),
}

/// What a [`DecodeError`] holds.
pub ghost enum DecodeErrorView {
    BadGeometry,
    BadTags,
    InvalidTagReference,
    FieldDecodeFailed(Seq<char>),
}

impl View for DecodeError {
    type V = DecodeErrorView;

    open spec fn view(&self) -> DecodeErrorView {
        match self {
            DecodeError::BadGeometry => DecodeErrorView::BadGeometry,
            DecodeError::BadTags => DecodeErrorView::BadTags,
            DecodeError::InvalidTagReference => DecodeErrorView::InvalidTagReference,
            DecodeError::FieldDecodeFailed(name) => DecodeErrorView::FieldDecodeFailed(name@),
        }
    }
}

/// Why a list of points cannot be written as a layer.
#[derive(Clone, Copy, Debug, PartialEq, Eq, Structural)]
pub enum EncodeError {
    /// The layer would hold more values than a tag can number.
    TooManyValues,
    /// The point at this position does not fit the layer's fields.
    PointMismatch { point: usize },
}

/// The most values that a layer's tags can number.
pub const VALUE_LIMIT: u64 = 0x1_0000_0000;

/// The field values after the first `pairs` tag pairs are applied in order
/// to `start`, or the error of the first pair that fails. `answers` holds,
/// pair by pair, what the custom decoder answered.
pub open spec fn tagged(
    layer: LayerSchemaView,
    tags: Seq<u32>,
    values: Seq<ValueView>,
    answers: Seq<Option<FieldValueView>>,
    start: Seq<FieldValueView>,
    pairs: int,
) -> Result<Seq<FieldValueView>, DecodeErrorView>
    decreases pairs,
{
    if pairs <= 0 {
        Ok(start)
    } else {
        match tagged(layer, tags, values, answers, start, pairs - 1) {
            Err(e) => Err(e),
            Ok(so_far) => {
                let k = tags[2 * (pairs - 1)] as int;
                let v = tags[2 * (pairs - 1) + 1] as int;
                if k >= layer.fields.len() || v >= values.len() {
                    Err(DecodeErrorView::InvalidTagReference)
                } else {
                    match field_decoded(layer, k, values[v], entry_at(answers, pairs - 1)) {
                        None => Err(DecodeErrorView::FieldDecodeFailed(layer.fields[k].name)),
                        Some(value) => Ok(so_far.update(k, value)),
                    }
                }
            },
        }
    }
}

/// The point that a feature of tile `(tx, ty)` stands for, or why it stands
/// for none. The geometry is checked first, then the number of tags, then
/// the tag pairs in order.
pub open spec fn decoded_point(
    layer: LayerSchemaView,
    zoom: u8,
    tx: u32,
    ty: u32,
    feature: FeatureView,
    values: Seq<ValueView>,
    answers: Seq<Option<FieldValueView>>,
) -> Result<PointView, DecodeErrorView> {
    if feature.geometry.len() != 3 {
        Err(DecodeErrorView::BadGeometry)
    } else if feature.tags.len() % 2 != 0 {
        Err(DecodeErrorView::BadTags)
    } else {
        match tagged(
            layer,
            feature.tags,
            values,
            answers,
            default_values(layer),
            feature.tags.len() as int / 2,
        ) {
            Err(e) => Err(e),
            Ok(decoded) => Ok(
                PointView {
                    coordinate: CoordinateView {
                        zoom: clamped_zoom(zoom),
                        tx,
                        ty,
                        sx: screen_x_of(feature.geometry[1]),
                        sy: screen_y_of(feature.geometry[2]),
                    },
                    values: decoded,
                },
            ),
        }
    }
}

/// The answers for the feature at position `f`; past the end of the list
/// there are none.
pub open spec fn answers_at(
    answers: Seq<Seq<Option<FieldValueView>>>,
    f: int,
) -> Seq<Option<FieldValueView>> {
    if 0 <= f < answers.len() {
        answers[f]
    } else {
        Seq::empty()
    }
}

/// The points of the first `upto` features, in order; a feature that is no
/// point is left out.
pub open spec fn decoded_points(
    layer: LayerSchemaView,
    zoom: u8,
    tx: u32,
    ty: u32,
    features: Seq<FeatureView>,
    values: Seq<ValueView>,
    answers: Seq<Seq<Option<FieldValueView>>>,
    upto: int,
) -> Seq<PointView>
    decreases upto,
{
    if upto <= 0 {
        Seq::empty()
    } else {
        let before = decoded_points(layer, zoom, tx, ty, features, values, answers, upto - 1);
        match decoded_point(
            layer,
            zoom,
            tx,
            ty,
            features[upto - 1],
            values,
            answers_at(answers, upto - 1),
        ) {
            Ok(point) => before.push(point),
            Err(_) => before,
        }
    }
}

/// A feature of a layer that is no point: its position among the features
/// and why it was left out.
#[derive(Clone, Debug, PartialEq, Eq)]
pub struct Rejected {
    pub feature: usize,
    pub error: DecodeError,
}

/// What a [`Rejected`] holds.
pub ghost struct RejectedView {
    pub feature: int,
    pub error: DecodeErrorView,
}

impl View for Rejected {
    type V = RejectedView;

    open spec fn view(&self) -> RejectedView {
        RejectedView { feature: self.feature as int, error: self.error@ }
    }
}

/// Those of the first `upto` features that are no points, in order.
pub open spec fn rejected_features(
    layer: LayerSchemaView,
    zoom: u8,
    tx: u32,
    ty: u32,
    features: Seq<FeatureView>,
    values: Seq<ValueView>,
    answers: Seq<Seq<Option<FieldValueView>>>,
    upto: int,
) -> Seq<RejectedView>
    decreases upto,
{
    if upto <= 0 {
        Seq::empty()
    } else {
        let before = rejected_features(layer, zoom, tx, ty, features, values, answers, upto - 1);
        match decoded_point(
            layer,
            zoom,
            tx,
            ty,
            features[upto - 1],
            values,
            answers_at(answers, upto - 1),
        ) {
            Ok(_) => before,
            Err(error) => before.push(RejectedView { feature: upto - 1, error }),
        }
    }
}

/// The tags of the point at position `i`: for each field in order, the
/// field's position and the position of the point's value for it.
pub open spec fn encoded_tags(fields: int, i: int) -> Seq<u32> {
    Seq::new(
        (2 * fields) as nat,
        |t: int|
            if t % 2 == 0 {
                (t / 2) as u32
            } else {
                (i * fields + t / 2) as u32
            },
    )
}

/// The feature of the point at position `i`.
pub open spec fn encoded_feature(layer: LayerSchemaView, point: PointView, i: int) -> FeatureView {
    FeatureView {
        id: None,
        tags: encoded_tags(layer.fields.len() as int, i),
        type_: Some(GeomType::Point.spec_number()),
        geometry: geometry_of(point.coordinate.sx, point.coordinate.sy),
    }
}

/// The value dictionary of a list of points: the values of each point in
/// turn, in field order. `customs` holds, value by value, what the custom
/// encoder answered.
pub open spec fn encoded_values(
    layer: LayerSchemaView,
    points: Seq<PointView>,
    customs: Seq<Option<ValueView>>,
) -> Seq<ValueView> {
    let fields = layer.fields.len() as int;
    Seq::new(
        (points.len() * fields) as nat,
        |n: int|
            field_encoded(
                layer,
                n % fields,
                points[n / fields].values[n % fields],
                entry_at(customs, n),
            ),
    )
}

/// The layer of a list of points that fit it.
pub open spec fn encoded_layer(
    layer: LayerSchemaView,
    points: Seq<PointView>,
    customs: Seq<Option<ValueView>>,
) -> LayerView {
    LayerView {
        version: Some(LAYER_VERSION),
        name: Some(layer.name),
        features: Seq::new(points.len(), |i: int| encoded_feature(layer, points[i], i)),
        keys: layer.keys(),
        values: encoded_values(layer, points, customs),
        extent: Some(EXTENT),
    }
}

/// The view of the outcome of decoding a feature.
pub open spec fn outcome_view(r: Result<Point, DecodeError>) -> Result<PointView, DecodeErrorView> {
    match r {
        Ok(point) => Ok(point@),
        Err(e) => Err(e@),
    }
}

/// The views of the answers for each feature of a layer.
pub open spec fn answers_views(s: Seq<Vec<Option<FieldValue>>>) -> Seq<Seq<Option<FieldValueView>>> {
    Seq::new(s.len(), |f: int| optional_views(s[f]@))
}

/// Whether some field of the layer has its automatic decoder switched off.
pub open spec fn has_custom_decoder(layer: LayerSchemaView) -> bool {
    exists|j: int| 0 <= j < layer.fields.len() && !layer.fields[j].auto_decode
}

/// Whether some field of the layer has its automatic encoder switched off.
pub open spec fn has_custom_encoder(layer: LayerSchemaView) -> bool {
    exists|j: int| 0 <= j < layer.fields.len() && !layer.fields[j].auto_encode
}

/// What the codec is asked about a feature and what it answers: for each
/// tag pair that names a field with a custom decoder and a value of the
/// dictionary, what it reads from that value for that field; `None` for
/// every other pair.
pub open spec fn asked_of_feature<C: FieldCodec>(
    codec: C,
    layer: LayerSchemaView,
    feature: FeatureView,
    values: Seq<ValueView>,
) -> Seq<Option<FieldValueView>> {
    Seq::new(
        feature.tags.len() / 2,
        |i: int|
            {
                let k = feature.tags[2 * i] as int;
                let v = feature.tags[2 * i + 1] as int;
                if k < layer.fields.len() && v < values.len() && !layer.fields[k].auto_decode {
                    codec.decoded(layer.name, layer.fields[k].name, values[v])
                } else {
                    None
                }
            },
    )
}

/// What the codec is asked about a layer of a message and what it answers:
/// [`asked_of_feature`] for each feature; nothing at all where the layer
/// has no custom decoder.
pub open spec fn asked_of_layer<C: FieldCodec>(
    codec: C,
    layer: LayerSchemaView,
    wire: LayerView,
) -> Seq<Seq<Option<FieldValueView>>> {
    if has_custom_decoder(layer) {
        Seq::new(
            wire.features.len(),
            |f: int| asked_of_feature(codec, layer, wire.features[f], wire.values),
        )
    } else {
        Seq::empty()
    }
}

/// What the codec is asked about a list of points and what it answers: for
/// each point and each field with a custom encoder, in the order of the
/// value dictionary, what it writes for the point's value of that field;
/// `None` for a field that is coded automatically and for a value that the
/// point does not have; nothing at all where the layer has no custom
/// encoder.
pub open spec fn asked_customs<C: FieldCodec>(
    codec: C,
    layer: LayerSchemaView,
    points: Seq<PointView>,
) -> Seq<Option<ValueView>> {
    let fields = layer.fields.len() as int;
    if has_custom_encoder(layer) {
        Seq::new(
            (points.len() * fields) as nat,
            |at: int|
                {
                    let i = at / fields;
                    let j = at % fields;
                    if !layer.fields[j].auto_encode && j < points[i].values.len() {
                        Some(codec.encoded(layer.name, layer.fields[j].name, points[i].values[j]))
                    } else {
                        None
                    }
                },
        )
    } else {
        Seq::empty()
    }
}

impl FieldValue {
    /// A copy with the same content.
    pub fn duplicate(&self) -> (r: FieldValue)
        ensures
            r@ == self@,
    {
        match self {
            FieldValue::Bool(b) => FieldValue::Bool(*b),
            FieldValue::UInt(n) => FieldValue::UInt(*n),
            FieldValue::Text(s) => FieldValue::Text(s.clone()),
            FieldValue::Raw(w) => FieldValue::Raw(w.duplicate()),
        }
    }

    /// Whether this is a value that a field of the given kind holds.
    pub fn fits(&self, kind: FieldKind) -> (r: bool)
        ensures
            r == fits(kind, self@),
    {
        match self {
            FieldValue::Bool(_) => match kind {
                FieldKind::Bool => true,
                _ => false,
            },
            FieldValue::UInt(n) => match kind {
                FieldKind::U8 => *n <= 0xff,
                FieldKind::U16 => *n <= 0xffff,
                FieldKind::U32 => *n <= 0xffff_ffff,
                FieldKind::U64 => true,
                _ => false,
            },
            FieldValue::Text(_) => match kind {
                FieldKind::Text => true,
                _ => false,
            },
            FieldValue::Raw(_) => match kind {
                FieldKind::Custom => true,
                _ => false,
            },
        }
    }

    /// The value of a field of the given kind that no tag mentions.
    pub fn default_of(kind: FieldKind) -> (r: FieldValue)
        ensures
            r@ == default_value(kind),
            fits(kind, r@),
    {
        match kind {
            FieldKind::Bool => FieldValue::Bool(false),
            FieldKind::Text => FieldValue::Text(String::new()),
            FieldKind::Custom => FieldValue::Raw(Value::default()),
            _ => FieldValue::UInt(0),
        }
    }

    /// What the automatic codec writes for this value.
    pub fn auto_encode(&self) -> (r: Value)
        ensures
            r@ == auto_encoded(self@),
    {
        match self {
            FieldValue::Bool(b) => Value::from_bool(*b),
            FieldValue::UInt(n) => Value::from_uint(*n),
            FieldValue::Text(s) => Value::from_string(s.clone()),
            FieldValue::Raw(w) => w.duplicate(),
        }
    }

    /// What the automatic codec reads from a generic value for a field of
    /// the given kind.
    pub fn auto_decode(kind: FieldKind, wire: &Value) -> (r: FieldValue)
        ensures
            r@ == auto_decoded(kind, wire@),
            fits(kind, r@),
    {
        match kind {
            FieldKind::Bool => FieldValue::Bool(wire.bool_value()),
            FieldKind::Text => FieldValue::Text(wire.string_value()),
            FieldKind::Custom => FieldValue::Raw(wire.duplicate()),
            FieldKind::U8 => FieldValue::UInt(wire.uint_value() % 0x100),
            FieldKind::U16 => FieldValue::UInt(wire.uint_value() % 0x1_0000),
            FieldKind::U32 => FieldValue::UInt(wire.uint_value() % 0x1_0000_0000),
            FieldKind::U64 => FieldValue::UInt(wire.uint_value()),
        }
    }
}

impl Point {
    /// A copy with the same position and values.
    pub fn duplicate(&self) -> (r: Point)
        ensures
            r@ == self@,
    {
        let mut values: Vec<FieldValue> = Vec::new();
        let mut j: usize = 0;
        while j < self.values.len()
            invariant
                0 <= j <= self.values.len(),
                values.len() == j,
                forall|k: int| 0 <= k < j ==> (#[trigger] values[k])@ == self.values[k]@,
            decreases self.values.len() - j,
        {
            values.push(self.values[j].duplicate());
            j += 1;
        }
        assert(views(values@) =~= views(self.values@));
        Point { coordinate: self.coordinate, values }
    }
}

/// Once a tag pair has failed, the later pairs change nothing.
pub proof fn lemma_tagged_error_stays(
    layer: LayerSchemaView,
    tags: Seq<u32>,
    values: Seq<ValueView>,
    answers: Seq<Option<FieldValueView>>,
    start: Seq<FieldValueView>,
    at: int,
    upto: int,
)
    requires
        0 <= at <= upto,
        tagged(layer, tags, values, answers, start, at).is_err(),
    ensures
        tagged(layer, tags, values, answers, start, upto) == tagged(
            layer,
            tags,
            values,
            answers,
            start,
            at,
        ),
    decreases upto,
{
    if at < upto {
        lemma_tagged_error_stays(layer, tags, values, answers, start, at, upto - 1);
    }
}

impl LayerSchema {
    /// A point at the given position with every field at its default:
    /// `false`, zero, the empty text, the empty generic value.
    pub fn new_point(&self, coordinate: Coordinate) -> (r: Point)
        ensures
            r@ == (PointView { coordinate: coordinate@, values: default_values(self@) }),
            point_fits(self@, r@),
    {
        let fields = self.fields();
        let mut values: Vec<FieldValue> = Vec::new();
        let mut j: usize = 0;
        while j < fields.len()
            invariant
                views(fields@) == self@.fields,
                0 <= j <= fields.len(),
                values.len() == j,
                forall|k: int|
                    0 <= k < j ==> (#[trigger] values[k])@ == default_value(self@.fields[k].kind),
            decreases fields.len() - j,
        {
            assert(fields[j as int]@ == self@.fields[j as int]);
            values.push(FieldValue::default_of(fields[j].kind));
            j += 1;
        }
        let r = Point { coordinate, values };
        assert(r@.values =~= default_values(self@));
        r
    }

    /// Whether the point has one value of the right kind for each field.
    pub fn fits(&self, point: &Point) -> (r: bool)
        ensures
            r == point_fits(self@, point@),
    {
        let fields = self.fields();
        if point.values.len() != fields.len() {
            return false;
        }
        let mut j: usize = 0;
        while j < fields.len()
            invariant
                views(fields@) == self@.fields,
                point.values.len() == fields.len(),
                0 <= j <= fields.len(),
                forall|k: int|
                    0 <= k < j ==> fits(self@.fields[k].kind, #[trigger] point@.values[k]),
            decreases fields.len() - j,
        {
            assert(fields[j as int]@ == self@.fields[j as int]);
            assert(point.values[j as int]@ == point@.values[j as int]);
            if !point.values[j].fits(fields[j].kind) {
                return false;
            }
            j += 1;
        }
        true
    }

    /// Decodes one feature of tile `(tx, ty)` at the given zoom into a point
    /// of this layer. `values` is the value dictionary that the feature's
    /// tags point into; `answers` holds, for each tag pair in order, what the
    /// custom decoder made of the pair's value, and is read only for fields
    /// whose automatic decoder is switched off.
    ///
    /// The feature is rejected with `BadGeometry` unless its geometry has
    /// three words, with `BadTags` unless its tags come in pairs, with
    /// `InvalidTagReference` at the first pair that names a key outside the
    /// layer's key list or a value outside the dictionary, and with
    /// `FieldDecodeFailed` at the first pair whose custom answer is missing
    /// or of another kind than the field. A field that no pair names keeps
    /// its default; where two pairs name one field the later one counts.
    ///
    /// A key is resolved to its field by name. A key that names no field
    /// would be an `InvalidTagReference` too; in a resolved layer every key
    /// is the name of exactly one field, so this does not happen.
    pub fn decode_point_with(
        &self,
        zom: u8,
        tx: u32,
        ty: u32,
        feature: &Feature,
        values: &Vec<Value>,
        answers: &Vec<Option<FieldValue>>,
    ) -> (r: Result<Point, DecodeError>)
        ensures
            outcome_view(r) == decoded_point(
                self@,
                zom,
                tx,
                ty,
                feature@,
                views(values@),
                optional_views(answers@),
            ),
            r matches Ok(point) ==> point_fits(self@, point@),
    {
        if feature.geometry.len() != 3 {
            return Err(DecodeError::BadGeometry);
        }
        if feature.tags.len() % 2 != 0 {
            return Err(DecodeError::BadTags);
        }
        let geometry: [u32; 3] = [feature.geometry[0], feature.geometry[1], feature.geometry[2]];
        let mut point = self.new_point(Coordinate::from_geometry(zom, tx, ty, geometry));
        let fields = self.fields();
        let pairs: usize = feature.tags.len() / 2;
        let ghost wires = views(values@);
        let ghost given = optional_views(answers@);
        let ghost start = default_values(self@);
        let mut i: usize = 0;
        while i < pairs
            invariant
                views(fields@) == self@.fields,
                self@.wf(),
                wires == views(values@),
                given == optional_views(answers@),
                start == default_values(self@),
                pairs == feature.tags.len() / 2,
                feature.tags.len() % 2 == 0,
                feature.geometry.len() == 3,
                0 <= i <= pairs,
                point.values.len() == fields.len(),
                point_fits(self@, point@),
                point.coordinate@ == (CoordinateView {
                    zoom: clamped_zoom(zom),
                    tx,
                    ty,
                    sx: screen_x_of(feature.geometry[1]),
                    sy: screen_y_of(feature.geometry[2]),
                }),
                tagged(self@, feature.tags@, wires, given, start, i as int) == Ok::<
                    Seq<FieldValueView>,
                    DecodeErrorView,
                >(views(point.values@)),
            decreases pairs - i,
        {
            let k: usize = feature.tags[2 * i] as usize;
            let v: usize = feature.tags[2 * i + 1] as usize;
            if k >= fields.len() || v >= values.len() {
                proof {
                    lemma_tagged_error_stays(
                        self@,
                        feature.tags@,
                        wires,
                        given,
                        start,
                        i + 1,
                        pairs as int,
                    );
                }
                return Err(DecodeError::InvalidTagReference);
            }
            assert(fields[k as int]@ == self@.fields[k as int]);
            assert(values[v as int]@ == wires[v as int]);
            let j: usize = match self.find_field(&fields[k].name) {
                Some(j) => j,
                None => {
                    return Err(DecodeError::InvalidTagReference);
                },
            };
            assert(j == k);
            let field = &fields[j];
            let decoded: Option<FieldValue> = if field.auto_decode {
                Some(FieldValue::auto_decode(field.kind, &values[v]))
            } else if i < answers.len() {
                assert(given[i as int] == optional_view(answers[i as int]));
                match &answers[i] {
                    Some(value) => if value.fits(field.kind) {
                        Some(value.duplicate())
                    } else {
                        None
                    },
                    None => None,
                }
            } else {
                None
            };
            assert(optional_view(decoded) == field_decoded(
                self@,
                k as int,
                wires[v as int],
                entry_at(given, i as int),
            ));
            match decoded {
                None => {
                    proof {
                        lemma_tagged_error_stays(
                            self@,
                            feature.tags@,
                            wires,
                            given,
                            start,
                            i + 1,
                            pairs as int,
                        );
                    }
                    return Err(DecodeError::FieldDecodeFailed(field.name.clone()));
                },
                Some(value) => {
                    let ghost before = views(point.values@);
                    point.values.set(j, value);
                    assert(views(point.values@) =~= before.update(k as int, value@));
                },
            }
            i += 1;
        }
        Ok(point)
    }

    /// Asks `codec` about each tag pair of a feature that names a field with
    /// a custom decoder and a value of the dictionary. The result has one
    /// entry per pair, in the form that [`LayerSchema::decode_point_with`]
    /// takes: the codec's answer, and `None` for a pair that is not for it.
    pub fn point_answers<C: FieldCodec>(
        &self,
        codec: &C,
        feature: &Feature,
        values: &Vec<Value>,
    ) -> (r: Vec<Option<FieldValue>>)
        ensures
            optional_views(r@) == asked_of_feature(*codec, self@, feature@, views(values@)),
    {
        let fields = self.fields();
        let pairs: usize = feature.tags.len() / 2;
        let ghost asked = asked_of_feature(*codec, self@, feature@, views(values@));
        let mut answers: Vec<Option<FieldValue>> = Vec::new();
        let mut i: usize = 0;
        while i < pairs
            invariant
                views(fields@) == self@.fields,
                pairs == feature.tags.len() / 2,
                asked == asked_of_feature(*codec, self@, feature@, views(values@)),
                0 <= i <= pairs,
                answers.len() == i,
                forall|m: int| 0 <= m < i ==> optional_view(#[trigger] answers[m]) == asked[m],
            decreases pairs - i,
        {
            let k: usize = feature.tags[2 * i] as usize;
            let v: usize = feature.tags[2 * i + 1] as usize;
            if k < fields.len() && v < values.len() && !fields[k].auto_decode {
                assert(fields[k as int]@ == self@.fields[k as int]);
                assert(values[v as int]@ == views(values@)[v as int]);
                answers.push(
                    codec.decode(self.name().as_str(), fields[k].name.as_str(), &values[v]),
                );
            } else {
                if k < fields.len() {
                    assert(fields[k as int]@ == self@.fields[k as int]);
                }
                answers.push(None);
            }
            i += 1;
        }
        assert(optional_views(answers@) =~= asked);
        answers
    }

    /// Decodes one feature, asking `codec` for the fields whose automatic
    /// decoder is switched off. The result is that of
    /// [`LayerSchema::decode_point_with`] on the codec's answers.
    pub fn decode_point<C: FieldCodec>(
        &self,
        codec: &C,
        zom: u8,
        tx: u32,
        ty: u32,
        feature: &Feature,
        values: &Vec<Value>,
    ) -> (r: Result<Point, DecodeError>)
        ensures
            outcome_view(r) == decoded_point(
                self@,
                zom,
                tx,
                ty,
                feature@,
                views(values@),
                asked_of_feature(*codec, self@, feature@, views(values@)),
            ),
            r matches Ok(point) ==> point_fits(self@, point@),
    {
        let answers = self.point_answers(codec, feature, values);
        self.decode_point_with(zom, tx, ty, feature, values, &answers)
    }

    /// Decodes every feature of a layer by itself and returns the points in
    /// the order of their features. A feature that is no point is left out
    /// and does not touch the others. `answers` holds the custom decoder's
    /// answers feature by feature.
    pub fn decode_layer_with(
        &self,
        zom: u8,
        tx: u32,
        ty: u32,
        layer: &Layer,
        answers: &Vec<Vec<Option<FieldValue>>>,
    ) -> (r: Vec<Point>)
        ensures
            views(r@) == decoded_points(
                self@,
                zom,
                tx,
                ty,
                layer@.features,
                layer@.values,
                answers_views(answers@),
                layer@.features.len() as int,
            ),
            forall|i: int| 0 <= i < r.len() ==> point_fits(self@, (#[trigger] r[i])@),
    {
        let ghost given = answers_views(answers@);
        let none: Vec<Option<FieldValue>> = Vec::new();
        let mut points: Vec<Point> = Vec::new();
        let mut f: usize = 0;
        while f < layer.features.len()
            invariant
                0 <= f <= layer.features.len(),
                given == answers_views(answers@),
                none@.len() == 0,
                views(points@) == decoded_points(
                    self@,
                    zom,
                    tx,
                    ty,
                    layer@.features,
                    layer@.values,
                    given,
                    f as int,
                ),
                forall|i: int| 0 <= i < points.len() ==> point_fits(self@, (#[trigger] points[i])@),
            decreases layer.features.len() - f,
        {
            let feature = &layer.features[f];
            assert(feature@ == layer@.features[f as int]);
            let mine: &Vec<Option<FieldValue>> = if f < answers.len() {
                &answers[f]
            } else {
                &none
            };
            assert(optional_views(mine@) =~= answers_at(given, f as int));
            let ghost before = views(points@);
            match self.decode_point_with(zom, tx, ty, feature, &layer.values, mine) {
                Ok(point) => {
                    points.push(point);
                    assert(views(points@) =~= before.push(point@));
                },
                Err(_) => {},
            }
            f += 1;
        }
        points
    }

    /// The features of a layer that [`LayerSchema::decode_layer_with`] leaves
    /// out, each with its position and the reason, for a caller that wants
    /// to tell of them.
    pub fn rejected_with(
        &self,
        zom: u8,
        tx: u32,
        ty: u32,
        layer: &Layer,
        answers: &Vec<Vec<Option<FieldValue>>>,
    ) -> (r: Vec<Rejected>)
        ensures
            views(r@) == rejected_features(
                self@,
                zom,
                tx,
                ty,
                layer@.features,
                layer@.values,
                answers_views(answers@),
                layer@.features.len() as int,
            ),
    {
        let ghost given = answers_views(answers@);
        let none: Vec<Option<FieldValue>> = Vec::new();
        let mut rejected: Vec<Rejected> = Vec::new();
        let mut f: usize = 0;
        while f < layer.features.len()
            invariant
                0 <= f <= layer.features.len(),
                given == answers_views(answers@),
                none@.len() == 0,
                views(rejected@) == rejected_features(
                    self@,
                    zom,
                    tx,
                    ty,
                    layer@.features,
                    layer@.values,
                    given,
                    f as int,
                ),
            decreases layer.features.len() - f,
        {
            let feature = &layer.features[f];
            assert(feature@ == layer@.features[f as int]);
            let mine: &Vec<Option<FieldValue>> = if f < answers.len() {
                &answers[f]
            } else {
                &none
            };
            assert(optional_views(mine@) =~= answers_at(given, f as int));
            let ghost before = views(rejected@);
            match self.decode_point_with(zom, tx, ty, feature, &layer.values, mine) {
                Ok(_) => {},
                Err(error) => {
                    let entry = Rejected { feature: f, error };
                    rejected.push(entry);
                    assert(views(rejected@) =~= before.push(entry@));
                },
            }
            f += 1;
        }
        rejected
    }

    /// The features of a layer that [`LayerSchema::decode_layer`] leaves out.
    /// The result is that of [`LayerSchema::rejected_with`] on the codec's
    /// answers.
    pub fn rejected<C: FieldCodec>(&self, codec: &C, zom: u8, tx: u32, ty: u32, layer: &Layer) -> (r:
        Vec<Rejected>)
        ensures
            views(r@) == rejected_features(
                self@,
                zom,
                tx,
                ty,
                layer@.features,
                layer@.values,
                asked_of_layer(*codec, self@, layer@),
                layer@.features.len() as int,
            ),
    {
        let answers = self.decode_answers(codec, layer);
        self.rejected_with(zom, tx, ty, layer, &answers)
    }

    /// Asks `codec` about each feature of a layer as
    /// [`LayerSchema::point_answers`] does. The result is in the form that
    /// [`LayerSchema::decode_layer_with`] takes: one list per feature, or no
    /// list at all for a layer without custom decoders, which is not asked.
    pub fn decode_answers<C: FieldCodec>(&self, codec: &C, layer: &Layer) -> (r: Vec<
        Vec<Option<FieldValue>>,
    >)
        ensures
            answers_views(r@) == asked_of_layer(*codec, self@, layer@),
    {
        let mut answers: Vec<Vec<Option<FieldValue>>> = Vec::new();
        if !self.has_custom_decoder() {
            assert(answers_views(answers@) =~= asked_of_layer(*codec, self@, layer@));
            return answers;
        }
        let ghost asked = asked_of_layer(*codec, self@, layer@);
        let mut f: usize = 0;
        while f < layer.features.len()
            invariant
                0 <= f <= layer.features.len(),
                has_custom_decoder(self@),
                asked == asked_of_layer(*codec, self@, layer@),
                answers.len() == f,
                forall|m: int| 0 <= m < f ==> optional_views((#[trigger] answers[m])@) == asked[m],
            decreases layer.features.len() - f,
        {
            assert(layer.features[f as int]@ == layer@.features[f as int]);
            answers.push(self.point_answers(codec, &layer.features[f], &layer.values));
            f += 1;
        }
        assert(answers_views(answers@) =~= asked);
        answers
    }

    /// Whether some field has its automatic decoder switched off.
    pub fn has_custom_decoder(&self) -> (r: bool)
        ensures
            r == has_custom_decoder(self@),
    {
        let fields = self.fields();
        let mut j: usize = 0;
        while j < fields.len()
            invariant
                views(fields@) == self@.fields,
                0 <= j <= fields.len(),
                forall|k: int| 0 <= k < j ==> self@.fields[k].auto_decode,
            decreases fields.len() - j,
        {
            assert(fields[j as int]@ == self@.fields[j as int]);
            if !fields[j].auto_decode {
                return true;
            }
            j += 1;
        }
        false
    }

    /// Whether some field has its automatic encoder switched off.
    pub fn has_custom_encoder(&self) -> (r: bool)
        ensures
            r == has_custom_encoder(self@),
    {
        let fields = self.fields();
        let mut j: usize = 0;
        while j < fields.len()
            invariant
                views(fields@) == self@.fields,
                0 <= j <= fields.len(),
                forall|k: int| 0 <= k < j ==> self@.fields[k].auto_encode,
            decreases fields.len() - j,
        {
            assert(fields[j as int]@ == self@.fields[j as int]);
            if !fields[j].auto_encode {
                return true;
            }
            j += 1;
        }
        false
    }

    /// Decodes every feature of a layer, asking `codec` for the fields whose
    /// automatic decoder is switched off. The result is that of
    /// [`LayerSchema::decode_layer_with`] on the codec's answers.
    pub fn decode_layer<C: FieldCodec>(&self, codec: &C, zom: u8, tx: u32, ty: u32, layer: &Layer) -> (r:
        Vec<Point>)
        ensures
            views(r@) == decoded_points(
                self@,
                zom,
                tx,
                ty,
                layer@.features,
                layer@.values,
                asked_of_layer(*codec, self@, layer@),
                layer@.features.len() as int,
            ),
            forall|i: int| 0 <= i < r.len() ==> point_fits(self@, (#[trigger] r[i])@),
    {
        let answers = self.decode_answers(codec, layer);
        self.decode_layer_with(zom, tx, ty, layer, &answers)
    }

    /// Writes a list of points as a layer: version 2, extent 4096, the full
    /// key list whatever the points use, one feature per point with a
    /// single-point geometry and one tag pair per field in schema order, and
    /// a value dictionary with one entry per point and field. `customs`
    /// holds, value by value, what the custom encoder answered, and is read
    /// only for fields whose automatic encoder is switched off.
    ///
    /// Fails with `TooManyValues` where the dictionary would outgrow the
    /// 32-bit tag positions, else with `PointMismatch` at the first point
    /// that does not fit the layer.
    pub fn encode_with(&self, points: &Vec<Point>, customs: &Vec<Option<Value>>) -> (r: Result<
        Layer,
        EncodeError,
    >)
        ensures
            match r {
                Ok(layer) => {
                    &&& points.len() * self@.fields.len() <= VALUE_LIMIT
                    &&& forall|i: int|
                        0 <= i < points.len() ==> point_fits(self@, (#[trigger] points[i])@)
                    &&& layer@ == encoded_layer(self@, views(points@), optional_views(customs@))
                },
                Err(EncodeError::TooManyValues) => points.len() * self@.fields.len() > VALUE_LIMIT,
                Err(EncodeError::PointMismatch { point }) => {
                    &&& points.len() * self@.fields.len() <= VALUE_LIMIT
                    &&& 0 <= point < points.len()
                    &&& !point_fits(self@, points[point as int]@)
                    &&& forall|i: int| 0 <= i < point ==> point_fits(self@, (#[trigger] points[i])@)
                },
            },
    {
        let fields = self.fields();
        let n: usize = points.len();
        let nf: usize = fields.len();
        assert(n * nf <= 0xffff_ffff_ffff_ffff * 0xffff_ffff_ffff_ffff) by (nonlinear_arith)
            requires
                0 <= n <= 0xffff_ffff_ffff_ffff,
                0 <= nf <= 0xffff_ffff_ffff_ffff,
        ;
        if (n as u128) * (nf as u128) > VALUE_LIMIT as u128 {
            return Err(EncodeError::TooManyValues);
        }
        let ghost given = optional_views(customs@);
        let ghost all = views(points@);
        let mut values: Vec<Value> = Vec::new();
        let mut features: Vec<Feature> = Vec::new();
        let mut i: usize = 0;
        while i < n
            invariant
                views(fields@) == self@.fields,
                n == points.len(),
                nf == fields.len(),
                n * nf <= VALUE_LIMIT,
                given == optional_views(customs@),
                all == views(points@),
                0 <= i <= n,
                forall|m: int| 0 <= m < i ==> point_fits(self@, (#[trigger] points[m])@),
                features.len() == i,
                forall|m: int|
                    0 <= m < i ==> (#[trigger] features[m])@ == encoded_feature(self@, all[m], m),
                values.len() == i * nf,
                forall|m: int|
                    0 <= m < i * nf ==> (#[trigger] values[m])@ == encoded_values(
                        self@,
                        all,
                        given,
                    )[m],
            decreases n - i,
        {
            let point = &points[i];
            assert(point@ == all[i as int]);
            if !self.fits(point) {
                return Err(EncodeError::PointMismatch { point: i });
            }
            assert((i + 1) * nf <= n * nf) by (nonlinear_arith)
                requires
                    i + 1 <= n,
                    0 <= nf,
            ;
            assert((i + 1) * nf == i * nf + nf) by (nonlinear_arith);
            let mut tags: Vec<u32> = Vec::new();
            let mut j: usize = 0;
            while j < nf
                invariant
                    views(fields@) == self@.fields,
                    n == points.len(),
                    nf == fields.len(),
                    n * nf <= VALUE_LIMIT,
                    (i + 1) * nf <= n * nf,
                    (i + 1) * nf == i * nf + nf,
                    given == optional_views(customs@),
                    all == views(points@),
                    0 <= i < n,
                    point@ == all[i as int],
                    point_fits(self@, point@),
                    0 <= j <= nf,
                    tags.len() == 2 * j,
                    forall|t: int|
                        0 <= t < 2 * j ==> #[trigger] tags[t] == encoded_tags(nf as int, i as int)[t],
                    values.len() == i * nf + j,
                    forall|m: int|
                        0 <= m < i * nf + j ==> (#[trigger] values[m])@ == encoded_values(
                            self@,
                            all,
                            given,
                        )[m],
                decreases nf - j,
            {
                let at: usize = values.len();
                proof {
                    lemma_fundamental_div_mod_converse(at as int, nf as int, i as int, j as int);
                }
                assert(fields[j as int]@ == self@.fields[j as int]);
                assert(point.values[j as int]@ == point@.values[j as int]);
                let wire: Value = if fields[j].auto_encode {
                    point.values[j].auto_encode()
                } else if at < customs.len() {
                    assert(given[at as int] == optional_view(customs[at as int]));
                    match &customs[at] {
                        Some(wire) => wire.duplicate(),
                        None => Value::default(),
                    }
                } else {
                    Value::default()
                };
                assert(wire@ == encoded_values(self@, all, given)[at as int]);
                values.push(wire);
                tags.push(j as u32);
                tags.push(at as u32);
                j += 1;
            }
            let g = point.coordinate.to_geometry();
            let mut geometry: Vec<u32> = Vec::new();
            geometry.push(g[0]);
            geometry.push(g[1]);
            geometry.push(g[2]);
            assert(geometry@ =~= g@);
            assert(tags@ =~= encoded_tags(nf as int, i as int));
            features.push(
                Feature { id: None, tags, type_: Some(GeomType::Point.number()), geometry },
            );
            i += 1;
        }
        let layer = Layer {
            version: Some(LAYER_VERSION),
            name: Some(self.name().clone()),
            features,
            keys: self.keys(),
            values,
            extent: Some(EXTENT),
        };
        proof {
            let want = encoded_layer(self@, all, given);
            assert(layer@.features =~= want.features);
            assert(layer@.values =~= want.values);
        }
        Ok(layer)
    }

    /// Asks `codec` about each value of each point whose field has a custom
    /// encoder. The result is in the form that [`LayerSchema::encode_with`]
    /// takes: one entry per point and field in the order of the value
    /// dictionary, the codec's answer or `None` for a field that is coded
    /// automatically, or no entry at all for a layer without custom
    /// encoders, which is not asked.
    pub fn encode_answers<C: FieldCodec>(&self, codec: &C, points: &Vec<Point>) -> (r: Vec<
        Option<Value>,
    >)
        ensures
            optional_views(r@) == asked_customs(*codec, self@, views(points@)),
    {
        let fields = self.fields();
        let nf: usize = fields.len();
        let mut customs: Vec<Option<Value>> = Vec::new();
        if !self.has_custom_encoder() {
            assert(optional_views(customs@) =~= asked_customs(*codec, self@, views(points@)));
            return customs;
        }
        let ghost all = views(points@);
        let ghost asked = asked_customs(*codec, self@, all);
        let mut i: usize = 0;
        while i < points.len()
            invariant
                views(fields@) == self@.fields,
                nf == fields.len(),
                has_custom_encoder(self@),
                all == views(points@),
                asked == asked_customs(*codec, self@, all),
                0 <= i <= points.len(),
                customs.len() == i * nf,
                forall|at: int|
                    0 <= at < customs.len() ==> optional_view(#[trigger] customs[at]) == asked[at],
            decreases points.len() - i,
        {
            let point = &points[i];
            assert(point@ == all[i as int]);
            assert((i + 1) * nf == i * nf + nf) by (nonlinear_arith);
            assert((i + 1) * nf <= points.len() * nf) by (nonlinear_arith)
                requires
                    i + 1 <= points.len(),
                    0 <= nf,
            ;
            let mut j: usize = 0;
            while j < nf
                invariant
                    views(fields@) == self@.fields,
                    nf == fields.len(),
                    has_custom_encoder(self@),
                    all == views(points@),
                    asked == asked_customs(*codec, self@, all),
                    0 <= i < points.len(),
                    point@ == all[i as int],
                    (i + 1) * nf == i * nf + nf,
                    (i + 1) * nf <= points.len() * nf,
                    0 <= j <= nf,
                    customs.len() == i * nf + j,
                    forall|at: int|
                        0 <= at < customs.len() ==> optional_view(#[trigger] customs[at])
                            == asked[at],
                decreases nf - j,
            {
                proof {
                    assert(0 <= i * nf) by (nonlinear_arith)
                        requires
                            0 <= i,
                            0 <= nf,
                    ;
                    lemma_fundamental_div_mod_converse(
                        i * nf + j,
                        nf as int,
                        i as int,
                        j as int,
                    );
                }
                assert(fields[j as int]@ == self@.fields[j as int]);
                if !fields[j].auto_encode && j < point.values.len() {
                    assert(point.values[j as int]@ == point@.values[j as int]);
                    customs.push(
                        Some(
                            codec.encode(
                                self.name().as_str(),
                                fields[j].name.as_str(),
                                &point.values[j],
                            ),
                        ),
                    );
                } else {
                    customs.push(None);
                }
                j += 1;
            }
            i += 1;
        }
        assert(optional_views(customs@) =~= asked);
        customs
    }

    /// Writes a list of points as a layer, asking `codec` for the fields
    /// whose automatic encoder is switched off. The result is that of
    /// [`LayerSchema::encode_with`] on the codec's answers.
    pub fn encode<C: FieldCodec>(&self, codec: &C, points: &Vec<Point>) -> (r: Result<
        Layer,
        EncodeError,
    >)
        ensures
            match r {
                Ok(layer) => {
                    &&& points.len() * self@.fields.len() <= VALUE_LIMIT
                    &&& forall|i: int|
                        0 <= i < points.len() ==> point_fits(self@, (#[trigger] points[i])@)
                    &&& layer@ == encoded_layer(
                        self@,
                        views(points@),
                        asked_customs(*codec, self@, views(points@)),
                    )
                },
                Err(EncodeError::TooManyValues) => points.len() * self@.fields.len() > VALUE_LIMIT,
                Err(EncodeError::PointMismatch { point }) => {
                    &&& points.len() * self@.fields.len() <= VALUE_LIMIT
                    &&& 0 <= point < points.len()
                    &&& !point_fits(self@, points[point as int]@)
                    &&& forall|i: int| 0 <= i < point ==> point_fits(self@, (#[trigger] points[i])@)
                },
            },
    {
        let customs = self.encode_answers(codec, points);
        self.encode_with(points, &customs)
    }
}

} // verus!
