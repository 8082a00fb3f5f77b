//! The tile container: for each layer of the schema, the points of that
//! layer in order, and the conversion between a container and the generic
//! tile message.

use vstd::prelude::*;
use crate::codec::{
    asked_customs, asked_of_layer, decoded_points, encoded_layer, optional_views, point_fits,
    EncodeError, FieldCodec, FieldValue, FieldValueView, Point, PointView, LAYER_VERSION,
    VALUE_LIMIT,
};
use crate::schema::{LayerSchemaView, TileSchema, TileSchemaView};
use crate::vector_tile::{views, Layer, LayerView, TileView, Value, ValueView};
use crate::wire::{parse_tile, parsed_tile, tile_bytes, write_tile, WireError};

verus! {

/// The points of a tile, layer by layer: slot `s` holds the points of the
/// schema's layer `s`.
#[derive(Clone, Debug, PartialEq, Eq)]
pub struct Tile {
    pub layers: Vec<Vec<Point>>,
}

/// The views of the points of each slot.
pub open spec fn slot_views(slots: Seq<Vec<Point>>) -> Seq<Seq<PointView>> {
    Seq::new(slots.len(), |s: int| views(slots[s]@))
}

impl View for Tile {
    type V = Seq<Seq<PointView>>;

    open spec fn view(&self) -> Seq<Seq<PointView>> {
        slot_views(self.layers@)
    }
}

/// Whether a layer of a tile message is one that the codec reads for the
/// schema layer of the given name: it has version 2 and that name.
pub open spec fn layer_matches(name: Seq<char>, layer: LayerView) -> bool {
    layer.version_or_default() == LAYER_VERSION && layer.name_or_default() == name
}

/// The position of the last of the first `upto` layers that matches the
/// name.
pub open spec fn last_match(name: Seq<char>, layers: Seq<LayerView>, upto: int) -> Option<int>
    decreases upto,
{
    if upto <= 0 {
        None
    } else if layer_matches(name, layers[upto - 1]) {
        Some(upto - 1)
    } else {
        last_match(name, layers, upto - 1)
    }
}

/// The views of the custom decoder's answers, by layer of the message, by
/// feature and by tag pair.
pub open spec fn tile_answers_views(s: Seq<Vec<Vec<Option<FieldValue>>>>) -> Seq<
    Seq<Seq<Option<FieldValueView>>>,
> {
    Seq::new(s.len(), |w: int| crate::codec::answers_views(s[w]@))
}

/// The answers for the layer at position `w` of the message; past the end
/// of the list there are none.
pub open spec fn layer_answers_at(
    answers: Seq<Seq<Seq<Option<FieldValueView>>>>,
    w: int,
) -> Seq<Seq<Option<FieldValueView>>> {
    if 0 <= w < answers.len() {
        answers[w]
    } else {
        Seq::empty()
    }
}

/// The points of one schema layer as the first `upto` layers of a message
/// give them: those of the last matching layer, none where no layer
/// matches.
pub open spec fn decoded_slot(
    layer: LayerSchemaView,
    zoom: u8,
    tx: u32,
    ty: u32,
    wire: Seq<LayerView>,
    answers: Seq<Seq<Seq<Option<FieldValueView>>>>,
    upto: int,
) -> Seq<PointView> {
    match last_match(layer.name, wire, upto) {
        Some(w) => decoded_points(
            layer,
            zoom,
            tx,
            ty,
            wire[w].features,
            wire[w].values,
            layer_answers_at(answers, w),
            wire[w].features.len() as int,
        ),
        None => Seq::empty(),
    }
}

/// The container that a tile message stands for. A layer of another
/// version, or with a name that the schema does not declare, is passed
/// over; a schema layer that the message does not hold stays empty.
pub open spec fn decoded_tile(
    schema: TileSchemaView,
    zoom: u8,
    tx: u32,
    ty: u32,
    wire: TileView,
    answers: Seq<Seq<Seq<Option<FieldValueView>>>>,
) -> Seq<Seq<PointView>> {
    Seq::new(
        schema.layers.len(),
        |s: int|
            decoded_slot(
                schema.layers[s],
                zoom,
                tx,
                ty,
                wire.layers,
                answers,
                wire.layers.len() as int,
            ),
    )
}

/// The views of the custom encoder's answers, by schema layer and by value.
pub open spec fn tile_customs_views(s: Seq<Vec<Option<Value>>>) -> Seq<Seq<Option<ValueView>>> {
    Seq::new(s.len(), |l: int| optional_views(s[l]@))
}

/// The custom answers for the schema layer at position `s`; past the end of
/// the list there are none.
pub open spec fn customs_at(customs: Seq<Seq<Option<ValueView>>>, s: int) -> Seq<
    Option<ValueView>,
> {
    if 0 <= s < customs.len() {
        customs[s]
    } else {
        Seq::empty()
    }
}

/// The tile message of a container: one layer for each layer of the
/// schema, in the schema's order, empty slots included.
pub open spec fn encoded_tile(
    schema: TileSchemaView,
    tile: Seq<Seq<PointView>>,
    customs: Seq<Seq<Option<ValueView>>>,
) -> TileView {
    TileView {
        layers: Seq::new(
            schema.layers.len(),
            |s: int| encoded_layer(schema.layers[s], tile[s], customs_at(customs, s)),
        ),
    }
}

/// Whether the slot at position `s` can be written as its layer.
pub open spec fn slot_encodes(schema: TileSchemaView, tile: Seq<Seq<PointView>>, s: int) -> bool {
    &&& tile[s].len() * schema.layers[s].fields.len() <= VALUE_LIMIT
    &&& forall|i: int| 0 <= i < tile[s].len() ==> point_fits(schema.layers[s], #[trigger] tile[s][i])
}

/// Why a container cannot be written as a tile message.
#[derive(Clone, Copy, Debug, PartialEq, Eq, Structural)]
pub enum TileError {
    /// The container does not have one slot for each layer of the schema.
    SlotCount,
    /// The slot at this position cannot be written as its layer.
    Layer { layer: usize, error: EncodeError },
    /// A part of the message is longer than the bytes can count.
    TooLarge,
}

/// Whether `outcome` is the outcome of writing a container as a message:
/// the message, or `SlotCount`, or the first slot that cannot be written.
pub open spec fn encodes_tile(
    schema: TileSchemaView,
    tile: Seq<Seq<PointView>>,
    customs: Seq<Seq<Option<ValueView>>>,
    outcome: Result<TileView, TileError>,
) -> bool {
    match outcome {
        Ok(wire) => {
            &&& tile.len() == schema.layers.len()
            &&& forall|s: int| 0 <= s < tile.len() ==> slot_encodes(schema, tile, s)
            &&& wire == encoded_tile(schema, tile, customs)
        },
        Err(TileError::SlotCount) => tile.len() != schema.layers.len(),
        Err(TileError::Layer { layer, error }) => {
            &&& tile.len() == schema.layers.len()
            &&& 0 <= layer < tile.len()
            &&& !slot_encodes(schema, tile, layer as int)
            &&& forall|s: int| 0 <= s < layer ==> slot_encodes(schema, tile, s)
            &&& error == EncodeError::TooManyValues <==> tile[layer as int].len()
                * schema.layers[layer as int].fields.len() > VALUE_LIMIT
        },
        Err(TileError::TooLarge) => false,
    }
}

/// Whether `outcome` is the outcome of writing a container as bytes: the
/// bytes of its message, or why there is no message, or `TooLarge` where
/// the message has a part too long for the bytes.
pub open spec fn writes_tile(
    schema: TileSchemaView,
    tile: Seq<Seq<PointView>>,
    customs: Seq<Seq<Option<ValueView>>>,
    outcome: Result<Seq<u8>, TileError>,
) -> bool {
    match outcome {
        Ok(bytes) => encodes_tile(schema, tile, customs, Ok(encoded_tile(schema, tile, customs)))
            && tile_bytes(encoded_tile(schema, tile, customs)) == Some(bytes),
        Err(TileError::TooLarge) => encodes_tile(
            schema,
            tile,
            customs,
            Ok(encoded_tile(schema, tile, customs)),
        ) && tile_bytes(encoded_tile(schema, tile, customs)).is_none(),
        Err(e) => encodes_tile(schema, tile, customs, Err(e)),
    }
}

/// The view of the outcome of writing a container as a message.
pub open spec fn message_view(r: Result<crate::vector_tile::Tile, TileError>) -> Result<
    TileView,
    TileError,
> {
    match r {
        Ok(wire) => Ok(wire@),
        Err(e) => Err(e),
    }
}

/// The view of the outcome of writing a container as bytes.
pub open spec fn bytes_view(r: Result<Vec<u8>, TileError>) -> Result<Seq<u8>, TileError> {
    match r {
        Ok(bytes) => Ok(bytes@),
        Err(e) => Err(e),
    }
}

/// The container that the bytes of a tile stand for, or `None` where they
/// are no tile message.
pub open spec fn decoded_bytes(
    schema: TileSchemaView,
    zoom: u8,
    tx: u32,
    ty: u32,
    bytes: Seq<u8>,
    answers: Seq<Seq<Seq<Option<FieldValueView>>>>,
) -> Option<Seq<Seq<PointView>>> {
    match parsed_tile(bytes) {
        Some(wire) => Some(decoded_tile(schema, zoom, tx, ty, wire, answers)),
        None => None,
    }
}

/// A layer that does not match a name does not change the last match.
pub proof fn lemma_last_match_step(name: Seq<char>, layers: Seq<LayerView>, upto: int)
    requires
        0 <= upto < layers.len(),
    ensures
        layer_matches(name, layers[upto]) ==> last_match(name, layers, upto + 1) == Some(upto),
        !layer_matches(name, layers[upto]) ==> last_match(name, layers, upto + 1) == last_match(
            name,
            layers,
            upto,
        ),
{
}

impl TileSchema {
    /// A container with an empty slot for each layer.
    pub fn new_tile(&self) -> (r: Tile)
        ensures
            r@.len() == self@.layers.len(),
            forall|s: int| 0 <= s < r@.len() ==> (#[trigger] r@[s]).len() == 0,
    {
        let n: usize = self.layers().len();
        let mut layers: Vec<Vec<Point>> = Vec::new();
        let mut s: usize = 0;
        while s < n
            invariant
                0 <= s <= n,
                layers.len() == s,
                forall|k: int| 0 <= k < s ==> (#[trigger] layers[k]).len() == 0,
            decreases n - s,
        {
            layers.push(Vec::new());
            s += 1;
        }
        Tile { layers }
    }

    /// The points of the layer with the given name in a container, or `None`
    /// where the schema declares no such layer or the container has no slot
    /// for it.
    pub fn points_of<'a>(&self, tile: &'a Tile, name: &String) -> (r: Option<&'a Vec<Point>>)
        ensures
            match r {
                Some(points) => exists|s: int|
                    0 <= s < self@.layers.len() && s < tile.layers.len() && #[trigger] self@.layers[s].name
                        == name@ && *points == tile.layers[s],
                None => forall|s: int|
                    0 <= s < self@.layers.len() && s < tile.layers.len() ==> #[trigger] self@.layers[s].name
                        != name@,
            },
    {
        let layers = self.layers();
        match self.find_layer(name) {
            Some(s) => {
                if s < tile.layers.len() {
                    Some(&tile.layers[s])
                } else {
                    None
                }
            },
            None => None,
        }
    }

    /// Reads a tile message for tile `(tx, ty)` at the given zoom. Each layer
    /// of version 2 whose name the schema declares is decoded into that
    /// layer's slot, a later one replacing an earlier one of the same name;
    /// every other layer is passed over. `answers` holds the custom
    /// decoder's answers by layer of the message, feature and tag pair.
    pub fn decode_tile_with(
        &self,
        zom: u8,
        tx: u32,
        ty: u32,
        wire: &crate::vector_tile::Tile,
        answers: &Vec<Vec<Vec<Option<FieldValue>>>>,
    ) -> (r: Tile)
        ensures
            r@ == decoded_tile(self@, zom, tx, ty, wire@, tile_answers_views(answers@)),
    {
        let layers = self.layers();
        let ghost given = tile_answers_views(answers@);
        let none: Vec<Vec<Option<FieldValue>>> = Vec::new();
        let mut tile = self.new_tile();
        let mut w: usize = 0;
        while w < wire.layers.len()
            invariant
                views(layers@) == self@.layers,
                self@.wf(),
                given == tile_answers_views(answers@),
                none@.len() == 0,
                0 <= w <= wire.layers.len(),
                tile.layers.len() == layers.len(),
                forall|s: int|
                    0 <= s < layers.len() ==> (#[trigger] tile@[s]) == decoded_slot(
                        self@.layers[s],
                        zom,
                        tx,
                        ty,
                        wire@.layers,
                        given,
                        w as int,
                    ),
            decreases wire.layers.len() - w,
        {
            let layer = &wire.layers[w];
            assert(layer@ == wire@.layers[w as int]);
            proof {
                assert forall|s: int| 0 <= s < layers.len() implies (layer_matches(
                    self@.layers[s].name,
                    layer@,
                ) ==> last_match(self@.layers[s].name, wire@.layers, w + 1) == Some(w as int))
                    && (!layer_matches(self@.layers[s].name, layer@) ==> last_match(
                    self@.layers[s].name,
                    wire@.layers,
                    w + 1,
                ) == last_match(self@.layers[s].name, wire@.layers, w as int)) by {
                    lemma_last_match_step(self@.layers[s].name, wire@.layers, w as int);
                }
            }
            if layer.version() == LAYER_VERSION {
                let name = layer.name();
                match self.find_layer(&name) {
                    Some(s) => {
                        assert(layers[s as int]@ == self@.layers[s as int]);
                        let mine: &Vec<Vec<Option<FieldValue>>> = if w < answers.len() {
                            &answers[w]
                        } else {
                            &none
                        };
                        assert(crate::codec::answers_views(mine@) =~= layer_answers_at(
                            given,
                            w as int,
                        ));
                        let points = layers[s].decode_layer_with(zom, tx, ty, layer, mine);
                        let ghost before = tile@;
                        tile.layers.set(s, points);
                        assert forall|k: int| 0 <= k < layers.len() implies (#[trigger] tile@[k])
                            == decoded_slot(
                            self@.layers[k],
                            zom,
                            tx,
                            ty,
                            wire@.layers,
                            given,
                            w + 1,
                        ) by {
                            if k != s {
                                assert(tile@[k] == before[k]);
                                assert(self@.layers[k].name != self@.layers[s as int].name);
                            }
                        }
                    },
                    None => {},
                }
            }
            w += 1;
        }
        assert(tile@ =~= decoded_tile(self@, zom, tx, ty, wire@, given));
        tile
    }

    /// What the custom decoder makes of each tag pair of each feature of
    /// each layer of a message that the schema reads.
    fn tile_answers<C: FieldCodec>(&self, codec: &C, wire: &crate::vector_tile::Tile) -> (r: Vec<
        Vec<Vec<Option<FieldValue>>>,
    >)
        ensures
            tile_answers_views(r@) == tile_asked(*codec, self@, wire@),
    {
        let layers = self.layers();
        let ghost asked = tile_asked(*codec, self@, wire@);
        let mut answers: Vec<Vec<Vec<Option<FieldValue>>>> = Vec::new();
        let mut w: usize = 0;
        while w < wire.layers.len()
            invariant
                views(layers@) == self@.layers,
                self@.wf(),
                asked == tile_asked(*codec, self@, wire@),
                0 <= w <= wire.layers.len(),
                answers.len() == w,
                forall|m: int|
                    0 <= m < w ==> crate::codec::answers_views((#[trigger] answers[m])@) == asked[m],
            decreases wire.layers.len() - w,
        {
            let layer = &wire.layers[w];
            assert(layer@ == wire@.layers[w as int]);
            let name = layer.name();
            match self.find_layer(&name) {
                Some(s) => {
                    assert(layers[s as int]@ == self@.layers[s as int]);
                    assert(layer_named(self@, name@) == Some(s as int)) by {
                        let c = choose|c: int|
                            0 <= c < self@.layers.len() && self@.layers[c].name == name@;
                        if c < s {
                        } else if s < c {
                        }
                    }
                    answers.push(layers[s].decode_answers(codec, layer));
                },
                None => {
                    let none: Vec<Vec<Option<FieldValue>>> = Vec::new();
                    assert(crate::codec::answers_views(none@) =~= asked[w as int]);
                    answers.push(none);
                },
            }
            w += 1;
        }
        assert(tile_answers_views(answers@) =~= asked);
        answers
    }

    /// Reads a tile message, asking `codec` for the fields whose automatic
    /// decoder is switched off. The result is that of
    /// [`TileSchema::decode_tile_with`] on the codec's answers.
    pub fn decode_tile<C: FieldCodec>(
        &self,
        codec: &C,
        zom: u8,
        tx: u32,
        ty: u32,
        wire: &crate::vector_tile::Tile,
    ) -> (r: Tile)
        ensures
            r@ == decoded_tile(self@, zom, tx, ty, wire@, tile_asked(*codec, self@, wire@)),
    {
        let answers = self.tile_answers(codec, wire);
        self.decode_tile_with(zom, tx, ty, wire, &answers)
    }

    /// Writes a container as a tile message: the layers of the schema in
    /// order, each with the points of its slot. `customs` holds the custom
    /// encoder's answers by schema layer and value.
    ///
    /// Fails with `SlotCount` unless the container has one slot per layer,
    /// else with the error of the first slot that cannot be written.
    pub fn encode_tile_with(&self, tile: &Tile, customs: &Vec<Vec<Option<Value>>>) -> (r: Result<
        crate::vector_tile::Tile,
        TileError,
    >)
        ensures
            encodes_tile(self@, tile@, tile_customs_views(customs@), message_view(r)),
    {
        let layers = self.layers();
        if tile.layers.len() != layers.len() {
            return Err(TileError::SlotCount);
        }
        let ghost given = tile_customs_views(customs@);
        let none: Vec<Option<Value>> = Vec::new();
        let mut out: Vec<Layer> = Vec::new();
        let mut s: usize = 0;
        while s < layers.len()
            invariant
                views(layers@) == self@.layers,
                tile.layers.len() == layers.len(),
                given == tile_customs_views(customs@),
                none@.len() == 0,
                0 <= s <= layers.len(),
                out.len() == s,
                forall|k: int| 0 <= k < s ==> slot_encodes(self@, tile@, k),
                forall|k: int|
                    0 <= k < s ==> (#[trigger] out[k])@ == encoded_layer(
                        self@.layers[k],
                        tile@[k],
                        customs_at(given, k),
                    ),
            decreases layers.len() - s,
        {
            assert(layers[s as int]@ == self@.layers[s as int]);
            assert(tile@[s as int] == views(tile.layers[s as int]@));
            let mine: &Vec<Option<Value>> = if s < customs.len() {
                &customs[s]
            } else {
                &none
            };
            assert(optional_views(mine@) =~= customs_at(given, s as int));
            match layers[s].encode_with(&tile.layers[s], mine) {
                Ok(layer) => {
                    out.push(layer);
                },
                Err(error) => {
                    proof {
                        match error {
                            EncodeError::PointMismatch { point } => {
                                assert(tile@[s as int][point as int] == tile.layers[s as int][point as int]@);
                            },
                            EncodeError::TooManyValues => {},
                        }
                    }
                    return Err(TileError::Layer { layer: s, error });
                },
            }
            s += 1;
        }
        let wire = crate::vector_tile::Tile { layers: out };
        assert(wire@.layers =~= encoded_tile(self@, tile@, given).layers);
        Ok(wire)
    }

    /// What the custom encoder makes of the values of each slot.
    fn tile_customs<C: FieldCodec>(&self, codec: &C, tile: &Tile) -> (r: Vec<Vec<Option<Value>>>)
        ensures
            tile_customs_views(r@) == tile_customs_asked(*codec, self@, tile@),
    {
        let layers = self.layers();
        let ghost asked = tile_customs_asked(*codec, self@, tile@);
        let mut customs: Vec<Vec<Option<Value>>> = Vec::new();
        let mut s: usize = 0;
        while s < layers.len() && s < tile.layers.len()
            invariant
                views(layers@) == self@.layers,
                asked == tile_customs_asked(*codec, self@, tile@),
                0 <= s <= layers.len(),
                0 <= s <= tile.layers.len(),
                customs.len() == s,
                forall|m: int| 0 <= m < s ==> optional_views((#[trigger] customs[m])@) == asked[m],
            decreases layers.len() - s,
        {
            assert(layers[s as int]@ == self@.layers[s as int]);
            assert(tile@[s as int] == views(tile.layers[s as int]@));
            customs.push(layers[s].encode_answers(codec, &tile.layers[s]));
            s += 1;
        }
        assert(tile_customs_views(customs@) =~= asked);
        customs
    }

    /// Writes a container as a tile message, asking `codec` for the fields
    /// whose automatic encoder is switched off. The result is that of
    /// [`TileSchema::encode_tile_with`] on the codec's answers.
    pub fn encode_tile<C: FieldCodec>(&self, codec: &C, tile: &Tile) -> (r: Result<
        crate::vector_tile::Tile,
        TileError,
    >)
        ensures
            encodes_tile(self@, tile@, tile_customs_asked(*codec, self@, tile@), message_view(r)),
    {
        let customs = self.tile_customs(codec, tile);
        self.encode_tile_with(tile, &customs)
    }

    /// Reads the bytes of tile `(tx, ty)` at the given zoom into a
    /// container. Bytes that are no tile message are an error and give no
    /// container; a layer of another version or of an undeclared name is
    /// passed over without one. `answers` holds the custom decoder's
    /// answers by layer of the message, feature and tag pair.
    pub fn decode_with(
        &self,
        zom: u8,
        tx: u32,
        ty: u32,
        pbf: &[u8],
        answers: &Vec<Vec<Vec<Option<FieldValue>>>>,
    ) -> (r: Result<Tile, WireError>)
        ensures
            match r {
                Ok(tile) => decoded_bytes(self@, zom, tx, ty, pbf@, tile_answers_views(answers@))
                    == Some(tile@),
                Err(e) => parsed_tile(pbf@).is_none() && e == WireError::Malformed,
            },
    {
        match parse_tile(pbf) {
            Ok(wire) => Ok(self.decode_tile_with(zom, tx, ty, &wire, answers)),
            Err(e) => Err(e),
        }
    }

    /// Reads the bytes of a tile into a container, asking `codec` for the
    /// fields whose automatic decoder is switched off. The result is that
    /// of [`TileSchema::decode_with`] on the codec's answers.
    pub fn decode<C: FieldCodec>(&self, codec: &C, zom: u8, tx: u32, ty: u32, pbf: &[u8]) -> (r:
        Result<Tile, WireError>)
        ensures
            match r {
                Ok(tile) => parsed_tile(pbf@).is_some() && tile@ == decoded_tile(
                    self@,
                    zom,
                    tx,
                    ty,
                    parsed_tile(pbf@).unwrap(),
                    tile_asked(*codec, self@, parsed_tile(pbf@).unwrap()),
                ),
                Err(e) => parsed_tile(pbf@).is_none() && e == WireError::Malformed,
            },
    {
        match parse_tile(pbf) {
            Ok(wire) => Ok(self.decode_tile(codec, zom, tx, ty, &wire)),
            Err(e) => Err(e),
        }
    }

    /// Writes a container as the bytes of a tile. `customs` holds the
    /// custom encoder's answers by schema layer and value.
    pub fn encode_with(&self, tile: &Tile, customs: &Vec<Vec<Option<Value>>>) -> (r: Result<
        Vec<u8>,
        TileError,
    >)
        ensures
            writes_tile(self@, tile@, tile_customs_views(customs@), bytes_view(r)),
    {
        let wire = match self.encode_tile_with(tile, customs) {
            Ok(wire) => wire,
            Err(e) => {
                return Err(e);
            },
        };
        match write_tile(&wire) {
            Ok(bytes) => Ok(bytes),
            Err(_) => Err(TileError::TooLarge),
        }
    }

    /// Writes a container as the bytes of a tile, asking `codec` for the
    /// fields whose automatic encoder is switched off. The result is that
    /// of [`TileSchema::encode_with`] on the codec's answers.
    pub fn encode<C: FieldCodec>(&self, codec: &C, tile: &Tile) -> (r: Result<Vec<u8>, TileError>)
        ensures
            writes_tile(self@, tile@, tile_customs_asked(*codec, self@, tile@), bytes_view(r)),
    {
        let customs = self.tile_customs(codec, tile);
        self.encode_with(tile, &customs)
    }
}

/// The position of the schema layer with the given name.
pub open spec fn layer_named(schema: TileSchemaView, name: Seq<char>) -> Option<int> {
    if exists|s: int| 0 <= s < schema.layers.len() && schema.layers[s].name == name {
        Some(choose|s: int| 0 <= s < schema.layers.len() && schema.layers[s].name == name)
    } else {
        None
    }
}

/// What the codec is asked about a message and what it answers: for each
/// layer of the message whose name the schema declares, what it is asked
/// about that layer for the schema layer of that name; nothing for a layer
/// of an undeclared name.
pub open spec fn tile_asked<C: FieldCodec>(codec: C, schema: TileSchemaView, wire: TileView) -> Seq<
    Seq<Seq<Option<FieldValueView>>>,
> {
    Seq::new(
        wire.layers.len(),
        |w: int|
            match layer_named(schema, wire.layers[w].name_or_default()) {
                Some(s) => asked_of_layer(codec, schema.layers[s], wire.layers[w]),
                None => Seq::empty(),
            },
    )
}

/// What the codec is asked about a container and what it answers: for each
/// slot that has a schema layer, what it is asked about the points of the
/// slot.
pub open spec fn tile_customs_asked<C: FieldCodec>(
    codec: C,
    schema: TileSchemaView,
    tile: Seq<Seq<PointView>>,
) -> Seq<Seq<Option<ValueView>>> {
    Seq::new(
        if schema.layers.len() <= tile.len() {
            schema.layers.len()
        } else {
            tile.len()
        },
        |s: int| asked_customs(codec, schema.layers[s], tile[s]),
    )
}

} // verus!
