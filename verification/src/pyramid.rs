//! The merge rules of the tile pyramid.
//!
//! One entity is kept as one point in the tile file of every zoom level
//! from its native zoom up to the deepest. A tile file is written as a tile
//! message with one layer; it is read like any tile, so that a layer of
//! another name or version beside the store's layer is passed over. The
//! caller walks the zoom levels, projects the point to each level, and
//! reads and writes the files; what goes into a file is decided here.
//!
//! Two writers that change one file at the same time are not kept apart:
//! the one that writes last wins.

use vstd::prelude::*;
use crate::codec::{
    answers_views, asked_customs, asked_of_layer, decoded_points, encoded_layer, optional_views,
    point_fits, EncodeError, FieldCodec, FieldValue, FieldValueView, Point, PointView,
    VALUE_LIMIT,
};
use crate::coordinate::MAX_ZOOM;
use crate::schema::{same_text, LayerSchema, LayerSchemaView};
use crate::tile::{last_match, lemma_last_match_step};
use crate::vector_tile::{views, Tile, TileView, Value, ValueView};
use crate::wire::{parse_tile, parsed_tile, tile_bytes, write_tile, WireError};

verus! {

/// The text that identifies the entity of a point: the value of the
/// layer's identity field, if the layer has one and the point holds a text
/// there.
pub open spec fn identity_of(layer: LayerSchemaView, point: PointView) -> Option<Seq<char>> {
    match layer.identity {
        Some(k) => if 0 <= k < point.values.len() {
            match point.values[k] {
                FieldValueView::Text(s) => Some(s),
                _ => None,
            }
        } else {
            None
        },
        None => None,
    }
}

/// Whether two points stand for one entity: both have an identity, and the
/// same one.
pub open spec fn same_entity(layer: LayerSchemaView, a: PointView, b: PointView) -> bool {
    identity_of(layer, a).is_some() && identity_of(layer, a) == identity_of(layer, b)
}

/// The points after an upsert: every point of the entity replaced where it
/// stands, or the point appended where the entity was not there.
pub open spec fn upserted(layer: LayerSchemaView, existing: Seq<PointView>, point: PointView) -> Seq<
    PointView,
> {
    if exists|i: int| 0 <= i < existing.len() && same_entity(layer, existing[i], point) {
        Seq::new(
            existing.len(),
            |i: int|
                if same_entity(layer, existing[i], point) {
                    point
                } else {
                    existing[i]
                },
        )
    } else {
        existing.push(point)
    }
}

/// The first `upto` points without those of the entity, in order.
pub open spec fn removed(
    layer: LayerSchemaView,
    existing: Seq<PointView>,
    point: PointView,
    upto: int,
) -> Seq<PointView>
    decreases upto,
{
    if upto <= 0 {
        Seq::empty()
    } else {
        let before = removed(layer, existing, point, upto - 1);
        if same_entity(layer, existing[upto - 1], point) {
            before
        } else {
            before.push(existing[upto - 1])
        }
    }
}

/// How many of the first `upto` points stand for the entity of `point`.
pub open spec fn entity_count(
    layer: LayerSchemaView,
    points: Seq<PointView>,
    point: PointView,
    upto: int,
) -> nat
    decreases upto,
{
    if upto <= 0 {
        0
    } else {
        entity_count(layer, points, point, upto - 1) + if same_entity(
            layer,
            points[upto - 1],
            point,
        ) {
            1nat
        } else {
            0nat
        }
    }
}

/// The points that a tile message holds for the layer of a tile file: those
/// of the last layer of version 2 with the layer's name, whatever else the
/// message holds; none where no layer matches. `answers` holds the custom
/// decoder's answers for that layer.
pub open spec fn file_points(
    layer: LayerSchemaView,
    zoom: u8,
    tx: u32,
    ty: u32,
    tile: TileView,
    answers: Seq<Seq<Option<FieldValueView>>>,
) -> Seq<PointView> {
    match last_match(layer.name, tile.layers, tile.layers.len() as int) {
        Some(w) => decoded_points(
            layer,
            zoom,
            tx,
            ty,
            tile.layers[w].features,
            tile.layers[w].values,
            answers,
            tile.layers[w].features.len() as int,
        ),
        None => Seq::empty(),
    }
}

/// What the codec is asked about a tile message as a tile file, and what it
/// answers: what it is asked about the layer that is read.
pub open spec fn file_asked<C: FieldCodec>(codec: C, layer: LayerSchemaView, tile: TileView) -> Seq<
    Seq<Option<FieldValueView>>,
> {
    match last_match(layer.name, tile.layers, tile.layers.len() as int) {
        Some(w) => asked_of_layer(codec, layer, tile.layers[w]),
        None => Seq::empty(),
    }
}

/// What the codec is asked about the bytes of a tile file, and what it
/// answers; nothing where the bytes are no tile message.
pub open spec fn content_asked<C: FieldCodec>(codec: C, layer: LayerSchemaView, bytes: Seq<u8>) -> Seq<
    Seq<Option<FieldValueView>>,
> {
    match parsed_tile(bytes) {
        Some(tile) => file_asked(codec, layer, tile),
        None => Seq::empty(),
    }
}

/// The points of a tile file, or `None` where its bytes are no tile
/// message.
pub open spec fn decoded_file(
    layer: LayerSchemaView,
    zoom: u8,
    tx: u32,
    ty: u32,
    bytes: Seq<u8>,
    answers: Seq<Seq<Option<FieldValueView>>>,
) -> Option<Seq<PointView>> {
    match parsed_tile(bytes) {
        Some(tile) => Some(file_points(layer, zoom, tx, ty, tile, answers)),
        None => None,
    }
}

/// The bytes of the tile file of a list of points, or `None` where a part
/// of the message is too long.
pub open spec fn encoded_file(
    layer: LayerSchemaView,
    points: Seq<PointView>,
    customs: Seq<Option<ValueView>>,
) -> Option<Seq<u8>> {
    tile_bytes(TileView { layers: seq![encoded_layer(layer, points, customs)] })
}

/// Why a tile file cannot be written.
#[derive(Clone, Copy, Debug, PartialEq, Eq, Structural)]
pub enum StoreError {
    /// The points cannot be written as a layer.
    Encode(EncodeError),
    /// The layer cannot be written as bytes.
    Wire(WireError),
}

/// Whether `outcome` is the outcome of writing a list of points as a tile
/// file: the bytes, or `TooManyValues`, or the first point that does not
/// fit, or `TooLarge`, in this order of precedence.
pub open spec fn writes_file(
    layer: LayerSchemaView,
    points: Seq<PointView>,
    customs: Seq<Option<ValueView>>,
    outcome: Result<Seq<u8>, StoreError>,
) -> bool {
    match outcome {
        Err(StoreError::Encode(EncodeError::TooManyValues)) => points.len() * layer.fields.len()
            > VALUE_LIMIT,
        Err(StoreError::Encode(EncodeError::PointMismatch { point })) => {
            &&& points.len() * layer.fields.len() <= VALUE_LIMIT
            &&& 0 <= point < points.len()
            &&& !point_fits(layer, points[point as int])
            &&& forall|i: int| 0 <= i < point ==> point_fits(layer, #[trigger] points[i])
        },
        Err(StoreError::Wire(e)) => {
            &&& points.len() * layer.fields.len() <= VALUE_LIMIT
            &&& forall|i: int| 0 <= i < points.len() ==> point_fits(layer, #[trigger] points[i])
            &&& encoded_file(layer, points, customs).is_none()
            &&& e == WireError::TooLarge
        },
        Ok(bytes) => {
            &&& points.len() * layer.fields.len() <= VALUE_LIMIT
            &&& forall|i: int| 0 <= i < points.len() ==> point_fits(layer, #[trigger] points[i])
            &&& encoded_file(layer, points, customs) == Some(bytes)
        },
    }
}

/// The view of the outcome of writing a tile file.
pub open spec fn stored_view(r: Result<Vec<u8>, StoreError>) -> Result<Seq<u8>, StoreError> {
    match r {
        Ok(bytes) => Ok(bytes@),
        Err(e) => Err(e),
    }
}

/// What a tile file holds, as far as a change of the store cares.
#[derive(Clone, Debug, PartialEq, Eq)]
pub enum FileContent {
    /// There is no file, or it has no bytes.
    Empty,
    /// The bytes are no tile message.
    Corrupt,
    /// The points of the file's layer.
    Points(Vec<Point>),
}

/// What a [`FileContent`] holds.
pub ghost enum FileContentView {
    Empty,
    Corrupt,
    Points(Seq<PointView>),
}

impl View for FileContent {
    type V = FileContentView;

    open spec fn view(&self) -> FileContentView {
        match self {
            FileContent::Empty => FileContentView::Empty,
            FileContent::Corrupt => FileContentView::Corrupt,
            FileContent::Points(points) => FileContentView::Points(views(points@)),
        }
    }
}

/// What the bytes of a tile file hold.
pub open spec fn content_of(
    layer: LayerSchemaView,
    zoom: u8,
    tx: u32,
    ty: u32,
    bytes: Seq<u8>,
    answers: Seq<Seq<Option<FieldValueView>>>,
) -> FileContentView {
    if bytes.len() == 0 {
        FileContentView::Empty
    } else {
        match decoded_file(layer, zoom, tx, ty, bytes, answers) {
            Some(points) => FileContentView::Points(points),
            None => FileContentView::Corrupt,
        }
    }
}

/// The points that an upsert puts into a tile file. A file that is empty
/// and a file that is corrupt both give way to the point alone.
pub open spec fn upserted_content(
    layer: LayerSchemaView,
    content: FileContentView,
    point: PointView,
) -> Seq<PointView> {
    match content {
        FileContentView::Points(points) => upserted(layer, points, point),
        _ => seq![point],
    }
}

/// The points that a delete leaves in a tile file, or `None` where the
/// file is left alone: it is empty, or it is corrupt.
pub open spec fn deleted_content(
    layer: LayerSchemaView,
    content: FileContentView,
    point: PointView,
) -> Option<Seq<PointView>> {
    match content {
        FileContentView::Points(points) => Some(removed(layer, points, point, points.len() as int)),
        _ => None,
    }
}

/// The points that an upsert puts into the tile file with the given bytes.
pub open spec fn upserted_file(
    layer: LayerSchemaView,
    zoom: u8,
    tx: u32,
    ty: u32,
    existing: Seq<u8>,
    point: PointView,
    answers: Seq<Seq<Option<FieldValueView>>>,
) -> Seq<PointView> {
    upserted_content(layer, content_of(layer, zoom, tx, ty, existing, answers), point)
}

/// The points that a delete leaves in the tile file with the given bytes,
/// or `None` where the file is left alone.
pub open spec fn deleted_file(
    layer: LayerSchemaView,
    zoom: u8,
    tx: u32,
    ty: u32,
    existing: Seq<u8>,
    point: PointView,
    answers: Seq<Seq<Option<FieldValueView>>>,
) -> Option<Seq<PointView>> {
    deleted_content(layer, content_of(layer, zoom, tx, ty, existing, answers), point)
}

/// What the codec is asked about the points that a delete leaves, and what
/// it answers; nothing where the file is left alone.
pub open spec fn deleted_asked<C: FieldCodec>(
    codec: C,
    layer: LayerSchemaView,
    left: Option<Seq<PointView>>,
) -> Seq<Option<ValueView>> {
    match left {
        Some(points) => asked_customs(codec, layer, points),
        None => Seq::empty(),
    }
}

/// Whether `outcome` is the outcome of an upsert into a tile file: that of
/// writing the points of [`upserted_file`].
pub open spec fn upsert_writes(
    layer: LayerSchemaView,
    zoom: u8,
    tx: u32,
    ty: u32,
    existing: Seq<u8>,
    point: PointView,
    answers: Seq<Seq<Option<FieldValueView>>>,
    customs: Seq<Option<ValueView>>,
    outcome: Result<Seq<u8>, StoreError>,
) -> bool {
    writes_file(
        layer,
        upserted_file(layer, zoom, tx, ty, existing, point, answers),
        customs,
        outcome,
    )
}

/// Whether `outcome` is the outcome of a delete from a tile file: nothing
/// to write where [`deleted_file`] leaves the file alone, else that of
/// writing the points it leaves.
pub open spec fn delete_writes(
    layer: LayerSchemaView,
    zoom: u8,
    tx: u32,
    ty: u32,
    existing: Seq<u8>,
    point: PointView,
    answers: Seq<Seq<Option<FieldValueView>>>,
    customs: Seq<Option<ValueView>>,
    outcome: Result<Option<Seq<u8>>, StoreError>,
) -> bool {
    match deleted_file(layer, zoom, tx, ty, existing, point, answers) {
        None => outcome == Ok::<Option<Seq<u8>>, StoreError>(None),
        Some(left) => match outcome {
            Ok(Some(bytes)) => writes_file(layer, left, customs, Ok(bytes)),
            Ok(None) => false,
            Err(e) => writes_file(layer, left, customs, Err(e)),
        },
    }
}

/// The view of the outcome of a delete.
pub open spec fn deleted_view(r: Result<Option<Vec<u8>>, StoreError>) -> Result<
    Option<Seq<u8>>,
    StoreError,
> {
    match r {
        Ok(Some(bytes)) => Ok(Some(bytes@)),
        Ok(None) => Ok(None),
        Err(e) => Err(e),
    }
}

/// The zoom levels that hold a point whose native zoom is `native`: from
/// there to the deepest level. The levels above are not touched.
pub open spec fn levels_from(native: u8) -> Seq<u8> {
    Seq::new(
        if native <= MAX_ZOOM {
            (MAX_ZOOM - native + 1) as nat
        } else {
            0nat
        },
        |i: int| (native + i) as u8,
    )
}

/// The zoom levels that hold a point whose native zoom is `native`, in the
/// order in which they are visited.
pub fn zoom_levels(native: u8) -> (r: Vec<u8>)
    ensures
        r@ == levels_from(native),
{
    let mut levels: Vec<u8> = Vec::new();
    if native > MAX_ZOOM {
        assert(levels@ =~= levels_from(native));
        return levels;
    }
    let mut zoom: u8 = native;
    while zoom <= MAX_ZOOM
        invariant
            native <= zoom <= MAX_ZOOM + 1,
            levels.len() == zoom - native,
            forall|i: int| 0 <= i < levels.len() ==> levels[i] == native + i,
        decreases MAX_ZOOM + 1 - zoom,
    {
        levels.push(zoom);
        zoom += 1;
    }
    assert(levels@ =~= levels_from(native));
    levels
}

impl LayerSchema {
    /// The identity of a point: a copy of the text it holds in the layer's
    /// identity field. A layer without an identity field gives none, and so
    /// does a point that holds no text there.
    pub fn identity_of(&self, point: &Point) -> (r: Option<String>)
        ensures
            match r {
                Some(text) => identity_of(self@, point@) == Some(text@),
                None => identity_of(self@, point@).is_none(),
            },
    {
        match self.identity() {
            Some(k) => {
                if k < point.values.len() {
                    assert(point@.values[k as int] == point.values[k as int]@);
                    match &point.values[k] {
                        FieldValue::Text(text) => Some(text.clone()),
                        _ => None,
                    }
                } else {
                    None
                }
            },
            None => None,
        }
    }

    /// Whether two points stand for one entity.
    pub fn same_entity(&self, a: &Point, b: &Point) -> (r: bool)
        ensures
            r == same_entity(self@, a@, b@),
    {
        match self.identity() {
            Some(k) => {
                if k < a.values.len() && k < b.values.len() {
                    assert(a@.values[k as int] == a.values[k as int]@);
                    assert(b@.values[k as int] == b.values[k as int]@);
                    match (&a.values[k], &b.values[k]) {
                        (FieldValue::Text(x), FieldValue::Text(y)) => same_text(x, y),
                        _ => false,
                    }
                } else {
                    if k < a.values.len() {
                        assert(a@.values[k as int] == a.values[k as int]@);
                    }
                    false
                }
            },
            None => false,
        }
    }

    /// Puts a point among the points of a tile file: it takes the place of
    /// every point of its entity, or goes to the end where there is none.
    pub fn upsert_points(&self, existing: Vec<Point>, point: &Point) -> (r: Vec<Point>)
        ensures
            views(r@) == upserted(self@, views(existing@), point@),
    {
        let ghost was = views(existing@);
        let mut points = existing;
        let mut found = false;
        let mut i: usize = 0;
        while i < points.len()
            invariant
                0 <= i <= points.len(),
                points.len() == was.len(),
                found == exists|j: int| 0 <= j < i && same_entity(self@, was[j], point@),
                forall|j: int|
                    0 <= j < points.len() ==> (#[trigger] points[j])@ == if j < i && same_entity(
                        self@,
                        was[j],
                        point@,
                    ) {
                        point@
                    } else {
                        was[j]
                    },
            decreases points.len() - i,
        {
            if self.same_entity(&points[i], point) {
                points.set(i, point.duplicate());
                found = true;
            }
            i += 1;
        }
        if !found {
            points.push(point.duplicate());
            assert(views(points@) =~= was.push(point@));
        } else {
            assert(views(points@) =~= upserted(self@, was, point@));
        }
        points
    }

    /// Takes the points of an entity out of the points of a tile file and
    /// keeps the others in order.
    pub fn remove_points(&self, existing: &Vec<Point>, point: &Point) -> (r: Vec<Point>)
        ensures
            views(r@) == removed(self@, views(existing@), point@, existing.len() as int),
    {
        let mut kept: Vec<Point> = Vec::new();
        let mut i: usize = 0;
        while i < existing.len()
            invariant
                0 <= i <= existing.len(),
                views(kept@) == removed(self@, views(existing@), point@, i as int),
            decreases existing.len() - i,
        {
            assert(views(existing@)[i as int] == existing[i as int]@);
            if !self.same_entity(&existing[i], point) {
                let ghost before = views(kept@);
                kept.push(existing[i].duplicate());
                assert(views(kept@) =~= before.push(existing[i as int]@));
            }
            i += 1;
        }
        kept
    }

    /// Reads the points of a tile file for tile `(tx, ty)` at the given
    /// zoom: those of the last layer of version 2 with this layer's name. A
    /// layer of another name or version is passed over; a message without a
    /// matching layer holds no points; bytes that are no tile message are an
    /// error. `answers` holds the custom decoder's answers for the layer
    /// that is read, feature by feature.
    pub fn decode_with(
        &self,
        zom: u8,
        tx: u32,
        ty: u32,
        pbf: &[u8],
        answers: &Vec<Vec<Option<FieldValue>>>,
    ) -> (r: Result<Vec<Point>, WireError>)
        ensures
            match r {
                Ok(points) => decoded_file(self@, zom, tx, ty, pbf@, answers_views(answers@))
                    == Some(views(points@)),
                Err(e) => parsed_tile(pbf@).is_none() && e == WireError::Malformed,
            },
    {
        let tile = match parse_tile(pbf) {
            Ok(tile) => tile,
            Err(e) => {
                return Err(e);
            },
        };
        Ok(self.file_points(zom, tx, ty, &tile, answers))
    }

    /// The position of the layer of a tile message that is read as this
    /// layer: the last one of version 2 with this layer's name.
    pub fn file_layer(&self, tile: &Tile) -> (r: Option<usize>)
        ensures
            match r {
                Some(w) => last_match(self@.name, tile@.layers, tile@.layers.len() as int) == Some(
                    w as int,
                ) && w < tile.layers.len(),
                None => last_match(self@.name, tile@.layers, tile@.layers.len() as int).is_none(),
            },
    {
        let mut found: Option<usize> = None;
        let mut w: usize = 0;
        while w < tile.layers.len()
            invariant
                0 <= w <= tile.layers.len(),
                match found {
                    Some(f) => last_match(self@.name, tile@.layers, w as int) == Some(f as int) && f
                        < w,
                    None => last_match(self@.name, tile@.layers, w as int).is_none(),
                },
            decreases tile.layers.len() - w,
        {
            let layer = &tile.layers[w];
            assert(layer@ == tile@.layers[w as int]);
            proof {
                lemma_last_match_step(self@.name, tile@.layers, w as int);
            }
            if layer.version() == crate::codec::LAYER_VERSION && same_text(
                &layer.name(),
                self.name(),
            ) {
                found = Some(w);
            }
            w += 1;
        }
        found
    }

    /// The points that a tile message holds for this layer as the layer of
    /// a tile file.
    fn file_points(
        &self,
        zom: u8,
        tx: u32,
        ty: u32,
        tile: &Tile,
        answers: &Vec<Vec<Option<FieldValue>>>,
    ) -> (r: Vec<Point>)
        ensures
            views(r@) == file_points(self@, zom, tx, ty, tile@, answers_views(answers@)),
    {
        match self.file_layer(tile) {
            Some(w) => {
                assert(tile.layers[w as int]@ == tile@.layers[w as int]);
                self.decode_layer_with(zom, tx, ty, &tile.layers[w], answers)
            },
            None => {
                let none: Vec<Point> = Vec::new();
                assert(views(none@) =~= Seq::<PointView>::empty());
                none
            },
        }
    }

    /// What `codec` answers about the layer of a tile message that is read
    /// as this layer.
    fn file_answers<C: FieldCodec>(&self, codec: &C, tile: &Tile) -> (r: Vec<
        Vec<Option<FieldValue>>,
    >)
        ensures
            answers_views(r@) == file_asked(*codec, self@, tile@),
    {
        match self.file_layer(tile) {
            Some(w) => {
                assert(tile.layers[w as int]@ == tile@.layers[w as int]);
                self.decode_answers(codec, &tile.layers[w])
            },
            None => {
                let none: Vec<Vec<Option<FieldValue>>> = Vec::new();
                assert(answers_views(none@) =~= Seq::<Seq<Option<FieldValueView>>>::empty());
                none
            },
        }
    }

    /// Reads the points of a tile file, asking `codec` for the fields whose
    /// automatic decoder is switched off. The result is that of
    /// [`LayerSchema::decode_with`] on the codec's answers.
    pub fn decode<C: FieldCodec>(&self, codec: &C, zom: u8, tx: u32, ty: u32, pbf: &[u8]) -> (r:
        Result<Vec<Point>, WireError>)
        ensures
            match r {
                Ok(points) => decoded_file(
                    self@,
                    zom,
                    tx,
                    ty,
                    pbf@,
                    content_asked(*codec, self@, pbf@),
                ) == Some(views(points@)),
                Err(e) => parsed_tile(pbf@).is_none() && e == WireError::Malformed,
            },
    {
        let tile = match parse_tile(pbf) {
            Ok(tile) => tile,
            Err(e) => {
                return Err(e);
            },
        };
        let answers = self.file_answers(codec, &tile);
        Ok(self.file_points(zom, tx, ty, &tile, &answers))
    }

    /// Writes a list of points as the bytes of a tile file: a tile message
    /// with this one layer. `customs` holds the custom encoder's answers
    /// value by value.
    pub fn encode_file_with(&self, points: &Vec<Point>, customs: &Vec<Option<Value>>) -> (r: Result<
        Vec<u8>,
        StoreError,
    >)
        ensures
            writes_file(self@, views(points@), optional_views(customs@), stored_view(r)),
    {
        let layer = match self.encode_with(points, customs) {
            Ok(layer) => layer,
            Err(e) => {
                proof {
                    match e {
                        EncodeError::PointMismatch { point } => {
                            assert(views(points@)[point as int] == points[point as int]@);
                        },
                        EncodeError::TooManyValues => {},
                    }
                }
                return Err(StoreError::Encode(e));
            },
        };
        assert forall|i: int| 0 <= i < points.len() implies point_fits(
            self@,
            #[trigger] views(points@)[i],
        ) by {
            assert(views(points@)[i] == points[i]@);
        }
        let mut layers: Vec<crate::vector_tile::Layer> = Vec::new();
        layers.push(layer);
        let tile = Tile { layers };
        assert(tile@.layers =~= seq![
            encoded_layer(self@, views(points@), optional_views(customs@)),
        ]);
        match write_tile(&tile) {
            Ok(bytes) => Ok(bytes),
            Err(e) => Err(StoreError::Wire(e)),
        }
    }

    /// Writes a list of points as the bytes of a tile file, asking `codec`
    /// for the fields whose automatic encoder is switched off. The result
    /// is that of [`LayerSchema::encode_file_with`] on the codec's answers.
    pub fn encode_file<C: FieldCodec>(&self, codec: &C, points: &Vec<Point>) -> (r: Result<
        Vec<u8>,
        StoreError,
    >)
        ensures
            writes_file(
                self@,
                views(points@),
                asked_customs(*codec, self@, views(points@)),
                stored_view(r),
            ),
    {
        let customs = self.encode_answers(codec, points);
        self.encode_file_with(points, &customs)
    }

    /// What the bytes of the tile file of tile `(tx, ty)` hold. `answers`
    /// holds the custom decoder's answers feature by feature.
    pub fn read_file_with(
        &self,
        zom: u8,
        tx: u32,
        ty: u32,
        existing: &[u8],
        answers: &Vec<Vec<Option<FieldValue>>>,
    ) -> (r: FileContent)
        ensures
            r@ == content_of(self@, zom, tx, ty, existing@, answers_views(answers@)),
    {
        if existing.len() == 0 {
            return FileContent::Empty;
        }
        match self.decode_with(zom, tx, ty, existing, answers) {
            Ok(points) => FileContent::Points(points),
            Err(_) => FileContent::Corrupt,
        }
    }

    /// What the bytes of a tile file hold, asking `codec` for the fields
    /// whose automatic decoder is switched off. The result is that of
    /// [`LayerSchema::read_file_with`] on the codec's answers.
    pub fn read_file<C: FieldCodec>(&self, codec: &C, zom: u8, tx: u32, ty: u32, existing: &[u8]) -> (r:
        FileContent)
        ensures
            r@ == content_of(
                self@,
                zom,
                tx,
                ty,
                existing@,
                content_asked(*codec, self@, existing@),
            ),
    {
        if existing.len() == 0 {
            return FileContent::Empty;
        }
        match self.decode(codec, zom, tx, ty, existing) {
            Ok(points) => FileContent::Points(points),
            Err(_) => FileContent::Corrupt,
        }
    }

    /// The points to write into a tile file on an upsert. An empty file,
    /// and a corrupt one, is replaced by the point alone; else the point
    /// takes the place of the entity's points in the file or is added at
    /// the end. The result is always to be written.
    pub fn upsert_into(&self, content: FileContent, point: &Point) -> (r: Vec<Point>)
        ensures
            views(r@) == upserted_content(self@, content@, point@),
    {
        match content {
            FileContent::Points(points) => self.upsert_points(points, point),
            _ => {
                let mut alone: Vec<Point> = Vec::new();
                alone.push(point.duplicate());
                assert(views(alone@) =~= seq![point@]);
                alone
            },
        }
    }

    /// The points to write into a tile file on a delete, or `None` where
    /// the file is to be left as it is: it is empty or missing, or it is
    /// corrupt. Else the entity's points are taken out and the rest is to be
    /// written, also where nothing is left.
    pub fn delete_from(&self, content: &FileContent, point: &Point) -> (r: Option<Vec<Point>>)
        ensures
            match r {
                Some(left) => deleted_content(self@, content@, point@) == Some(views(left@)),
                None => deleted_content(self@, content@, point@).is_none(),
            },
    {
        match content {
            FileContent::Points(points) => Some(self.remove_points(points, point)),
            _ => None,
        }
    }

    /// The new bytes of the tile file of one zoom level after an upsert.
    /// `point` is the entity's point projected to that level and `existing`
    /// what the file holds, empty where there is no file. The bytes are
    /// those of the points of [`LayerSchema::upsert_into`], with `codec`
    /// asked for the fields that are not coded automatically.
    pub fn upsert<C: FieldCodec>(
        &self,
        codec: &C,
        zom: u8,
        tx: u32,
        ty: u32,
        existing: &[u8],
        point: &Point,
    ) -> (r: Result<Vec<u8>, StoreError>)
        ensures
            upsert_writes(
                self@,
                zom,
                tx,
                ty,
                existing@,
                point@,
                content_asked(*codec, self@, existing@),
                asked_customs(
                    *codec,
                    self@,
                    upserted_file(
                        self@,
                        zom,
                        tx,
                        ty,
                        existing@,
                        point@,
                        content_asked(*codec, self@, existing@),
                    ),
                ),
                stored_view(r),
            ),
    {
        let content = self.read_file(codec, zom, tx, ty, existing);
        let next = self.upsert_into(content, point);
        self.encode_file(codec, &next)
    }

    /// The new bytes of the tile file of one zoom level after a delete, or
    /// `None` where the file is to be left as it is. The bytes are those of
    /// the points of [`LayerSchema::delete_from`], with `codec` asked for
    /// the fields that are not coded automatically.
    pub fn delete<C: FieldCodec>(
        &self,
        codec: &C,
        zom: u8,
        tx: u32,
        ty: u32,
        existing: &[u8],
        point: &Point,
    ) -> (r: Result<Option<Vec<u8>>, StoreError>)
        ensures
            delete_writes(
                self@,
                zom,
                tx,
                ty,
                existing@,
                point@,
                content_asked(*codec, self@, existing@),
                deleted_asked(
                    *codec,
                    self@,
                    deleted_file(
                        self@,
                        zom,
                        tx,
                        ty,
                        existing@,
                        point@,
                        content_asked(*codec, self@, existing@),
                    ),
                ),
                deleted_view(r),
            ),
    {
        let content = self.read_file(codec, zom, tx, ty, existing);
        match self.delete_from(&content, point) {
            None => Ok(None),
            Some(left) => match self.encode_file(codec, &left) {
                Ok(bytes) => Ok(Some(bytes)),
                Err(e) => Err(e),
            },
        }
    }
}

} // verus!
