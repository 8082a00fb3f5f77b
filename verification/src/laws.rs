//! What holds of the codec and of the merge rules whatever the input,
//! proved from the definitions that the contracts use.

use vstd::prelude::*;
use vstd::arithmetic::div_mod::lemma_fundamental_div_mod_converse;
use crate::codec::{
    answers_at, auto_decoded, auto_encoded, decoded_point, decoded_points, default_value,
    default_values, encoded_feature, encoded_layer, encoded_tags, encoded_values, entry_at,
    field_decoded, field_encoded, fits, point_fits, rejected_features, tagged, DecodeErrorView,
    FieldValueView, PointView, VALUE_LIMIT,
};
use crate::coordinate::{clamped_zoom, lemma_geometry_round_trip, CoordinateView};
use crate::schema::FieldKind;
use crate::codec::{
    asked_customs, asked_of_feature, asked_of_layer, has_custom_encoder, FieldCodec,
};
use crate::pyramid::file_points;
use crate::tile::{
    customs_at, decoded_bytes, encoded_tile, layer_named, slot_encodes, tile_asked,
    tile_customs_asked,
};
use crate::wire::{parsed_tile, tile_bytes};
use crate::coordinate::MAX_ZOOM;
use crate::pyramid::{
    decoded_file, deleted_file, entity_count, identity_of, levels_from, removed, same_entity,
    upserted, upserted_file,
};
use crate::schema::{LayerSchemaView, TileSchemaView};
use crate::tile::{decoded_slot, decoded_tile, last_match, layer_answers_at, layer_matches};
use crate::vector_tile::{FeatureView, LayerView, TileView, ValueView};

verus! {

/// The count over the first `upto` points looks at those points only.
proof fn lemma_count_agrees(
    layer: LayerSchemaView,
    a: Seq<PointView>,
    b: Seq<PointView>,
    point: PointView,
    upto: int,
)
    requires
        0 <= upto <= a.len(),
        upto <= b.len(),
        forall|i: int|
            0 <= i < upto ==> same_entity(layer, a[i], point) == same_entity(layer, b[i], point),
    ensures
        entity_count(layer, a, point, upto) == entity_count(layer, b, point, upto),
    decreases upto,
{
    if upto > 0 {
        lemma_count_agrees(layer, a, b, point, upto - 1);
    }
}

/// The count is zero exactly where no point stands for the entity.
proof fn lemma_count_zero(layer: LayerSchemaView, a: Seq<PointView>, point: PointView, upto: int)
    requires
        0 <= upto <= a.len(),
    ensures
        entity_count(layer, a, point, upto) == 0 <==> forall|i: int|
            0 <= i < upto ==> !same_entity(layer, a[i], point),
    decreases upto,
{
    if upto > 0 {
        lemma_count_zero(layer, a, point, upto - 1);
    }
}

/// After an upsert the entity of the point stands in the list exactly once,
/// if it stood there at most once before.
pub proof fn lemma_upsert_keeps_one(
    layer: LayerSchemaView,
    existing: Seq<PointView>,
    point: PointView,
)
    requires
        identity_of(layer, point).is_some(),
        entity_count(layer, existing, point, existing.len() as int) <= 1,
    ensures
        entity_count(
            layer,
            upserted(layer, existing, point),
            point,
            upserted(layer, existing, point).len() as int,
        ) == 1,
{
    let after = upserted(layer, existing, point);
    let n = existing.len() as int;
    lemma_count_zero(layer, existing, point, n);
    lemma_count_agrees(layer, after, existing, point, n);
}

/// An upsert leaves every other entity in the list as often as it was.
pub proof fn lemma_upsert_spares_others(
    layer: LayerSchemaView,
    existing: Seq<PointView>,
    point: PointView,
    other: PointView,
)
    requires
        !same_entity(layer, other, point),
    ensures
        entity_count(
            layer,
            upserted(layer, existing, point),
            other,
            upserted(layer, existing, point).len() as int,
        ) == entity_count(layer, existing, other, existing.len() as int),
{
    let after = upserted(layer, existing, point);
    lemma_count_agrees(layer, after, existing, other, existing.len() as int);
}

/// After a delete the entity of the point stands nowhere in the list.
pub proof fn lemma_delete_leaves_none(
    layer: LayerSchemaView,
    existing: Seq<PointView>,
    point: PointView,
    upto: int,
)
    requires
        0 <= upto <= existing.len(),
    ensures
        entity_count(
            layer,
            removed(layer, existing, point, upto),
            point,
            removed(layer, existing, point, upto).len() as int,
        ) == 0,
    decreases upto,
{
    if upto > 0 {
        lemma_delete_leaves_none(layer, existing, point, upto - 1);
        let before = removed(layer, existing, point, upto - 1);
        let after = removed(layer, existing, point, upto);
        if !same_entity(layer, existing[upto - 1], point) {
            lemma_count_agrees(layer, after, before, point, before.len() as int);
        }
    }
}

/// A delete leaves every other entity in the list as often as it was.
pub proof fn lemma_delete_spares_others(
    layer: LayerSchemaView,
    existing: Seq<PointView>,
    point: PointView,
    other: PointView,
    upto: int,
)
    requires
        0 <= upto <= existing.len(),
        !same_entity(layer, other, point),
    ensures
        entity_count(
            layer,
            removed(layer, existing, point, upto),
            other,
            removed(layer, existing, point, upto).len() as int,
        ) == entity_count(layer, existing, other, upto),
    decreases upto,
{
    if upto > 0 {
        lemma_delete_spares_others(layer, existing, point, other, upto - 1);
        let before = removed(layer, existing, point, upto - 1);
        let after = removed(layer, existing, point, upto);
        if !same_entity(layer, existing[upto - 1], point) {
            lemma_count_agrees(layer, after, before, other, before.len() as int);
        }
    }
}

/// The points of the first `upto` features depend on those features and
/// their answers only.
proof fn lemma_points_agree(
    layer: LayerSchemaView,
    zoom: u8,
    tx: u32,
    ty: u32,
    f1: Seq<FeatureView>,
    a1: Seq<Seq<Option<FieldValueView>>>,
    f2: Seq<FeatureView>,
    a2: Seq<Seq<Option<FieldValueView>>>,
    values: Seq<ValueView>,
    upto: int,
)
    requires
        0 <= upto <= f1.len(),
        upto <= f2.len(),
        forall|i: int| 0 <= i < upto ==> f1[i] == f2[i] && answers_at(a1, i) == answers_at(a2, i),
    ensures
        decoded_points(layer, zoom, tx, ty, f1, values, a1, upto) == decoded_points(
            layer,
            zoom,
            tx,
            ty,
            f2,
            values,
            a2,
            upto,
        ),
    decreases upto,
{
    if upto > 0 {
        lemma_points_agree(layer, zoom, tx, ty, f1, a1, f2, a2, values, upto - 1);
    }
}

/// A feature that is no point leaves no trace: the layer decodes as it
/// does without that feature. `without` holds the answers of the other
/// features in their order.
pub proof fn lemma_bad_feature_is_skipped(
    layer: LayerSchemaView,
    zoom: u8,
    tx: u32,
    ty: u32,
    features: Seq<FeatureView>,
    values: Seq<ValueView>,
    answers: Seq<Seq<Option<FieldValueView>>>,
    without: Seq<Seq<Option<FieldValueView>>>,
    bad: int,
    upto: int,
)
    requires
        0 <= bad < upto <= features.len(),
        decoded_point(layer, zoom, tx, ty, features[bad], values, answers_at(answers, bad)).is_err(),
        forall|i: int| 0 <= i < bad ==> answers_at(without, i) == answers_at(answers, i),
        forall|i: int|
            bad <= i < features.len() - 1 ==> answers_at(without, i) == answers_at(answers, i + 1),
    ensures
        decoded_points(layer, zoom, tx, ty, features, values, answers, upto) == decoded_points(
            layer,
            zoom,
            tx,
            ty,
            features.remove(bad),
            values,
            without,
            upto - 1,
        ),
    decreases upto,
{
    let rest = features.remove(bad);
    if upto == bad + 1 {
        lemma_points_agree(layer, zoom, tx, ty, features, answers, rest, without, values, bad);
    } else {
        lemma_bad_feature_is_skipped(
            layer,
            zoom,
            tx,
            ty,
            features,
            values,
            answers,
            without,
            bad,
            upto - 1,
        );
        assert(rest[upto - 2] == features[upto - 1]);
    }
}

/// Where every feature is a point, the layer decodes to the point of each
/// feature in its place.
pub proof fn lemma_good_features_are_kept(
    layer: LayerSchemaView,
    zoom: u8,
    tx: u32,
    ty: u32,
    features: Seq<FeatureView>,
    values: Seq<ValueView>,
    answers: Seq<Seq<Option<FieldValueView>>>,
    upto: int,
)
    requires
        0 <= upto <= features.len(),
        forall|i: int|
            0 <= i < upto ==> decoded_point(
                layer,
                zoom,
                tx,
                ty,
                #[trigger] features[i],
                values,
                answers_at(answers, i),
            ).is_ok(),
    ensures
        decoded_points(layer, zoom, tx, ty, features, values, answers, upto).len() == upto,
        forall|i: int|
            0 <= i < upto ==> Ok::<PointView, crate::codec::DecodeErrorView>(
                #[trigger] decoded_points(layer, zoom, tx, ty, features, values, answers, upto)[i],
            ) == decoded_point(layer, zoom, tx, ty, features[i], values, answers_at(answers, i)),
    decreases upto,
{
    if upto > 0 {
        lemma_good_features_are_kept(layer, zoom, tx, ty, features, values, answers, upto - 1);
        assert(decoded_point(
            layer,
            zoom,
            tx,
            ty,
            features[upto - 1],
            values,
            answers_at(answers, upto - 1),
        ).is_ok());
    }
}

/// Every feature of a layer is accounted for: it is a point of the result
/// or it is among the rejected ones, and the rejected ones are listed by
/// rising position.
pub proof fn lemma_every_feature_is_accounted_for(
    layer: LayerSchemaView,
    zoom: u8,
    tx: u32,
    ty: u32,
    features: Seq<FeatureView>,
    values: Seq<ValueView>,
    answers: Seq<Seq<Option<FieldValueView>>>,
    upto: int,
)
    requires
        0 <= upto <= features.len(),
    ensures
        decoded_points(layer, zoom, tx, ty, features, values, answers, upto).len()
            + rejected_features(layer, zoom, tx, ty, features, values, answers, upto).len() == upto,
        forall|i: int|
            0 <= i < rejected_features(layer, zoom, tx, ty, features, values, answers, upto).len()
                ==> {
                let r = #[trigger] rejected_features(
                    layer,
                    zoom,
                    tx,
                    ty,
                    features,
                    values,
                    answers,
                    upto,
                )[i];
                &&& 0 <= r.feature < upto
                &&& decoded_point(
                    layer,
                    zoom,
                    tx,
                    ty,
                    features[r.feature],
                    values,
                    answers_at(answers, r.feature),
                ) == Err::<PointView, DecodeErrorView>(r.error)
            },
    decreases upto,
{
    if upto > 0 {
        lemma_every_feature_is_accounted_for(
            layer,
            zoom,
            tx,
            ty,
            features,
            values,
            answers,
            upto - 1,
        );
    }
}

/// The place in a message with one more layer at position `at` of the
/// layer at position `w` of the message without it.
pub open spec fn moved(at: int, w: Option<int>) -> Option<int> {
    match w {
        Some(w) => if w < at {
            Some(w)
        } else {
            Some(w + 1)
        },
        None => None,
    }
}

/// A layer that does not match a name does not change which layer is the
/// last match of that name, only its place.
proof fn lemma_last_match_with_foreign(
    name: Seq<char>,
    layers: Seq<LayerView>,
    foreign: LayerView,
    at: int,
    upto: int,
)
    requires
        0 <= at <= layers.len(),
        0 <= upto <= layers.len(),
        !layer_matches(name, foreign),
    ensures
        last_match(name, layers.insert(at, foreign), if upto < at {
            upto
        } else {
            upto + 1
        }) == moved(at, last_match(name, layers, upto)),
    decreases upto,
{
    let more = layers.insert(at, foreign);
    if upto > 0 {
        lemma_last_match_with_foreign(name, layers, foreign, at, upto - 1);
        if upto < at {
            assert(more[upto - 1] == layers[upto - 1]);
        } else if upto == at {
            assert(more[upto - 1] == layers[upto - 1]);
            assert(more[upto] == foreign);
            assert(last_match(name, more, upto + 1) == last_match(name, more, upto));
        } else {
            assert(more[upto] == layers[upto - 1]);
        }
    } else {
        if at == 0 {
            assert(more[0] == foreign);
        }
    }
}

/// A layer of another version than 2, or with a name that the schema does
/// not declare, is passed over: the message decodes as it does without
/// that layer. `with` holds the answers for the message with the layer.
pub proof fn lemma_foreign_layer_is_ignored(
    schema: TileSchemaView,
    zoom: u8,
    tx: u32,
    ty: u32,
    wire: TileView,
    answers: Seq<Seq<Seq<Option<FieldValueView>>>>,
    foreign: LayerView,
    at: int,
    with: Seq<Seq<Seq<Option<FieldValueView>>>>,
)
    requires
        0 <= at <= wire.layers.len(),
        foreign.version_or_default() != 2 || forall|s: int|
            0 <= s < schema.layers.len() ==> schema.layers[s].name != foreign.name_or_default(),
        forall|w: int| 0 <= w < at ==> layer_answers_at(with, w) == layer_answers_at(answers, w),
        forall|w: int|
            at <= w < wire.layers.len() ==> layer_answers_at(with, w + 1) == layer_answers_at(
                answers,
                w,
            ),
    ensures
        decoded_tile(
            schema,
            zoom,
            tx,
            ty,
            TileView { layers: wire.layers.insert(at, foreign) },
            with,
        ) == decoded_tile(schema, zoom, tx, ty, wire, answers),
{
    let more = wire.layers.insert(at, foreign);
    let n = wire.layers.len() as int;
    assert forall|s: int| 0 <= s < schema.layers.len() implies decoded_slot(
        schema.layers[s],
        zoom,
        tx,
        ty,
        more,
        with,
        n + 1,
    ) == decoded_slot(schema.layers[s], zoom, tx, ty, wire.layers, answers, n) by {
        let name = schema.layers[s].name;
        lemma_last_match_with_foreign(name, wire.layers, foreign, at, n);
        match last_match(name, wire.layers, n) {
            Some(w) => {
                lemma_last_match_in_range(name, wire.layers, n);
                if w < at {
                    assert(more[w] == wire.layers[w]);
                } else {
                    assert(more[w + 1] == wire.layers[w]);
                }
            },
            None => {},
        }
    }
    assert(decoded_tile(schema, zoom, tx, ty, TileView { layers: more }, with) =~= decoded_tile(
        schema,
        zoom,
        tx,
        ty,
        wire,
        answers,
    ));
}

/// The last match of a name is a layer that matches it.
pub proof fn lemma_last_match_in_range(name: Seq<char>, layers: Seq<LayerView>, upto: int)
    requires
        0 <= upto <= layers.len(),
    ensures
        match last_match(name, layers, upto) {
            Some(w) => 0 <= w < upto && layer_matches(name, layers[w]) && forall|v: int|
                w < v < upto ==> !layer_matches(name, layers[v]),
            None => forall|v: int| 0 <= v < upto ==> !layer_matches(name, layers[v]),
        },
    decreases upto,
{
    if upto > 0 {
        lemma_last_match_in_range(name, layers, upto - 1);
    }
}

/// What the automatic codec writes for a value of a field's kind, it reads
/// back as that value.
pub proof fn lemma_auto_round_trip(kind: FieldKind, value: FieldValueView)
    requires
        fits(kind, value),
    ensures
        auto_decoded(kind, auto_encoded(value)) == value,
{
    match value {
        FieldValueView::Text(s) => {
            assert(auto_encoded(value).text() == s);
        },
        _ => {},
    }
}

/// A point as it reads back from tile `(tx, ty)` at the given zoom: the
/// same pixel and values, in that tile.
pub open spec fn placed(point: PointView, zoom: u8, tx: u32, ty: u32) -> PointView {
    PointView {
        coordinate: CoordinateView {
            zoom: clamped_zoom(zoom),
            tx,
            ty,
            sx: point.coordinate.sx,
            sy: point.coordinate.sy,
        },
        values: point.values,
    }
}

/// Whether the value of field `j` of point `i` reads back as it was
/// written, given what the custom codec answered in both directions.
pub open spec fn comes_back(
    layer: LayerSchemaView,
    points: Seq<PointView>,
    customs: Seq<Option<ValueView>>,
    answers: Seq<Seq<Option<FieldValueView>>>,
    i: int,
    j: int,
) -> bool {
    field_decoded(
        layer,
        j,
        field_encoded(
            layer,
            j,
            points[i].values[j],
            entry_at(customs, i * layer.fields.len() + j),
        ),
        entry_at(answers_at(answers, i), j),
    ) == Some(points[i].values[j])
}

/// Whether every value that is not coded automatically in both directions
/// reads back as it was written.
pub open spec fn custom_values_come_back(
    layer: LayerSchemaView,
    points: Seq<PointView>,
    customs: Seq<Option<ValueView>>,
    answers: Seq<Seq<Option<FieldValueView>>>,
) -> bool {
    forall|i: int, j: int|
        0 <= i < points.len() && 0 <= j < layer.fields.len() && !(layer.fields[j].auto_encode
            && layer.fields[j].auto_decode) ==> #[trigger] comes_back(
            layer,
            points,
            customs,
            answers,
            i,
            j,
        )
}

/// Whether every field of the layer is coded automatically in both
/// directions.
pub open spec fn automatic(layer: LayerSchemaView) -> bool {
    forall|j: int|
        0 <= j < layer.fields.len() ==> (#[trigger] layer.fields[j]).auto_encode
            && layer.fields[j].auto_decode
}

/// The values of point `i` after its first `pairs` tag pairs are read.
spec fn partly_read(layer: LayerSchemaView, point: PointView, pairs: int) -> Seq<FieldValueView> {
    Seq::new(
        layer.fields.len(),
        |j: int|
            if j < pairs {
                point.values[j]
            } else {
                default_value(layer.fields[j].kind)
            },
    )
}

/// Reading the first `pairs` tag pairs of a written point gives its first
/// `pairs` values.
proof fn lemma_tags_read_back(
    layer: LayerSchemaView,
    points: Seq<PointView>,
    customs: Seq<Option<ValueView>>,
    answers: Seq<Seq<Option<FieldValueView>>>,
    i: int,
    pairs: int,
)
    requires
        points.len() * layer.fields.len() <= VALUE_LIMIT,
        forall|m: int| 0 <= m < points.len() ==> point_fits(layer, #[trigger] points[m]),
        custom_values_come_back(layer, points, customs, answers),
        0 <= i < points.len(),
        0 <= pairs <= layer.fields.len(),
    ensures
        tagged(
            layer,
            encoded_tags(layer.fields.len() as int, i),
            encoded_values(layer, points, customs),
            answers_at(answers, i),
            default_values(layer),
            pairs,
        ) == Ok::<Seq<FieldValueView>, DecodeErrorView>(partly_read(layer, points[i], pairs)),
    decreases pairs,
{
    let nf = layer.fields.len() as int;
    let n = points.len() as int;
    let tags = encoded_tags(nf, i);
    let values = encoded_values(layer, points, customs);
    if pairs <= 0 {
        assert(partly_read(layer, points[i], pairs) =~= default_values(layer));
    } else {
        lemma_tags_read_back(layer, points, customs, answers, i, pairs - 1);
        let j = pairs - 1;
        let at = i * nf + j;
        assert((i + 1) * nf <= n * nf) by (nonlinear_arith)
            requires
                i + 1 <= n,
                0 <= nf,
        ;
        assert((i + 1) * nf == i * nf + nf) by (nonlinear_arith);
        assert(0 <= i * nf) by (nonlinear_arith)
            requires
                0 <= i,
                0 <= nf,
        ;
        assert(0 <= at < n * nf);
        lemma_fundamental_div_mod_converse(at, nf, i, j);
        assert(tags[2 * j] == j as u32);
        assert(tags[2 * j + 1] == at as u32);
        assert(values[at] == field_encoded(layer, j, points[i].values[j], entry_at(customs, at)));
        assert(point_fits(layer, points[i]));
        if layer.fields[j].auto_encode && layer.fields[j].auto_decode {
            lemma_auto_round_trip(layer.fields[j].kind, points[i].values[j]);
        } else {
            assert(comes_back(layer, points, customs, answers, i, j));
        }
        assert(partly_read(layer, points[i], pairs) =~= partly_read(layer, points[i], j).update(
            j,
            points[i].values[j],
        ));
    }
}

/// The feature written for a point reads back as that point, placed in the
/// tile it is read for.
proof fn lemma_feature_reads_back(
    layer: LayerSchemaView,
    zoom: u8,
    tx: u32,
    ty: u32,
    points: Seq<PointView>,
    customs: Seq<Option<ValueView>>,
    answers: Seq<Seq<Option<FieldValueView>>>,
    i: int,
)
    requires
        points.len() * layer.fields.len() <= VALUE_LIMIT,
        forall|m: int| 0 <= m < points.len() ==> point_fits(layer, #[trigger] points[m]),
        custom_values_come_back(layer, points, customs, answers),
        0 <= i < points.len(),
    ensures
        decoded_point(
            layer,
            zoom,
            tx,
            ty,
            encoded_feature(layer, points[i], i),
            encoded_values(layer, points, customs),
            answers_at(answers, i),
        ) == Ok::<PointView, DecodeErrorView>(placed(points[i], zoom, tx, ty)),
{
    let nf = layer.fields.len() as int;
    lemma_tags_read_back(layer, points, customs, answers, i, nf);
    lemma_geometry_round_trip(points[i].coordinate.sx, points[i].coordinate.sy);
    assert(point_fits(layer, points[i]));
    assert(partly_read(layer, points[i], nf) =~= points[i].values);
    let feature = encoded_feature(layer, points[i], i);
    assert(feature.tags.len() == 2 * nf);
    assert(feature.tags.len() as int / 2 == nf);
}

/// Round trip. A list of points that fit their layer, written as a layer
/// and read back for tile `(tx, ty)`, gives the same points in the same
/// order: each with its pixel and with every field value as it was, placed
/// in that tile. Values that the custom codec codes are assumed to come
/// back from it.
pub proof fn lemma_layer_round_trip(
    layer: LayerSchemaView,
    zoom: u8,
    tx: u32,
    ty: u32,
    points: Seq<PointView>,
    customs: Seq<Option<ValueView>>,
    answers: Seq<Seq<Option<FieldValueView>>>,
    upto: int,
)
    requires
        points.len() * layer.fields.len() <= VALUE_LIMIT,
        forall|m: int| 0 <= m < points.len() ==> point_fits(layer, #[trigger] points[m]),
        custom_values_come_back(layer, points, customs, answers),
        0 <= upto <= points.len(),
    ensures
        decoded_points(
            layer,
            zoom,
            tx,
            ty,
            encoded_layer(layer, points, customs).features,
            encoded_layer(layer, points, customs).values,
            answers,
            upto,
        ) == Seq::new(upto as nat, |i: int| placed(points[i], zoom, tx, ty)),
    decreases upto,
{
    let wire = encoded_layer(layer, points, customs);
    let got = decoded_points(layer, zoom, tx, ty, wire.features, wire.values, answers, upto);
    let want = Seq::new(upto as nat, |i: int| placed(points[i], zoom, tx, ty));
    if upto > 0 {
        lemma_layer_round_trip(layer, zoom, tx, ty, points, customs, answers, upto - 1);
        lemma_feature_reads_back(layer, zoom, tx, ty, points, customs, answers, upto - 1);
        assert(wire.features[upto - 1] == encoded_feature(layer, points[upto - 1], upto - 1));
        assert(got =~= want);
    } else {
        assert(got =~= want);
    }
}

/// A point in a tile reads back as itself: where every point lies in tile
/// `(tx, ty)` at a zoom of the pyramid, the round trip gives the very list
/// that was written.
pub proof fn lemma_layer_round_trip_in_tile(
    layer: LayerSchemaView,
    zoom: u8,
    tx: u32,
    ty: u32,
    points: Seq<PointView>,
    customs: Seq<Option<ValueView>>,
    answers: Seq<Seq<Option<FieldValueView>>>,
)
    requires
        points.len() * layer.fields.len() <= VALUE_LIMIT,
        forall|m: int| 0 <= m < points.len() ==> point_fits(layer, #[trigger] points[m]),
        custom_values_come_back(layer, points, customs, answers),
        forall|m: int|
            0 <= m < points.len() ==> (#[trigger] points[m]).coordinate.zoom == clamped_zoom(zoom)
                && points[m].coordinate.tx == tx && points[m].coordinate.ty == ty,
    ensures
        decoded_points(
            layer,
            zoom,
            tx,
            ty,
            encoded_layer(layer, points, customs).features,
            encoded_layer(layer, points, customs).values,
            answers,
            points.len() as int,
        ) == points,
{
    lemma_layer_round_trip(layer, zoom, tx, ty, points, customs, answers, points.len() as int);
    assert(Seq::new(points.len(), |i: int| placed(points[i], zoom, tx, ty)) =~= points);
}

/// Written again, the points that were read from a layer give that layer:
/// a point's tile does not go into its feature. The custom encoder is
/// assumed to answer the second time as it did the first.
pub proof fn lemma_layer_re_encode(
    layer: LayerSchemaView,
    zoom: u8,
    tx: u32,
    ty: u32,
    points: Seq<PointView>,
    customs: Seq<Option<ValueView>>,
    answers: Seq<Seq<Option<FieldValueView>>>,
    again: Seq<Option<ValueView>>,
)
    requires
        points.len() * layer.fields.len() <= VALUE_LIMIT,
        forall|m: int| 0 <= m < points.len() ==> point_fits(layer, #[trigger] points[m]),
        custom_values_come_back(layer, points, customs, answers),
        forall|m: int, j: int|
            0 <= m && 0 <= j < layer.fields.len() && !layer.fields[j].auto_encode ==> entry_at(
                again,
                #[trigger] (m * layer.fields.len() + j),
            ) == entry_at(customs, m * layer.fields.len() + j),
    ensures
        encoded_layer(
            layer,
            decoded_points(
                layer,
                zoom,
                tx,
                ty,
                encoded_layer(layer, points, customs).features,
                encoded_layer(layer, points, customs).values,
                answers,
                points.len() as int,
            ),
            again,
        ) == encoded_layer(layer, points, customs),
{
    let nf = layer.fields.len() as int;
    let n = points.len() as int;
    let wire = encoded_layer(layer, points, customs);
    lemma_layer_round_trip(layer, zoom, tx, ty, points, customs, answers, n);
    let back = Seq::new(n as nat, |i: int| placed(points[i], zoom, tx, ty));
    let second = encoded_layer(layer, back, again);
    assert(second.features =~= wire.features);
    assert forall|at: int| 0 <= at < n * nf implies second.values[at] == wire.values[at] by {
        if nf > 0 {
            let i = at / nf;
            let j = at % nf;
            assert(at == i * nf + j && 0 <= j < nf && 0 <= i) by (nonlinear_arith)
                requires
                    i == at / nf,
                    j == at % nf,
                    nf > 0,
                    0 <= at,
            ;
            assert(i < n) by (nonlinear_arith)
                requires
                    at == i * nf + j,
                    0 <= j,
                    at < n * nf,
                    nf > 0,
            ;
        }
    }
    assert(second.values =~= wire.values);
}

/// Idempotent re-encode. For a schema whose fields are all coded
/// automatically, a container written as a message, read back for any
/// tile and written again gives the same message.
pub proof fn lemma_tile_re_encode(
    schema: TileSchemaView,
    zoom: u8,
    tx: u32,
    ty: u32,
    tile: Seq<Seq<PointView>>,
    customs: Seq<Seq<Option<ValueView>>>,
    answers: Seq<Seq<Seq<Option<FieldValueView>>>>,
    again: Seq<Seq<Option<ValueView>>>,
)
    requires
        schema.wf(),
        forall|s: int| 0 <= s < schema.layers.len() ==> automatic(#[trigger] schema.layers[s]),
        tile.len() == schema.layers.len(),
        forall|s: int| 0 <= s < tile.len() ==> slot_encodes(schema, tile, s),
    ensures
        encoded_tile(
            schema,
            decoded_tile(schema, zoom, tx, ty, encoded_tile(schema, tile, customs), answers),
            again,
        ) == encoded_tile(schema, tile, customs),
{
    let wire = encoded_tile(schema, tile, customs);
    let back = decoded_tile(schema, zoom, tx, ty, wire, answers);
    let second = encoded_tile(schema, back, again);
    let ns = schema.layers.len() as int;
    assert forall|s: int| 0 <= s < ns implies second.layers[s] == wire.layers[s] by {
        let layer = schema.layers[s];
        assert(automatic(layer));
        assert(slot_encodes(schema, tile, s));
        lemma_last_match_in_range(layer.name, wire.layers, ns);
        assert(layer_matches(layer.name, wire.layers[s]));
        assert(last_match(layer.name, wire.layers, ns) == Some(s)) by {
            match last_match(layer.name, wire.layers, ns) {
                Some(w) => {
                    assert(wire.layers[w].name == Some(schema.layers[w].name));
                    if w < s {
                    } else if s < w {
                    }
                },
                None => {},
            }
        }
        lemma_layer_re_encode(
            layer,
            zoom,
            tx,
            ty,
            tile[s],
            customs_at(customs, s),
            layer_answers_at(answers, s),
            customs_at(again, s),
        );
    }
    assert(second.layers =~= wire.layers);
}

/// The same in bytes: where the bytes written for a container read back as
/// the message they were written from, decoding them and encoding the
/// result gives the same bytes.
pub proof fn lemma_bytes_re_encode(
    schema: TileSchemaView,
    zoom: u8,
    tx: u32,
    ty: u32,
    tile: Seq<Seq<PointView>>,
    customs: Seq<Seq<Option<ValueView>>>,
    answers: Seq<Seq<Seq<Option<FieldValueView>>>>,
    again: Seq<Seq<Option<ValueView>>>,
    bytes: Seq<u8>,
)
    requires
        schema.wf(),
        forall|s: int| 0 <= s < schema.layers.len() ==> automatic(#[trigger] schema.layers[s]),
        tile.len() == schema.layers.len(),
        forall|s: int| 0 <= s < tile.len() ==> slot_encodes(schema, tile, s),
        tile_bytes(encoded_tile(schema, tile, customs)) == Some(bytes),
        parsed_tile(bytes) == Some(encoded_tile(schema, tile, customs)),
    ensures
        decoded_bytes(schema, zoom, tx, ty, bytes, answers).is_some(),
        tile_bytes(
            encoded_tile(
                schema,
                decoded_bytes(schema, zoom, tx, ty, bytes, answers).unwrap(),
                again,
            ),
        ) == Some(bytes),
{
    lemma_tile_re_encode(schema, zoom, tx, ty, tile, customs, answers, again);
}

/// Whether every field of the layer is read by its automatic decoder.
pub open spec fn reads_automatically(layer: LayerSchemaView) -> bool {
    forall|j: int| 0 <= j < layer.fields.len() ==> (#[trigger] layer.fields[j]).auto_decode
}

/// Whether every field of the layer is written by its automatic encoder.
pub open spec fn writes_automatically(layer: LayerSchemaView) -> bool {
    forall|j: int| 0 <= j < layer.fields.len() ==> (#[trigger] layer.fields[j]).auto_encode
}

/// Where every field is read automatically, the tag pairs read the same
/// whatever a custom decoder answers.
proof fn lemma_tagged_without_answers(
    layer: LayerSchemaView,
    tags: Seq<u32>,
    values: Seq<ValueView>,
    a1: Seq<Option<FieldValueView>>,
    a2: Seq<Option<FieldValueView>>,
    start: Seq<FieldValueView>,
    pairs: int,
)
    requires
        reads_automatically(layer),
    ensures
        tagged(layer, tags, values, a1, start, pairs) == tagged(
            layer,
            tags,
            values,
            a2,
            start,
            pairs,
        ),
    decreases pairs,
{
    if pairs > 0 {
        lemma_tagged_without_answers(layer, tags, values, a1, a2, start, pairs - 1);
        let k = tags[2 * (pairs - 1)] as int;
        if k < layer.fields.len() {
            assert(layer.fields[k].auto_decode);
        }
    }
}

/// Where every field of a layer is read automatically, a feature decodes
/// to the same outcome whatever a custom decoder answers.
pub proof fn lemma_point_without_answers(
    layer: LayerSchemaView,
    zoom: u8,
    tx: u32,
    ty: u32,
    feature: FeatureView,
    values: Seq<ValueView>,
    a1: Seq<Option<FieldValueView>>,
    a2: Seq<Option<FieldValueView>>,
)
    requires
        reads_automatically(layer),
    ensures
        decoded_point(layer, zoom, tx, ty, feature, values, a1) == decoded_point(
            layer,
            zoom,
            tx,
            ty,
            feature,
            values,
            a2,
        ),
{
    lemma_tagged_without_answers(
        layer,
        feature.tags,
        values,
        a1,
        a2,
        default_values(layer),
        feature.tags.len() as int / 2,
    );
}

/// Where every field of a layer is read automatically, the layer decodes
/// to the same points whatever a custom decoder answers.
pub proof fn lemma_points_without_answers(
    layer: LayerSchemaView,
    zoom: u8,
    tx: u32,
    ty: u32,
    features: Seq<FeatureView>,
    values: Seq<ValueView>,
    a1: Seq<Seq<Option<FieldValueView>>>,
    a2: Seq<Seq<Option<FieldValueView>>>,
    upto: int,
)
    requires
        reads_automatically(layer),
    ensures
        decoded_points(layer, zoom, tx, ty, features, values, a1, upto) == decoded_points(
            layer,
            zoom,
            tx,
            ty,
            features,
            values,
            a2,
            upto,
        ),
    decreases upto,
{
    if upto > 0 {
        lemma_points_without_answers(layer, zoom, tx, ty, features, values, a1, a2, upto - 1);
        lemma_point_without_answers(
            layer,
            zoom,
            tx,
            ty,
            features[upto - 1],
            values,
            answers_at(a1, upto - 1),
            answers_at(a2, upto - 1),
        );
    }
}

/// Where every field of every layer is read automatically, a message
/// decodes to the same container whatever a custom decoder answers.
pub proof fn lemma_tile_without_answers(
    schema: TileSchemaView,
    zoom: u8,
    tx: u32,
    ty: u32,
    wire: TileView,
    a1: Seq<Seq<Seq<Option<FieldValueView>>>>,
    a2: Seq<Seq<Seq<Option<FieldValueView>>>>,
)
    requires
        forall|s: int|
            0 <= s < schema.layers.len() ==> reads_automatically(#[trigger] schema.layers[s]),
    ensures
        decoded_tile(schema, zoom, tx, ty, wire, a1) == decoded_tile(schema, zoom, tx, ty, wire, a2),
{
    let n = wire.layers.len() as int;
    assert forall|s: int| 0 <= s < schema.layers.len() implies decoded_slot(
        schema.layers[s],
        zoom,
        tx,
        ty,
        wire.layers,
        a1,
        n,
    ) == decoded_slot(schema.layers[s], zoom, tx, ty, wire.layers, a2, n) by {
        assert(reads_automatically(schema.layers[s]));
        match last_match(schema.layers[s].name, wire.layers, n) {
            Some(w) => {
                lemma_points_without_answers(
                    schema.layers[s],
                    zoom,
                    tx,
                    ty,
                    wire.layers[w].features,
                    wire.layers[w].values,
                    layer_answers_at(a1, w),
                    layer_answers_at(a2, w),
                    wire.layers[w].features.len() as int,
                );
            },
            None => {},
        }
    }
    assert(decoded_tile(schema, zoom, tx, ty, wire, a1) =~= decoded_tile(
        schema,
        zoom,
        tx,
        ty,
        wire,
        a2,
    ));
}

/// Where every field of a layer is written automatically, the points are
/// written as the same layer whatever a custom encoder answers.
pub proof fn lemma_layer_without_customs(
    layer: LayerSchemaView,
    points: Seq<PointView>,
    c1: Seq<Option<ValueView>>,
    c2: Seq<Option<ValueView>>,
)
    requires
        writes_automatically(layer),
    ensures
        encoded_layer(layer, points, c1) == encoded_layer(layer, points, c2),
{
    let nf = layer.fields.len() as int;
    let v1 = encoded_values(layer, points, c1);
    let v2 = encoded_values(layer, points, c2);
    assert forall|at: int| 0 <= at < v1.len() implies v1[at] == v2[at] by {
        if nf > 0 {
            assert(0 <= at % nf < nf);
            assert(layer.fields[at % nf].auto_encode);
        } else {
            assert(points.len() * nf == 0) by (nonlinear_arith)
                requires
                    nf == 0,
            ;
        }
    }
    assert(v1 =~= v2);
}

/// Where every field of every layer is written automatically, a container
/// is written as the same message whatever a custom encoder answers.
pub proof fn lemma_tile_without_customs(
    schema: TileSchemaView,
    tile: Seq<Seq<PointView>>,
    c1: Seq<Seq<Option<ValueView>>>,
    c2: Seq<Seq<Option<ValueView>>>,
)
    requires
        forall|s: int|
            0 <= s < schema.layers.len() ==> writes_automatically(#[trigger] schema.layers[s]),
    ensures
        encoded_tile(schema, tile, c1) == encoded_tile(schema, tile, c2),
{
    assert forall|s: int| 0 <= s < schema.layers.len() implies encoded_layer(
        schema.layers[s],
        tile[s],
        customs_at(c1, s),
    ) == encoded_layer(schema.layers[s], tile[s], customs_at(c2, s)) by {
        assert(writes_automatically(schema.layers[s]));
        lemma_layer_without_customs(schema.layers[s], tile[s], customs_at(c1, s), customs_at(c2, s));
    }
    assert(encoded_tile(schema, tile, c1).layers =~= encoded_tile(schema, tile, c2).layers);
}

/// After an upsert the tile file holds the entity of the point exactly
/// once, if it held it at most once before. A file that was empty or no
/// tile message holds it once whatever it was.
pub proof fn lemma_upsert_keeps_one_in_file(
    layer: LayerSchemaView,
    zoom: u8,
    tx: u32,
    ty: u32,
    existing: Seq<u8>,
    point: PointView,
    answers: Seq<Seq<Option<FieldValueView>>>,
)
    requires
        identity_of(layer, point).is_some(),
        decoded_file(layer, zoom, tx, ty, existing, answers) matches Some(points) ==> entity_count(
            layer,
            points,
            point,
            points.len() as int,
        ) <= 1,
    ensures
        entity_count(
            layer,
            upserted_file(layer, zoom, tx, ty, existing, point, answers),
            point,
            upserted_file(layer, zoom, tx, ty, existing, point, answers).len() as int,
        ) == 1,
{
    let after = upserted_file(layer, zoom, tx, ty, existing, point, answers);
    let alone = seq![point];
    assert(entity_count(layer, alone, point, 1) == 1) by {
        assert(entity_count(layer, alone, point, 0) == 0);
        assert(same_entity(layer, alone[0], point));
    }
    if existing.len() != 0 {
        match decoded_file(layer, zoom, tx, ty, existing, answers) {
            Some(points) => {
                lemma_upsert_keeps_one(layer, points, point);
            },
            None => {},
        }
    }
}

/// After a delete that rewrites the tile file, the file holds the entity
/// of the point nowhere.
pub proof fn lemma_delete_leaves_none_in_file(
    layer: LayerSchemaView,
    zoom: u8,
    tx: u32,
    ty: u32,
    existing: Seq<u8>,
    point: PointView,
    answers: Seq<Seq<Option<FieldValueView>>>,
)
    ensures
        deleted_file(layer, zoom, tx, ty, existing, point, answers) matches Some(left)
            ==> entity_count(layer, left, point, left.len() as int) == 0,
{
    if existing.len() != 0 {
        match decoded_file(layer, zoom, tx, ty, existing, answers) {
            Some(points) => {
                lemma_delete_leaves_none(layer, points, point, points.len() as int);
            },
            None => {},
        }
    }
}

/// A change of an entity whose native zoom is `native` visits the zoom
/// levels from `native` to the deepest, each once and in rising order, and
/// no level above `native`.
pub proof fn lemma_levels_visited(native: u8, zoom: u8)
    ensures
        levels_from(native).contains(zoom) <==> native <= zoom <= MAX_ZOOM,
        forall|i: int, j: int|
            0 <= i < j < levels_from(native).len() ==> levels_from(native)[i] < levels_from(
                native,
            )[j],
{
    let levels = levels_from(native);
    if native <= zoom <= MAX_ZOOM {
        assert(levels[zoom - native] == zoom);
    }
}

/// A layer of another version than 2, or of another name than the store's
/// layer, does not change what a tile file holds: the file reads as it
/// does without that layer.
pub proof fn lemma_file_ignores_foreign_layer(
    layer: LayerSchemaView,
    zoom: u8,
    tx: u32,
    ty: u32,
    tile: TileView,
    answers: Seq<Seq<Option<FieldValueView>>>,
    foreign: LayerView,
    at: int,
)
    requires
        0 <= at <= tile.layers.len(),
        foreign.version_or_default() != 2 || foreign.name_or_default() != layer.name,
    ensures
        file_points(
            layer,
            zoom,
            tx,
            ty,
            TileView { layers: tile.layers.insert(at, foreign) },
            answers,
        ) == file_points(layer, zoom, tx, ty, tile, answers),
{
    let n = tile.layers.len() as int;
    let more = tile.layers.insert(at, foreign);
    lemma_last_match_with_foreign(layer.name, tile.layers, foreign, at, n);
    match last_match(layer.name, tile.layers, n) {
        Some(w) => {
            lemma_last_match_in_range(layer.name, tile.layers, n);
            if w < at {
                assert(more[w] == tile.layers[w]);
            } else {
                assert(more[w + 1] == tile.layers[w]);
            }
        },
        None => {},
    }
}

/// The layer written for a slot of a container is the layer that is read
/// for the schema layer of that slot.
proof fn lemma_own_layer_is_read(
    schema: TileSchemaView,
    tile: Seq<Seq<PointView>>,
    customs: Seq<Seq<Option<ValueView>>>,
    s: int,
)
    requires
        schema.wf(),
        0 <= s < schema.layers.len(),
    ensures
        last_match(
            schema.layers[s].name,
            encoded_tile(schema, tile, customs).layers,
            schema.layers.len() as int,
        ) == Some(s),
        layer_named(schema, encoded_tile(schema, tile, customs).layers[s].name_or_default())
            == Some(s),
{
    let wire = encoded_tile(schema, tile, customs);
    let ns = schema.layers.len() as int;
    let name = schema.layers[s].name;
    lemma_last_match_in_range(name, wire.layers, ns);
    assert(layer_matches(name, wire.layers[s]));
    match last_match(name, wire.layers, ns) {
        Some(w) => {
            assert(wire.layers[w].name == Some(schema.layers[w].name));
            if w < s {
            } else if s < w {
            }
        },
        None => {},
    }
    let c = choose|c: int| 0 <= c < schema.layers.len() && schema.layers[c].name == name;
    if c < s {
    } else if s < c {
    }
}

/// A container as it reads back for tile `(tx, ty)`: every point with its
/// pixel and values, placed in that tile.
pub open spec fn placed_tile(tile: Seq<Seq<PointView>>, zoom: u8, tx: u32, ty: u32) -> Seq<
    Seq<PointView>,
> {
    Seq::new(tile.len(), |s: int| Seq::new(tile[s].len(), |i: int| placed(tile[s][i], zoom, tx, ty)))
}

/// Whether, in every slot, every value that is not coded automatically in
/// both directions reads back as it was written.
pub open spec fn tile_values_come_back(
    schema: TileSchemaView,
    tile: Seq<Seq<PointView>>,
    customs: Seq<Seq<Option<ValueView>>>,
    answers: Seq<Seq<Seq<Option<FieldValueView>>>>,
) -> bool {
    forall|s: int|
        0 <= s < schema.layers.len() ==> custom_values_come_back(
            #[trigger] schema.layers[s],
            tile[s],
            customs_at(customs, s),
            layer_answers_at(answers, s),
        )
}

/// Whether a custom encoder answers the second time as it did the first,
/// for every value of a field that it codes.
pub open spec fn same_custom_answers(
    layer: LayerSchemaView,
    first: Seq<Option<ValueView>>,
    second: Seq<Option<ValueView>>,
) -> bool {
    forall|m: int, j: int|
        0 <= m && 0 <= j < layer.fields.len() && !layer.fields[j].auto_encode ==> entry_at(
            second,
            #[trigger] (m * layer.fields.len() + j),
        ) == entry_at(first, m * layer.fields.len() + j)
}

/// Round trip for a whole tile. A container whose slots fit their layers,
/// written as a message and read back for tile `(tx, ty)`, gives the same
/// points in the same slots and order, each placed in that tile. Values
/// that the custom codec codes are assumed to come back from it.
pub proof fn lemma_tile_round_trip(
    schema: TileSchemaView,
    zoom: u8,
    tx: u32,
    ty: u32,
    tile: Seq<Seq<PointView>>,
    customs: Seq<Seq<Option<ValueView>>>,
    answers: Seq<Seq<Seq<Option<FieldValueView>>>>,
)
    requires
        schema.wf(),
        tile.len() == schema.layers.len(),
        forall|s: int| 0 <= s < tile.len() ==> slot_encodes(schema, tile, s),
        tile_values_come_back(schema, tile, customs, answers),
    ensures
        decoded_tile(schema, zoom, tx, ty, encoded_tile(schema, tile, customs), answers)
            == placed_tile(tile, zoom, tx, ty),
{
    let wire = encoded_tile(schema, tile, customs);
    let back = decoded_tile(schema, zoom, tx, ty, wire, answers);
    let ns = schema.layers.len() as int;
    assert forall|s: int| 0 <= s < ns implies back[s] == placed_tile(tile, zoom, tx, ty)[s] by {
        let layer = schema.layers[s];
        assert(slot_encodes(schema, tile, s));
        lemma_own_layer_is_read(schema, tile, customs, s);
        lemma_layer_round_trip(
            layer,
            zoom,
            tx,
            ty,
            tile[s],
            customs_at(customs, s),
            layer_answers_at(answers, s),
            tile[s].len() as int,
        );
    }
    assert(back =~= placed_tile(tile, zoom, tx, ty));
}

/// Idempotent re-encode for a whole tile with custom fields. A container
/// written as a message, read back for any tile and written again gives
/// the same message, where the values that the custom codec codes come
/// back from it and its encoder answers the second time as the first.
pub proof fn lemma_tile_re_encode_with_customs(
    schema: TileSchemaView,
    zoom: u8,
    tx: u32,
    ty: u32,
    tile: Seq<Seq<PointView>>,
    customs: Seq<Seq<Option<ValueView>>>,
    answers: Seq<Seq<Seq<Option<FieldValueView>>>>,
    again: Seq<Seq<Option<ValueView>>>,
)
    requires
        schema.wf(),
        tile.len() == schema.layers.len(),
        forall|s: int| 0 <= s < tile.len() ==> slot_encodes(schema, tile, s),
        tile_values_come_back(schema, tile, customs, answers),
        forall|s: int|
            0 <= s < schema.layers.len() ==> same_custom_answers(
                #[trigger] schema.layers[s],
                customs_at(customs, s),
                customs_at(again, s),
            ),
    ensures
        encoded_tile(
            schema,
            decoded_tile(schema, zoom, tx, ty, encoded_tile(schema, tile, customs), answers),
            again,
        ) == encoded_tile(schema, tile, customs),
{
    let wire = encoded_tile(schema, tile, customs);
    let back = decoded_tile(schema, zoom, tx, ty, wire, answers);
    let second = encoded_tile(schema, back, again);
    let ns = schema.layers.len() as int;
    assert forall|s: int| 0 <= s < ns implies second.layers[s] == wire.layers[s] by {
        let layer = schema.layers[s];
        assert(slot_encodes(schema, tile, s));
        assert(same_custom_answers(layer, customs_at(customs, s), customs_at(again, s)));
        lemma_own_layer_is_read(schema, tile, customs, s);
        lemma_layer_re_encode(
            layer,
            zoom,
            tx,
            ty,
            tile[s],
            customs_at(customs, s),
            layer_answers_at(answers, s),
            customs_at(again, s),
        );
    }
    assert(second.layers =~= wire.layers);
}

/// What a value of field `j` reads back as after the codec has written it:
/// the field's encoder, automatic or the codec's, then the field's decoder.
pub open spec fn field_back<C: FieldCodec>(
    codec: C,
    layer: LayerSchemaView,
    j: int,
    value: FieldValueView,
) -> Option<FieldValueView> {
    let wire = field_encoded(
        layer,
        j,
        value,
        Some(codec.encoded(layer.name, layer.fields[j].name, value)),
    );
    field_decoded(layer, j, wire, codec.decoded(layer.name, layer.fields[j].name, wire))
}

/// Whether the codec's decoder undoes its encoder on a layer: every value
/// that a field holds reads back as itself.
pub open spec fn codec_undoes<C: FieldCodec>(codec: C, layer: LayerSchemaView) -> bool {
    forall|j: int, value: FieldValueView|
        0 <= j < layer.fields.len() && fits(layer.fields[j].kind, value) ==> #[trigger] field_back(
            codec,
            layer,
            j,
            value,
        ) == Some(value)
}

/// With a codec whose decoder undoes its encoder, what the library asks of
/// it on the way out comes back on the way in.
proof fn lemma_asked_values_come_back<C: FieldCodec>(
    codec: C,
    layer: LayerSchemaView,
    points: Seq<PointView>,
)
    requires
        points.len() * layer.fields.len() <= VALUE_LIMIT,
        forall|m: int| 0 <= m < points.len() ==> point_fits(layer, #[trigger] points[m]),
        codec_undoes(codec, layer),
    ensures
        custom_values_come_back(
            layer,
            points,
            asked_customs(codec, layer, points),
            asked_of_layer(
                codec,
                layer,
                encoded_layer(layer, points, asked_customs(codec, layer, points)),
            ),
        ),
{
    let nf = layer.fields.len() as int;
    let n = points.len() as int;
    let customs = asked_customs(codec, layer, points);
    let wire = encoded_layer(layer, points, customs);
    let answers = asked_of_layer(codec, layer, wire);
    assert forall|i: int, j: int|
        0 <= i < n && 0 <= j < nf && !(layer.fields[j].auto_encode
            && layer.fields[j].auto_decode) implies #[trigger] comes_back(
        layer,
        points,
        customs,
        answers,
        i,
        j,
    ) by {
        let at = i * nf + j;
        assert((i + 1) * nf <= n * nf) by (nonlinear_arith)
            requires
                i + 1 <= n,
                0 <= nf,
        ;
        assert((i + 1) * nf == i * nf + nf) by (nonlinear_arith);
        assert(0 <= i * nf) by (nonlinear_arith)
            requires
                0 <= i,
                0 <= nf,
        ;
        lemma_fundamental_div_mod_converse(at, nf, i, j);
        assert(point_fits(layer, points[i]));
        let value = points[i].values[j];
        assert(fits(layer.fields[j].kind, value));
        assert(wire.values[at] == field_encoded(layer, j, value, entry_at(customs, at)));
        if !layer.fields[j].auto_decode {
            let feature = wire.features[i];
            assert(feature == encoded_feature(layer, points[i], i));
            assert(feature.tags.len() == 2 * nf);
            assert(feature.tags[2 * j] == j as u32);
            assert(feature.tags[2 * j + 1] == at as u32);
            assert(answers[i] == asked_of_feature(codec, layer, feature, wire.values));
            assert(answers[i][j] == codec.decoded(
                layer.name,
                layer.fields[j].name,
                wire.values[at],
            ));
        }
        assert(field_back(codec, layer, j, value) == Some(value));
    }
}

/// What the codec answers about a list of points depends on their values
/// only, not on where they lie.
proof fn lemma_asked_customs_of_placed<C: FieldCodec>(
    codec: C,
    layer: LayerSchemaView,
    points: Seq<PointView>,
    zoom: u8,
    tx: u32,
    ty: u32,
)
    ensures
        asked_customs(
            codec,
            layer,
            Seq::new(points.len(), |i: int| placed(points[i], zoom, tx, ty)),
        ) == asked_customs(codec, layer, points),
{
    let nf = layer.fields.len() as int;
    let n = points.len() as int;
    let back = Seq::new(points.len(), |i: int| placed(points[i], zoom, tx, ty));
    let a = asked_customs(codec, layer, back);
    let b = asked_customs(codec, layer, points);
    if has_custom_encoder(layer) {
        assert forall|at: int| 0 <= at < n * nf implies a[at] == b[at] by {
            if nf > 0 {
                let i = at / nf;
                let j = at % nf;
                assert(at == i * nf + j && 0 <= j < nf && 0 <= i) by (nonlinear_arith)
                    requires
                        i == at / nf,
                        j == at % nf,
                        nf > 0,
                        0 <= at,
                ;
                assert(i < n) by (nonlinear_arith)
                    requires
                        at == i * nf + j,
                        0 <= j,
                        at < n * nf,
                        nf > 0,
                ;
            }
        }
        assert(a =~= b);
    }
}

/// Round trip through a codec. With a codec whose decoder undoes its
/// encoder, a container that `encode_tile` writes and `decode_tile` reads
/// back for tile `(tx, ty)` gives the same points in the same slots and
/// order, each with its pixel and every field value as it was, placed in
/// that tile.
pub proof fn lemma_codec_round_trip<C: FieldCodec>(
    codec: C,
    schema: TileSchemaView,
    zoom: u8,
    tx: u32,
    ty: u32,
    tile: Seq<Seq<PointView>>,
)
    requires
        schema.wf(),
        tile.len() == schema.layers.len(),
        forall|s: int| 0 <= s < tile.len() ==> slot_encodes(schema, tile, s),
        forall|s: int| 0 <= s < schema.layers.len() ==> codec_undoes(codec, #[trigger] schema.layers[s]),
    ensures
        decoded_tile(
            schema,
            zoom,
            tx,
            ty,
            encoded_tile(schema, tile, tile_customs_asked(codec, schema, tile)),
            tile_asked(
                codec,
                schema,
                encoded_tile(schema, tile, tile_customs_asked(codec, schema, tile)),
            ),
        ) == placed_tile(tile, zoom, tx, ty),
{
    let customs = tile_customs_asked(codec, schema, tile);
    let wire = encoded_tile(schema, tile, customs);
    let answers = tile_asked(codec, schema, wire);
    assert forall|s: int| 0 <= s < schema.layers.len() implies custom_values_come_back(
        #[trigger] schema.layers[s],
        tile[s],
        customs_at(customs, s),
        layer_answers_at(answers, s),
    ) by {
        assert(slot_encodes(schema, tile, s));
        assert(codec_undoes(codec, schema.layers[s]));
        lemma_own_layer_is_read(schema, tile, customs, s);
        lemma_asked_values_come_back(codec, schema.layers[s], tile[s]);
    }
    lemma_tile_round_trip(schema, zoom, tx, ty, tile, customs, answers);
}

/// Idempotent re-encode through a codec. With a codec whose decoder undoes
/// its encoder, what `encode_tile` writes for a container, `decode_tile`
/// reads back for any tile and `encode_tile` writes again is the message
/// that was written first, and so are its bytes.
pub proof fn lemma_codec_re_encode<C: FieldCodec>(
    codec: C,
    schema: TileSchemaView,
    zoom: u8,
    tx: u32,
    ty: u32,
    tile: Seq<Seq<PointView>>,
)
    requires
        schema.wf(),
        tile.len() == schema.layers.len(),
        forall|s: int| 0 <= s < tile.len() ==> slot_encodes(schema, tile, s),
        forall|s: int| 0 <= s < schema.layers.len() ==> codec_undoes(codec, #[trigger] schema.layers[s]),
    ensures
        ({
            let first = encoded_tile(schema, tile, tile_customs_asked(codec, schema, tile));
            let back = decoded_tile(schema, zoom, tx, ty, first, tile_asked(codec, schema, first));
            let second = encoded_tile(schema, back, tile_customs_asked(codec, schema, back));
            second == first && tile_bytes(second) == tile_bytes(first)
        }),
{
    let customs = tile_customs_asked(codec, schema, tile);
    let first = encoded_tile(schema, tile, customs);
    let answers = tile_asked(codec, schema, first);
    let back = decoded_tile(schema, zoom, tx, ty, first, answers);
    let again = tile_customs_asked(codec, schema, back);
    lemma_codec_round_trip(codec, schema, zoom, tx, ty, tile);
    assert(back == placed_tile(tile, zoom, tx, ty));
    assert forall|s: int| 0 <= s < schema.layers.len() implies custom_values_come_back(
        #[trigger] schema.layers[s],
        tile[s],
        customs_at(customs, s),
        layer_answers_at(answers, s),
    ) by {
        assert(slot_encodes(schema, tile, s));
        assert(codec_undoes(codec, schema.layers[s]));
        lemma_own_layer_is_read(schema, tile, customs, s);
        lemma_asked_values_come_back(codec, schema.layers[s], tile[s]);
    }
    assert forall|s: int| 0 <= s < schema.layers.len() implies same_custom_answers(
        #[trigger] schema.layers[s],
        customs_at(customs, s),
        customs_at(again, s),
    ) by {
        lemma_asked_customs_of_placed(codec, schema.layers[s], tile[s], zoom, tx, ty);
        assert(back[s] =~= Seq::new(tile[s].len(), |i: int| placed(tile[s][i], zoom, tx, ty)));
    }
    lemma_tile_re_encode_with_customs(schema, zoom, tx, ty, tile, customs, answers, again);
}

} // verus!
