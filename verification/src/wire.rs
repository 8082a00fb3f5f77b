//! Tile messages as bytes.
//!
//! The protocol-buffer encoding itself is the work of the `protobuf` crate:
//! it reads one numbered field from the front of a message and writes a
//! numbered field as bytes. What is decided here is how a message falls
//! into fields and which field of which message holds what, and that is
//! verified against the crate's answers, which are named but not described.

use vstd::prelude::*;
use vstd::slice::{slice_subrange, slice_to_vec};
use vstd::utf8::{decode_utf8, encode_utf8, valid_utf8};
use vstd::string::StringSliceAdditionalSpecFns;
use protobuf::rt::read_unknown_or_skip_group;
use protobuf::{CodedInputStream, CodedOutputStream, UnknownFields, UnknownValueRef};
use crate::vector_tile::{
    lemma_views_push, views, Feature, FeatureView, Layer, LayerView, Tile, TileView,
    Value, ValueView,
};

verus! {

/// The error of the `protobuf` crate. Nothing is read from it.
#[verifier::external_type_specification]
#[verifier::external_body]
pub struct ExProtobufError(protobuf::Error);

/// What one field of a message carries.
#[derive(Clone, Debug, PartialEq, Eq)]
pub enum FieldData {
    Varint(u64),
    Fixed64(u64),
    Fixed32(u32),
    Bytes(Vec<u8>),
}

/// What a [`FieldData`] holds.
pub ghost enum FieldDataView {
    Varint(u64),
    Fixed64(u64),
    Fixed32(u32),
    Bytes(Seq<u8>),
}

impl View for FieldData {
    type V = FieldDataView;

    open spec fn view(&self) -> FieldDataView {
        match self {
            FieldData::Varint(v) => FieldDataView::Varint(*v),
            FieldData::Fixed64(v) => FieldDataView::Fixed64(*v),
            FieldData::Fixed32(v) => FieldDataView::Fixed32(*v),
            FieldData::Bytes(b) => FieldDataView::Bytes(b@),
        }
    }
}

/// One numbered field of a message. `narrow` says of a varint whether the
/// `protobuf` crate's reader of 32-bit numbers reads it too, which it does
/// not where the varint is written in more than five bytes or has a fifth
/// byte above `0x0f`; it is `false` for every other content.
#[derive(Clone, Debug, PartialEq, Eq)]
pub struct Field {
    pub number: u32,
    pub data: FieldData,
    pub narrow: bool,
}

/// What a [`Field`] holds.
pub ghost struct FieldView {
    pub number: u32,
    pub data: FieldDataView,
    pub narrow: bool,
}

impl View for Field {
    type V = FieldView;

    open spec fn view(&self) -> FieldView {
        FieldView { number: self.number, data: self.data@, narrow: self.narrow }
    }
}

/// Why bytes and a tile message do not convert.
#[derive(Clone, Copy, Debug, PartialEq, Eq, Structural)]
pub enum WireError {
    /// The bytes are no tile message.
    Malformed,
    /// A part of the message is longer than the encoding can count.
    TooLarge,
}

/// The largest field number.
pub const FIELD_NUMBER_MAX: u32 = 0x1fff_ffff;

/// The most bytes that one length-delimited field may carry.
pub const PAYLOAD_MAX: usize = 0x7fff_ffff;

/// The most numbers that one packed field may carry.
pub const PACKED_MAX: usize = 0x0fff_ffff;

/// What the `protobuf` crate reads after the tag `tag` from the start of
/// the bytes: the field, or none where the tag opens a group, with the
/// number of bytes it takes up; `None` where the crate reads nothing.
pub uninterp spec fn leading_content(bytes: Seq<u8>, tag: u32) -> Option<
    (Option<(u32, FieldDataView)>, u64),
>;

/// The 32-bit varint that the `protobuf` crate reads from the start of the
/// bytes, with the number of bytes it takes up, or `None` where it reads
/// none.
pub uninterp spec fn leading_varint32(bytes: Seq<u8>) -> Option<(u32, u64)>;

/// The bytes that the `protobuf` crate writes for one numbered field.
pub uninterp spec fn field_bytes(number: u32, data: FieldDataView) -> Seq<u8>;

/// The bytes that the `protobuf` crate writes for a packed field of 32-bit
/// numbers.
pub uninterp spec fn packed_bytes(number: u32, values: Seq<u32>) -> Seq<u8>;

/// Calls `rt::read_unknown_or_skip_group` of the `protobuf` crate, which is
/// what the crate's message code calls for a field it keeps as it comes, on
/// a stream over the bytes that follow the field's tag. It returns the
/// field, or none for a group, which the crate skips, with the stream's
/// position after it. The contract names the result and adds that the
/// position lies within the bytes.
#[verifier::external_body]
fn read_content(bytes: &[u8], tag: u32) -> (r: Result<
    (Option<(u32, FieldData)>, u64),
    protobuf::Error,
>)
    ensures
        match r {
            Ok(read) => leading_content(bytes@, tag) == Some((content_view(read.0), read.1))
                && read.1 <= bytes@.len(),
            Err(_) => leading_content(bytes@, tag).is_none(),
        },
{
    let mut input = CodedInputStream::from_bytes(bytes);
    let mut kept = UnknownFields::new();
    read_unknown_or_skip_group(tag, &mut input, &mut kept)?;
    let field = kept.iter().next().map(|(number, value)| (number, match value {
        UnknownValueRef::Varint(v) => FieldData::Varint(v),
        UnknownValueRef::Fixed64(v) => FieldData::Fixed64(v),
        UnknownValueRef::Fixed32(v) => FieldData::Fixed32(v),
        UnknownValueRef::LengthDelimited(b) => FieldData::Bytes(b.to_vec()),
    }));
    Ok((field, input.pos()))
}

/// Calls `CodedInputStream::read_raw_varint32` of the `protobuf` crate on a
/// stream over the bytes and returns the number with the stream's position
/// after it. The contract names the result and adds that a number takes up
/// at least one byte and no more than there are.
#[verifier::external_body]
fn read_varint32(bytes: &[u8]) -> (r: Result<(u32, u64), protobuf::Error>)
    ensures
        match r {
            Ok(read) => leading_varint32(bytes@) == Some(read) && 1 <= read.1 <= bytes@.len(),
            Err(_) => leading_varint32(bytes@).is_none(),
        },
{
    let mut input = CodedInputStream::from_bytes(bytes);
    let value = input.read_raw_varint32()?;
    Ok((value, input.pos()))
}

/// Calls `std::str::from_utf8`: it accepts exactly the valid UTF-8 and the
/// text it returns has the characters that the bytes encode.
#[verifier::external_body]
fn text_of(bytes: &[u8]) -> (r: Option<&str>)
    ensures
        r.is_some() == valid_utf8(bytes@),
        r matches Some(text) ==> text@ == decode_utf8(bytes@),
{
    std::str::from_utf8(bytes).ok()
}

/// Calls `CodedOutputStream::write_unknown` of the `protobuf` crate on a
/// stream that appends to the vector. The crate panics on a field number
/// outside `1..=0x1fffffff` and counts a payload in 32 bits, so both are
/// demanded. Writing to a vector does not fail.
#[verifier::external_body]
fn put_field(out: &mut Vec<u8>, number: u32, data: &FieldData)
    requires
        1 <= number <= FIELD_NUMBER_MAX,
        data matches FieldData::Bytes(b) ==> b@.len() <= PAYLOAD_MAX,
    ensures
        final(out)@ == old(out)@ + field_bytes(number, data@),
{
    let mut output = CodedOutputStream::vec(out);
    let value = match data {
        FieldData::Varint(v) => UnknownValueRef::Varint(*v),
        FieldData::Fixed64(v) => UnknownValueRef::Fixed64(*v),
        FieldData::Fixed32(v) => UnknownValueRef::Fixed32(*v),
        FieldData::Bytes(b) => UnknownValueRef::LengthDelimited(b),
    };
    output.write_unknown(number, value).unwrap();
    output.flush().unwrap();
}

/// Calls `CodedOutputStream::write_repeated_packed_uint32` of the
/// `protobuf` crate on a stream that appends to the vector, under the same
/// demands as [`put_field`].
#[verifier::external_body]
fn put_packed(out: &mut Vec<u8>, number: u32, values: &Vec<u32>)
    requires
        1 <= number <= FIELD_NUMBER_MAX,
        values@.len() <= PACKED_MAX,
    ensures
        final(out)@ == old(out)@ + packed_bytes(number, values@),
{
    let mut output = CodedOutputStream::vec(out);
    output.write_repeated_packed_uint32(number, values).unwrap();
    output.flush().unwrap();
}

/// The view of the number and content of a field that may be absent.
pub open spec fn content_view(o: Option<(u32, FieldData)>) -> Option<(u32, FieldDataView)> {
    match o {
        Some(c) => Some((c.0, c.1@)),
        None => None,
    }
}

/// Whether the content of a field is a varint that the crate's reader of
/// 32-bit numbers reads too, from the same bytes and to the same end.
pub open spec fn is_narrow(data: FieldDataView, bytes: Seq<u8>, used: u64) -> bool {
    data is Varint && match leading_varint32(bytes) {
        Some(read) => read.1 == used,
        None => false,
    }
}

/// The fields of a message in the order of its bytes, or `None` where the
/// bytes are no message: a tag, then what the tag announces, until the
/// bytes end. A group is passed over.
pub open spec fn wire_fields(bytes: Seq<u8>) -> Option<Seq<FieldView>>
    decreases bytes.len(),
{
    if bytes.len() == 0 {
        Some(Seq::empty())
    } else {
        match leading_varint32(bytes) {
            None => None,
            Some(tag) => if 1 <= tag.1 <= bytes.len() {
                match leading_content(bytes.skip(tag.1 as int), tag.0) {
                    None => None,
                    Some(content) => if content.1 <= bytes.len() - tag.1 {
                        match wire_fields(bytes.skip(tag.1 + content.1)) {
                            None => None,
                            Some(rest) => Some(
                                match content.0 {
                                    Some(c) => seq![
                                        FieldView {
                                            number: c.0,
                                            data: c.1,
                                            narrow: is_narrow(
                                                c.1,
                                                bytes.skip(tag.1 as int),
                                                content.1,
                                            ),
                                        },
                                    ] + rest,
                                    None => rest,
                                },
                            ),
                        }
                    } else {
                        None
                    },
                }
            } else {
                None
            },
        }
    }
}

/// The result of applying `step` to the first `upto` fields in order,
/// starting from `start`; `None` as soon as one step fails.
pub open spec fn folded<A>(
    step: spec_fn(A, FieldView) -> Option<A>,
    start: A,
    fields: Seq<FieldView>,
    upto: int,
) -> Option<A>
    decreases upto,
{
    if upto <= 0 {
        Some(start)
    } else {
        match folded(step, start, fields, upto - 1) {
            Some(acc) => step(acc, fields[upto - 1]),
            None => None,
        }
    }
}

/// Once a step has failed, the later fields change nothing.
pub proof fn lemma_folded_fails<A>(
    step: spec_fn(A, FieldView) -> Option<A>,
    start: A,
    fields: Seq<FieldView>,
    at: int,
    upto: int,
)
    requires
        0 <= at <= upto,
        folded(step, start, fields, at).is_none(),
    ensures
        folded(step, start, fields, upto).is_none(),
    decreases upto,
{
    if at < upto {
        lemma_folded_fails(step, start, fields, at, upto - 1);
    }
}

/// The numbers of a packed payload, or `None` where the bytes are no run
/// of 32-bit varints.
pub open spec fn unpacked(bytes: Seq<u8>) -> Option<Seq<u32>>
    decreases bytes.len(),
{
    if bytes.len() == 0 {
        Some(Seq::empty())
    } else {
        match leading_varint32(bytes) {
            None => None,
            Some(read) => if 1 <= read.1 <= bytes.len() {
                match unpacked(bytes.skip(read.1 as int)) {
                    Some(rest) => Some(seq![read.0] + rest),
                    None => None,
                }
            } else {
                None
            },
        }
    }
}

/// A 64-bit varint read as a signed number in zigzag code.
pub open spec fn unzigzag64(v: u64) -> i64 {
    if v % 2 == 0 {
        (v / 2) as i64
    } else {
        (-(v / 2) - 1) as i64
    }
}

/// The zigzag code of a signed 64-bit number.
pub open spec fn zigzag64(n: i64) -> u64 {
    if n >= 0 {
        (2 * n) as u64
    } else {
        (-2 * n - 1) as u64
    }
}

/// A varint read as the number of an enumeration: a signed 32-bit number
/// given in 64 bits, or `None` where it is outside that range.
pub open spec fn enum_number(v: u64) -> Option<i32> {
    if v <= 0x7fff_ffff {
        Some(v as i32)
    } else if v >= 0xffff_ffff_8000_0000 {
        Some((v - 0x1_0000_0000_0000_0000) as i32)
    } else {
        None
    }
}

/// The varint of the number of an enumeration.
pub open spec fn enum_varint(n: i32) -> u64 {
    if n >= 0 {
        n as u64
    } else {
        (n + 0x1_0000_0000_0000_0000) as u64
    }
}

/// A 64-bit varint read as a signed number in two's complement.
pub open spec fn signed64(v: u64) -> i64 {
    if v <= 0x7fff_ffff_ffff_ffff {
        v as i64
    } else {
        (v - 0x1_0000_0000_0000_0000) as i64
    }
}

/// The varint of a signed 64-bit number.
pub open spec fn pattern64(n: i64) -> u64 {
    if n >= 0 {
        n as u64
    } else {
        (n + 0x1_0000_0000_0000_0000) as u64
    }
}

/// One field of a value message laid onto the value read so far. Fields 1
/// to 7 are the text, the two floating point patterns, the signed, the
/// unsigned, the zigzag and the boolean member; a later field replaces an
/// earlier one, any other field is passed over, and a text that is no UTF-8
/// spoils the message.
pub open spec fn value_step(acc: ValueView, f: FieldView) -> Option<ValueView> {
    match f.data {
        FieldDataView::Bytes(b) => if f.number == 1 {
            if valid_utf8(b) {
                Some(ValueView { string_value: Some(decode_utf8(b)), ..acc })
            } else {
                None
            }
        } else {
            Some(acc)
        },
        FieldDataView::Fixed32(v) => if f.number == 2 {
            Some(ValueView { float_bits: Some(v), ..acc })
        } else {
            Some(acc)
        },
        FieldDataView::Fixed64(v) => if f.number == 3 {
            Some(ValueView { double_bits: Some(v), ..acc })
        } else {
            Some(acc)
        },
        FieldDataView::Varint(v) => if f.number == 4 {
            Some(ValueView { int_value: Some(signed64(v)), ..acc })
        } else if f.number == 5 {
            Some(ValueView { uint_value: Some(v), ..acc })
        } else if f.number == 6 {
            Some(ValueView { sint_value: Some(unzigzag64(v)), ..acc })
        } else if f.number == 7 {
            Some(ValueView { bool_value: Some(v != 0), ..acc })
        } else {
            Some(acc)
        },
    }
}

/// [`value_step`] as a function value.
pub open spec fn value_steps() -> spec_fn(ValueView, FieldView) -> Option<ValueView> {
    |acc: ValueView, f: FieldView| value_step(acc, f)
}

/// The value message that bytes stand for.
pub open spec fn parsed_value(bytes: Seq<u8>) -> Option<ValueView> {
    match wire_fields(bytes) {
        Some(fields) => folded(value_steps(), ValueView::empty(), fields, fields.len() as int),
        None => None,
    }
}

/// The feature without any member.
pub open spec fn empty_feature() -> FeatureView {
    FeatureView { id: None, tags: Seq::empty(), type_: None, geometry: Seq::empty() }
}

/// The numbers that one field adds to a repeated 32-bit member: one number
/// for a varint, the numbers of the payload for a packed field. Each number
/// has to be one that the `protobuf` crate's reader of 32-bit numbers
/// reads.
pub open spec fn repeated_u32(data: FieldDataView, narrow: bool) -> Option<Seq<u32>> {
    match data {
        FieldDataView::Varint(v) => if narrow && v <= u32::MAX {
            Some(seq![v as u32])
        } else {
            None
        },
        FieldDataView::Bytes(b) => unpacked(b),
        _ => Some(Seq::empty()),
    }
}

/// One field of a feature message laid onto the feature read so far.
/// Field 1 is the id, 2 the tags, 3 the kind of shape, 4 the geometry.
/// The kind of shape is any varint that stands for a signed 32-bit number.
pub open spec fn feature_step(acc: FeatureView, f: FieldView) -> Option<FeatureView> {
    if f.number == 1 {
        match f.data {
            FieldDataView::Varint(v) => Some(FeatureView { id: Some(v), ..acc }),
            _ => Some(acc),
        }
    } else if f.number == 2 {
        match repeated_u32(f.data, f.narrow) {
            Some(more) => Some(FeatureView { tags: acc.tags + more, ..acc }),
            None => None,
        }
    } else if f.number == 3 {
        match f.data {
            FieldDataView::Varint(v) => match enum_number(v) {
                Some(n) => Some(FeatureView { type_: Some(n), ..acc }),
                None => None,
            },
            _ => Some(acc),
        }
    } else if f.number == 4 {
        match repeated_u32(f.data, f.narrow) {
            Some(more) => Some(FeatureView { geometry: acc.geometry + more, ..acc }),
            None => None,
        }
    } else {
        Some(acc)
    }
}

/// [`feature_step`] as a function value.
pub open spec fn feature_steps() -> spec_fn(FeatureView, FieldView) -> Option<FeatureView> {
    |acc: FeatureView, f: FieldView| feature_step(acc, f)
}

/// The feature message that bytes stand for.
pub open spec fn parsed_feature(bytes: Seq<u8>) -> Option<FeatureView> {
    match wire_fields(bytes) {
        Some(fields) => folded(feature_steps(), empty_feature(), fields, fields.len() as int),
        None => None,
    }
}

/// The layer without any member.
pub open spec fn empty_layer() -> LayerView {
    LayerView {
        version: None,
        name: None,
        features: Seq::empty(),
        keys: Seq::empty(),
        values: Seq::empty(),
        extent: None,
    }
}

/// One field of a layer message laid onto the layer read so far. Field 15
/// is the version, 1 the name, 2 a feature, 3 a key, 4 a value, 5 the
/// extent.
///
/// The version and the extent have to be varints that the `protobuf`
/// crate's reader of 32-bit numbers reads. A layer that states no version
/// or no name is read as it is; nothing here asks for a member to be
/// present.
pub open spec fn layer_step(acc: LayerView, f: FieldView) -> Option<LayerView> {
    match f.data {
        FieldDataView::Varint(v) => if f.number == 15 {
            if f.narrow && v <= u32::MAX {
                Some(LayerView { version: Some(v as u32), ..acc })
            } else {
                None
            }
        } else if f.number == 5 {
            if f.narrow && v <= u32::MAX {
                Some(LayerView { extent: Some(v as u32), ..acc })
            } else {
                None
            }
        } else {
            Some(acc)
        },
        FieldDataView::Bytes(b) => if f.number == 1 {
            if valid_utf8(b) {
                Some(LayerView { name: Some(decode_utf8(b)), ..acc })
            } else {
                None
            }
        } else if f.number == 2 {
            match parsed_feature(b) {
                Some(feature) => Some(LayerView { features: acc.features.push(feature), ..acc }),
                None => None,
            }
        } else if f.number == 3 {
            if valid_utf8(b) {
                Some(LayerView { keys: acc.keys.push(decode_utf8(b)), ..acc })
            } else {
                None
            }
        } else if f.number == 4 {
            match parsed_value(b) {
                Some(value) => Some(LayerView { values: acc.values.push(value), ..acc }),
                None => None,
            }
        } else {
            Some(acc)
        },
        _ => Some(acc),
    }
}

/// [`layer_step`] as a function value.
pub open spec fn layer_steps() -> spec_fn(LayerView, FieldView) -> Option<LayerView> {
    |acc: LayerView, f: FieldView| layer_step(acc, f)
}

/// The layer message that bytes stand for.
pub open spec fn parsed_layer(bytes: Seq<u8>) -> Option<LayerView> {
    match wire_fields(bytes) {
        Some(fields) => folded(layer_steps(), empty_layer(), fields, fields.len() as int),
        None => None,
    }
}

/// One field of a tile message laid onto the tile read so far. Field 3 is
/// a layer.
pub open spec fn tile_step(acc: TileView, f: FieldView) -> Option<TileView> {
    match f.data {
        FieldDataView::Bytes(b) => if f.number == 3 {
            match parsed_layer(b) {
                Some(layer) => Some(TileView { layers: acc.layers.push(layer) }),
                None => None,
            }
        } else {
            Some(acc)
        },
        _ => Some(acc),
    }
}

/// [`tile_step`] as a function value.
pub open spec fn tile_steps() -> spec_fn(TileView, FieldView) -> Option<TileView> {
    |acc: TileView, f: FieldView| tile_step(acc, f)
}

/// The tile message that bytes stand for, or `None` where they stand for
/// none.
pub open spec fn parsed_tile(bytes: Seq<u8>) -> Option<TileView> {
    match wire_fields(bytes) {
        Some(fields) => folded(
            tile_steps(),
            TileView { layers: Seq::empty() },
            fields,
            fields.len() as int,
        ),
        None => None,
    }
}

/// The view of the outcome of reading a message.
pub open spec fn read_view<T: View>(r: Result<T, WireError>) -> Option<T::V> {
    match r {
        Ok(x) => Some(x@),
        Err(_) => None,
    }
}

/// Splits a message into its fields.
pub fn split_fields(bytes: &[u8]) -> (r: Result<Vec<Field>, WireError>)
    ensures
        match r {
            Ok(fields) => wire_fields(bytes@) == Some(views(fields@)),
            Err(e) => wire_fields(bytes@).is_none() && e == WireError::Malformed,
        },
{
    let mut fields: Vec<Field> = Vec::new();
    let mut at: usize = 0;
    proof {
        assert(bytes@.skip(0) =~= bytes@);
        match wire_fields(bytes@) {
            Some(rest) => {
                assert(views(fields@) + rest =~= rest);
            },
            None => {},
        }
    }
    while at < bytes.len()
        invariant
            0 <= at <= bytes.len(),
            wire_fields(bytes@) == match wire_fields(bytes@.skip(at as int)) {
                Some(rest) => Some(views(fields@) + rest),
                None => None,
            },
        decreases bytes.len() - at,
    {
        let rest = slice_subrange(bytes, at, bytes.len());
        assert(rest@ =~= bytes@.skip(at as int));
        let tag = match read_varint32(rest) {
            Ok(tag) => tag,
            Err(_) => {
                return Err(WireError::Malformed);
            },
        };
        let after = slice_subrange(rest, tag.1 as usize, rest.len());
        assert(after@ =~= rest@.skip(tag.1 as int));
        let content = match read_content(after, tag.0) {
            Ok(content) => content,
            Err(_) => {
                return Err(WireError::Malformed);
            },
        };
        let ghost before = views(fields@);
        let ghost next = bytes@.skip(at + tag.1 + content.1);
        assert(rest@.skip(tag.1 + content.1) =~= next);
        match content.0 {
            Some(c) => {
                let narrow = match &c.1 {
                    FieldData::Varint(_) => match read_varint32(after) {
                        Ok(read) => read.1 == content.1,
                        Err(_) => false,
                    },
                    _ => false,
                };
                let field = Field { number: c.0, data: c.1, narrow };
                proof {
                    lemma_views_push(fields@, field);
                    match wire_fields(next) {
                        Some(more) => {
                            assert(before + (seq![field@] + more) =~= before.push(field@) + more);
                        },
                        None => {},
                    }
                }
                fields.push(field);
            },
            None => {},
        }
        at = at + tag.1 as usize + content.1 as usize;
    }
    assert(bytes@.skip(at as int) =~= Seq::<u8>::empty());
    assert(views(fields@) + Seq::<FieldView>::empty() =~= views(fields@));
    Ok(fields)
}

/// Reads the numbers of a packed payload.
pub fn unpack(bytes: &[u8]) -> (r: Result<Vec<u32>, WireError>)
    ensures
        match r {
            Ok(numbers) => unpacked(bytes@) == Some(numbers@),
            Err(e) => unpacked(bytes@).is_none() && e == WireError::Malformed,
        },
{
    let mut numbers: Vec<u32> = Vec::new();
    let mut at: usize = 0;
    proof {
        assert(bytes@.skip(0) =~= bytes@);
        match unpacked(bytes@) {
            Some(rest) => {
                assert(numbers@ + rest =~= rest);
            },
            None => {},
        }
    }
    while at < bytes.len()
        invariant
            0 <= at <= bytes.len(),
            unpacked(bytes@) == match unpacked(bytes@.skip(at as int)) {
                Some(rest) => Some(numbers@ + rest),
                None => None,
            },
        decreases bytes.len() - at,
    {
        let rest = slice_subrange(bytes, at, bytes.len());
        assert(rest@ =~= bytes@.skip(at as int));
        match read_varint32(rest) {
            Err(_) => {
                return Err(WireError::Malformed);
            },
            Ok(read) => {
                let ghost before = numbers@;
                numbers.push(read.0);
                proof {
                    assert(rest@.skip(read.1 as int) =~= bytes@.skip(at + read.1));
                    match unpacked(bytes@.skip(at + read.1)) {
                        Some(more) => {
                            assert(before + (seq![read.0] + more) =~= numbers@ + more);
                        },
                        None => {},
                    }
                }
                at = at + read.1 as usize;
            },
        }
    }
    assert(bytes@.skip(at as int) =~= Seq::<u8>::empty());
    assert(numbers@ + Seq::<u32>::empty() =~= numbers@);
    Ok(numbers)
}

/// The numbers that one field adds to a repeated 32-bit member.
fn repeated_numbers(data: &FieldData, narrow: bool) -> (r: Result<Vec<u32>, WireError>)
    ensures
        match r {
            Ok(numbers) => repeated_u32(data@, narrow) == Some(numbers@),
            Err(e) => repeated_u32(data@, narrow).is_none() && e == WireError::Malformed,
        },
{
    match data {
        FieldData::Varint(v) => {
            if narrow && *v <= u32::MAX as u64 {
                let mut one: Vec<u32> = Vec::new();
                one.push(*v as u32);
                assert(one@ =~= seq![*v as u32]);
                Ok(one)
            } else {
                Err(WireError::Malformed)
            }
        },
        FieldData::Bytes(b) => unpack(b.as_slice()),
        _ => {
            let none: Vec<u32> = Vec::new();
            assert(none@ =~= Seq::<u32>::empty());
            Ok(none)
        },
    }
}

/// Appends the numbers of `more` to `to`.
fn append_numbers(to: &mut Vec<u32>, more: &Vec<u32>)
    ensures
        final(to)@ == old(to)@ + more@,
{
    let mut i: usize = 0;
    while i < more.len()
        invariant
            0 <= i <= more.len(),
            to@ == old(to)@ + more@.take(i as int),
        decreases more.len() - i,
    {
        let ghost before = to@;
        to.push(more[i]);
        assert(to@ =~= old(to)@ + more@.take(i + 1));
        i += 1;
    }
    assert(more@.take(more.len() as int) =~= more@);
}

/// A 64-bit varint read as a signed number in two's complement.
fn signed_of(v: u64) -> (r: i64)
    ensures
        r == signed64(v),
{
    if v <= 0x7fff_ffff_ffff_ffff {
        v as i64
    } else {
        (v as i128 - 0x1_0000_0000_0000_0000) as i64
    }
}

/// A 64-bit varint read as a signed number in zigzag code.
fn unzigzag_of(v: u64) -> (r: i64)
    ensures
        r == unzigzag64(v),
{
    let half: i64 = (v / 2) as i64;
    if v % 2 == 0 {
        half
    } else {
        -half - 1
    }
}

/// Reads a value message.
pub fn parse_value(bytes: &[u8]) -> (r: Result<Value, WireError>)
    ensures
        read_view(r) == parsed_value(bytes@),
        r matches Err(e) ==> e == WireError::Malformed,
{
    let fields = match split_fields(bytes) {
        Ok(fields) => fields,
        Err(e) => {
            return Err(e);
        },
    };
    let ghost all = views(fields@);
    let mut acc = Value::default();
    let mut i: usize = 0;
    while i < fields.len()
        invariant
            all == views(fields@),
            wire_fields(bytes@) == Some(all),
            0 <= i <= fields.len(),
            folded(value_steps(), ValueView::empty(), all, i as int) == Some(acc@),
        decreases fields.len() - i,
    {
        let field = &fields[i];
        assert(field@ == all[i as int]);
        match &field.data {
            FieldData::Bytes(b) => {
                if field.number == 1 {
                    match text_of(b.as_slice()) {
                        Some(text) => {
                            acc.string_value = Some(text.to_owned());
                        },
                        None => {
                            proof {
                                lemma_folded_fails(
                                    value_steps(),
                                    ValueView::empty(),
                                    all,
                                    i + 1,
                                    fields.len() as int,
                                );
                            }
                            return Err(WireError::Malformed);
                        },
                    }
                }
            },
            FieldData::Fixed32(v) => {
                if field.number == 2 {
                    acc.float_bits = Some(*v);
                }
            },
            FieldData::Fixed64(v) => {
                if field.number == 3 {
                    acc.double_bits = Some(*v);
                }
            },
            FieldData::Varint(v) => {
                if field.number == 4 {
                    acc.int_value = Some(signed_of(*v));
                } else if field.number == 5 {
                    acc.uint_value = Some(*v);
                } else if field.number == 6 {
                    acc.sint_value = Some(unzigzag_of(*v));
                } else if field.number == 7 {
                    acc.bool_value = Some(*v != 0);
                }
            },
        }
        i += 1;
    }
    Ok(acc)
}

/// Reads a feature message.
pub fn parse_feature(bytes: &[u8]) -> (r: Result<Feature, WireError>)
    ensures
        read_view(r) == parsed_feature(bytes@),
        r matches Err(e) ==> e == WireError::Malformed,
{
    let fields = match split_fields(bytes) {
        Ok(fields) => fields,
        Err(e) => {
            return Err(e);
        },
    };
    let ghost all = views(fields@);
    let mut acc = Feature::default();
    let mut i: usize = 0;
    while i < fields.len()
        invariant
            all == views(fields@),
            wire_fields(bytes@) == Some(all),
            0 <= i <= fields.len(),
            folded(feature_steps(), empty_feature(), all, i as int) == Some(acc@),
        decreases fields.len() - i,
    {
        let field = &fields[i];
        assert(field@ == all[i as int]);
        let mut sound = true;
        if field.number == 1 {
            match &field.data {
                FieldData::Varint(v) => {
                    acc.id = Some(*v);
                },
                _ => {},
            }
        } else if field.number == 2 {
            match repeated_numbers(&field.data, field.narrow) {
                Ok(more) => {
                    append_numbers(&mut acc.tags, &more);
                },
                Err(_) => {
                    sound = false;
                },
            }
        } else if field.number == 3 {
            match &field.data {
                FieldData::Varint(v) => {
                    if *v <= 0x7fff_ffff {
                        acc.type_ = Some(*v as i32);
                    } else if *v >= 0xffff_ffff_8000_0000 {
                        acc.type_ = Some((*v as i128 - 0x1_0000_0000_0000_0000) as i32);
                    } else {
                        sound = false;
                    }
                },
                _ => {},
            }
        } else if field.number == 4 {
            match repeated_numbers(&field.data, field.narrow) {
                Ok(more) => {
                    append_numbers(&mut acc.geometry, &more);
                },
                Err(_) => {
                    sound = false;
                },
            }
        }
        if !sound {
            proof {
                lemma_folded_fails(feature_steps(), empty_feature(), all, i + 1, fields.len() as int);
            }
            return Err(WireError::Malformed);
        }
        i += 1;
    }
    Ok(acc)
}

/// Reads a layer message.
pub fn parse_layer(bytes: &[u8]) -> (r: Result<Layer, WireError>)
    ensures
        read_view(r) == parsed_layer(bytes@),
        r matches Err(e) ==> e == WireError::Malformed,
{
    let fields = match split_fields(bytes) {
        Ok(fields) => fields,
        Err(e) => {
            return Err(e);
        },
    };
    let ghost all = views(fields@);
    let mut acc = Layer::default();
    let mut i: usize = 0;
    while i < fields.len()
        invariant
            all == views(fields@),
            wire_fields(bytes@) == Some(all),
            0 <= i <= fields.len(),
            folded(layer_steps(), empty_layer(), all, i as int) == Some(acc@),
        decreases fields.len() - i,
    {
        let field = &fields[i];
        assert(field@ == all[i as int]);
        let ghost before = acc@;
        let mut sound = true;
        match &field.data {
            FieldData::Varint(v) => {
                if field.number == 15 {
                    if field.narrow && *v <= u32::MAX as u64 {
                        acc.version = Some(*v as u32);
                    } else {
                        sound = false;
                    }
                } else if field.number == 5 {
                    if field.narrow && *v <= u32::MAX as u64 {
                        acc.extent = Some(*v as u32);
                    } else {
                        sound = false;
                    }
                }
            },
            FieldData::Bytes(b) => {
                if field.number == 1 {
                    match text_of(b.as_slice()) {
                        Some(text) => {
                            acc.name = Some(text.to_owned());
                        },
                        None => {
                            sound = false;
                        },
                    }
                } else if field.number == 2 {
                    match parse_feature(b.as_slice()) {
                        Ok(feature) => {
                            proof {
                                lemma_views_push(acc.features@, feature);
                            }
                            acc.features.push(feature);
                        },
                        Err(_) => {
                            sound = false;
                        },
                    }
                } else if field.number == 3 {
                    match text_of(b.as_slice()) {
                        Some(text) => {
                            let key = text.to_owned();
                            proof {
                                lemma_views_push(acc.keys@, key);
                            }
                            acc.keys.push(key);
                        },
                        None => {
                            sound = false;
                        },
                    }
                } else if field.number == 4 {
                    match parse_value(b.as_slice()) {
                        Ok(value) => {
                            proof {
                                lemma_views_push(acc.values@, value);
                            }
                            acc.values.push(value);
                        },
                        Err(_) => {
                            sound = false;
                        },
                    }
                }
            },
            _ => {},
        }
        if !sound {
            proof {
                lemma_folded_fails(layer_steps(), empty_layer(), all, i + 1, fields.len() as int);
            }
            return Err(WireError::Malformed);
        }
        i += 1;
    }
    Ok(acc)
}

/// Reads a tile message. A field that the tile format does not know is
/// passed over; bytes that are no message, a text that is no UTF-8 and a
/// number too wide for its member are rejected.
pub fn parse_tile(bytes: &[u8]) -> (r: Result<Tile, WireError>)
    ensures
        read_view(r) == parsed_tile(bytes@),
        r matches Err(e) ==> e == WireError::Malformed,
{
    let fields = match split_fields(bytes) {
        Ok(fields) => fields,
        Err(e) => {
            return Err(e);
        },
    };
    let ghost all = views(fields@);
    let ghost start = TileView { layers: Seq::empty() };
    let mut acc = Tile::default();
    assert(acc@ == start);
    let mut i: usize = 0;
    while i < fields.len()
        invariant
            all == views(fields@),
            wire_fields(bytes@) == Some(all),
            start == (TileView { layers: Seq::empty() }),
            0 <= i <= fields.len(),
            folded(tile_steps(), start, all, i as int) == Some(acc@),
        decreases fields.len() - i,
    {
        let field = &fields[i];
        assert(field@ == all[i as int]);
        match &field.data {
            FieldData::Bytes(b) => {
                if field.number == 3 {
                    match parse_layer(b.as_slice()) {
                        Ok(layer) => {
                            proof {
                                lemma_views_push(acc.layers@, layer);
                            }
                            acc.layers.push(layer);
                        },
                        Err(_) => {
                            proof {
                                lemma_folded_fails(
                                    tile_steps(),
                                    start,
                                    all,
                                    i + 1,
                                    fields.len() as int,
                                );
                            }
                            return Err(WireError::Malformed);
                        },
                    }
                }
            },
            _ => {},
        }
        i += 1;
    }
    Ok(acc)
}

/// Two runs of bytes one after the other, where both are there.
pub open spec fn joined(a: Option<Seq<u8>>, b: Option<Seq<u8>>) -> Option<Seq<u8>> {
    match (a, b) {
        (Some(x), Some(y)) => Some(x + y),
        _ => None,
    }
}

/// The pieces of the first `upto` items one after the other; `None` as
/// soon as one item has no piece.
pub open spec fn joined_all<T>(
    piece: spec_fn(T) -> Option<Seq<u8>>,
    items: Seq<T>,
    upto: int,
) -> Option<Seq<u8>>
    decreases upto,
{
    if upto <= 0 {
        Some(Seq::empty())
    } else {
        joined(joined_all(piece, items, upto - 1), piece(items[upto - 1]))
    }
}

/// Once an item has no piece, the later items change nothing.
pub proof fn lemma_joined_all_fails<T>(
    piece: spec_fn(T) -> Option<Seq<u8>>,
    items: Seq<T>,
    at: int,
    upto: int,
)
    requires
        0 <= at <= upto,
        joined_all(piece, items, at).is_none(),
    ensures
        joined_all(piece, items, upto).is_none(),
    decreases upto,
{
    if at < upto {
        lemma_joined_all_fails(piece, items, at, upto - 1);
    }
}

/// A length-delimited field with the given payload, unless the payload is
/// missing or too long.
pub open spec fn nested(number: u32, payload: Option<Seq<u8>>) -> Option<Seq<u8>> {
    match payload {
        Some(p) => if p.len() <= PAYLOAD_MAX {
            Some(field_bytes(number, FieldDataView::Bytes(p)))
        } else {
            None
        },
        None => None,
    }
}

/// A text field: the text in UTF-8 as the payload.
pub open spec fn text_field(number: u32, text: Seq<char>) -> Option<Seq<u8>> {
    nested(number, Some(encode_utf8(text)))
}

/// A text field that may be absent.
pub open spec fn optional_text_field(number: u32, text: Option<Seq<char>>) -> Option<Seq<u8>> {
    match text {
        Some(t) => text_field(number, t),
        None => Some(Seq::empty()),
    }
}

/// A varint field that may be absent.
pub open spec fn optional_varint_field(number: u32, v: Option<u64>) -> Seq<u8> {
    match v {
        Some(v) => field_bytes(number, FieldDataView::Varint(v)),
        None => Seq::empty(),
    }
}

/// The members of a value after its text, in the order of their numbers.
pub open spec fn value_numbers_bytes(v: ValueView) -> Seq<u8> {
    (match v.float_bits {
        Some(x) => field_bytes(2, FieldDataView::Fixed32(x)),
        None => Seq::empty(),
    }) + (match v.double_bits {
        Some(x) => field_bytes(3, FieldDataView::Fixed64(x)),
        None => Seq::empty(),
    }) + optional_varint_field(
        4,
        match v.int_value {
            Some(x) => Some(pattern64(x)),
            None => None,
        },
    ) + optional_varint_field(5, v.uint_value) + optional_varint_field(
        6,
        match v.sint_value {
            Some(x) => Some(zigzag64(x)),
            None => None,
        },
    ) + optional_varint_field(
        7,
        match v.bool_value {
            Some(x) => Some(if x { 1u64 } else { 0u64 }),
            None => None,
        },
    )
}

/// The bytes of a value message: its members in the order of their
/// numbers; `None` where the text is too long.
pub open spec fn value_bytes(v: ValueView) -> Option<Seq<u8>> {
    joined(optional_text_field(1, v.string_value), Some(value_numbers_bytes(v)))
}

/// The bytes of a feature message: the id, the packed tags, the kind of
/// shape, the packed geometry; `None` where a packed member is too long.
pub open spec fn feature_bytes(f: FeatureView) -> Option<Seq<u8>> {
    if f.tags.len() > PACKED_MAX || f.geometry.len() > PACKED_MAX {
        None
    } else {
        Some(
            optional_varint_field(1, f.id) + packed_bytes(2, f.tags) + optional_varint_field(
                3,
                match f.type_ {
                    Some(n) => Some(enum_varint(n)),
                    None => None,
                },
            ) + packed_bytes(4, f.geometry),
        )
    }
}

/// The field of one feature of a layer.
pub open spec fn feature_pieces() -> spec_fn(FeatureView) -> Option<Seq<u8>> {
    |f: FeatureView| nested(2, feature_bytes(f))
}

/// The field of one key of a layer.
pub open spec fn key_pieces() -> spec_fn(Seq<char>) -> Option<Seq<u8>> {
    |k: Seq<char>| text_field(3, k)
}

/// The field of one value of a layer.
pub open spec fn value_pieces() -> spec_fn(ValueView) -> Option<Seq<u8>> {
    |v: ValueView| nested(4, value_bytes(v))
}

/// The field of one layer of a tile.
pub open spec fn layer_pieces() -> spec_fn(LayerView) -> Option<Seq<u8>> {
    |l: LayerView| nested(3, layer_bytes(l))
}

/// The bytes of a layer message: the version, the name, the features, the
/// keys, the values, the extent; `None` where a part is too long.
pub open spec fn layer_bytes(l: LayerView) -> Option<Seq<u8>> {
    joined(
        joined(
            joined(
                joined(
                    joined(
                        Some(
                            optional_varint_field(
                                15,
                                match l.version {
                                    Some(v) => Some(v as u64),
                                    None => None,
                                },
                            ),
                        ),
                        optional_text_field(1, l.name),
                    ),
                    joined_all(feature_pieces(), l.features, l.features.len() as int),
                ),
                joined_all(key_pieces(), l.keys, l.keys.len() as int),
            ),
            joined_all(value_pieces(), l.values, l.values.len() as int),
        ),
        Some(
            optional_varint_field(
                5,
                match l.extent {
                    Some(v) => Some(v as u64),
                    None => None,
                },
            ),
        ),
    )
}

/// The bytes of a tile message: its layers in order; `None` where a part
/// is too long.
pub open spec fn tile_bytes(t: TileView) -> Option<Seq<u8>> {
    joined_all(layer_pieces(), t.layers, t.layers.len() as int)
}

/// The view of the outcome of writing a message.
pub open spec fn written_view(r: Result<Vec<u8>, WireError>) -> Option<Seq<u8>> {
    match r {
        Ok(bytes) => Some(bytes@),
        Err(_) => None,
    }
}

/// The varint of a signed 64-bit number.
fn pattern_of(n: i64) -> (r: u64)
    ensures
        r == pattern64(n),
{
    if n >= 0 {
        n as u64
    } else {
        (n as i128 + 0x1_0000_0000_0000_0000) as u64
    }
}

/// The zigzag code of a signed 64-bit number.
fn zigzag_of(n: i64) -> (r: u64)
    ensures
        r == zigzag64(n),
{
    if n >= 0 {
        (n as u64) * 2
    } else {
        ((-(n + 1)) as u64) * 2 + 1
    }
}

/// The varint of the number of an enumeration.
fn enum_varint_of(n: i32) -> (r: u64)
    ensures
        r == enum_varint(n),
{
    if n >= 0 {
        n as u64
    } else {
        (n as i128 + 0x1_0000_0000_0000_0000) as u64
    }
}

/// Appends a varint field where the member is present.
fn put_optional_varint(out: &mut Vec<u8>, number: u32, v: Option<u64>)
    requires
        1 <= number <= FIELD_NUMBER_MAX,
    ensures
        final(out)@ == old(out)@ + optional_varint_field(number, v),
{
    match v {
        Some(v) => {
            put_field(out, number, &FieldData::Varint(v));
        },
        None => {
            assert(out@ + Seq::<u8>::empty() =~= out@);
        },
    }
}

/// Appends a text field; fails where the text is too long.
fn put_text(out: &mut Vec<u8>, number: u32, text: &String) -> (r: Result<(), WireError>)
    requires
        1 <= number <= FIELD_NUMBER_MAX,
    ensures
        match r {
            Ok(_) => text_field(number, text@) == Some(final(out)@.skip(old(out)@.len() as int))
                && final(out)@.take(old(out)@.len() as int) == old(out)@
                && old(out)@.len() <= final(out)@.len(),
            Err(e) => text_field(number, text@).is_none() && e == WireError::TooLarge,
        },
{
    let bytes = slice_to_vec(text.as_str().as_bytes());
    if bytes.len() > PAYLOAD_MAX {
        return Err(WireError::TooLarge);
    }
    let ghost before = out@;
    put_field(out, number, &FieldData::Bytes(bytes));
    assert(out@.skip(before.len() as int) =~= field_bytes(number, FieldDataView::Bytes(bytes@)));
    assert(out@.take(before.len() as int) =~= before);
    Ok(())
}

/// Appends a length-delimited field; fails where the payload is too long.
fn put_nested(out: &mut Vec<u8>, number: u32, payload: Vec<u8>) -> (r: Result<(), WireError>)
    requires
        1 <= number <= FIELD_NUMBER_MAX,
    ensures
        match r {
            Ok(_) => nested(number, Some(payload@)) == Some(
                final(out)@.skip(old(out)@.len() as int),
            ) && final(out)@.take(old(out)@.len() as int) == old(out)@ && old(out)@.len()
                <= final(out)@.len(),
            Err(e) => nested(number, Some(payload@)).is_none() && e == WireError::TooLarge,
        },
{
    if payload.len() > PAYLOAD_MAX {
        return Err(WireError::TooLarge);
    }
    let ghost before = out@;
    let data = FieldData::Bytes(payload);
    put_field(out, number, &data);
    assert(out@.skip(before.len() as int) =~= field_bytes(number, data@));
    assert(out@.take(before.len() as int) =~= before);
    Ok(())
}

/// Writes a value message.
pub fn write_value(value: &Value) -> (r: Result<Vec<u8>, WireError>)
    ensures
        written_view(r) == value_bytes(value@),
        r matches Err(e) ==> e == WireError::TooLarge,
{
    let mut out: Vec<u8> = Vec::new();
    match &value.string_value {
        Some(text) => {
            match put_text(&mut out, 1, text) {
                Ok(_) => {
                    assert(out@.skip(0) =~= out@);
                },
                Err(e) => {
                    return Err(e);
                },
            }
        },
        None => {},
    }
    let ghost head = out@;
    match value.float_bits {
        Some(x) => {
            put_field(&mut out, 2, &FieldData::Fixed32(x));
        },
        None => {},
    }
    match value.double_bits {
        Some(x) => {
            put_field(&mut out, 3, &FieldData::Fixed64(x));
        },
        None => {},
    }
    put_optional_varint(
        &mut out,
        4,
        match value.int_value {
            Some(x) => Some(pattern_of(x)),
            None => None,
        },
    );
    put_optional_varint(&mut out, 5, value.uint_value);
    put_optional_varint(
        &mut out,
        6,
        match value.sint_value {
            Some(x) => Some(zigzag_of(x)),
            None => None,
        },
    );
    put_optional_varint(
        &mut out,
        7,
        match value.bool_value {
            Some(x) => Some(if x { 1u64 } else { 0u64 }),
            None => None,
        },
    );
    assert(out@ =~= head + value_numbers_bytes(value@));
    Ok(out)
}

/// Writes a feature message.
pub fn write_feature(feature: &Feature) -> (r: Result<Vec<u8>, WireError>)
    ensures
        written_view(r) == feature_bytes(feature@),
        r matches Err(e) ==> e == WireError::TooLarge,
{
    if feature.tags.len() > PACKED_MAX || feature.geometry.len() > PACKED_MAX {
        return Err(WireError::TooLarge);
    }
    let mut out: Vec<u8> = Vec::new();
    put_optional_varint(&mut out, 1, feature.id);
    put_packed(&mut out, 2, &feature.tags);
    put_optional_varint(
        &mut out,
        3,
        match feature.type_ {
            Some(n) => Some(enum_varint_of(n)),
            None => None,
        },
    );
    put_packed(&mut out, 4, &feature.geometry);
    assert(out@ =~= feature_bytes(feature@).unwrap());
    Ok(out)
}

/// Appends the fields of the features of a layer.
fn put_features(out: &mut Vec<u8>, features: &Vec<Feature>) -> (r: Result<(), WireError>)
    ensures
        match r {
            Ok(_) => joined_all(feature_pieces(), views(features@), features.len() as int) == Some(
                final(out)@.skip(old(out)@.len() as int),
            ) && final(out)@.take(old(out)@.len() as int) == old(out)@ && old(out)@.len()
                <= final(out)@.len(),
            Err(e) => joined_all(feature_pieces(), views(features@), features.len() as int).is_none()
                && e == WireError::TooLarge,
        },
{
    let ghost start = out@;
    let ghost items = views(features@);
    assert(out@.skip(start.len() as int) =~= Seq::<u8>::empty());
    assert(out@.take(start.len() as int) =~= start);
    let mut i: usize = 0;
    while i < features.len()
        invariant
            0 <= i <= features.len(),
            items == views(features@),
            start.len() <= out@.len(),
            out@.take(start.len() as int) == start,
            joined_all(feature_pieces(), items, i as int) == Some(out@.skip(start.len() as int)),
        decreases features.len() - i,
    {
        assert(features[i as int]@ == items[i as int]);
        let ghost before = out@;
        let sent = match write_feature(&features[i]) {
            Ok(payload) => put_nested(out, 2, payload),
            Err(e) => Err(e),
        };
        match sent {
            Ok(_) => {
                assert(out@.skip(start.len() as int) =~= before.skip(start.len() as int)
                    + out@.skip(before.len() as int));
                assert(out@.take(start.len() as int) =~= before.take(start.len() as int));
            },
            Err(_) => {
                proof {
                    lemma_joined_all_fails(feature_pieces(), items, i + 1, items.len() as int);
                }
                return Err(WireError::TooLarge);
            },
        }
        i += 1;
    }
    Ok(())
}

/// Appends the fields of the keys of a layer.
fn put_keys(out: &mut Vec<u8>, keys: &Vec<String>) -> (r: Result<(), WireError>)
    ensures
        match r {
            Ok(_) => joined_all(key_pieces(), views(keys@), keys.len() as int) == Some(
                final(out)@.skip(old(out)@.len() as int),
            ) && final(out)@.take(old(out)@.len() as int) == old(out)@ && old(out)@.len()
                <= final(out)@.len(),
            Err(e) => joined_all(key_pieces(), views(keys@), keys.len() as int).is_none() && e
                == WireError::TooLarge,
        },
{
    let ghost start = out@;
    let ghost items = views(keys@);
    assert(out@.skip(start.len() as int) =~= Seq::<u8>::empty());
    assert(out@.take(start.len() as int) =~= start);
    let mut i: usize = 0;
    while i < keys.len()
        invariant
            0 <= i <= keys.len(),
            items == views(keys@),
            start.len() <= out@.len(),
            out@.take(start.len() as int) == start,
            joined_all(key_pieces(), items, i as int) == Some(out@.skip(start.len() as int)),
        decreases keys.len() - i,
    {
        assert(keys[i as int]@ == items[i as int]);
        let ghost before = out@;
        match put_text(out, 3, &keys[i]) {
            Ok(_) => {
                assert(out@.skip(start.len() as int) =~= before.skip(start.len() as int)
                    + out@.skip(before.len() as int));
                assert(out@.take(start.len() as int) =~= before.take(start.len() as int));
            },
            Err(_) => {
                proof {
                    lemma_joined_all_fails(key_pieces(), items, i + 1, items.len() as int);
                }
                return Err(WireError::TooLarge);
            },
        }
        i += 1;
    }
    Ok(())
}

/// Appends the fields of the values of a layer.
fn put_values(out: &mut Vec<u8>, values: &Vec<Value>) -> (r: Result<(), WireError>)
    ensures
        match r {
            Ok(_) => joined_all(value_pieces(), views(values@), values.len() as int) == Some(
                final(out)@.skip(old(out)@.len() as int),
            ) && final(out)@.take(old(out)@.len() as int) == old(out)@ && old(out)@.len()
                <= final(out)@.len(),
            Err(e) => joined_all(value_pieces(), views(values@), values.len() as int).is_none() && e
                == WireError::TooLarge,
        },
{
    let ghost start = out@;
    let ghost items = views(values@);
    assert(out@.skip(start.len() as int) =~= Seq::<u8>::empty());
    assert(out@.take(start.len() as int) =~= start);
    let mut i: usize = 0;
    while i < values.len()
        invariant
            0 <= i <= values.len(),
            items == views(values@),
            start.len() <= out@.len(),
            out@.take(start.len() as int) == start,
            joined_all(value_pieces(), items, i as int) == Some(out@.skip(start.len() as int)),
        decreases values.len() - i,
    {
        assert(values[i as int]@ == items[i as int]);
        let ghost before = out@;
        let sent = match write_value(&values[i]) {
            Ok(payload) => put_nested(out, 4, payload),
            Err(e) => Err(e),
        };
        match sent {
            Ok(_) => {
                assert(out@.skip(start.len() as int) =~= before.skip(start.len() as int)
                    + out@.skip(before.len() as int));
                assert(out@.take(start.len() as int) =~= before.take(start.len() as int));
            },
            Err(_) => {
                proof {
                    lemma_joined_all_fails(value_pieces(), items, i + 1, items.len() as int);
                }
                return Err(WireError::TooLarge);
            },
        }
        i += 1;
    }
    Ok(())
}

/// A run of bytes that grew at its end is its old self and what was added.
proof fn lemma_grown(before: Seq<u8>, after: Seq<u8>)
    requires
        before.len() <= after.len(),
        after.take(before.len() as int) == before,
    ensures
        after == before + after.skip(before.len() as int),
{
    assert(after =~= before + after.skip(before.len() as int));
}

/// Writes a layer message.
pub fn write_layer(layer: &Layer) -> (r: Result<Vec<u8>, WireError>)
    ensures
        written_view(r) == layer_bytes(layer@),
        r matches Err(e) ==> e == WireError::TooLarge,
{
    let mut out: Vec<u8> = Vec::new();
    put_optional_varint(
        &mut out,
        15,
        match layer.version {
            Some(v) => Some(v as u64),
            None => None,
        },
    );
    let ghost part0 = out@;
    match &layer.name {
        Some(text) => {
            match put_text(&mut out, 1, text) {
                Ok(_) => {},
                Err(e) => {
                    return Err(e);
                },
            }
        },
        None => {
            assert(out@.skip(part0.len() as int) =~= Seq::<u8>::empty());
            assert(out@.take(part0.len() as int) =~= part0);
        },
    }
    let ghost part1 = out@;
    proof {
        lemma_grown(part0, part1);
    }
    match put_features(&mut out, &layer.features) {
        Ok(_) => {},
        Err(e) => {
            return Err(e);
        },
    }
    let ghost part2 = out@;
    proof {
        lemma_grown(part1, part2);
    }
    match put_keys(&mut out, &layer.keys) {
        Ok(_) => {},
        Err(e) => {
            return Err(e);
        },
    }
    let ghost part3 = out@;
    proof {
        lemma_grown(part2, part3);
    }
    match put_values(&mut out, &layer.values) {
        Ok(_) => {},
        Err(e) => {
            return Err(e);
        },
    }
    let ghost part4 = out@;
    proof {
        lemma_grown(part3, part4);
    }
    put_optional_varint(
        &mut out,
        5,
        match layer.extent {
            Some(v) => Some(v as u64),
            None => None,
        },
    );
    Ok(out)
}

/// Writes a tile message: each layer in order as one field. Fails with
/// `TooLarge` where a text, a packed member or a nested message is longer
/// than the encoding can count.
pub fn write_tile(tile: &Tile) -> (r: Result<Vec<u8>, WireError>)
    ensures
        written_view(r) == tile_bytes(tile@),
        r matches Err(e) ==> e == WireError::TooLarge,
{
    let mut out: Vec<u8> = Vec::new();
    let mut i: usize = 0;
    while i < tile.layers.len()
        invariant
            0 <= i <= tile.layers.len(),
            joined_all(layer_pieces(), tile@.layers, i as int) == Some(out@),
        decreases tile.layers.len() - i,
    {
        assert(tile.layers[i as int]@ == tile@.layers[i as int]);
        let ghost before = out@;
        let sent = match write_layer(&tile.layers[i]) {
            Ok(payload) => put_nested(&mut out, 3, payload),
            Err(e) => Err(e),
        };
        match sent {
            Ok(_) => {
                assert(out@ =~= before + out@.skip(before.len() as int));
            },
            Err(e) => {
                proof {
                    lemma_joined_all_fails(
                        layer_pieces(),
                        tile@.layers,
                        i + 1,
                        tile@.layers.len() as int,
                    );
                }
                return Err(WireError::TooLarge);
            },
        }
        i += 1;
    }
    Ok(out)
}

} // verus!
