//! Point layers for Mapbox vector tiles: a schema-driven codec between typed
//! point records and the generic tag/value messages of the tile format, and
//! the merge rules of a tile pyramid that keeps one entity present at every
//! zoom level from its native zoom upward.
//!
//! * [`coordinate`]: pixels of the tile grid and their single-point geometry
//! * [`vector_tile`]: the generic messages of a tile
//! * [`wire`]: those messages as bytes, through the `protobuf` crate
//! * [`schema`]: layers and fields, declared and resolved
//! * [`codec`]: points of one layer, to and from features
//! * [`tile`]: the points of a whole tile, to and from a tile message
//! * [`pyramid`]: upsert and delete of one entity in the tile files
//! * [`naming`]: camel-case names
//! * [`laws`]: what holds of all of these

pub mod codec;
pub mod coordinate;
pub mod laws;
pub mod naming;
pub mod pyramid;
pub mod schema;
pub mod tile;
pub mod vector_tile;
pub mod wire;

pub use coordinate::Coordinate;
pub use schema::mapack;
pub use vector_tile::{Feature, GeomType, Layer, Value};
