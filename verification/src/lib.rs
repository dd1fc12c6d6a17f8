//! Vector-tile assembly pipeline.
//!
//! Maps a tile address to a geographic query region, converts geometry
//! rows into tile-local integer space, groups features into named layers
//! with deduplicated attribute tables, and serializes the result into the
//! Mapbox-Vector-Tile protobuf wire format.
//!
//! All coordinate math is done in fixed-point integer world units; the
//! surrounding application converts between the database's native
//! projection and these units, performs the actual database I/O, and runs
//! the connection-pool loop around the pure pool bookkeeping model here.

pub mod codec;
pub mod error;
pub mod geom;
pub mod layer;
pub mod mvt;
pub mod pipeline;
pub mod pool;
pub mod tile;
pub mod transform;
