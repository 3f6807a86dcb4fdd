//! Generation of a fixed-resolution grid of map tiles from two full-planet
//! rasters (an elevation model and a three-band color mosaic), plus the
//! read path that serves the stored blocks back by tile id.
//!
//! - `config`: the grid's constants, with their well-formedness bounds.
//! - `mapper`: grid cell to source-pixel windows, tile ids, coordinates.
//! - `raster`: the two in-memory source rasters and their windowed reads.
//! - `sampler`: nearest-neighbor resampling onto fixed-size blocks.
//! - `tile`: the tile record and its block encodings.
//! - `batch`: fixed-capacity batching of tiles for persistence.
//! - `store`: the id-keyed tile store, with unique-id insertion.
//! - `scheduler`: the striped row partition, progress, and run state.
//! - `pipeline`: the full generation run and its grid-coverage proof.
//! - `lookup`: the read path taking a query string to a stored block.
//! - `errors`: the failure taxonomy; every failure is fatal, none retried.

pub mod errors;
pub mod batch;
pub mod config;
pub mod lookup;
pub mod mapper;
pub mod pipeline;
pub mod raster;
pub mod store;
pub mod sampler;
pub mod scheduler;
pub mod tile;
