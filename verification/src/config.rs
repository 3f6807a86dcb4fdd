use vstd::prelude::*;

verus! {

/// Upper bound on the tile grid's extent in either axis.
pub const MAX_GRID_SPAN: usize = 32768;

/// Upper bound on the edge length of an output sample block.
pub const MAX_TILE_EDGE: usize = 8192;

/// The fixed constants of one generation run: the geographic span the
/// grid covers, the edge length of each output block, the size of a
/// persistence batch, and the number of parallel workers.
///
/// The grid has one tile per integer degree in each axis, so its width
/// is the longitude span and its height the latitude span.
pub struct GridConfig {
    pub left_longitude: i32,
    pub right_longitude: i32,
    pub top_latitude: i32,
    pub bottom_latitude: i32,
    pub tile_edge_length: usize,
    pub batch_capacity: usize,
    pub worker_count: usize,
}

impl GridConfig {
    /// Number of tile columns: the longitude span in degrees.
    pub open spec fn grid_width(self) -> int {
        self.right_longitude - self.left_longitude
    }

    /// Number of tile rows: the latitude span in degrees.
    pub open spec fn grid_height(self) -> int {
        self.top_latitude - self.bottom_latitude
    }

    pub open spec fn wf(self) -> bool {
        &&& 0 < self.grid_width() <= MAX_GRID_SPAN
        &&& 0 < self.grid_height() <= MAX_GRID_SPAN
        &&& -(MAX_GRID_SPAN as int) <= self.left_longitude
        &&& self.right_longitude <= MAX_GRID_SPAN
        &&& -(MAX_GRID_SPAN as int) <= self.bottom_latitude
        &&& self.top_latitude <= MAX_GRID_SPAN
        &&& 1 <= self.tile_edge_length <= MAX_TILE_EDGE
        &&& 1 <= self.batch_capacity
        &&& 1 <= self.worker_count
    }

    pub fn num_tiles_long(&self) -> (w: usize)
        requires
            self.wf(),
        ensures
            w == self.grid_width(),
    {
        (self.right_longitude - self.left_longitude) as usize
    }

    pub fn num_tiles_lat(&self) -> (h: usize)
        requires
            self.wf(),
        ensures
            h == self.grid_height(),
    {
        (self.top_latitude - self.bottom_latitude) as usize
    }

    /// The reference configuration: the full planet at one tile per
    /// degree, 256-sample blocks, batches of 10, and one worker per
    /// available CPU.
    pub fn reference() -> (c: GridConfig)
        ensures
            c.wf(),
            c.left_longitude == -180,
            c.right_longitude == 180,
            c.top_latitude == 90,
            c.bottom_latitude == -90,
            c.tile_edge_length == 256,
            c.batch_capacity == 10,
    {
        GridConfig {
            left_longitude: -180,
            right_longitude: 180,
            top_latitude: 90,
            bottom_latitude: -90,
            tile_edge_length: 256,
            batch_capacity: 10,
            worker_count: available_parallelism(),
        }
    }
}

/// Relies on num_cpus::get: returns the number of available logical
/// CPUs, which its documentation promises is always at least 1.
#[verifier::external_body]
fn available_parallelism() -> (n: usize)
    ensures
        1 <= n,
{
    num_cpus::get()
}

} // verus!
