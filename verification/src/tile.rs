use vstd::prelude::*;
use crate::config::MAX_TILE_EDGE;
use crate::sampler::{interleaved_rgb, resampled};

verus! {

/// One cell of the output grid: a unique id, the representative
/// geographic coordinate rounded to whole degrees, and the two
/// fixed-size sample blocks. The elevation block holds `S x S` signed
/// 16-bit samples as big-endian byte pairs; the imagery block holds
/// `S x S` interleaved red/green/blue byte triples.
pub struct Tile {
    pub id: u32,
    pub latitude: i32,
    pub longitude: i32,
    pub elevation_data: Vec<u8>,
    pub imagery_data: Vec<u8>,
}

/// A tile's id and elevation block alone, for the read path that
/// serves elevation without the imagery payload.
pub struct TileOnlyElevation {
    pub id: u32,
    pub elevation_data: Vec<u8>,
}

/// A tile's id and imagery block alone, for the read path that serves
/// imagery without the elevation payload.
pub struct TileOnlyImagery {
    pub id: u32,
    pub imagery_data: Vec<u8>,
}

/// The unsigned 16-bit word that carries an elevation sample: its
/// two's-complement value.
pub open spec fn elev_word(v: i16) -> int {
    if v < 0 {
        v + 0x10000
    } else {
        v as int
    }
}

/// A block of elevation samples as bytes: each sample as two
/// big-endian bytes, in block order.
pub open spec fn elev_block_bytes(block: Seq<i16>) -> Seq<u8> {
    Seq::new((2 * block.len()) as nat,
        |i: int|
            if i % 2 == 0 {
                (elev_word(block[i / 2]) / 0x100) as u8
            } else {
                (elev_word(block[i / 2]) % 0x100) as u8
            },
    )
}

/// Encodes a block of elevation samples as big-endian byte pairs.
pub fn encode_elevation_block(block: &Vec<i16>) -> (out: Vec<u8>)
    requires
        block.len() <= MAX_TILE_EDGE * MAX_TILE_EDGE,
    ensures
        out.len() == 2 * block.len(),
        out@ == elev_block_bytes(block@),
{
    let mut out: Vec<u8> = Vec::new();
    let mut i: usize = 0;
    while i < block.len()
        invariant
            i <= block.len(),
            block.len() <= MAX_TILE_EDGE * MAX_TILE_EDGE,
            out.len() == 2 * i,
            forall|j: int| 0 <= j < out.len() ==> out[j] == elev_block_bytes(block@)[j],
        decreases block.len() - i,
    {
        let v: i32 = block[i] as i32;
        let word: i32 = if v < 0 {
            v + 0x10000
        } else {
            v
        };
        proof {
            assert((2 * i as int) / 2 == i as int && (2 * i as int) % 2 == 0 && (2 * i as int
                + 1) / 2 == i as int && (2 * i as int + 1) % 2 == 1) by (nonlinear_arith);
        }
        out.push((word / 0x100) as u8);
        out.push((word % 0x100) as u8);
        i = i + 1;
    }
    proof {
        assert(out@ =~= elev_block_bytes(block@));
    }
    out
}

impl Tile {
    /// Whether this tile carries the blocks sampled, with edge length
    /// `s`, from the given source windows: the elevation window
    /// (row-major `ew x eh`) and the three imagery channel windows
    /// (each row-major `iw x ih`).
    pub open spec fn blocks_from_windows(
        self,
        elev_win: Seq<i16>,
        ew: int,
        eh: int,
        red_win: Seq<u8>,
        green_win: Seq<u8>,
        blue_win: Seq<u8>,
        iw: int,
        ih: int,
        s: int,
    ) -> bool {
        &&& self.elevation_data@ == elev_block_bytes(resampled(elev_win, ew, eh, s))
        &&& self.imagery_data@ == interleaved_rgb(resampled(red_win, iw, ih, s),
            resampled(green_win, iw, ih, s), resampled(blue_win, iw, ih, s))
    }

    /// Builds one tile from its source windows: both windows are
    /// resampled by nearest neighbor onto `s x s` blocks, the
    /// elevation block is stored as big-endian byte pairs, the imagery
    /// block as interleaved red/green/blue triples. The output blocks
    /// have the fixed extent whatever the window extents.
    pub fn sample(
        id: u32,
        latitude: i32,
        longitude: i32,
        elev_win: &Vec<i16>,
        ew: usize,
        eh: usize,
        red_win: &Vec<u8>,
        green_win: &Vec<u8>,
        blue_win: &Vec<u8>,
        iw: usize,
        ih: usize,
        s: usize,
    ) -> (t: Tile)
        requires
            1 <= ew <= crate::config::MAX_GRID_SPAN,
            1 <= eh <= crate::config::MAX_GRID_SPAN,
            elev_win.len() == ew * eh,
            1 <= iw <= crate::config::MAX_GRID_SPAN,
            1 <= ih <= crate::config::MAX_GRID_SPAN,
            red_win.len() == iw * ih,
            green_win.len() == iw * ih,
            blue_win.len() == iw * ih,
            1 <= s <= MAX_TILE_EDGE,
        ensures
            t.id == id,
            t.latitude == latitude,
            t.longitude == longitude,
            t.elevation_data.len() == 2 * (s * s),
            t.imagery_data.len() == 3 * (s * s),
            t.blocks_from_windows(elev_win@, ew as int, eh as int, red_win@, green_win@,
                blue_win@, iw as int, ih as int, s as int),
    {
        let elev_block = crate::sampler::resample_block_i16(elev_win, ew, eh, s);
        proof {
            assert(s * s <= MAX_TILE_EDGE * MAX_TILE_EDGE) by (nonlinear_arith)
                requires
                    1 <= s <= MAX_TILE_EDGE,
            ;
        }
        let elevation_data = encode_elevation_block(&elev_block);
        let imagery_data = crate::sampler::resample_block_rgb(red_win, green_win, blue_win, iw,
            ih, s);
        Tile { id, latitude, longitude, elevation_data, imagery_data }
    }
}

} // verus!
