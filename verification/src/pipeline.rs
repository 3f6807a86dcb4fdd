use vstd::prelude::*;
use crate::batch::BatchWriter;
use crate::config::GridConfig;
use crate::mapper::{
    coord_numerator, round_nearest, source_window, tile_coordinate, tile_id, tile_id_spec,
    window_hi, window_lo,
};
use crate::raster::{window_of, ElevationRaster, ImageryRaster, BLUE_BAND, GREEN_BAND, RED_BAND};
use crate::sampler::{interleaved_rgb, resampled};
use crate::store::{batch_ok, TileStore};
use crate::tile::{elev_block_bytes, Tile};

verus! {

/// Whether `t` is exactly the tile that the documented pipeline
/// produces for grid cell `(ty, tx)`: the row-major id, the
/// representative coordinate of each axis rounded to whole degrees,
/// and the two blocks resampled by nearest neighbor from the cell's
/// source windows in each raster.
pub open spec fn tile_matches(
    t: Tile,
    cfg: GridConfig,
    elev: ElevationRaster,
    img: ImageryRaster,
    ty: int,
    tx: int,
) -> bool {
    let w = cfg.grid_width();
    let h = cfg.grid_height();
    let s = cfg.tile_edge_length as int;
    let ey0 = window_lo(ty, h, elev.size_y as int);
    let eh = window_hi(ty, h, elev.size_y as int) - ey0 + 1;
    let ex0 = window_lo(tx, w, elev.size_x as int);
    let ew = window_hi(tx, w, elev.size_x as int) - ex0 + 1;
    let iy0 = window_lo(ty, h, img.size_y as int);
    let ih = window_hi(ty, h, img.size_y as int) - iy0 + 1;
    let ix0 = window_lo(tx, w, img.size_x as int);
    let iw = window_hi(tx, w, img.size_x as int) - ix0 + 1;
    &&& t.id == tile_id_spec(ty, tx, w)
    &&& t.latitude == round_nearest(coord_numerator(ty, h, cfg.top_latitude as int,
        cfg.bottom_latitude as int), h)
    &&& t.longitude == round_nearest(coord_numerator(tx, w, cfg.left_longitude as int,
        cfg.right_longitude as int), w)
    &&& t.elevation_data@ == elev_block_bytes(resampled(window_of(elev.samples@,
        elev.size_x as int, ex0, ey0, ew, eh), ew, eh, s))
    &&& t.imagery_data@ == interleaved_rgb(resampled(window_of(img.red@, img.size_x as int,
        ix0, iy0, iw, ih), iw, ih, s), resampled(window_of(img.green@, img.size_x as int, ix0,
        iy0, iw, ih), iw, ih, s), resampled(window_of(img.blue@, img.size_x as int, ix0, iy0,
        iw, ih), iw, ih, s))
}

/// Generates the tile of grid cell `(ty, tx)`: maps the cell onto a
/// pixel window of each source raster, reads the windows, and
/// resamples them into the fixed-size blocks. The mapped windows are
/// provably inside both rasters, so for well-formed inputs no read can
/// fail and every grid cell yields its tile.
pub fn generate_tile(
    cfg: &GridConfig,
    elev: &ElevationRaster,
    img: &ImageryRaster,
    ty: usize,
    tx: usize,
) -> (t: Tile)
    requires
        cfg.wf(),
        elev.wf(),
        img.wf(),
        ty < cfg.grid_height(),
        tx < cfg.grid_width(),
    ensures
        tile_matches(t, *cfg, *elev, *img, ty as int, tx as int),
{
    let w = cfg.num_tiles_long();
    let h = cfg.num_tiles_lat();
    let (ey0, ey1) = source_window(ty, h, elev.size_y);
    let (ex0, ex1) = source_window(tx, w, elev.size_x);
    let (iy0, iy1) = source_window(ty, h, img.size_y);
    let (ix0, ix1) = source_window(tx, w, img.size_x);
    let latitude = tile_coordinate(ty, h, cfg.top_latitude, cfg.bottom_latitude);
    let longitude = tile_coordinate(tx, w, cfg.left_longitude, cfg.right_longitude);
    let id = tile_id(ty, tx, w, h);
    let elev_buf = match elev.read_window(ex0, ey0, ex1 - ex0 + 1, ey1 - ey0 + 1) {
        Ok(buf) => buf,
        Err(_) => vstd::pervasive::unreached(),
    };
    let red_buf = match img.read_window(RED_BAND, ix0, iy0, ix1 - ix0 + 1, iy1 - iy0 + 1) {
        Ok(buf) => buf,
        Err(_) => vstd::pervasive::unreached(),
    };
    let green_buf = match img.read_window(GREEN_BAND, ix0, iy0, ix1 - ix0 + 1, iy1 - iy0 + 1) {
        Ok(buf) => buf,
        Err(_) => vstd::pervasive::unreached(),
    };
    let blue_buf = match img.read_window(BLUE_BAND, ix0, iy0, ix1 - ix0 + 1, iy1 - iy0 + 1) {
        Ok(buf) => buf,
        Err(_) => vstd::pervasive::unreached(),
    };
    Tile::sample(id, latitude, longitude, &elev_buf, ex1 - ex0 + 1, ey1 - ey0 + 1, &red_buf,
        &green_buf, &blue_buf, ix1 - ix0 + 1, iy1 - iy0 + 1, cfg.tile_edge_length)
}

/// Generates one full tile row, in column order.
pub fn process_row(cfg: &GridConfig, elev: &ElevationRaster, img: &ImageryRaster, ty: usize) -> (
    tiles: Vec<Tile>)
    requires
        cfg.wf(),
        elev.wf(),
        img.wf(),
        ty < cfg.grid_height(),
    ensures
        tiles.len() == cfg.grid_width(),
        forall|tx: int|
            0 <= tx < tiles.len() ==> tile_matches(#[trigger] tiles[tx], *cfg, *elev, *img,
                ty as int, tx),
{
    let w = cfg.num_tiles_long();
    let mut tiles: Vec<Tile> = Vec::new();
    let mut tx: usize = 0;
    #[verifier::loop_isolation(false)]
    while tx < w
        invariant
            tx <= w,
            tiles.len() == tx,
            forall|i: int|
                0 <= i < tx ==> tile_matches(#[trigger] tiles[i], *cfg, *elev, *img, ty as int,
                    i),
        decreases w - tx,
    {
        let t = generate_tile(cfg, elev, img, ty, tx);
        tiles.push(t);
        tx = tx + 1;
    }
    tiles
}

/// Whether the store holds, under tile id `id`, exactly the tile the
/// pipeline's formulas give for grid cell `(id / W, id % W)`.
pub open spec fn stores_cell(
    s: TileStore,
    cfg: GridConfig,
    elev: ElevationRaster,
    img: ImageryRaster,
    id: int,
) -> bool {
    exists|j: int|
        0 <= j < s.tiles@.len() && (#[trigger] s.tiles@[j]).id == id && tile_matches(s.tiles@[j],
            cfg, elev, img, id / cfg.grid_width(), id % cfg.grid_width())
}

/// Whether the store holds, for grid cell `(ty, tx)`, exactly the
/// tile the pipeline's formulas give for that cell.
pub open spec fn cell_covered(
    s: TileStore,
    cfg: GridConfig,
    elev: ElevationRaster,
    img: ImageryRaster,
    ty: int,
    tx: int,
) -> bool {
    exists|j: int|
        0 <= j < s.tiles@.len() && (#[trigger] s.tiles@[j]).id == tile_id_spec(ty, tx,
            cfg.grid_width()) && tile_matches(s.tiles@[j], cfg, elev, img, ty, tx)
}

/// Whether every tile of the sequence carries a distinct id.
pub open spec fn ids_distinct(s: Seq<Tile>) -> bool {
    forall|i: int, j: int| 0 <= i < j < s.len() ==> #[trigger] s[i].id != #[trigger] s[j].id
}

/// Splitting a sequence of distinct ids leaves a batch that a store
/// holding the prefix accepts.
proof fn lemma_batch_ok_of_distinct(stored: Seq<Tile>, batch: Seq<Tile>)
    requires
        ids_distinct(stored + batch),
    ensures
        batch_ok(stored, batch),
{
    let all = stored + batch;
    assert forall|i: int, j: int| 0 <= i < j < batch.len() implies #[trigger] batch[i].id
        != #[trigger] batch[j].id by {
        assert(all[stored.len() + i] == batch[i] && all[stored.len() + j] == batch[j]);
    }
    assert forall|i: int, j: int|
        0 <= i < batch.len() && 0 <= j < stored.len() implies #[trigger] batch[i].id
        != #[trigger] stored[j].id by {
        assert(all[stored.len() + i] == batch[i] && all[j] == stored[j]);
    }
}

/// One worker's full pass: generates every tile of its assigned rows
/// in order, persists them in capacity-sized batches with a flush at
/// each row's end, and increments the shared progress counter once per
/// completed row. The worker's tiles land in the store exactly once
/// each, after everything already stored.
#[verifier::loop_isolation(false)]
pub fn run_worker(
    cfg: &GridConfig,
    elev: &ElevationRaster,
    img: &ImageryRaster,
    rows: &Vec<usize>,
    store: &mut TileStore,
    progress: &mut usize,
)
    requires
        cfg.wf(),
        elev.wf(),
        img.wf(),
        old(store).wf(),
        rows.len() <= crate::config::MAX_GRID_SPAN,
        forall|i: int| 0 <= i < rows.len() ==> #[trigger] rows[i] < cfg.grid_height(),
        forall|i: int, j: int| 0 <= i < j < rows.len() ==> rows[i] < rows[j],
        forall|j: int, i: int|
            #![trigger old(store).tiles@[j], rows@[i]]
            0 <= j < old(store).tiles.len() && 0 <= i < rows.len() ==> old(
                store).tiles[j].id as int / cfg.grid_width() != rows[i],
        *old(progress) + rows.len() <= usize::MAX,
    ensures
        final(store).wf(),
        final(store).tiles@.len() == old(store).tiles@.len() + rows.len() * cfg.grid_width(),
        forall|j: int|
            0 <= j < old(store).tiles@.len() ==> #[trigger] final(store).tiles@[j] == old(
                store).tiles@[j],
        forall|k: int|
            0 <= k < rows.len() * cfg.grid_width() ==> tile_matches(
                #[trigger] final(store).tiles@[old(store).tiles@.len() + k], *cfg, *elev, *img,
                rows[k / cfg.grid_width()] as int, k % cfg.grid_width()),
        *final(progress) == *old(progress) + rows.len(),
{
    let w = cfg.num_tiles_long();
    let ghost base = old(store).tiles@;
    let ghost wi = w as int;
    let mut writer = BatchWriter::new(cfg.batch_capacity);
    let ghost mut produced: Seq<Tile> = Seq::empty();
    let mut ri: usize = 0;
    while ri < rows.len()
        invariant
            ri <= rows.len(),
            produced.len() == ri * wi,
            writer.wf(),
            writer.capacity == cfg.batch_capacity,
            writer.pending.len() == 0,
            writer.tiles_added == produced.len(),
            store.wf(),
            store.tiles@ == base + produced,
            ids_distinct(base + produced),
            forall|k: int|
                0 <= k < produced.len() ==> tile_matches(#[trigger] produced[k], *cfg, *elev,
                    *img, rows[k / wi] as int, k % wi),
            *progress == *old(progress) + ri,
        decreases rows.len() - ri,
    {
        let ty = rows[ri];
        let mut tx: usize = 0;
        proof {
            assert(ri * wi + wi == (ri + 1) * wi) by (nonlinear_arith);
            assert(rows.len() * wi <= crate::config::MAX_GRID_SPAN * crate::config::MAX_GRID_SPAN)
                by (nonlinear_arith)
                requires
                    rows.len() <= crate::config::MAX_GRID_SPAN,
                    0 < wi <= crate::config::MAX_GRID_SPAN,
            ;
            vstd::arithmetic::mul::lemma_mul_inequality(ri as int + 1, rows.len() as int, wi);
        }
        while tx < w
            invariant
                tx <= w,
                ri < rows.len(),
                ty == rows[ri as int],
                produced.len() == ri * wi + tx,
                writer.wf(),
                writer.capacity == cfg.batch_capacity,
                writer.tiles_added == produced.len(),
                store.wf(),
                store.tiles@ + writer.pending@ == base + produced,
                ids_distinct(base + produced),
                forall|k: int|
                    0 <= k < produced.len() ==> tile_matches(#[trigger] produced[k], *cfg, *elev,
                        *img, rows[k / wi] as int, k % wi),
                *progress == *old(progress) + ri,
            decreases w - tx,
        {
            let t = generate_tile(cfg, elev, img, ty, tx);
            let ghost produced_before = produced;
            let ghost all_before = base + produced;
            let ghost pending_before = writer.pending@;
            proof {
                crate::sampler::lemma_row_major_index(ri as int, tx as int, wi);
                crate::mapper::lemma_tile_id_round_trip(ty as int, tx as int, wi);
                let n = produced.len() as int;
                assert forall|k: int| 0 <= k < n implies (#[trigger] produced[k]).id != t.id by {
                    let kr = k / wi;
                    let kc = k % wi;
                    crate::sampler::lemma_row_major_index(kr, kc, wi);
                    vstd::arithmetic::div_mod::lemma_fundamental_div_mod(k, wi);
                    vstd::arithmetic::div_mod::lemma_mod_division_less_than_divisor(k, wi);
                    vstd::arithmetic::div_mod::lemma_div_pos_is_pos(k, wi);
                    assert(kr <= ri) by {
                        if kr > ri {
                            vstd::arithmetic::mul::lemma_mul_inequality(ri + 1, kr, wi);
                            assert(wi * kr == kr * wi) by (nonlinear_arith);
                            assert((ri + 1) * wi == ri * wi + wi) by (nonlinear_arith);
                        }
                    }
                    crate::mapper::lemma_tile_id_round_trip(rows[kr] as int, kc, wi);
                    if kr == ri {
                        assert(kc < tx);
                    } else {
                        assert(rows[kr] < rows[ri as int]);
                    }
                }
                assert forall|j: int| 0 <= j < base.len() implies (#[trigger] base[j]).id != t.id
                by {
                    assert(base[j].id as int / wi != rows[ri as int] as int);
                }
                produced = produced.push(t);
                assert(base + produced =~= all_before.push(t));
                assert(ids_distinct(base + produced)) by {
                    let all = base + produced;
                    assert forall|i: int, j: int| 0 <= i < j < all.len() implies (
                    #[trigger] all[i]).id != (#[trigger] all[j]).id by {
                        if j < all.len() - 1 {
                            assert(all[i] == all_before[i] && all[j] == all_before[j]);
                        } else {
                            assert(all[j] == t);
                            assert(all[i] == all_before[i]);
                            if i < base.len() {
                                assert(all_before[i] == base[i]);
                            } else {
                                assert(all_before[i] == produced_before[i - base.len()]);
                            }
                        }
                    }
                }
            }
            let out = writer.add(t);
            match out {
                Some(batch) => {
                    proof {
                        assert(batch@ == pending_before.push(t));
                        assert(store.tiles@ + pending_before == base + produced_before);
                        assert(store.tiles@ + batch@ =~= (store.tiles@ + pending_before).push(
                            t));
                        assert(store.tiles@ + batch@ =~= base + produced);
                        lemma_batch_ok_of_distinct(store.tiles@, batch@);
                    }
                    let res = store.insert_batch(batch);
                    proof {
                        assert(res is Ok);
                        assert(store.tiles@ =~= base + produced);
                    }
                },
                None => {
                    proof {
                        assert(writer.pending@ == pending_before.push(t));
                        assert(store.tiles@ + writer.pending@ =~= (store.tiles@
                            + pending_before).push(t));
                        assert(store.tiles@ + writer.pending@ =~= base + produced);
                    }
                },
            }
            tx = tx + 1;
        }
        let out = writer.flush();
        match out {
            Some(batch) => {
                proof {
                    assert(store.tiles@ + batch@ =~= base + produced);
                    lemma_batch_ok_of_distinct(store.tiles@, batch@);
                }
                let res = store.insert_batch(batch);
                proof {
                    assert(res is Ok);
                    assert(store.tiles@ =~= base + produced);
                }
            },
            None => {
                proof {
                    assert(store.tiles@ =~= base + produced);
                }
            },
        }
        *progress = *progress + 1;
        ri = ri + 1;
    }
    proof {
        assert(rows.len() * wi == produced.len());
        assert forall|k: int| 0 <= k < rows.len() * wi implies tile_matches(
            #[trigger] store.tiles@[base.len() + k], *cfg, *elev, *img, rows[k / wi] as int, k
            % wi) by {
            assert(store.tiles@[base.len() + k] == produced[k]);
        }
    }
}

/// The whole generation run over one pair of sources: every worker of
/// the striped partition, in turn, over its own rows. The result is
/// the filled store and the final progress count. The run constructs
/// every tile id in `[0, W*H)` exactly once — the store holds exactly
/// `W*H` tiles, with distinct ids, and the tile stored under each id
/// is the one the pipeline's formulas give for that grid cell — and
/// the progress counter lands exactly on the row count.
#[verifier::loop_isolation(false)]
pub fn run_pipeline(cfg: &GridConfig, elev: &ElevationRaster, img: &ImageryRaster) -> (out: (
    TileStore,
    usize,
))
    requires
        cfg.wf(),
        elev.wf(),
        img.wf(),
    ensures
        out.0.wf(),
        out.0.tiles@.len() == cfg.grid_width() * cfg.grid_height(),
        out.1 == cfg.grid_height(),
        forall|id: int|
            0 <= id < cfg.grid_width() * cfg.grid_height() ==> #[trigger] stores_cell(out.0,
                *cfg, *elev, *img, id),
{
    let w = cfg.num_tiles_long();
    let h = cfg.num_tiles_lat();
    let count = cfg.worker_count;
    let ghost wi = w as int;
    let ghost hi = h as int;
    let ghost ci = count as int;
    let mut store = TileStore::new();
    let mut progress: usize = 0;
    let mut wk: usize = 0;
    while wk < count
        invariant
            wk <= count,
            store.wf(),
            progress == crate::scheduler::sum_assigned(wk as int, ci, hi),
            progress <= usize::MAX - hi,
            store.tiles@.len() == progress * wi,
            forall|j: int|
                0 <= j < store.tiles@.len() ==> 0 <= (#[trigger] store.tiles@[j]).id as int / wi < hi
                    && (store.tiles@[j].id as int / wi) % ci < wk && store.tiles@[j].id == tile_id_spec(
                    store.tiles@[j].id as int / wi, store.tiles@[j].id as int % wi, wi),
            forall|ty: int, tx: int|
                0 <= ty < hi && 0 <= tx < wi && ty % ci < wk ==> #[trigger] cell_covered(store,
                    *cfg, *elev, *img, ty, tx),
        decreases count - wk,
    {
        let rows = crate::scheduler::worker_rows(wk, count, h);
        proof {
            crate::scheduler::lemma_num_assigned_bounds(wk as int, ci, hi);
            crate::scheduler::lemma_sum_assigned_monotone(wk as int, ci, ci, hi);
            crate::scheduler::lemma_partition_counts_sum(ci, hi);
            assert forall|j: int, i: int|
                #![trigger store.tiles@[j], rows@[i]]
                0 <= j < store.tiles.len() && 0 <= i < rows.len() implies store.tiles[
            j].id as int / wi != rows[i] as int by {
                assert(crate::scheduler::assigned_to(rows[i] as int, wk as int, ci));
                if store.tiles[j].id as int / wi == rows[i] as int {
                    assert((store.tiles@[j].id as int / wi) % ci == wk);
                }
            }
        }
        let ghost store_old = store;
        let ghost store_before = store.tiles@;
        let ghost progress_before = progress as int;
        run_worker(cfg, elev, img, &rows, &mut store, &mut progress);
        wk = wk + 1;
        proof {
            let nw = rows.len() as int;
            crate::scheduler::lemma_sum_assigned_monotone(wk as int, ci, ci, hi);
            assert(progress == crate::scheduler::sum_assigned(wk as int, ci, hi));
            assert(store.tiles@.len() == progress_before * wi + nw * wi);
            assert((progress_before + nw) * wi == progress_before * wi + nw * wi)
                by (nonlinear_arith);
            assert forall|j: int|
                0 <= j < store.tiles@.len() implies 0 <= (#[trigger] store.tiles@[j]).id as int / wi
                < hi && (store.tiles@[j].id as int / wi) % ci < wk && store.tiles@[j].id
                == tile_id_spec(store.tiles@[j].id as int / wi, store.tiles@[j].id as int % wi, wi) by {
                if j < store_before.len() {
                    assert(store.tiles@[j] == store_before[j]);
                } else {
                    let k = j - store_before.len();
                    vstd::arithmetic::div_mod::lemma_fundamental_div_mod(k, wi);
                    vstd::arithmetic::div_mod::lemma_mod_division_less_than_divisor(k, wi);
                    vstd::arithmetic::div_mod::lemma_div_pos_is_pos(k, wi);
                    assert(k / wi < nw) by {
                        if k / wi >= nw {
                            vstd::arithmetic::mul::lemma_mul_inequality(nw, k / wi, wi);
                            assert((k / wi) * wi == wi * (k / wi)) by (nonlinear_arith);
                            assert(nw * wi == wi * nw) by (nonlinear_arith);
                        }
                    }
                    assert(tile_matches(store.tiles@[store_before.len() + k], *cfg, *elev,
                        *img, rows[k / cfg.grid_width()] as int, k % cfg.grid_width()));
                    crate::mapper::lemma_tile_id_round_trip(rows[k / wi] as int, k % wi, wi);
                    assert(crate::scheduler::assigned_to(rows[k / wi] as int, wk - 1, ci));
                }
            }
            assert forall|ty: int, tx: int|
                0 <= ty < hi && 0 <= tx < wi && ty % ci < wk implies #[trigger] cell_covered(
                store, *cfg, *elev, *img, ty, tx) by {
                if ty % ci < wk - 1 {
                    assert(cell_covered(store_old, *cfg, *elev, *img, ty, tx));
                    let j = choose|j: int|
                        0 <= j < store_old.tiles@.len() && (#[trigger] store_old.tiles@[j]).id
                            == tile_id_spec(ty, tx, wi) && tile_matches(store_old.tiles@[j],
                            *cfg, *elev, *img, ty, tx);
                    assert(store.tiles@[j] == store_before[j]);
                    assert((store.tiles@[j]).id == tile_id_spec(ty, tx, wi));
                } else {
                    assert(crate::scheduler::assigned_to(ty, wk - 1, ci));
                    let i = choose|i: int| 0 <= i < rows.len() && rows[i] == ty;
                    let k = i * wi + tx;
                    crate::sampler::lemma_row_major_index(i, tx, wi);
                    vstd::arithmetic::mul::lemma_mul_inequality(i + 1, nw, wi);
                    assert(0 <= k < rows.len() * cfg.grid_width());
                    assert(tile_matches(store.tiles@[store_before.len() + k], *cfg, *elev, *img,
                        rows[k / cfg.grid_width()] as int, k % cfg.grid_width()));
                    assert(k / cfg.grid_width() == i && k % cfg.grid_width() == tx);
                    crate::mapper::lemma_tile_id_round_trip(ty, tx, wi);
                    assert((store.tiles@[store_before.len() + k]).id == tile_id_spec(ty, tx,
                        wi));
                }
            }
        }
    }
    proof {
        crate::scheduler::lemma_partition_counts_sum(ci, hi);
        assert(store.tiles@.len() == hi * wi);
        assert(hi * wi == wi * hi) by (nonlinear_arith);
        assert forall|id: int| 0 <= id < wi * hi implies #[trigger] stores_cell(store, *cfg,
            *elev, *img, id) by {
            crate::mapper::lemma_tile_position_round_trip(id, wi, hi);
            let ty = id / wi;
            let tx = id % wi;
            vstd::arithmetic::div_mod::lemma_mod_division_less_than_divisor(ty, ci);
            assert(cell_covered(store, *cfg, *elev, *img, ty, tx));
            let j = choose|j: int|
                0 <= j < store.tiles@.len() && (#[trigger] store.tiles@[j]).id == tile_id_spec(
                ty, tx, wi) && tile_matches(store.tiles@[j], *cfg, *elev, *img, ty, tx);
            assert(store.tiles@[j].id == id);
        }
    }
    (store, progress)
}

} // verus!
