use marstiles::batch::BatchWriter;
use marstiles::config::GridConfig;
use marstiles::errors::PipelineError;
use marstiles::lookup::{bytes_eq, parse_tile_id, route, Route};
use marstiles::mapper::{source_window, tile_coordinate, tile_id, tile_position};
use marstiles::raster::ElevationRaster;
use marstiles::sampler::{nearest_source_index, resample_block_i16, resample_block_rgb};
use marstiles::scheduler::{percent_complete, worker_rows, RunState};
use marstiles::tile::{encode_elevation_block, Tile};

fn empty_tile(id: u32) -> Tile {
    Tile {
        id,
        latitude: 0,
        longitude: 0,
        elevation_data: Vec::new(),
        imagery_data: Vec::new(),
    }
}

#[test]
fn window_bounds_at_reference_scale() {
    // 360-pixel source split over 180 rows: every window stays inside.
    for ty in 0..180 {
        let (lo, hi) = source_window(ty, 180, 360);
        assert!(lo <= hi);
        assert!(hi < 360);
    }
}

#[test]
fn adjacent_windows_share_boundary_pixel() {
    for ty in 0..179 {
        let (_, hi) = source_window(ty, 180, 360);
        let (lo_next, _) = source_window(ty + 1, 180, 360);
        assert_eq!(lo_next, hi);
    }
}

#[test]
fn window_of_last_cell_reaches_last_pixel() {
    let (_, hi) = source_window(179, 180, 359);
    assert_eq!(hi, 358);
    let (_, hi) = source_window(1, 2, 4);
    assert_eq!(hi, 3);
}

#[test]
fn window_of_small_source_never_empty() {
    // Source smaller than the grid: still one pixel per window.
    for ty in 0..180 {
        let (lo, hi) = source_window(ty, 180, 2);
        assert!(lo <= hi);
        assert!(hi < 2);
    }
}

#[test]
fn tile_id_round_trip() {
    assert_eq!(tile_id(2, 5, 360, 180), 2 * 360 + 5);
    assert_eq!(tile_position(725, 360, 180), (2, 5));
    for id in 0..(6 * 4) {
        let (row, col) = tile_position(id, 6, 4);
        assert_eq!(tile_id(row, col, 6, 4), id);
    }
}

#[test]
fn tile_coordinates_at_reference_grid() {
    assert_eq!(tile_coordinate(0, 180, 90, -90), 90);
    assert_eq!(tile_coordinate(90, 180, 90, -90), 0);
    assert_eq!(tile_coordinate(179, 180, 90, -90), -89);
    assert_eq!(tile_coordinate(0, 360, -180, 180), -180);
    assert_eq!(tile_coordinate(359, 360, -180, 180), 179);
}

#[test]
fn tile_coordinate_rounds_half_away_from_zero() {
    // 0 + (1 - 0) * 1/2 = 0.5 rounds to 1; 0 + (-1 - 0) * 1/2 = -0.5 to -1.
    assert_eq!(tile_coordinate(1, 2, 0, 1), 1);
    assert_eq!(tile_coordinate(1, 2, 0, -1), -1);
}

#[test]
fn nearest_index_formula() {
    assert_eq!(nearest_source_index(0, 2, 3), 0);
    assert_eq!(nearest_source_index(1, 2, 3), 2);
    assert_eq!(nearest_source_index(0, 1, 5), 0);
    assert_eq!(nearest_source_index(1, 4, 2), 0);
    assert_eq!(nearest_source_index(3, 4, 2), 1);
    assert_eq!(nearest_source_index(2, 3, 9), 8);
}

#[test]
fn resample_output_always_s_by_s() {
    // Window smaller than, equal to, and larger than the block edge.
    let small = vec![7i16];
    assert_eq!(resample_block_i16(&small, 1, 1, 3).len(), 9);
    let equal = vec![1i16, 2, 3, 4, 5, 6, 7, 8, 9];
    assert_eq!(resample_block_i16(&equal, 3, 3, 3).len(), 9);
    let large: Vec<i16> = (0..30).collect();
    assert_eq!(resample_block_i16(&large, 6, 5, 3).len(), 9);
    let band: Vec<u8> = (0..30).collect();
    assert_eq!(resample_block_rgb(&band, &band, &band, 6, 5, 3).len(), 27);
}

#[test]
fn resample_is_identity_on_matching_window() {
    let block = vec![4i16, -3, 100, 2, 9, -17, 0, 1, 30];
    let out = resample_block_i16(&block, 3, 3, 3);
    assert_eq!(out, block);
}

#[test]
fn resample_magnifies_single_pixel() {
    let one = vec![42i16];
    assert_eq!(resample_block_i16(&one, 1, 1, 2), vec![42, 42, 42, 42]);
}

#[test]
fn resample_minifies_by_nearest() {
    // 3x3 window onto 2x2: picks corners.
    let win = vec![1i16, 2, 3, 4, 5, 6, 7, 8, 9];
    assert_eq!(resample_block_i16(&win, 3, 3, 2), vec![1, 3, 7, 9]);
}

#[test]
fn elevation_bytes_are_big_endian() {
    assert_eq!(encode_elevation_block(&vec![256i16]), vec![1, 0]);
    assert_eq!(encode_elevation_block(&vec![-1i16]), vec![255, 255]);
    assert_eq!(encode_elevation_block(&vec![-32768i16]), vec![128, 0]);
    assert_eq!(encode_elevation_block(&vec![10i16, 20]), vec![0, 10, 0, 20]);
}

#[test]
fn batch_writer_emits_exact_multiples() {
    let mut w = BatchWriter::new(2);
    let mut flushes = 0;
    for id in 0..4u32 {
        if let Some(batch) = w.add(empty_tile(id)) {
            assert_eq!(batch.len(), 2);
            flushes += 1;
        }
    }
    assert_eq!(flushes, 2);
    assert_eq!(w.pending.len(), 0);
    assert_eq!(w.batches_issued, 2);
}

#[test]
fn batch_writer_flush_on_empty_is_noop() {
    let mut w = BatchWriter::new(10);
    assert!(w.flush().is_none());
    assert_eq!(w.batches_issued, 0);
}

#[test]
fn batch_writer_flushes_trailing_partial_batch() {
    let mut w = BatchWriter::new(10);
    assert!(w.add(empty_tile(0)).is_none());
    let batch = w.flush().expect("trailing batch");
    assert_eq!(batch.len(), 1);
    assert_eq!(batch[0].id, 0);
    assert!(w.flush().is_none());
}

#[test]
fn striped_partition_of_seven_rows() {
    assert_eq!(worker_rows(0, 3, 7), vec![0, 3, 6]);
    assert_eq!(worker_rows(1, 3, 7), vec![1, 4]);
    assert_eq!(worker_rows(2, 3, 7), vec![2, 5]);
}

#[test]
fn striped_partition_covers_every_row_once() {
    let mut seen = vec![0u32; 7];
    for worker in 0..3 {
        for row in worker_rows(worker, 3, 7) {
            seen[row] += 1;
        }
    }
    assert_eq!(seen, vec![1, 1, 1, 1, 1, 1, 1]);
}

#[test]
fn percent_of_total_rows() {
    assert_eq!(percent_complete(0, 180), 0);
    assert_eq!(percent_complete(90, 180), 50);
    assert_eq!(percent_complete(180, 180), 100);
    assert_eq!(percent_complete(1, 3), 33);
}

#[test]
fn run_state_lifecycle() {
    let mut state = RunState::Idle;
    state.start();
    assert_eq!(state, RunState::Running);
    state.complete();
    assert_eq!(state, RunState::Completed);
    let mut failing = RunState::Idle;
    failing.start();
    failing.fail();
    assert_eq!(failing, RunState::Failed);
}

#[test]
fn raster_open_rejects_mismatched_buffer() {
    let r = ElevationRaster::open(3, 2, vec![0i16; 5]);
    assert!(matches!(r, Err(PipelineError::DatasetOpen)));
    assert!(ElevationRaster::open(3, 2, vec![0i16; 6]).is_ok());
}

#[test]
fn raster_read_rejects_out_of_bounds_window() {
    let d = ElevationRaster::open(3, 2, vec![1i16, 2, 3, 4, 5, 6]).unwrap();
    assert!(matches!(d.read_window(2, 0, 2, 1), Err(PipelineError::RasterRead)));
    assert!(matches!(d.read_window(0, 0, 0, 1), Err(PipelineError::RasterRead)));
    assert_eq!(d.read_window(1, 0, 2, 2).unwrap(), vec![2, 3, 5, 6]);
}

#[test]
fn imagery_read_rejects_absent_band() {
    let d = marstiles::raster::ImageryRaster::open(
        2,
        1,
        vec![1, 2],
        vec![3, 4],
        vec![5, 6],
    )
    .unwrap();
    assert!(matches!(d.read_window(4, 0, 0, 1, 1), Err(PipelineError::RasterRead)));
    assert_eq!(d.read_window(2, 0, 0, 2, 1).unwrap(), vec![3, 4]);
}

#[test]
fn parse_tile_id_accepts_decimal_ids() {
    assert_eq!(parse_tile_id(&b"17".to_vec()), Some(17));
    assert_eq!(parse_tile_id(&b"+0".to_vec()), Some(0));
    assert_eq!(parse_tile_id(&b"4294967295".to_vec()), Some(u32::MAX));
}

#[test]
fn parse_tile_id_rejects_everything_else() {
    assert_eq!(parse_tile_id(&b"".to_vec()), None);
    assert_eq!(parse_tile_id(&b"+".to_vec()), None);
    assert_eq!(parse_tile_id(&b"1a".to_vec()), None);
    assert_eq!(parse_tile_id(&b"-1".to_vec()), None);
    assert_eq!(parse_tile_id(&b"4294967296".to_vec()), None);
}

#[test]
fn byte_equality() {
    assert!(bytes_eq(&b"id".to_vec(), &b"id".to_vec()));
    assert!(!bytes_eq(&b"id".to_vec(), &b"iD".to_vec()));
    assert!(!bytes_eq(&b"id".to_vec(), &b"ids".to_vec()));
}

#[test]
fn reference_configuration() {
    let cfg = GridConfig::reference();
    assert_eq!(cfg.left_longitude, -180);
    assert_eq!(cfg.right_longitude, 180);
    assert_eq!(cfg.top_latitude, 90);
    assert_eq!(cfg.bottom_latitude, -90);
    assert_eq!(cfg.tile_edge_length, 256);
    assert_eq!(cfg.batch_capacity, 10);
    assert!(cfg.worker_count >= 1);
}

#[test]
fn routing_of_read_requests() {
    assert_eq!(route(&b"GET".to_vec(), &b"/elevation".to_vec()), Route::Elevation);
    assert_eq!(route(&b"GET".to_vec(), &b"/imagery".to_vec()), Route::Imagery);
    assert_eq!(route(&b"GET".to_vec(), &b"/tiles".to_vec()), Route::NotFound);
    assert_eq!(route(&b"POST".to_vec(), &b"/elevation".to_vec()), Route::NotFound);
}
