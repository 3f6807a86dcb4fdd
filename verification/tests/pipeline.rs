use marstiles::config::GridConfig;
use marstiles::errors::PipelineError;
use marstiles::lookup::{elev_req, imagery_req};
use marstiles::pipeline::{generate_tile, process_row, run_pipeline, run_worker};
use marstiles::raster::{ElevationRaster, ImageryRaster};
use marstiles::store::TileStore;
use marstiles::tile::Tile;

/// A 2x1 grid over a 4x2 elevation source and a 4x2 three-band
/// imagery source, with 2x2 output blocks.
fn scenario() -> (GridConfig, ElevationRaster, ImageryRaster) {
    let cfg = GridConfig {
        left_longitude: 0,
        right_longitude: 2,
        top_latitude: 1,
        bottom_latitude: 0,
        tile_edge_length: 2,
        batch_capacity: 10,
        worker_count: 1,
    };
    let elev = ElevationRaster::open(4, 2, vec![10, 20, 30, 40, 50, 60, 70, 80]).unwrap();
    let img = ImageryRaster::open(
        4,
        2,
        vec![1, 2, 3, 4, 5, 6, 7, 8],
        vec![11, 12, 13, 14, 15, 16, 17, 18],
        vec![21, 22, 23, 24, 25, 26, 27, 28],
    )
    .unwrap();
    (cfg, elev, img)
}

#[test]
fn two_tile_end_to_end_run() {
    let (cfg, elev, img) = scenario();
    let (store, progress) = run_pipeline(&cfg, &elev, &img);
    assert_eq!(progress, 1);
    assert_eq!(store.len(), 2);

    // Tile 0 covers source columns 0..=1; windows are 2x2, so the
    // nearest-neighbor block is the window itself.
    let t0 = store.get_by_id(0).expect("tile 0");
    assert_eq!(t0.latitude, 1);
    assert_eq!(t0.longitude, 0);
    assert_eq!(t0.elevation_data, vec![0, 10, 0, 20, 0, 50, 0, 60]);
    assert_eq!(
        t0.imagery_data,
        vec![1, 11, 21, 2, 12, 22, 5, 15, 25, 6, 16, 26]
    );

    // Tile 1 covers source columns 1..=3; its 3-wide window maps
    // output columns 0 and 1 to window columns 0 and 2.
    let t1 = store.get_by_id(1).expect("tile 1");
    assert_eq!(t1.latitude, 1);
    assert_eq!(t1.longitude, 1);
    assert_eq!(t1.elevation_data, vec![0, 20, 0, 40, 0, 60, 0, 80]);
    assert_eq!(
        t1.imagery_data,
        vec![2, 12, 22, 4, 14, 24, 6, 16, 26, 8, 18, 28]
    );

    assert!(store.get_by_id(2).is_none());
}

#[test]
fn generate_tile_matches_pipeline_output() {
    let (cfg, elev, img) = scenario();
    let t = generate_tile(&cfg, &elev, &img, 0, 1);
    assert_eq!(t.id, 1);
    assert_eq!(t.elevation_data, vec![0, 20, 0, 40, 0, 60, 0, 80]);
}

#[test]
fn process_row_yields_one_tile_per_column() {
    let (cfg, elev, img) = scenario();
    let row = process_row(&cfg, &elev, &img, 0);
    assert_eq!(row.len(), 2);
    assert_eq!(row[0].id, 0);
    assert_eq!(row[1].id, 1);
}

#[test]
fn progress_reaches_row_count_with_many_workers() {
    // 1x7 grid, three workers: progress must land exactly on 7.
    let cfg = GridConfig {
        left_longitude: 0,
        right_longitude: 1,
        top_latitude: 7,
        bottom_latitude: 0,
        tile_edge_length: 1,
        batch_capacity: 2,
        worker_count: 3,
    };
    let elev = ElevationRaster::open(2, 2, vec![1, 2, 3, 4]).unwrap();
    let img =
        ImageryRaster::open(2, 2, vec![1, 2, 3, 4], vec![5, 6, 7, 8], vec![9, 10, 11, 12])
            .unwrap();
    let (store, progress) = run_pipeline(&cfg, &elev, &img);
    assert_eq!(progress, 7);
    assert_eq!(store.len(), 7);
    for id in 0..7 {
        assert!(store.get_by_id(id).is_some());
    }
}

#[test]
fn worker_updates_progress_once_per_row() {
    let (cfg, elev, img) = scenario();
    let rows = vec![0];
    let mut store = TileStore::new();
    let mut progress = 0;
    run_worker(&cfg, &elev, &img, &rows, &mut store, &mut progress);
    assert_eq!(progress, 1);
    assert_eq!(store.len(), 2);
}

#[test]
fn store_rejects_duplicate_ids_atomically() {
    let mut store = TileStore::new();
    let tile = |id: u32| Tile {
        id,
        latitude: 0,
        longitude: 0,
        elevation_data: Vec::new(),
        imagery_data: Vec::new(),
    };
    assert!(store.insert_batch(vec![tile(1), tile(2)]).is_ok());
    let r = store.insert_batch(vec![tile(3), tile(2)]);
    assert!(matches!(r, Err(PipelineError::Persistence)));
    // The rejected batch left nothing behind: the whole insert is atomic.
    assert_eq!(store.len(), 2);
    assert!(store.get_by_id(3).is_none());
    let r = store.insert_batch(vec![tile(4), tile(4)]);
    assert!(matches!(r, Err(PipelineError::Persistence)));
}

#[test]
fn store_serves_blocks_by_id() {
    let mut store = TileStore::new();
    let t = Tile {
        id: 9,
        latitude: 4,
        longitude: -3,
        elevation_data: vec![1, 2],
        imagery_data: vec![3, 4, 5],
    };
    store.insert_batch(vec![t]).unwrap();
    let e = store.get_elevation_by_id(9).expect("elevation");
    assert_eq!(e.id, 9);
    assert_eq!(e.elevation_data, vec![1, 2]);
    let i = store.get_imagery_by_id(9).expect("imagery");
    assert_eq!(i.id, 9);
    assert_eq!(i.imagery_data, vec![3, 4, 5]);
    assert!(store.get_elevation_by_id(8).is_none());
}

#[test]
fn lookup_serves_blocks_for_query_strings() {
    let (cfg, elev, img) = scenario();
    let (store, _) = run_pipeline(&cfg, &elev, &img);
    let blob = elev_req(&store, &b"id=1".to_vec()).expect("tile 1 elevation");
    assert_eq!(blob, vec![0, 20, 0, 40, 0, 60, 0, 80]);
    let blob = imagery_req(&store, &b"id=0".to_vec()).expect("tile 0 imagery");
    assert_eq!(blob, vec![1, 11, 21, 2, 12, 22, 5, 15, 25, 6, 16, 26]);
}

#[test]
fn lookup_percent_decodes_the_query() {
    // "%31" decodes to "1": a parser handing bytes back unchanged
    // would find no tile.
    let (cfg, elev, img) = scenario();
    let (store, _) = run_pipeline(&cfg, &elev, &img);
    let blob = elev_req(&store, &b"id=%31".to_vec()).expect("percent-decoded id");
    assert_eq!(blob, vec![0, 20, 0, 40, 0, 60, 0, 80]);
}

#[test]
fn lookup_takes_the_last_duplicate_parameter() {
    let (cfg, elev, img) = scenario();
    let (store, _) = run_pipeline(&cfg, &elev, &img);
    let blob = elev_req(&store, &b"id=0&id=1".to_vec()).expect("last id wins");
    assert_eq!(blob, vec![0, 20, 0, 40, 0, 60, 0, 80]);
}

#[test]
fn lookup_rejects_bad_or_missing_ids() {
    let (cfg, elev, img) = scenario();
    let (store, _) = run_pipeline(&cfg, &elev, &img);
    assert!(elev_req(&store, &b"id=9".to_vec()).is_none());
    assert!(elev_req(&store, &b"id=abc".to_vec()).is_none());
    assert!(elev_req(&store, &b"name=zed".to_vec()).is_none());
    assert!(elev_req(&store, &b"".to_vec()).is_none());
    assert!(imagery_req(&store, &b"id=-1".to_vec()).is_none());
}
