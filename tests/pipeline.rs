use multiddm::frame::Mat;
use multiddm::pipeline::{log2_floor, resolve_config, AcquireAction, AcquireState, ComputeAction, ComputeState, ConfigError, RunConfig};

#[test]
fn log2_floor_values() {
    assert_eq!(log2_floor(0), 0);
    assert_eq!(log2_floor(1), 0);
    assert_eq!(log2_floor(2), 1);
    assert_eq!(log2_floor(255), 7);
    assert_eq!(log2_floor(256), 8);
}

#[test]
fn config_defaults() {
    let c = resolve_config(256, 256, 30, 1000, None, None, (None, None, None), None).unwrap();
    assert_eq!(
        c,
        RunConfig {
            dimension: 256,
            tiling_min: 8,
            tiling_max: 256,
            tiling_count: None,
            tile_step: None,
            annuli_spacing: 1,
            window: 30,
            frame_cap: 1000,
        }
    );
}

#[test]
fn config_caps_max_and_capacity() {
    let c = resolve_config(64, 64, 10, 500, Some(100), Some(2), (Some(4), Some(128), Some(3)), Some(8)).unwrap();
    assert_eq!(c.tiling_min, 4);
    assert_eq!(c.tiling_max, 64);
    assert_eq!(c.tiling_count, Some(3));
    assert_eq!(c.tile_step, Some(8));
    assert_eq!(c.annuli_spacing, 2);
    assert_eq!(c.frame_cap, 100);
    let c = resolve_config(64, 64, 10, 50, Some(100), None, (Some(4), Some(32), None), None).unwrap();
    assert_eq!(c.frame_cap, 50);
    assert_eq!(c.tiling_max, 32);
}

#[test]
fn config_partial_tiling_ranges_take_defaults() {
    let c = resolve_config(64, 64, 10, 5, None, None, (Some(2), None, None), None).unwrap();
    assert_eq!((c.tiling_min, c.tiling_max, c.tiling_count), (2, 64, None));
    let c = resolve_config(64, 64, 10, 5, None, None, (None, Some(32), None), None).unwrap();
    assert_eq!((c.tiling_min, c.tiling_max, c.tiling_count), (6, 32, None));
    let c = resolve_config(64, 64, 10, 5, None, None, (None, None, Some(4)), None).unwrap();
    assert_eq!((c.tiling_min, c.tiling_max, c.tiling_count), (6, 64, Some(4)));
    let c = resolve_config(64, 64, 10, 5, None, None, (Some(3), None, Some(2)), None).unwrap();
    assert_eq!((c.tiling_min, c.tiling_max, c.tiling_count), (3, 64, Some(2)));
    let c = resolve_config(64, 64, 10, 5, None, None, (None, Some(500), None), None).unwrap();
    assert_eq!(c.tiling_max, 64);
}

#[test]
fn config_errors() {
    assert_eq!(resolve_config(64, 48, 10, 5, None, None, (None, None, None), None), Err(ConfigError::NonSquare));
    assert_eq!(resolve_config(64, 64, 10, 5, None, None, (Some(10), Some(5), None), None), Err(ConfigError::InvalidTilingRange));
    assert_eq!(resolve_config(64, 64, 10, 5, None, None, (Some(1), Some(5), Some(0)), None), Err(ConfigError::InvalidTilingRange));
    assert_eq!(resolve_config(64, 64, 10, 5, None, None, (None, Some(4), None), None), Err(ConfigError::InvalidTilingRange));
    assert_eq!(resolve_config(64, 64, 10, 5, None, None, (Some(100), None, None), None), Err(ConfigError::InvalidTilingRange));
    assert_eq!(resolve_config(64, 64, 10, 5, None, None, (None, None, Some(0)), None), Err(ConfigError::InvalidTilingRange));
    // a maximum capped below the minimum
    assert_eq!(resolve_config(8, 8, 4, 100, None, None, (Some(10), Some(20), None), None), Err(ConfigError::InvalidTilingRange));
    assert_eq!(resolve_config(64, 64, 10, 5, None, None, (None, None, None), Some(0)), Err(ConfigError::ZeroTileStep));
    assert_eq!(resolve_config(64, 64, 0, 5, None, None, (None, None, None), None), Err(ConfigError::ZeroFrameRate));
}

#[test]
fn plan_tiles_of_config() {
    let c = resolve_config(8, 8, 4, 100, None, None, (Some(4), Some(8), None), None).unwrap();
    let p = c.plan_tiles().unwrap();
    assert_eq!(p.sizes, vec![4, 5, 6, 8]);
    assert_eq!(p.positions[0], vec![(0, 0), (0, 4), (4, 0), (4, 4)]);
    assert_eq!(p.positions[1], vec![(0, 0)]);
    assert_eq!(p.positions[3], vec![(0, 0)]);
    // a minimum above the maximum leaves nothing to plan
    let c = RunConfig { tiling_min: 10, ..c };
    assert!(c.plan_tiles().is_err());
}

#[test]
fn compute_runs_a_window_per_frame_once_full() {
    let mut s = ComputeState::new(3);
    assert_eq!(s.on_frame(1), ComputeAction::Wait);
    assert_eq!(s.on_frame(2), ComputeAction::Wait);
    assert_eq!(s.on_frame(3), ComputeAction::RunWindow);
    assert_eq!(*s.window(), vec![1, 2, 3]);
    assert_eq!(s.on_frame(4), ComputeAction::RunWindow);
    assert_eq!(*s.window(), vec![2, 3, 4]);
    assert_eq!(s.start_times(), 2);
    assert_eq!(s.finish(), Some(2));
}

#[test]
fn early_end_yields_no_output() {
    let mut s = ComputeState::new(4);
    s.on_frame(0u8);
    s.on_frame(1u8);
    s.on_frame(2u8);
    assert_eq!(s.start_times(), 0);
    assert_eq!(s.finish(), None);
    let s: ComputeState<u8> = ComputeState::new(4);
    assert_eq!(s.finish(), None);
}

#[test]
fn acquire_first_frame_asks_for_annuli() {
    let mut a = AcquireState::new(3);
    let f = Mat { cols: 32, rows: 32, depth: 0, channels: 3 };
    assert_eq!(a.on_frame(&f), AcquireAction::AnnuliThenFrame(32));
    assert_eq!(a.dimension, Some(32));
    assert_eq!(a.on_frame(&f), AcquireAction::Frame);
    assert_eq!(a.on_frame(&f), AcquireAction::Frame);
    assert_eq!(a.on_frame(&f), AcquireAction::End);
    assert_eq!(a.sent, 3);
    assert_eq!(a.on_end(), AcquireAction::End);
}

#[test]
fn acquire_dimension_is_larger_side() {
    let mut a = AcquireState::new(10);
    let f = Mat { cols: 20, rows: 30, depth: 0, channels: 1 };
    assert_eq!(a.on_frame(&f), AcquireAction::AnnuliThenFrame(30));
}
