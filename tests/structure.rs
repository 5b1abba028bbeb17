use multiddm::annuli::{any_set, centred_start, crop_mask, surviving_annuli};
use multiddm::frame::{CString, Mat};
use multiddm::lag::lag_pairs;

#[test]
fn lag_pairs_of_four_frames() {
    assert_eq!(
        lag_pairs(4),
        vec![vec![(0, 1), (1, 2), (2, 3)], vec![(0, 2), (1, 3)], vec![(0, 3)]]
    );
}

#[test]
fn lag_pairs_small_windows() {
    assert_eq!(lag_pairs(0), Vec::<Vec<(usize, usize)>>::new());
    assert_eq!(lag_pairs(1), Vec::<Vec<(usize, usize)>>::new());
    assert_eq!(lag_pairs(2), vec![vec![(0, 1)]]);
}

#[test]
fn centred_start_offsets() {
    assert_eq!(centred_start(8, 4), 2);
    assert_eq!(centred_start(9, 4), 2);
    assert_eq!(centred_start(8, 8), 0);
}

#[test]
fn crop_mask_takes_block() {
    // 4 x 4 mask, row by row, value true where index is odd
    let mask: Vec<bool> = (0..16).map(|i| i % 2 == 1).collect();
    let c = crop_mask(&mask, 4, 1, 2, 2);
    // rows 2 and 3, columns 1 and 2: indices 9, 10, 13, 14
    assert_eq!(c, vec![true, false, true, false]);
}

#[test]
fn any_set_cases() {
    assert!(!any_set(&vec![]));
    assert!(!any_set(&vec![false, false]));
    assert!(any_set(&vec![false, true]));
}

fn rings(d: usize) -> Vec<Vec<bool>> {
    // ring k holds the pixels whose squared distance r2 from the centre
    // satisfies k^2 <= r2 < (k+1)^2
    let c = (d / 2) as i64;
    let mut out = Vec::new();
    let mut k: i64 = 0;
    loop {
        let m: Vec<bool> = (0..d * d)
            .map(|p| {
                let x = (p % d) as i64 - c;
                let y = (p / d) as i64 - c;
                let r2 = x * x + y * y;
                k * k <= r2 && r2 < (k + 1) * (k + 1)
            })
            .collect();
        if !m.iter().any(|&b| b) && k > 0 {
            break;
        }
        out.push(m);
        k += 1;
    }
    out
}

#[test]
fn full_tile_rings_cover_each_pixel_once() {
    let d = 8;
    let masks = rings(d);
    let s = surviving_annuli(&masks, d, d);
    for p in 0..d * d {
        assert_eq!(s.iter().filter(|(_, m)| m[p]).count(), 1);
    }
}

#[test]
fn small_tile_drops_outer_rings() {
    let d = 8;
    let masks = rings(d);
    let s = surviving_annuli(&masks, d, 2);
    // a centred 2 x 2 tile starts at (3, 3): distances 0, 1 and sqrt(2)
    assert_eq!(s.iter().map(|(k, _)| *k).collect::<Vec<_>>(), vec![0, 1]);
    assert_eq!(s[0].1, vec![false, false, false, true]);
    assert_eq!(s[1].1, vec![true, true, true, false]);
}

#[test]
fn empty_ring_is_dropped() {
    let d = 4;
    let masks = vec![vec![false; 16], vec![true; 16]];
    let s = surviving_annuli(&masks, d, 4);
    assert_eq!(s.len(), 1);
    assert_eq!(s[0].0, 1);
}

#[test]
fn mat_size_and_shape() {
    let m = Mat { cols: 640, rows: 480, depth: 0, channels: 3 };
    assert_eq!(m.size(), (480, 640));
    assert!(!m.is_square());
    let m = Mat { cols: 64, rows: 64, depth: 0, channels: 1 };
    assert!(m.is_square());
}

#[test]
fn c_string_bytes() {
    assert_eq!("ab".c_string(), vec![97i8, 98]);
    assert_eq!("".c_string(), Vec::<i8>::new());
    assert_eq!("\u{e9}".c_string(), vec![-61i8, -87]);
}
