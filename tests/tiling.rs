use multiddm::tiling::{friendly_sizes, get_allowed_dimension, plan_positions, select_evenly, tile_positions, TilingError};

#[test]
fn friendly_sizes_between_one_and_thirty() {
    assert_eq!(
        friendly_sizes(1, 30),
        vec![1, 2, 3, 4, 5, 6, 8, 9, 10, 12, 15, 16, 18, 20, 24, 25, 27, 30]
    );
}

#[test]
fn friendly_sizes_skip_other_primes() {
    assert_eq!(friendly_sizes(7, 7), Vec::<usize>::new());
    assert_eq!(friendly_sizes(11, 14), vec![12]);
    assert_eq!(friendly_sizes(0, 0), Vec::<usize>::new());
}

#[test]
fn allowed_dimension_full_list() {
    assert_eq!(get_allowed_dimension(6, 64, None), Ok(vec![6, 8, 9, 10, 12, 15, 16, 18, 20, 24, 25, 27, 30, 32, 36, 40, 45, 48, 50, 54, 60, 64]));
}

#[test]
fn allowed_dimension_count_keeps_largest() {
    // nine candidates, three asked for: indices 0, ceil(9/3) = 3, then the last
    assert_eq!(get_allowed_dimension(1, 10, Some(3)), Ok(vec![1, 4, 10]));
    let r = get_allowed_dimension(6, 64, Some(5)).unwrap();
    assert_eq!(r.len(), 5);
    assert_eq!(*r.last().unwrap(), 64);
    for w in r.windows(2) {
        assert!(w[0] < w[1]);
    }
}

#[test]
fn allowed_dimension_count_at_least_candidates_is_full_list() {
    assert_eq!(get_allowed_dimension(1, 10, Some(9)), Ok(vec![1, 2, 3, 4, 5, 6, 8, 9, 10]));
    assert_eq!(get_allowed_dimension(1, 10, Some(50)), Ok(vec![1, 2, 3, 4, 5, 6, 8, 9, 10]));
    assert_eq!(get_allowed_dimension(1, 10, Some(1)), Ok(vec![10]));
}

#[test]
fn allowed_dimension_errors() {
    assert_eq!(get_allowed_dimension(10, 5, None), Err(TilingError::EmptyRange));
    assert_eq!(get_allowed_dimension(10, 5, Some(0)), Err(TilingError::EmptyRange));
    assert_eq!(get_allowed_dimension(1, 10, Some(0)), Err(TilingError::ZeroCount));
}

#[test]
fn allowed_dimension_values_are_friendly_and_in_range() {
    for (min, max) in [(1usize, 100usize), (17, 250), (64, 64), (100, 1000)] {
        let r = get_allowed_dimension(min, max, None).unwrap();
        for w in r.windows(2) {
            assert!(w[0] < w[1]);
        }
        for &v in &r {
            assert!(min <= v && v <= max);
            let mut x = v;
            for p in [2, 3, 5] {
                while x % p == 0 {
                    x /= p;
                }
            }
            assert_eq!(x, 1);
        }
        let brute: Vec<usize> = (min..=max)
            .filter(|&v| {
                let mut x = v;
                for p in [2, 3, 5] {
                    while x % p == 0 {
                        x /= p;
                    }
                }
                x == 1
            })
            .collect();
        assert_eq!(r, brute);
    }
}

#[test]
fn select_evenly_strides() {
    let all = vec![10, 20, 30, 40, 50, 60, 70, 80];
    // ceil(i * 8 / 3) for i = 0, 1 gives 0, 3
    assert_eq!(select_evenly(&all, 3), vec![10, 40, 80]);
    assert_eq!(select_evenly(&all, 8), all);
}

#[test]
fn tile_positions_non_overlapping() {
    assert_eq!(tile_positions(8, 4, 4), vec![(0, 0), (0, 4), (4, 0), (4, 4)]);
    assert_eq!(tile_positions(8, 8, 8), vec![(0, 0)]);
}

#[test]
fn tile_positions_overlapping_and_partial() {
    assert_eq!(tile_positions(5, 3, 1), vec![(0, 0), (0, 1), (0, 2), (1, 0), (1, 1), (1, 2), (2, 0), (2, 1), (2, 2)]);
    // the step does not divide the span: the last origin is 3, not 4
    assert_eq!(tile_positions(7, 3, 3), vec![(0, 0), (0, 3), (3, 0), (3, 3)]);
}

#[test]
fn plan_positions_default_and_given_step() {
    let sizes = vec![2, 4];
    let p = plan_positions(4, &sizes, None);
    assert_eq!(p, vec![vec![(0, 0), (0, 2), (2, 0), (2, 2)], vec![(0, 0)]]);
    let p = plan_positions(4, &sizes, Some(1));
    assert_eq!(p[0].len(), 9);
    assert_eq!(p[1], vec![(0, 0)]);
}
