use multiddm::accumulator::Accumulator;

fn add(a: &Vec<i64>, b: Vec<i64>) -> Vec<i64> {
    a.iter().zip(b).map(|(x, y)| x + y).collect()
}

#[test]
fn first_window_becomes_entry() {
    let mut acc: Accumulator<Vec<i64>> = Accumulator::new(2);
    assert!(acc.get(8).is_none());
    acc.add(8, vec![vec![1, 2], vec![3, 4]], add);
    assert_eq!(acc.get(8), Some(&vec![vec![1, 2], vec![3, 4]]));
    assert!(acc.get(4).is_none());
    assert_eq!(acc.lags(), 2);
}

#[test]
fn later_windows_are_summed_per_lag() {
    let mut acc: Accumulator<Vec<i64>> = Accumulator::new(2);
    acc.add(8, vec![vec![1, 2], vec![3, 4]], add);
    acc.add(4, vec![vec![7], vec![9]], add);
    acc.add(8, vec![vec![10, 20], vec![30, 40]], add);
    assert_eq!(acc.get(8), Some(&vec![vec![11, 22], vec![33, 44]]));
    assert_eq!(acc.get(4), Some(&vec![vec![7], vec![9]]));
}

#[test]
fn same_window_twice_over_two_equals_once() {
    let w = vec![vec![2, 4], vec![6, 8]];
    let mut twice: Accumulator<Vec<i64>> = Accumulator::new(2);
    twice.add(8, w.clone(), add);
    twice.add(8, w.clone(), add);
    let halved: Vec<Vec<i64>> = twice.get(8).unwrap().iter().map(|p| p.iter().map(|x| x / 2).collect()).collect();
    let mut once: Accumulator<Vec<i64>> = Accumulator::new(2);
    once.add(8, w, add);
    assert_eq!(&halved, once.get(8).unwrap());
}

#[test]
fn no_lags_window() {
    let mut acc: Accumulator<Vec<i64>> = Accumulator::new(0);
    acc.add(3, vec![], add);
    assert_eq!(acc.get(3), Some(&vec![]));
}
