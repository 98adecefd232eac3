use word_search::grid::Grid;
use word_search::random::RandomSource;

#[test]
fn fixed_source_replays_its_values_reduced() {
    let mut rng = RandomSource::fixed(vec![3, 10, 0, usize::MAX]);
    assert_eq!(rng.draws_left(), 4);
    assert_eq!(rng.below(5), Some(3));
    assert_eq!(rng.below(4), Some(2));
    assert_eq!(rng.below(1), Some(0));
    assert_eq!(rng.below(2), Some(usize::MAX % 2));
    assert!(rng.is_exhausted());
    assert_eq!(rng.below(5), None);
    assert_eq!(rng.chance(1, 2), None);
    assert_eq!(rng.draws_left(), 0);
}

#[test]
fn fixed_source_tosses_by_its_values() {
    let mut rng = RandomSource::fixed(vec![0, 3, 4, 5, 9, 2, 7]);
    assert_eq!(rng.chance(4, 5), Some(true));
    assert_eq!(rng.chance(4, 5), Some(true));
    assert_eq!(rng.chance(4, 5), Some(false));
    assert_eq!(rng.chance(4, 5), Some(true));
    assert_eq!(rng.chance(4, 5), Some(false));
    assert_eq!(rng.chance(0, 3), Some(false));
    assert_eq!(rng.chance(3, 3), Some(true));
    assert_eq!(rng.chance(3, 3), None);
}

#[test]
fn thread_source_stays_below_the_bound() {
    let mut rng = RandomSource::thread(u64::MAX);
    for bound in [1usize, 2, 7, 26, 1000] {
        let mut seen_low = false;
        for _ in 0..2_000 {
            let value = rng.below(bound).unwrap();
            assert!(value < bound);
            seen_low |= value < (bound + 1) / 2;
        }
        assert!(seen_low);
    }
}

#[test]
fn thread_source_reaches_every_value_below_the_bound() {
    let mut rng = RandomSource::thread(u64::MAX);
    let mut seen = [false; 9];
    for _ in 0..10_000 {
        seen[rng.below(9).unwrap()] = true;
    }
    assert!(seen.iter().all(|hit| *hit));
}

#[test]
fn thread_source_counts_its_draws() {
    let mut rng = RandomSource::thread(3);
    assert!(!rng.is_exhausted());
    assert!(rng.below(10).is_some());
    assert!(rng.chance(1, 2).is_some());
    assert_eq!(rng.draws_left(), 1);
    assert!(rng.below(10).is_some());
    assert!(rng.is_exhausted());
    assert_eq!(rng.below(10), None);
    assert_eq!(rng.chance(1, 2), None);
}

#[test]
fn sure_coins_fall_as_they_must() {
    let mut rng = RandomSource::thread(u64::MAX);
    for _ in 0..1_000 {
        assert_eq!(rng.chance(5, 5), Some(true));
        assert_eq!(rng.chance(0, 5), Some(false));
    }
}

#[test]
fn thread_coin_shows_true_about_four_times_in_five() {
    let mut rng = RandomSource::thread(u64::MAX);
    let tosses = 100_000;
    let mut hits = 0;
    for _ in 0..tosses {
        if rng.chance(4, 5).unwrap() {
            hits += 1;
        }
    }
    assert!((f64::from(hits) / f64::from(tosses) - 0.8).abs() < 0.01);
}

#[test]
fn new_grid_is_empty() {
    let grid = Grid::new(4, 3);
    assert_eq!(grid.width(), 4);
    assert_eq!(grid.height(), 3);
    assert!(!grid.is_complete());
    assert_eq!(grid.letters(), None);
    for y in 0..3 {
        for x in 0..4 {
            assert_eq!(grid.get(x, y), None);
        }
    }
}

#[test]
fn set_changes_one_cell() {
    let mut grid = Grid::new(3, 2);
    grid.set(2, 1, 'q');
    for y in 0..2 {
        for x in 0..3 {
            assert_eq!(grid.get(x, y), if (x, y) == (2, 1) { Some('q') } else { None });
        }
    }
    grid.set(2, 1, 'r');
    assert_eq!(grid.get(2, 1), Some('r'));
}

#[test]
fn grid_is_complete_when_every_cell_has_a_letter() {
    let mut grid = Grid::new(2, 2);
    grid.set(0, 0, 'a');
    grid.set(1, 0, 'b');
    grid.set(0, 1, 'c');
    assert!(!grid.is_complete());
    assert_eq!(grid.letters(), None);
    grid.set(1, 1, 'd');
    assert!(grid.is_complete());
    assert_eq!(grid.letters(), Some(vec![vec!['a', 'b'], vec!['c', 'd']]));
}

#[test]
fn grid_without_cells_is_complete() {
    for (width, height) in [(0, 0), (3, 0), (0, 3)] {
        let grid = Grid::new(width, height);
        assert!(grid.is_complete());
        assert_eq!(grid.letters(), Some(vec![Vec::new(); height]));
    }
}
