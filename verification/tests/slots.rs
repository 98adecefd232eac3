use word_search::direction::{pick_direction, Direction, DIRECTION_DRAWS};
use word_search::grid::Grid;
use word_search::placement::{place, slot_fits, Origin};
use word_search::random::RandomSource;
use word_search::slot::{find_slot, SearchError, SLOT_ATTEMPTS};

#[test]
fn draws_map_to_directions_two_three_four() {
    let expected = [
        Direction::Horizontal,
        Direction::Horizontal,
        Direction::Vertical,
        Direction::Vertical,
        Direction::Vertical,
        Direction::Diagonal,
        Direction::Diagonal,
        Direction::Diagonal,
        Direction::Diagonal,
    ];
    assert_eq!(DIRECTION_DRAWS, 9);
    for (draw, direction) in expected.iter().enumerate() {
        assert_eq!(Direction::from_draw(draw), *direction);
    }
    assert_eq!(Direction::from_draw(9), Direction::Diagonal);
    assert_eq!(Direction::from_draw(usize::MAX), Direction::Diagonal);
}

#[test]
fn directions_move_as_they_should() {
    assert!(Direction::Horizontal.moves_right());
    assert!(!Direction::Horizontal.moves_down());
    assert!(!Direction::Vertical.moves_right());
    assert!(Direction::Vertical.moves_down());
    assert!(Direction::Diagonal.moves_right());
    assert!(Direction::Diagonal.moves_down());
}

#[test]
fn pick_direction_follows_the_source() {
    let mut rng = RandomSource::fixed(vec![0, 1, 2, 4, 5, 8, 9, 13]);
    let picked: Vec<Direction> = (0..8).map(|_| pick_direction(&mut rng).unwrap()).collect();
    assert_eq!(
        picked,
        vec![
            Direction::Horizontal,
            Direction::Horizontal,
            Direction::Vertical,
            Direction::Vertical,
            Direction::Diagonal,
            Direction::Diagonal,
            // 9 and 13 are reduced modulo nine to 0 and 4
            Direction::Horizontal,
            Direction::Vertical,
        ]
    );
    assert_eq!(pick_direction(&mut rng), None);
}

#[test]
fn pick_direction_from_rand_spends_one_draw() {
    let mut rng = RandomSource::thread(3);
    for left in [2, 1, 0] {
        assert!(pick_direction(&mut rng).is_some());
        assert_eq!(rng.draws_left(), left);
    }
    assert_eq!(pick_direction(&mut rng), None);
}

#[test]
fn pick_direction_weights_are_about_two_three_four_in_nine() {
    let mut rng = RandomSource::thread(u64::MAX);
    let mut counts = [0u32; 3];
    let total = 90_000;
    for _ in 0..total {
        match pick_direction(&mut rng).unwrap() {
            Direction::Horizontal => counts[0] += 1,
            Direction::Vertical => counts[1] += 1,
            Direction::Diagonal => counts[2] += 1,
        }
    }
    let share = |count: u32| f64::from(count) / f64::from(total);
    assert!((share(counts[0]) - 2.0 / 9.0).abs() < 0.02);
    assert!((share(counts[1]) - 3.0 / 9.0).abs() < 0.02);
    assert!((share(counts[2]) - 4.0 / 9.0).abs() < 0.02);
}

#[test]
fn word_fits_on_an_empty_grid_only_inside() {
    let grid = Grid::new(5, 4);
    assert!(slot_fits(&grid, "cat", Direction::Horizontal, 0, 0));
    assert!(slot_fits(&grid, "cat", Direction::Horizontal, 2, 3));
    assert!(!slot_fits(&grid, "cat", Direction::Horizontal, 3, 0));
    assert!(slot_fits(&grid, "cat", Direction::Vertical, 4, 1));
    assert!(!slot_fits(&grid, "cat", Direction::Vertical, 4, 2));
    assert!(slot_fits(&grid, "cat", Direction::Diagonal, 2, 1));
    assert!(!slot_fits(&grid, "cat", Direction::Diagonal, 3, 1));
    assert!(!slot_fits(&grid, "cat", Direction::Diagonal, 2, 2));
    // an origin outside the grid never fits
    assert!(!slot_fits(&grid, "cat", Direction::Horizontal, 5, 0));
    assert!(!slot_fits(&grid, "cat", Direction::Horizontal, 0, 4));
    assert!(!slot_fits(&grid, "", Direction::Horizontal, 5, 0));
    assert!(!slot_fits(&grid, "cat", Direction::Vertical, usize::MAX, usize::MAX));
}

#[test]
fn empty_word_fits_at_every_cell() {
    let grid = Grid::new(2, 2);
    for direction in [Direction::Horizontal, Direction::Vertical, Direction::Diagonal] {
        for y in 0..2 {
            for x in 0..2 {
                assert!(slot_fits(&grid, "", direction, x, y));
            }
        }
    }
}

#[test]
fn word_fits_over_equal_letters_only() {
    let mut grid = Grid::new(5, 5);
    place(&mut grid, "cat", Direction::Horizontal, 1, 2);
    // crossing on the shared a
    assert!(slot_fits(&grid, "bar", Direction::Vertical, 2, 1));
    // the same cell would need an r
    assert!(!slot_fits(&grid, "bar", Direction::Vertical, 2, 0));
    // lying over itself
    assert!(slot_fits(&grid, "cat", Direction::Horizontal, 1, 2));
    assert!(slot_fits(&grid, "ca", Direction::Horizontal, 1, 2));
    assert!(!slot_fits(&grid, "cat", Direction::Horizontal, 0, 2));
    // case matters
    assert!(!slot_fits(&grid, "Cat", Direction::Horizontal, 1, 2));
    // diagonal through the t at (3, 2)
    assert!(slot_fits(&grid, "xyt", Direction::Diagonal, 1, 0));
    assert!(!slot_fits(&grid, "xyz", Direction::Diagonal, 1, 0));
}

#[test]
fn place_writes_the_path_and_nothing_else() {
    for (direction, cells) in [
        (Direction::Horizontal, [(1, 1), (2, 1), (3, 1)]),
        (Direction::Vertical, [(1, 1), (1, 2), (1, 3)]),
        (Direction::Diagonal, [(1, 1), (2, 2), (3, 3)]),
    ] {
        let mut grid = Grid::new(4, 4);
        place(&mut grid, "owl", direction, 1, 1);
        for y in 0..4 {
            for x in 0..4 {
                let expected = cells.iter().position(|cell| *cell == (x, y)).map(|i| ['o', 'w', 'l'][i]);
                assert_eq!(grid.get(x, y), expected);
            }
        }
    }
}

#[test]
fn place_overwrites_what_is_on_the_path() {
    let mut grid = Grid::new(3, 1);
    place(&mut grid, "abc", Direction::Horizontal, 0, 0);
    place(&mut grid, "xy", Direction::Horizontal, 1, 0);
    assert_eq!(grid.letters().unwrap(), vec![vec!['a', 'x', 'y']]);
}

#[test]
fn place_of_the_empty_word_changes_nothing() {
    let mut grid = Grid::new(2, 2);
    place(&mut grid, "", Direction::Diagonal, 1, 1);
    for y in 0..2 {
        for x in 0..2 {
            assert_eq!(grid.get(x, y), None);
        }
    }
}

#[test]
fn find_slot_returns_the_first_origin_that_fits() {
    let mut grid = Grid::new(5, 5);
    place(&mut grid, "cat", Direction::Horizontal, 0, 0);
    // (3, 0) runs out of the grid, (0, 0) clashes with cat, (7 mod 5, 6 mod 5) = (2, 1) fits
    let mut rng = RandomSource::fixed(vec![3, 0, 0, 0, 7, 6, 0, 4]);
    assert_eq!(
        find_slot(&grid, "dog", Direction::Horizontal, &mut rng),
        Ok(Origin { x: 2, y: 1 })
    );
    assert_eq!(rng.draws_left(), 2);
}

#[test]
fn find_slot_gives_up_after_a_hundred_origins() {
    assert_eq!(SLOT_ATTEMPTS, 100);
    let grid = Grid::new(5, 5);
    // column 4 leaves no room for a horizontal word of three letters
    let mut script = vec![4; 200];
    script.extend([0, 0]);
    let mut rng = RandomSource::fixed(script);
    assert_eq!(
        find_slot(&grid, "cat", Direction::Horizontal, &mut rng),
        Err(SearchError::NoSlotFound)
    );
    assert_eq!(rng.draws_left(), 2);
}

#[test]
fn find_slot_succeeds_on_the_hundredth_origin() {
    let grid = Grid::new(5, 5);
    let mut script = vec![4; 198];
    script.extend([1, 2]);
    let mut rng = RandomSource::fixed(script);
    assert_eq!(
        find_slot(&grid, "cat", Direction::Horizontal, &mut rng),
        Ok(Origin { x: 1, y: 2 })
    );
}

#[test]
fn find_slot_stops_when_the_source_is_dry() {
    let grid = Grid::new(5, 5);
    let mut rng = RandomSource::fixed(vec![4, 0, 4]);
    assert_eq!(
        find_slot(&grid, "cat", Direction::Horizontal, &mut rng),
        Err(SearchError::SourceExhausted)
    );
    let mut rng = RandomSource::thread(0);
    assert_eq!(
        find_slot(&grid, "cat", Direction::Horizontal, &mut rng),
        Err(SearchError::SourceExhausted)
    );
}

#[test]
fn find_slot_on_a_grid_without_cells_draws_nothing() {
    let mut rng = RandomSource::fixed(vec![0, 0]);
    for (width, height) in [(0, 0), (0, 3), (3, 0)] {
        let grid = Grid::new(width, height);
        assert_eq!(
            find_slot(&grid, "", Direction::Horizontal, &mut rng),
            Err(SearchError::NoSlotFound)
        );
    }
    assert_eq!(rng.draws_left(), 2);
}

#[test]
fn find_slot_on_a_full_grid_of_other_letters_fails() {
    let mut grid = Grid::new(2, 2);
    place(&mut grid, "xx", Direction::Horizontal, 0, 0);
    place(&mut grid, "xx", Direction::Horizontal, 0, 1);
    let mut rng = RandomSource::thread(10_000);
    for direction in [Direction::Horizontal, Direction::Vertical, Direction::Diagonal] {
        assert_eq!(find_slot(&grid, "ab", direction, &mut rng), Err(SearchError::NoSlotFound));
    }
    assert_eq!(rng.draws_left(), 10_000 - 600);
}

#[test]
fn word_as_long_as_the_grid_is_wide_starts_in_column_zero() {
    let grid = Grid::new(5, 7);
    let mut rng = RandomSource::thread(u64::MAX);
    let mut found = 0;
    for _ in 0..200 {
        if let Ok(origin) = find_slot(&grid, "abcde", Direction::Horizontal, &mut rng) {
            assert_eq!(origin.x, 0);
            assert!(origin.y < 7);
            found += 1;
        }
    }
    assert!(found > 0);
}

#[test]
fn word_as_long_as_the_grid_is_high_starts_in_row_zero() {
    let grid = Grid::new(7, 5);
    let mut rng = RandomSource::thread(u64::MAX);
    let mut found = 0;
    for _ in 0..200 {
        if let Ok(origin) = find_slot(&grid, "abcde", Direction::Vertical, &mut rng) {
            assert_eq!(origin.y, 0);
            assert!(origin.x < 7);
            found += 1;
        }
    }
    assert!(found > 0);
}

#[test]
fn diagonal_word_as_long_as_a_square_grid_starts_in_the_corner() {
    let grid = Grid::new(4, 4);
    // only (0, 0) takes the word: the first 50 origins miss, the next hits
    let mut script = Vec::new();
    for i in 0..50 {
        script.extend([1 + i % 3, i % 4]);
    }
    script.extend([0, 0]);
    let mut rng = RandomSource::fixed(script);
    assert_eq!(
        find_slot(&grid, "abcd", Direction::Diagonal, &mut rng),
        Ok(Origin { x: 0, y: 0 })
    );
}

#[test]
fn found_origins_lie_inside_the_grid() {
    let mut grid = Grid::new(6, 4);
    place(&mut grid, "stone", Direction::Horizontal, 1, 1);
    let mut rng = RandomSource::thread(u64::MAX);
    for direction in [Direction::Horizontal, Direction::Vertical, Direction::Diagonal] {
        for _ in 0..200 {
            if let Ok(origin) = find_slot(&grid, "ton", direction, &mut rng) {
                assert!(origin.x < 6 && origin.y < 4);
                assert!(slot_fits(&grid, "ton", direction, origin.x, origin.y));
            }
        }
    }
}
