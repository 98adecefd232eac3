use word_search::direction::Direction;
use word_search::filler::{
    fill_gaps, letter_from_draw, sample_filler, vowel, FILLER_LETTERS, VOWEL_KEPT, VOWEL_OUT_OF,
};
use word_search::grid::Grid;
use word_search::placement::place;
use word_search::random::{RandomSource, SourceExhausted};

#[test]
fn draws_map_to_the_alphabet() {
    assert_eq!(FILLER_LETTERS, 26);
    let letters: String = (0..26).map(letter_from_draw).collect();
    assert_eq!(letters, "abcdefghijklmnopqrstuvwxyz");
}

#[test]
fn five_letters_are_vowels() {
    let vowels: String = ('\0'..='\u{ff}').filter(|letter| vowel(*letter)).collect();
    assert_eq!(vowels, "aeiou");
    assert!(!vowel('A'));
    assert!(!vowel('y'));
}

#[test]
fn consonant_is_taken_at_once() {
    let mut rng = RandomSource::fixed(vec![1, 0]);
    assert_eq!(sample_filler(&mut rng), Some('b'));
    assert_eq!(rng.draws_left(), 1);
}

#[test]
fn vowel_is_kept_four_times_out_of_five() {
    assert_eq!((VOWEL_KEPT, VOWEL_OUT_OF), (4, 5));
    for coin in 0..4 {
        let mut rng = RandomSource::fixed(vec![4, coin]);
        assert_eq!(sample_filler(&mut rng), Some('e'));
        assert!(rng.is_exhausted());
    }
    // the fifth outcome of the coin rejects the e; the next round draws a z
    let mut rng = RandomSource::fixed(vec![4, 4, 25]);
    assert_eq!(sample_filler(&mut rng), Some('z'));
}

#[test]
fn rejected_vowels_are_drawn_again_until_one_is_taken() {
    let mut rng = RandomSource::fixed(vec![0, 4, 8, 9, 14, 4, 20, 3, 7]);
    assert_eq!(sample_filler(&mut rng), Some('u'));
    assert_eq!(rng.draws_left(), 1);
}

#[test]
fn filler_needs_a_source_with_draws() {
    let mut rng = RandomSource::fixed(vec![]);
    assert_eq!(sample_filler(&mut rng), None);
    // a vowel without its coin
    let mut rng = RandomSource::fixed(vec![0]);
    assert_eq!(sample_filler(&mut rng), None);
    // only rejected vowels
    let mut rng = RandomSource::fixed(vec![0, 4, 4, 4]);
    assert_eq!(sample_filler(&mut rng), None);
    assert!(rng.is_exhausted());
}

#[test]
fn of_all_equally_likely_rounds_the_right_ones_are_taken() {
    // 26 letters times 5 outcomes of the coin
    let (mut consonants, mut vowels, mut rejected) = (0, 0, 0);
    for index in 0..26 {
        for coin in 0..5 {
            let mut rng = RandomSource::fixed(vec![index, coin]);
            match sample_filler(&mut rng) {
                Some(letter) if vowel(letter) => vowels += 1,
                Some(_) => consonants += 1,
                None => rejected += 1,
            }
        }
    }
    assert_eq!((consonants, vowels, rejected), (21 * 5, 5 * 4, 5));
}

#[test]
fn fillers_from_rand_are_lowercase_letters() {
    let mut rng = RandomSource::thread(u64::MAX);
    let mut seen = [false; 26];
    for _ in 0..20_000 {
        let letter = sample_filler(&mut rng).unwrap();
        assert!(letter.is_ascii_lowercase());
        seen[letter as usize - 'a' as usize] = true;
    }
    assert!(seen.iter().all(|hit| *hit));
}

#[test]
fn vowels_from_rand_are_kept_at_four_fifths_of_their_rate() {
    let limit = u64::MAX;
    let mut rng = RandomSource::thread(limit);
    let taken = 200_000u64;
    let mut vowels = 0u64;
    for _ in 0..taken {
        if vowel(sample_filler(&mut rng).unwrap()) {
            vowels += 1;
        }
    }
    let consonants = taken - vowels;
    // a consonant costs one draw, a vowel two, whether it is kept or not
    let draws = limit - rng.draws_left();
    let rejected = (draws - consonants - 2 * vowels) / 2;
    let rounds = (taken + rejected) as f64;
    let vowel_rate = vowels as f64 / rounds;
    let consonant_rate = consonants as f64 / rounds;
    assert!((vowel_rate - 0.8 * 5.0 / 26.0).abs() < 0.01);
    assert!((consonant_rate - 21.0 / 26.0).abs() < 0.01);
    // among the letters taken that makes 4 vowels in 25
    assert!((vowels as f64 / taken as f64 - 4.0 / 25.0).abs() < 0.01);
}

#[test]
fn fill_gaps_goes_row_by_row_and_skips_letters() {
    let mut grid = Grid::new(3, 2);
    place(&mut grid, "ox", Direction::Vertical, 1, 0);
    let mut rng = RandomSource::fixed(vec![1, 2, 3, 5]);
    assert_eq!(fill_gaps(&mut grid, &mut rng), Ok(()));
    assert_eq!(
        grid.letters().unwrap(),
        vec![vec!['b', 'o', 'c'], vec!['d', 'x', 'f']]
    );
    assert!(grid.is_complete());
    assert!(rng.is_exhausted());
}

#[test]
fn fill_gaps_on_a_full_grid_draws_nothing() {
    let mut grid = Grid::new(2, 1);
    place(&mut grid, "AB", Direction::Horizontal, 0, 0);
    let mut rng = RandomSource::fixed(vec![7]);
    assert_eq!(fill_gaps(&mut grid, &mut rng), Ok(()));
    assert_eq!(grid.letters().unwrap(), vec![vec!['A', 'B']]);
    assert_eq!(rng.draws_left(), 1);
}

#[test]
fn fill_gaps_stops_when_the_source_is_dry() {
    let mut grid = Grid::new(2, 2);
    let mut rng = RandomSource::fixed(vec![1, 2, 0]);
    assert_eq!(fill_gaps(&mut grid, &mut rng), Err(SourceExhausted));
    assert_eq!(grid.get(0, 0), Some('b'));
    assert_eq!(grid.get(1, 0), Some('c'));
    assert_eq!(grid.get(0, 1), None);
    assert_eq!(grid.get(1, 1), None);
    assert!(!grid.is_complete());
    assert_eq!(grid.letters(), None);
}

#[test]
fn fill_gaps_from_rand_completes_the_grid() {
    let mut grid = Grid::new(20, 20);
    place(&mut grid, "Hello", Direction::Diagonal, 3, 4);
    let mut rng = RandomSource::thread(u64::MAX);
    assert_eq!(fill_gaps(&mut grid, &mut rng), Ok(()));
    let rows = grid.letters().unwrap();
    for (y, row) in rows.iter().enumerate() {
        for (x, letter) in row.iter().enumerate() {
            if x >= 3 && x < 8 && x - 3 == y.wrapping_sub(4) {
                assert_eq!(*letter, ['H', 'e', 'l', 'l', 'o'][x - 3]);
            } else {
                assert!(letter.is_ascii_lowercase());
            }
        }
    }
}
