use rand::rngs::SmallRng;
use rand::SeedableRng;
use wordsearch::board::Grid;
use wordsearch::generator::{place_all, place_word};
use wordsearch::error::GenerationError;
use wordsearch::geometry::{Candidate, Direction, Point};
use wordsearch::placement::{can_place, write_word, PlacedWord};
use wordsearch::search::{crossings, free_candidates, intersection_candidates};
use wordsearch::select::{choose_candidate, select};

fn fresh(size: i64) -> Grid {
    let mut rng = SmallRng::seed_from_u64(11);
    Grid::init(size, &mut rng)
}

fn place(x: i64, y: i64, dx: i64, dy: i64) -> Candidate {
    Candidate { anchor: Point { x, y }, direction: Direction { dx, dy } }
}

fn letters(word: &str) -> Vec<char> {
    word.chars().collect()
}

fn commit(grid: &mut Grid, word: &str, c: Candidate) -> PlacedWord {
    assert!(can_place(grid, &letters(word), c));
    write_word(grid, &letters(word), c);
    PlacedWord { text: letters(word), anchor: c.anchor, direction: c.direction }
}

fn sorted(mut pool: Vec<Candidate>) -> Vec<(i64, i64, i64, i64)> {
    let mut keys: Vec<(i64, i64, i64, i64)> =
        pool.drain(..).map(|c| (c.anchor.x, c.anchor.y, c.direction.dx, c.direction.dy)).collect();
    keys.sort();
    keys.dedup();
    keys
}

#[test]
fn free_search_on_a_blank_board_counts_every_span() {
    let grid = fresh(5);
    // A word of 5 letters spans a full line: 5 rows and 5 columns, each in
    // two directions, and the two diagonals, each in two directions.
    assert_eq!(free_candidates(&grid, &letters("HELLO")).len(), 24);
    // A single letter fits on each cell in each direction that keeps the
    // cell itself on the board.
    assert_eq!(free_candidates(&grid, &letters("A")).len(), 8 * 25);
    // A word of 4 letters: 2 starts on each row and column per direction,
    // and 4 starts on the diagonals per diagonal direction.
    assert_eq!(free_candidates(&grid, &letters("ABCD")).len(), 4 * 10 + 4 * 4);
    assert!(free_candidates(&grid, &letters("TOOLONG")).is_empty());
}

#[test]
fn free_search_finds_exactly_the_fitting_places() {
    let mut grid = fresh(5);
    commit(&mut grid, "CAT", place(1, 2, 1, 0));
    let word = letters("MAP");
    let pool = free_candidates(&grid, &word);
    let mut expected = Vec::new();
    for (dx, dy) in [(1, 0), (1, -1), (0, -1), (-1, -1), (-1, 0), (-1, 1), (0, 1), (1, 1)] {
        for y in 0..5 {
            for x in 0..5 {
                if can_place(&grid, &word, place(x, y, dx, dy)) {
                    expected.push(place(x, y, dx, dy));
                }
            }
        }
    }
    assert_eq!(sorted(pool.clone()), sorted(expected));
    assert!(pool.contains(&place(2, 1, 0, 1)));
    assert!(!pool.contains(&place(1, 2, 1, 0)));
}

#[test]
fn crossings_lay_the_word_across_the_shared_letter() {
    let mut grid = fresh(5);
    let cat = commit(&mut grid, "CAT", place(1, 2, 1, 0));
    let pool = crossings(&grid, &letters("MAP"), &cat);
    assert_eq!(sorted(pool), vec![(2, 1, 0, 1), (2, 3, 0, -1)]);
}

#[test]
fn crossings_use_every_shared_letter() {
    let mut grid = fresh(7);
    let placed = commit(&mut grid, "ABA", place(2, 3, 1, 0));
    let pool = crossings(&grid, &letters("AX"), &placed);
    assert_eq!(sorted(pool), vec![(2, 3, 0, -1), (2, 3, 0, 1), (4, 3, 0, -1), (4, 3, 0, 1)]);
}

#[test]
fn crossings_need_a_shared_letter_and_room() {
    let mut grid = fresh(5);
    let cat = commit(&mut grid, "CAT", place(1, 2, 1, 0));
    assert!(crossings(&grid, &letters("DOG"), &cat).is_empty());
    assert!(crossings(&grid, &letters("LONGWORD"), &cat).is_empty());
    let top = commit(&mut grid, "XY", place(0, 0, 1, 0));
    // "SSSSX" ends on the X at (0, 0): read downwards it would start above
    // the board, read upwards it starts on the bottom row.
    assert_eq!(sorted(crossings(&grid, &letters("SSSSX"), &top)), vec![(0, 4, 0, -1)]);
    assert!(crossings(&grid, &letters("SSSSSX"), &top).is_empty());
    assert_eq!(sorted(crossings(&grid, &letters("XSS"), &top)), vec![(0, 0, 0, 1)]);
}

#[test]
fn crossings_reject_a_clash_on_another_cell() {
    let mut grid = fresh(5);
    let cat = commit(&mut grid, "CAT", place(1, 2, 1, 0));
    commit(&mut grid, "Z", place(2, 3, 1, 0));
    // Below the A of CAT lies a Z: MAP would put its P or its M there.
    assert!(crossings(&grid, &letters("MAP"), &cat).is_empty());
    assert_eq!(sorted(crossings(&grid, &letters("PAZ"), &cat)), vec![(2, 1, 0, 1)]);
}

#[test]
fn diagonal_words_offer_no_crossings() {
    let mut grid = fresh(5);
    let diagonal = commit(&mut grid, "CAT", place(0, 0, 1, 1));
    assert!(crossings(&grid, &letters("MAP"), &diagonal).is_empty());
}

#[test]
fn intersection_pool_merges_all_placed_words() {
    let mut grid = fresh(6);
    let cat = commit(&mut grid, "CAT", place(1, 2, 1, 0));
    let pod = commit(&mut grid, "POD", place(5, 3, 0, 1));
    let placed = vec![cat.clone(), pod.clone()];
    let word = letters("TOP");
    let merged = intersection_candidates(&grid, &word, &placed).unwrap();
    let mut expected = crossings(&grid, &word, &cat);
    expected.extend(crossings(&grid, &word, &pod));
    assert_eq!(sorted(merged.clone()), sorted(expected));
    assert!(merged.contains(&place(3, 2, 0, 1)));
    assert!(merged.contains(&place(3, 3, 1, 0)));
    assert!(!merged.contains(&place(4, 4, 1, 0)));
    assert_eq!(intersection_candidates(&grid, &word, &Vec::new()), Some(Vec::new()));
}

#[test]
fn select_follows_the_two_draws() {
    let crossing = vec![place(0, 0, 1, 0), place(1, 0, 1, 0), place(2, 0, 1, 0)];
    let free = vec![place(0, 1, 0, 1), place(1, 1, 0, 1)];
    let none: Vec<Candidate> = Vec::new();
    assert_eq!(select(&crossing, &free, true, 7), Some(place(1, 0, 1, 0)));
    assert_eq!(select(&crossing, &free, true, 0), Some(place(0, 0, 1, 0)));
    assert_eq!(select(&crossing, &free, false, 7), Some(place(1, 1, 0, 1)));
    assert_eq!(select(&none, &free, true, 4), Some(place(0, 1, 0, 1)));
    assert_eq!(select(&crossing, &none, true, 5), Some(place(2, 0, 1, 0)));
    assert_eq!(select(&crossing, &none, false, 5), None);
    assert_eq!(select(&none, &none, true, 5), None);
    assert_eq!(select(&none, &free, false, usize::MAX), Some(free[usize::MAX % 2]));
}

#[test]
fn chosen_candidate_comes_from_a_pool() {
    let crossing = vec![place(0, 0, 1, 0), place(1, 0, 1, 0)];
    let free = vec![place(0, 1, 0, 1), place(1, 1, 0, 1), place(2, 1, 0, 1)];
    let none: Vec<Candidate> = Vec::new();
    let mut rng = SmallRng::seed_from_u64(3);
    let mut from_crossing = 0;
    let mut from_free = 0;
    let mut picks = Vec::new();
    for _ in 0..200 {
        let chosen = choose_candidate(&crossing, &free, &mut rng).unwrap();
        if crossing.contains(&chosen) {
            from_crossing += 1;
        } else {
            assert!(free.contains(&chosen));
            from_free += 1;
        }
        if !picks.contains(&chosen) {
            picks.push(chosen);
        }
    }
    assert!(from_crossing > 50 && from_free > 50);
    assert_eq!(picks.len(), 5);
    assert_eq!(choose_candidate(&none, &none, &mut rng), None);
    assert!(free.contains(&choose_candidate(&none, &free, &mut rng).unwrap()));
}

#[test]
fn place_word_commits_one_word() {
    let mut grid = fresh(5);
    let mut placed = Vec::new();
    let mut rng = SmallRng::seed_from_u64(5);
    assert_eq!(place_word(&mut grid, &mut placed, "HELLO", &mut rng), Ok(()));
    assert_eq!(placed.len(), 1);
    assert_eq!(placed[0].word(), "HELLO");
    for (k, letter) in "HELLO".chars().enumerate() {
        let at = Point {
            x: placed[0].anchor.x + k as i64 * placed[0].direction.dx,
            y: placed[0].anchor.y + k as i64 * placed[0].direction.dy,
        };
        assert_eq!(grid.get_placement(at), Some(letter));
    }
}

#[test]
fn place_word_reports_exhaustion_and_changes_nothing() {
    let mut grid = fresh(5);
    let mut placed = Vec::new();
    let mut rng = SmallRng::seed_from_u64(5);
    for row in 0..5 {
        placed.push(commit(&mut grid, "AAAAA", place(0, row, 1, 0)));
    }
    let before = grid.render();
    let outcome = place_word(&mut grid, &mut placed, "B", &mut rng);
    assert_eq!(outcome, Err(GenerationError::PlacementExhausted { word: "B".to_string() }));
    assert_eq!(placed.len(), 5);
    assert_eq!(grid.render(), before);
    assert_eq!(place_word(&mut grid, &mut placed, "AAA", &mut rng), Ok(()));
    assert_eq!(placed.len(), 6);
}

#[test]
fn place_all_keeps_the_order_of_the_queue() {
    let mut grid = fresh(8);
    let mut rng = SmallRng::seed_from_u64(9);
    let queue = vec!["TOP".to_string(), "POD".to_string(), "CAT".to_string()];
    let placed = place_all(&mut grid, &queue, &mut rng).unwrap();
    let words: Vec<String> = placed.iter().map(|p| p.word()).collect();
    assert_eq!(words, queue);
    for one in &placed {
        for (k, letter) in one.text.iter().enumerate() {
            let at = Point {
                x: one.anchor.x + k as i64 * one.direction.dx,
                y: one.anchor.y + k as i64 * one.direction.dy,
            };
            assert_eq!(grid.get_placement(at), Some(*letter));
        }
    }
}

#[test]
fn place_all_stops_at_the_word_without_room() {
    let mut grid = fresh(5);
    let mut rng = SmallRng::seed_from_u64(9);
    let queue = vec!["ABCDEF".to_string()];
    assert_eq!(
        place_all(&mut grid, &queue, &mut rng),
        Err(GenerationError::PlacementExhausted { word: "ABCDEF".to_string() })
    );
}

#[test]
fn free_pool_runs_by_direction_then_row_then_column() {
    let grid = fresh(5);
    let pool = free_candidates(&grid, &letters("HELLO"));
    let mut expected = Vec::new();
    for y in 0..5 {
        expected.push(place(0, y, 1, 0));
    }
    expected.push(place(0, 4, 1, -1));
    for x in 0..5 {
        expected.push(place(x, 4, 0, -1));
    }
    expected.push(place(4, 4, -1, -1));
    for y in 0..5 {
        expected.push(place(4, y, -1, 0));
    }
    expected.push(place(4, 0, -1, 1));
    for x in 0..5 {
        expected.push(place(x, 0, 0, 1));
    }
    expected.push(place(0, 0, 1, 1));
    assert_eq!(pool, expected);
}

#[test]
fn crossing_pool_runs_by_placed_letter_then_letter_then_direction() {
    let mut grid = fresh(7);
    let placed = commit(&mut grid, "ABA", place(2, 3, 1, 0));
    let pool = crossings(&grid, &letters("AXA"), &placed);
    let expected = vec![
        place(2, 3, 0, -1),
        place(2, 3, 0, 1),
        place(2, 5, 0, -1),
        place(2, 1, 0, 1),
        place(4, 3, 0, -1),
        place(4, 3, 0, 1),
        place(4, 5, 0, -1),
        place(4, 1, 0, 1),
    ];
    assert_eq!(pool, expected);
}

#[test]
fn merged_pool_keeps_the_order_of_the_placed_words() {
    let mut grid = fresh(6);
    let cat = commit(&mut grid, "CAT", place(1, 2, 1, 0));
    let pod = commit(&mut grid, "POD", place(5, 3, 0, 1));
    let word = letters("TOP");
    let merged = intersection_candidates(&grid, &word, &vec![cat.clone(), pod.clone()]).unwrap();
    let mut expected = crossings(&grid, &word, &cat);
    expected.extend(crossings(&grid, &word, &pod));
    assert_eq!(merged, expected);
    let swapped = intersection_candidates(&grid, &word, &vec![pod.clone(), cat.clone()]).unwrap();
    let mut expected = crossings(&grid, &word, &pod);
    expected.extend(crossings(&grid, &word, &cat));
    assert_eq!(swapped, expected);
}

#[test]
fn word_longer_than_the_grid_has_no_place() {
    let mut grid = fresh(5);
    let cat = commit(&mut grid, "CAT", place(1, 2, 1, 0));
    assert!(crossings(&grid, &letters("CATACOMBS"), &cat).is_empty());
    assert!(free_candidates(&grid, &letters("CATACOMBS")).is_empty());
}
