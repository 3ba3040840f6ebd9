use wordsearch::error::GenerationError;
use wordsearch::geometry::Direction;
use wordsearch::placement::PlacedWord;
use wordsearch::wordsearch::WordSearch;

const SAMPLE: [&str; 21] = [
    "ability", "able", "about", "above", "accept", "according", "account", "across", "act",
    "action", "activity", "actually", "add", "address", "administration", "admit", "adult",
    "affect", "after", "again", "against",
];

fn is_compass(d: &Direction) -> bool {
    (-1..=1).contains(&d.dx) && (-1..=1).contains(&d.dy) && !(d.dx == 0 && d.dy == 0)
}

fn read(rows: &[Vec<char>], placed: &PlacedWord) -> String {
    let mut out = String::new();
    for k in 0..placed.text.len() as i64 {
        let x = placed.anchor.x + k * placed.direction.dx;
        let y = placed.anchor.y + k * placed.direction.dy;
        out.push(rows[y as usize][x as usize]);
    }
    out
}

fn check_sound(puzzle: &WordSearch, size: i64) {
    let rows = puzzle.render();
    assert_eq!(puzzle.size(), size);
    assert_eq!(rows.len(), size as usize);
    for row in &rows {
        assert_eq!(row.len(), size as usize);
    }
    for placed in puzzle.words() {
        assert!(is_compass(&placed.direction));
        assert!(0 <= placed.anchor.x && placed.anchor.x < size);
        assert!(0 <= placed.anchor.y && placed.anchor.y < size);
        assert_eq!(read(&rows, placed), placed.word());
    }
}

#[test]
fn single_short_word_is_placed() {
    let puzzle = WordSearch::new(&["AB"], false, 5).unwrap();
    check_sound(&puzzle, 5);
    assert_eq!(puzzle.words().len(), 1);
    assert_eq!(puzzle.words()[0].word(), "AB");
    let rows = puzzle.render();
    assert_eq!(read(&rows, &puzzle.words()[0]), "AB");
}

#[test]
fn every_cell_is_a_capital_letter() {
    let puzzle = WordSearch::new(&SAMPLE, false, 20).unwrap();
    for row in puzzle.render() {
        for letter in row {
            assert!(letter.is_ascii_uppercase());
        }
    }
}

#[test]
fn every_word_reads_from_its_anchor() {
    let puzzle = WordSearch::new(&SAMPLE, false, 20).unwrap();
    check_sound(&puzzle, 20);
    let mut expected: Vec<String> = SAMPLE.iter().map(|w| w.to_uppercase()).collect();
    expected.sort();
    expected.reverse();
    let placed: Vec<String> = puzzle.words().iter().map(|p| p.word()).collect();
    assert_eq!(placed, expected);
}

#[test]
fn shared_cells_hold_one_letter() {
    let puzzle = WordSearch::new(&SAMPLE, false, 16).unwrap();
    let words = puzzle.words();
    for a in words {
        for b in words {
            for i in 0..a.text.len() as i64 {
                for j in 0..b.text.len() as i64 {
                    let cell_a = (a.anchor.x + i * a.direction.dx, a.anchor.y + i * a.direction.dy);
                    let cell_b = (b.anchor.x + j * b.direction.dx, b.anchor.y + j * b.direction.dy);
                    if cell_a == cell_b {
                        assert_eq!(a.text[i as usize], b.text[j as usize]);
                    }
                }
            }
        }
    }
}

#[test]
fn reproducible_runs_are_identical() {
    let first = WordSearch::new(&SAMPLE, false, 18).unwrap();
    let second = WordSearch::new(&SAMPLE, false, 18).unwrap();
    assert_eq!(first.to_text(), second.to_text());
    assert_eq!(first.render(), second.render());
}

#[test]
fn entropy_run_is_sound() {
    match WordSearch::new(&SAMPLE, true, 20) {
        Ok(puzzle) => check_sound(&puzzle, 20),
        Err(e) => assert_eq!(e, GenerationError::EntropyUnavailable),
    }
}

#[test]
fn overlong_word_is_reported() {
    match WordSearch::new(&["ABCDEF"], false, 5) {
        Err(GenerationError::Validation { invalid, oversize }) => {
            assert!(invalid.is_empty());
            assert_eq!(oversize, vec!["ABCDEF".to_string()]);
        }
        other => panic!("expected a validation error, got {:?}", other.map(|p| p.to_text())),
    }
}

#[test]
fn all_offenders_are_reported_together() {
    let words = ["abcdefg", "123", "ok", "", "4567890", "xyzxyz"];
    match WordSearch::new(&words, false, 5) {
        Err(GenerationError::Validation { invalid, oversize }) => {
            assert_eq!(invalid, vec!["123".to_string(), "4567890".to_string()]);
            assert_eq!(
                oversize,
                vec!["ABCDEFG".to_string(), "4567890".to_string(), "XYZXYZ".to_string()]
            );
        }
        other => panic!("expected a validation error, got {:?}", other.map(|p| p.to_text())),
    }
}

#[test]
fn too_many_words_is_a_config_error() {
    let words = vec!["A"; 26];
    let outcome = WordSearch::new(&words, false, 5);
    assert_eq!(outcome.err(), Some(GenerationError::Config));
}

#[test]
fn config_is_checked_before_validation() {
    let words = vec!["123456789"; 26];
    assert_eq!(WordSearch::new(&words, false, 5).err(), Some(GenerationError::Config));
    assert_eq!(WordSearch::new(&["123456789"], false, 4).err(), Some(GenerationError::Config));
}

#[test]
fn as_many_words_as_cells_is_accepted() {
    let words = vec!["A"; 25];
    let puzzle = WordSearch::new(&words, false, 5).unwrap();
    check_sound(&puzzle, 5);
    assert_eq!(puzzle.words().len(), 25);
}

#[test]
fn small_grid_is_a_config_error() {
    assert_eq!(WordSearch::new(&["AB"], false, 4).err(), Some(GenerationError::Config));
    assert_eq!(WordSearch::new(&["AB"], false, 0).err(), Some(GenerationError::Config));
    assert_eq!(WordSearch::new(&["AB"], false, -3).err(), Some(GenerationError::Config));
    assert!(WordSearch::new(&["AB"], false, 5).is_ok());
}

#[test]
fn exclusive_words_exhaust_the_board() {
    let words = ["AAAAA", "BBBBB", "CCCCC", "DDDDD", "EEEEE", "FFFFF"];
    match WordSearch::new(&words, false, 5) {
        Err(GenerationError::PlacementExhausted { word }) => {
            assert!(words.contains(&word.as_str()));
            assert_ne!(word, "FFFFF");
        }
        other => panic!("expected exhaustion, got {:?}", other.map(|p| p.to_text())),
    }
}

#[test]
fn no_words_gives_a_grid_of_fillers() {
    let puzzle = WordSearch::new(&[], false, 5).unwrap();
    check_sound(&puzzle, 5);
    assert!(puzzle.words().is_empty());
    for row in puzzle.render() {
        for letter in row {
            assert!(letter.is_ascii_uppercase());
        }
    }
}

#[test]
fn empty_words_are_dropped_and_the_rest_is_uppercased() {
    let puzzle = WordSearch::new(&["", "cat", "", "Dog"], false, 6).unwrap();
    check_sound(&puzzle, 6);
    let placed: Vec<String> = puzzle.words().iter().map(|p| p.word()).collect();
    assert_eq!(placed, vec!["DOG".to_string(), "CAT".to_string()]);
}

#[test]
fn word_as_long_as_the_grid_is_placed() {
    let puzzle = WordSearch::new(&["HELLO"], false, 5).unwrap();
    check_sound(&puzzle, 5);
    assert_eq!(puzzle.words()[0].word(), "HELLO");
}

#[test]
fn text_has_one_line_for_each_row() {
    let puzzle = WordSearch::new(&["AB"], false, 5).unwrap();
    let rows = puzzle.render();
    let mut expected = String::new();
    for row in &rows {
        for letter in row {
            expected.push(*letter);
            expected.push(' ');
        }
        expected.push('\n');
    }
    let text = puzzle.to_text();
    assert_eq!(text, expected);
    assert_eq!(text.lines().count(), 5);
    assert_eq!(text.len(), 5 * (5 * 2 + 1));
}

#[test]
fn messages_name_the_failure() {
    assert_eq!(
        GenerationError::Config.message(),
        "Size must be at least 5, and the number of words in the word list must not exceed size squared."
    );
    let validation = GenerationError::Validation { invalid: vec![], oversize: vec![] };
    assert_eq!(validation.message(), "Invalid string provided.");
    let exhausted = GenerationError::PlacementExhausted { word: "AB".to_string() };
    assert_eq!(exhausted.message(), "Could not find a position for the word on the board!");
    assert_eq!(
        GenerationError::InternalInconsistency.message(),
        "Error in processing: mismatch between buffer lengths."
    );
    assert_eq!(
        GenerationError::EntropyUnavailable.message(),
        "Could not seed the random generator from the operating system."
    );
}

#[test]
fn clone_is_the_same_puzzle() {
    let puzzle = WordSearch::new(&SAMPLE, false, 15).unwrap();
    let copy = puzzle.clone();
    assert_eq!(copy.size(), puzzle.size());
    assert_eq!(copy.render(), puzzle.render());
    assert_eq!(copy.words(), puzzle.words());
    assert_eq!(copy.to_text(), puzzle.to_text());
    check_sound(&copy, 15);
}
