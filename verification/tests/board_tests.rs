use wordboard::board::{Board, Tile, BOARD_SIZE};
use wordboard::words::WordSet;

fn dict(words: &[&str]) -> WordSet {
    WordSet::new(words.iter().map(|w| w.to_string()).collect())
}

fn place(board: &mut Board, r: usize, c: usize, ch: char, owner: u32, turn: u32) {
    board.set(r, c, Some(Tile::new(ch, owner, turn)));
}

#[test]
fn validate_with_the_word_row_should_return_vector_with_string_the() {
    let wordlist = dict(&["the"]);
    let mut board = Board::new();
    place(&mut board, 0, 0, 't', 0, 1);
    place(&mut board, 0, 1, 'h', 0, 1);
    place(&mut board, 0, 2, 'e', 0, 1);
    let list = board.validate(&wordlist, 0).unwrap();
    assert!(list[0] == "the");
}

#[test]
fn validate_with_the_word_col_should_return_true() {
    let wordlist = dict(&["the"]);
    let mut board = Board::new();
    place(&mut board, 0, 0, 't', 0, 1);
    place(&mut board, 1, 0, 'h', 0, 1);
    place(&mut board, 2, 0, 'e', 0, 1);
    let list = board.validate(&wordlist, 0).unwrap();
    assert!(list[0] == "the");
}

#[test]
fn validate_with_tub_word_col_should_return_vector_with_string_tub() {
    let wordlist = dict(&["tub"]);
    let mut board = Board::new();
    place(&mut board, 25, 23, 't', 0, 1);
    place(&mut board, 25, 24, 'u', 0, 1);
    place(&mut board, 25, 25, 'b', 0, 1);
    let list = board.validate(&wordlist, 0).unwrap();
    assert!(list[0] == "tub");
}

#[test]
fn validate_with_the_word_tilt_should_return_none() {
    let wordlist = dict(&["the"]);
    let mut board = Board::new();
    place(&mut board, 0, 0, 't', 0, 1);
    place(&mut board, 1, 1, 'h', 0, 1);
    place(&mut board, 2, 2, 'e', 0, 1);
    let list = board.validate(&wordlist, 0);
    assert!(list.is_none());
}

#[test]
fn validate_with_the_word_jump_to_next_row_should_return_vector_with_string_the() {
    let wordlist = dict(&["the"]);
    let mut board = Board::new();
    place(&mut board, 0, 23, 't', 0, 1);
    place(&mut board, 0, 24, 'h', 0, 1);
    place(&mut board, 0, 25, 'e', 0, 1);
    let list = board.validate(&wordlist, 0).unwrap();
    assert!(list[0] == "the");
}

#[test]
fn validate_with_the_word_col_in_the_middle_should_return_vector_with_string_the() {
    let wordlist = dict(&["the"]);
    let mut board = Board::new();
    place(&mut board, 12, 12, 't', 0, 1);
    place(&mut board, 13, 12, 'h', 0, 1);
    place(&mut board, 14, 12, 'e', 0, 1);
    let list = board.validate(&wordlist, 0).unwrap();
    assert!(list[0] == "the");
}

#[test]
fn validate_with_the_word_jump_to_next_col_should_return_vector_with_string_the() {
    let wordlist = dict(&["the"]);
    let mut board = Board::new();
    place(&mut board, 23, 0, 't', 0, 1);
    place(&mut board, 24, 0, 'h', 0, 1);
    place(&mut board, 25, 0, 'e', 0, 1);
    let list = board.validate(&wordlist, 0).unwrap();
    assert!(list[0] == "the");
}

#[test]
fn validate_with_the_word_exceed_horizontal_border_should_return_none() {
    let wordlist = dict(&["the"]);
    let mut board = Board::new();
    place(&mut board, 0, 25, 't', 0, 1);
    place(&mut board, 1, 0, 'h', 0, 1);
    place(&mut board, 1, 1, 'e', 0, 1);
    let list = board.validate(&wordlist, 0);
    assert!(list.is_none());
}

#[test]
fn validate_with_the_word_exceed_vertical_border_should_return_none() {
    let wordlist = dict(&["the"]);
    let mut board = Board::new();
    place(&mut board, 25, 0, 't', 0, 1);
    place(&mut board, 0, 1, 'h', 0, 1);
    place(&mut board, 0, 2, 'e', 0, 1);
    let list = board.validate(&wordlist, 0);
    assert!(list.is_none());
}

#[test]
fn validate_with_space_should_return_some_with_space_vector() {
    let wordlist = dict(&["the"]);
    let board = Board::new();
    let list = board.validate(&wordlist, 0);
    assert!(list.is_some());
    assert!(list.unwrap().len() == 0);
}

#[test]
fn board_size_is_twenty_six() {
    assert_eq!(BOARD_SIZE, 26);
}

// An empty board validates for every dictionary, including the empty one.
#[test]
fn validate_empty_board_with_empty_dictionary_accepts() {
    let board = Board::new();
    let list = board.validate(&dict(&[]), 7);
    assert_eq!(list.unwrap().len(), 0);
}

// A single word scores only for the player whose tiles formed it; the
// other player's finish still accepts the board but scores nothing.
#[test]
fn validate_attributes_words_to_the_placing_player_only() {
    let wordlist = dict(&["the"]);
    let mut board = Board::new();
    place(&mut board, 3, 3, 't', 1, 2);
    place(&mut board, 3, 4, 'h', 1, 2);
    place(&mut board, 3, 5, 'e', 1, 2);
    let own = board.validate(&wordlist, 1).unwrap();
    assert_eq!(own, vec!["the".to_string()]);
    let other = board.validate(&wordlist, 2).unwrap();
    assert_eq!(other.len(), 0);
}

// A vertical run that is no dictionary word passes when every one of its
// cells lies on a horizontal dictionary word.
#[test]
fn validate_vertical_run_covered_by_horizontal_words_is_accepted() {
    let wordlist = dict(&["the"]);
    let mut board = Board::new();
    // two stacked copies of "the": the vertical runs "tt", "hh", "ee"
    // are no words, but every cell is horizontally covered
    for (r, turn) in [(0usize, 1u32), (1usize, 1u32)] {
        place(&mut board, r, 0, 't', 0, turn);
        place(&mut board, r, 1, 'h', 0, turn);
        place(&mut board, r, 2, 'e', 0, turn);
    }
    let list = board.validate(&wordlist, 0).unwrap();
    assert_eq!(list, vec!["the".to_string(), "the".to_string()]);
}

// The same vertical run fails as soon as one of its cells is not
// horizontally covered.
#[test]
fn validate_vertical_run_with_uncovered_cell_is_rejected() {
    let wordlist = dict(&["the"]);
    let mut board = Board::new();
    place(&mut board, 0, 0, 't', 0, 1);
    place(&mut board, 0, 1, 'h', 0, 1);
    place(&mut board, 0, 2, 'e', 0, 1);
    // a stray tile under the 't': vertical run "tx" is no word and the
    // 'x' cell lies on no horizontal word
    place(&mut board, 1, 0, 'x', 0, 1);
    assert!(board.validate(&wordlist, 0).is_none());
}

// Words are reported rows first (row-major), then columns (column-major).
#[test]
fn validate_reports_row_words_before_column_words() {
    let wordlist = dict(&["ab", "ba"]);
    let mut board = Board::new();
    // horizontal "ab" at row 0; vertical "ba" in column 5
    place(&mut board, 0, 0, 'a', 0, 1);
    place(&mut board, 0, 1, 'b', 0, 1);
    place(&mut board, 4, 5, 'b', 0, 1);
    place(&mut board, 5, 5, 'a', 0, 1);
    let list = board.validate(&wordlist, 0).unwrap();
    assert_eq!(list, vec!["ab".to_string(), "ba".to_string()]);
}
