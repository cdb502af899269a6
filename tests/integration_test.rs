use cwordle::gamestate::{GameData, GameStatus};
use cwordle::words;

const WORD_LIST: &str = "happy\nworld\nglued\ngrape\nstone\nbrick\n";

fn new_game() -> GameData {
    let list = words::WordList::new(WORD_LIST).unwrap();
    GameData::new(&words::choose_word(&list))
}

#[test]
fn test_game_flow() {
    let mut game = new_game();
    let winning_word = game.winning_word();

    // First try a wrong guess
    let wrong_guess = if winning_word == "happy" {
        "world".to_string()
    } else {
        "happy".to_string()
    };

    game.new_guess(&wrong_guess);
    assert_eq!(game.status(), GameStatus::PLAYING);
    assert_eq!(game.guess_count(), 1);

    // Then win with correct word
    game.new_guess(&winning_word.to_string());
    assert_eq!(game.status(), GameStatus::WON);
}

#[test]
fn test_word_validation_integration() {
    // Test that chosen words are always valid
    let list = words::WordList::new(WORD_LIST).unwrap();
    let word = words::choose_word(&list);
    assert!(words::word_isvalid(&list, &word));
}

#[test]
fn test_invalid_input_handling() {
    let _game = new_game();
    let list = words::WordList::new(WORD_LIST).unwrap();
    let invalid_inputs = vec!["", "test", "toolong", "12345"];

    for input in invalid_inputs {
        assert!(!words::word_isvalid(&list, input));
    }
}
