use rusty_moves::tictactoe::{
    TTTBlockState, TTTGameResult, TTTGameState, TTTPlayer, ttt_get_game_status,
};
use rusty_moves::{DecodeError, Game, Message, ResultTag};

fn board(n: usize, k: usize, cells: &str) -> TTTGameState {
    match TTTGameState::parse_board(cells.as_bytes(), n, k) {
        Ok(gs) => gs,
        Err(e) => panic!("fixture rejected: {:?}", e),
    }
}

#[test]
fn empty_board_is_ongoing() {
    let gs = TTTGameState::with_size(5, 5);
    assert_eq!(ttt_get_game_status(&gs, None), None);
}

#[test]
fn default_board_is_twenty_by_twenty() {
    let gs = TTTGameState::new();
    assert_eq!(gs.n, 20);
    assert_eq!(gs.k, 10);
    assert_eq!(gs.serialize().len(), 400);
    assert_eq!(ttt_get_game_status(&gs, None), None);
}

#[test]
fn row_win_found_by_full_scan() {
    // ooooo / xxxx. / ..... / ..... / ...x.
    let gs = board(5, 5, "oooooxxxx              x ");
    assert_eq!(ttt_get_game_status(&gs, None), Some(TTTGameResult::CircleWin));
}

#[test]
fn column_win_found_by_full_scan() {
    // x.o.. / x.o.. / x..o. / x...o / x....
    let gs = board(5, 5, "x o  x o  x  o x   ox    ");
    assert_eq!(ttt_get_game_status(&gs, None), Some(TTTGameResult::CrossWin));
}

#[test]
fn diagonal_win_found_by_full_scan() {
    let gs = board(5, 5, "o     o     o     o     o");
    assert_eq!(ttt_get_game_status(&gs, None), Some(TTTGameResult::CircleWin));
}

#[test]
fn antidiagonal_win_found_by_full_scan() {
    let gs = board(5, 5, "    x   x   x   x   x    ");
    assert_eq!(ttt_get_game_status(&gs, None), Some(TTTGameResult::CrossWin));
}

#[test]
fn filled_board_without_run_is_a_draw() {
    let gs = board(5, 5, "ooxooxxoxxooxooxxoxxooxoo");
    assert_eq!(ttt_get_game_status(&gs, None), Some(TTTGameResult::Draw));
}

#[test]
fn fifth_placement_in_row_wins_incrementally() {
    let mut gs = TTTGameState::with_size(5, 5);
    for col in 0..5 {
        assert!(gs.apply_move(TTTPlayer::Circle, 0, col).is_ok());
    }
    assert_eq!(ttt_get_game_status(&gs, Some((0, 4))), Some(TTTGameResult::CircleWin));
}

#[test]
fn incremental_and_full_scan_agree_after_one_move() {
    let mut gs = board(3, 3, "oo xx    ");
    assert_eq!(ttt_get_game_status(&gs, None), None);
    assert!(gs.apply_move(TTTPlayer::Circle, 0, 2).is_ok());
    assert_eq!(ttt_get_game_status(&gs, Some((0, 2))), Some(TTTGameResult::CircleWin));
    assert_eq!(ttt_get_game_status(&gs, None), Some(TTTGameResult::CircleWin));

    let mut gs = board(3, 3, "ox xo    ");
    assert!(gs.apply_move(TTTPlayer::Cross, 2, 0).is_ok());
    assert_eq!(ttt_get_game_status(&gs, Some((2, 0))), None);
    assert_eq!(ttt_get_game_status(&gs, None), None);
}

#[test]
fn incremental_check_cannot_see_draws() {
    let mut gs = board(3, 3, "oxooxxxo ");
    assert!(gs.apply_move(TTTPlayer::Circle, 2, 2).is_ok());
    assert_eq!(ttt_get_game_status(&gs, Some((2, 2))), None);
    assert_eq!(ttt_get_game_status(&gs, None), Some(TTTGameResult::Draw));
}

#[test]
fn applying_to_an_occupied_cell_fails() {
    let mut gs = TTTGameState::with_size(3, 3);
    assert!(gs.apply_move(TTTPlayer::Circle, 1, 1).is_ok());
    assert!(gs.apply_move(TTTPlayer::Cross, 1, 1).is_err());
    assert_eq!(gs.serialize(), b"    o    ".to_vec());
}

#[test]
fn serialization_round_trips() {
    let text = "ooxooxxoxxooxooxxoxxooxo ";
    let gs = board(5, 5, text);
    let bytes = gs.serialize();
    assert_eq!(bytes, text.as_bytes().to_vec());
    let back = TTTGameState::parse_board(&bytes, 5, 5).unwrap();
    assert_eq!(back.n, 5);
    assert_eq!(back.k, 5);
    assert_eq!(back.serialize(), bytes);
}

#[test]
fn serialized_board_has_one_byte_per_cell() {
    let gs = TTTGameState::with_size(7, 4);
    assert_eq!(gs.serialize().len(), 49);
}

#[test]
fn short_board_string_is_a_length_error() {
    let text = "oxoxoxoxoxoxoxoxoxoxoxox";
    assert_eq!(text.len(), 24);
    assert!(matches!(
        TTTGameState::parse_board(text.as_bytes(), 5, 5),
        Err(DecodeError::BadBoardLength)
    ));
}

#[test]
fn stray_byte_in_board_string_is_a_char_error() {
    let text = "oxoxoxoxoxoxoxoxoxoxoxoz ";
    assert_eq!(text.len(), 25);
    assert!(matches!(
        TTTGameState::parse_board(text.as_bytes(), 5, 5),
        Err(DecodeError::BadBoardChar)
    ));
}

#[test]
fn random_move_on_last_cell_reports_draw() {
    let gs = board(3, 3, "oxooxxxo ");
    let ((px, py), msg) = rusty_moves::tictactoe::tictactoe_rand(gs, &TTTPlayer::Circle);
    assert_eq!((px, py), (2, 2));
    match msg {
        Message::GameOver(Game::TicTacToe, payload, ResultTag::Draw) => {
            assert_eq!(payload, b"oxooxxxoo".to_vec());
        }
        other => panic!("expected a draw frame, got {:?}", other),
    }
}

#[test]
fn random_move_completing_a_run_reports_win() {
    let gs = board(3, 3, "oo xxooxx");
    let ((px, py), msg) = rusty_moves::tictactoe::tictactoe_rand(gs, &TTTPlayer::Circle);
    assert_eq!((px, py), (0, 2));
    match msg {
        Message::GameOver(Game::TicTacToe, payload, ResultTag::Win) => {
            assert_eq!(payload, b"oooxxooxx".to_vec());
        }
        other => panic!("expected a win frame, got {:?}", other),
    }
}

#[test]
fn random_move_on_open_board_sends_an_update() {
    let gs = TTTGameState::with_size(3, 3);
    let ((px, py), msg) = rusty_moves::tictactoe::tictactoe_rand(gs, &TTTPlayer::Cross);
    assert!(px < 3 && py < 3);
    match msg {
        Message::GameMsg(Game::TicTacToe, payload) => {
            assert_eq!(payload.len(), 9);
            assert_eq!(payload.iter().filter(|&&b| b == b'x').count(), 1);
            assert_eq!(payload.iter().filter(|&&b| b == b' ').count(), 8);
            assert_eq!(payload[px * 3 + py], b'x');
        }
        other => panic!("expected an update frame, got {:?}", other),
    }
}

#[test]
fn choose_index_covers_emptiness_and_bounds() {
    assert_eq!(rusty_moves::choice::choose_index(0), None);
    assert_eq!(rusty_moves::choice::choose_index(1), Some(0));
    for _ in 0..20 {
        let i = rusty_moves::choice::choose_index(5).unwrap();
        assert!(i < 5);
    }
}

#[test]
fn parse_board_accepts_all_three_cell_bytes() {
    let gs = board(2, 2, "ox  ");
    assert_eq!(gs.board[0], TTTBlockState::Circle);
    assert_eq!(gs.board[1], TTTBlockState::Cross);
    assert_eq!(gs.board[2], TTTBlockState::Empty);
}

#[test]
fn ten_in_a_row_wins_on_the_default_board() {
    let mut gs = TTTGameState::new();
    for col in 3..12 {
        assert!(gs.apply_move(TTTPlayer::Cross, 7, col).is_ok());
    }
    // nine in a row is not yet a win when ten are needed
    assert_eq!(ttt_get_game_status(&gs, Some((7, 11))), None);
    assert_eq!(ttt_get_game_status(&gs, None), None);
    assert!(gs.apply_move(TTTPlayer::Cross, 7, 12).is_ok());
    assert_eq!(ttt_get_game_status(&gs, Some((7, 12))), Some(TTTGameResult::CrossWin));
    assert_eq!(ttt_get_game_status(&gs, None), Some(TTTGameResult::CrossWin));
}
