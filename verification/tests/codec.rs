use rusty_moves::chess::ChessPlayer;
use rusty_moves::tictactoe::TTTPlayer;
use rusty_moves::{DecodeError, Game, GameAndPlayer, Message, ResultTag};

fn round_trip(m: Message) -> Message {
    let frame = m.encode();
    match Message::decode(&frame) {
        Ok(back) => back,
        Err(e) => panic!("own frame rejected: {:?}", e),
    }
}

#[test]
fn new_game_frames_use_the_start_grammar() {
    assert_eq!(
        Message::NewGame(GameAndPlayer::TicTacToe(TTTPlayer::Circle)).encode(),
        b"start:ttt,o".to_vec()
    );
    assert_eq!(
        Message::NewGame(GameAndPlayer::TicTacToe(TTTPlayer::Cross)).encode(),
        b"start:ttt,x".to_vec()
    );
    assert_eq!(
        Message::NewGame(GameAndPlayer::Chess(ChessPlayer::White)).encode(),
        b"start:chess,w".to_vec()
    );
    assert_eq!(
        Message::NewGame(GameAndPlayer::Chess(ChessPlayer::Black)).encode(),
        b"start:chess,b".to_vec()
    );
}

#[test]
fn update_frames_carry_the_board_after_the_header() {
    let m = Message::GameMsg(Game::TicTacToe, b"ox  ".to_vec());
    assert_eq!(m.encode(), b"ttt:ox  ".to_vec());
    let m = Message::GameMsg(Game::Chess, b"8/8/8/8 w - - 0 1".to_vec());
    assert_eq!(m.encode(), b"chess:8/8/8/8 w - - 0 1".to_vec());
}

#[test]
fn game_over_frames_carry_verdict_then_board() {
    let m = Message::GameOver(Game::TicTacToe, b"oooxx ox ".to_vec(), ResultTag::Win);
    assert_eq!(m.encode(), b"ttt-game-over:\nwin\noooxx ox ".to_vec());
    let m = Message::GameOver(Game::TicTacToe, b"oxooxxxoo".to_vec(), ResultTag::Draw);
    assert_eq!(m.encode(), b"ttt-game-over:\ndraw\noxooxxxoo".to_vec());
    let m = Message::GameOver(Game::Chess, b"8/8 b - - 9 40".to_vec(), ResultTag::Win);
    assert_eq!(m.encode(), b"chess-game-over:\nwin\n8/8 b - - 9 40".to_vec());
}

#[test]
fn every_message_kind_round_trips() {
    let cases = vec![
        Message::NewGame(GameAndPlayer::TicTacToe(TTTPlayer::Circle)),
        Message::NewGame(GameAndPlayer::TicTacToe(TTTPlayer::Cross)),
        Message::NewGame(GameAndPlayer::Chess(ChessPlayer::White)),
        Message::NewGame(GameAndPlayer::Chess(ChessPlayer::Black)),
        Message::GameMsg(Game::TicTacToe, b"oxo xxo o".to_vec()),
        Message::GameMsg(Game::Chess, b"rnbq w KQ - 2 3".to_vec()),
        Message::GameOver(Game::TicTacToe, b"oooxx x  ".to_vec(), ResultTag::Win),
        Message::GameOver(Game::TicTacToe, b"oxooxxxoo".to_vec(), ResultTag::Draw),
        Message::GameOver(Game::Chess, b"8/8 w - - 0 1".to_vec(), ResultTag::Win),
        Message::GameOver(Game::Chess, b"8/8 b - - 0 9".to_vec(), ResultTag::Draw),
    ];
    for m in cases {
        let frame = m.encode();
        let back = round_trip(m);
        assert_eq!(back.encode(), frame);
    }
}

#[test]
fn decoded_messages_equal_the_originals() {
    let m = Message::GameMsg(Game::TicTacToe, b"   x   o ".to_vec());
    assert_eq!(round_trip(m), Message::GameMsg(Game::TicTacToe, b"   x   o ".to_vec()));
    let m = Message::GameOver(Game::TicTacToe, b"ooo      ".to_vec(), ResultTag::Win);
    assert_eq!(
        round_trip(m),
        Message::GameOver(Game::TicTacToe, b"ooo      ".to_vec(), ResultTag::Win)
    );
}

#[test]
fn unknown_frames_are_rejected() {
    assert_eq!(Message::decode(b"hello"), Err(DecodeError::UnknownFrame));
    assert_eq!(Message::decode(b""), Err(DecodeError::UnknownFrame));
    assert_eq!(Message::decode(b"start:ttt,q"), Err(DecodeError::UnknownFrame));
    assert_eq!(Message::decode(b"tt:oxo"), Err(DecodeError::UnknownFrame));
}

#[test]
fn game_over_with_a_bad_verdict_line_is_rejected() {
    assert_eq!(
        Message::decode(b"ttt-game-over:\nmeh\noxooxxxoo"),
        Err(DecodeError::BadResultTag)
    );
    assert_eq!(Message::decode(b"ttt-game-over:\n"), Err(DecodeError::BadResultTag));
    assert_eq!(
        Message::decode(b"chess-game-over:\nlost\n8/8"),
        Err(DecodeError::BadResultTag)
    );
}

#[test]
fn update_payload_may_be_empty() {
    let m = Message::GameMsg(Game::TicTacToe, Vec::new());
    assert_eq!(m.encode(), b"ttt:".to_vec());
    assert_eq!(round_trip(m), Message::GameMsg(Game::TicTacToe, Vec::new()));
}
