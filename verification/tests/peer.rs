use rusty_moves::peer::{PeerOutcome, PeerSession};
use rusty_moves::tictactoe::{TTTGameResult, TTTPlayer};
use rusty_moves::DecodeError;

#[test]
fn kickoff_announces_own_mark() {
    let s = PeerSession::new(3, 3);
    assert_eq!(s.kickoff_frame(), b"start:ttt,o".to_vec());
}

#[test]
fn new_game_takes_the_complement_mark_and_moves() {
    let mut s = PeerSession::new(3, 3);
    let r = s.handle_frame(b"start:ttt,o");
    assert_eq!(s.player, TTTPlayer::Cross);
    match r.outcome {
        PeerOutcome::Moved(px, py) => {
            assert!(px < 3 && py < 3);
        }
        other => panic!("expected a move, got {:?}", other),
    }
    let frame = r.reply.expect("a reply frame is owed");
    assert!(frame.starts_with(b"ttt:"));
    let payload = &frame[4..];
    assert_eq!(payload.len(), 9);
    assert_eq!(payload.iter().filter(|&&b| b == b'x').count(), 1);
    assert_eq!(s.stats.wins + s.stats.draws + s.stats.losses, 0);
}

#[test]
fn update_with_one_cell_left_finishes_with_a_draw() {
    let mut s = PeerSession::new(3, 3);
    let r = s.handle_frame(b"ttt:oxooxxxo ");
    assert_eq!(r.outcome, PeerOutcome::Moved(2, 2));
    assert_eq!(
        r.reply.expect("a reply frame is owed"),
        b"ttt-game-over:\ndraw\noxooxxxoo".to_vec()
    );
    assert_eq!(s.stats.draws, 1);
    assert_eq!(s.stats.wins, 0);
}

#[test]
fn update_where_the_only_move_wins_finishes_with_a_win() {
    let mut s = PeerSession::new(3, 3);
    let r = s.handle_frame(b"ttt:oo xxooxx");
    assert_eq!(r.outcome, PeerOutcome::Moved(0, 2));
    assert_eq!(
        r.reply.expect("a reply frame is owed"),
        b"ttt-game-over:\nwin\noooxxooxx".to_vec()
    );
    assert_eq!(s.stats.wins, 1);
}

#[test]
fn update_with_a_full_board_leaves_no_move() {
    let mut s = PeerSession::new(3, 3);
    let r = s.handle_frame(b"ttt:oxooxxxoo");
    assert_eq!(r.outcome, PeerOutcome::NoMoveLeft);
    assert!(r.reply.is_none());
}

#[test]
fn acknowledged_win_claim_restarts_play() {
    let mut s = PeerSession::new(3, 3);
    s.player = TTTPlayer::Cross;
    let r = s.handle_frame(b"ttt-game-over:\nwin\noooxx x  ");
    assert_eq!(r.outcome, PeerOutcome::Restart(TTTGameResult::CircleWin));
    assert_eq!(r.reply.expect("a restart frame is owed"), b"start:ttt,o".to_vec());
    assert_eq!(s.stats.losses, 1);
    assert_eq!(s.player, TTTPlayer::Circle);
}

#[test]
fn acknowledged_draw_claim_restarts_play() {
    let mut s = PeerSession::new(3, 3);
    let r = s.handle_frame(b"ttt-game-over:\ndraw\noxooxxxoo");
    assert_eq!(r.outcome, PeerOutcome::Restart(TTTGameResult::Draw));
    assert_eq!(r.reply.expect("a restart frame is owed"), b"start:ttt,o".to_vec());
    assert_eq!(s.stats.draws, 1);
}

#[test]
fn disagreeing_claim_is_an_integrity_error() {
    let mut s = PeerSession::new(3, 3);
    // the board is not even terminal
    let r = s.handle_frame(b"ttt-game-over:\nwin\nox       ");
    assert_eq!(r.outcome, PeerOutcome::IntegrityError);
    assert!(r.reply.is_none());
    assert_eq!(s.stats.losses, 0);

    // the board is a draw, yet a win is claimed
    let r = s.handle_frame(b"ttt-game-over:\nwin\noxooxxxoo");
    assert_eq!(r.outcome, PeerOutcome::IntegrityError);
    assert!(r.reply.is_none());
}

#[test]
fn malformed_frames_are_rejected_not_fatal() {
    let mut s = PeerSession::new(3, 3);
    let r = s.handle_frame(b"garbage");
    assert_eq!(r.outcome, PeerOutcome::Rejected(DecodeError::UnknownFrame));
    assert!(r.reply.is_none());

    let r = s.handle_frame(b"ttt:oxo");
    assert_eq!(r.outcome, PeerOutcome::Rejected(DecodeError::BadBoardLength));

    let r = s.handle_frame(b"ttt:ox zz xo ");
    assert_eq!(r.outcome, PeerOutcome::Rejected(DecodeError::BadBoardChar));

    let r = s.handle_frame(b"ttt-game-over:\nmeh\noxooxxxoo");
    assert_eq!(r.outcome, PeerOutcome::Rejected(DecodeError::BadResultTag));
    assert_eq!(s.player, TTTPlayer::Circle);
    assert_eq!(s.stats.wins + s.stats.draws + s.stats.losses, 0);
}

#[test]
fn engine_backed_frames_are_an_unsupported_kind() {
    let mut s = PeerSession::new(3, 3);
    let r = s.handle_frame(b"start:chess,w");
    assert_eq!(r.outcome, PeerOutcome::UnsupportedKind);
    assert!(r.reply.is_none());
    let r = s.handle_frame(b"chess:8/8 w - - 0 1");
    assert_eq!(r.outcome, PeerOutcome::UnsupportedKind);
    let r = s.handle_frame(b"chess-game-over:\nwin\n8/8");
    assert_eq!(r.outcome, PeerOutcome::UnsupportedKind);
}

#[test]
fn two_sessions_can_play_a_whole_game_against_each_other() {
    let mut a = PeerSession::new(3, 3);
    let mut b = PeerSession::new(3, 3);
    let mut frame = a.kickoff_frame();
    // a announced Circle, so b answers as Cross from here on
    let mut to_b = true;
    for _ in 0..32 {
        let r = if to_b { b.handle_frame(&frame) } else { a.handle_frame(&frame) };
        match r.outcome {
            PeerOutcome::Moved(_, _) => {
                frame = r.reply.expect("a move always carries a frame");
                to_b = !to_b;
            }
            PeerOutcome::Restart(_) => {
                return;
            }
            other => panic!("unexpected outcome {:?}", other),
        }
    }
    panic!("game never finished on a 3 by 3 board");
}
