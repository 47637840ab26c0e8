use rusty_moves::chess::{
    ChessGameState, ChessPlayer, EngineApply, EngineError, EngineQuery, Evaluation, QueryPhase,
    make_cmd_go_depth, make_cmd_position, make_cmd_position_moves, make_cmd_setoption_multipv,
    make_cmd_show, make_cmd_uci, parse_info_line, start_apply,
};

#[test]
fn initial_state_is_the_standard_position() {
    let gs = ChessGameState::new();
    assert_eq!(
        gs.fen,
        b"rnbqkbnr/pppppppp/8/8/8/8/PPPPPPPP/RNBQKBNR w KQkq - 0 1".to_vec()
    );
    assert_eq!(gs.eval, Evaluation::CentiPawn(7));
}

#[test]
fn commands_follow_the_line_protocol() {
    assert_eq!(make_cmd_uci(), b"uci\n".to_vec());
    assert_eq!(
        make_cmd_setoption_multipv(5),
        b"setoption name MultiPV value 5\nisready\n".to_vec()
    );
    assert_eq!(make_cmd_go_depth(10), b"go depth 10\n".to_vec());
    assert_eq!(make_cmd_go_depth(207), b"go depth 207\n".to_vec());
    assert_eq!(
        make_cmd_position(b"8/8/8/8 w - - 0 1"),
        b"position fen 8/8/8/8 w - - 0 1\nisready\n".to_vec()
    );
    assert_eq!(
        make_cmd_position_moves(b"8/8/8/8 w - - 0 1", b"e2e4"),
        b"position fen 8/8/8/8 w - - 0 1 moves e2e4\nisready\n".to_vec()
    );
    assert_eq!(make_cmd_show(), b"d\n".to_vec());
}

#[test]
fn info_line_parses_for_both_perspectives() {
    let line = b"info depth 10 seldepth 12 multipv 1 score cp 34 nodes 500000 nps 1000000 pv e2e4";
    let (eval, mv) = parse_info_line(line, 10, ChessPlayer::White).unwrap();
    assert_eq!(eval, Evaluation::CentiPawn(34));
    assert_eq!(mv, b"e2e4".to_vec());
    let (eval, mv) = parse_info_line(line, 10, ChessPlayer::Black).unwrap();
    assert_eq!(eval, Evaluation::CentiPawn(-34));
    assert_eq!(mv, b"e2e4".to_vec());
}

#[test]
fn mate_scores_parse_and_normalize() {
    let line = b"info depth 10 multipv 2 score mate -3 nodes 77 pv e7e8q";
    let (eval, mv) = parse_info_line(line, 10, ChessPlayer::White).unwrap();
    assert_eq!(eval, Evaluation::MateIn(-3));
    assert_eq!(mv, b"e7e8q".to_vec());
    let (eval, _) = parse_info_line(line, 10, ChessPlayer::Black).unwrap();
    assert_eq!(eval, Evaluation::MateIn(3));
}

#[test]
fn foreign_lines_yield_no_candidate() {
    assert_eq!(
        parse_info_line(b"info depth 9 multipv 1 score cp 34 nodes 5 pv e2e4", 10, ChessPlayer::White),
        None
    );
    assert_eq!(parse_info_line(b"bestmove e2e4", 10, ChessPlayer::White), None);
    assert_eq!(
        parse_info_line(b"info depth 10 score cp 34 pv e2e4", 10, ChessPlayer::White),
        None
    );
    assert_eq!(
        parse_info_line(b"info depth 10 score cp x nodes 5 pv e2e4", 10, ChessPlayer::White),
        None
    );
    assert_eq!(
        parse_info_line(b"info depth 10 score cp 34 nodes 5 pv z9z9", 10, ChessPlayer::White),
        None
    );
    assert_eq!(parse_info_line(b"", 10, ChessPlayer::White), None);
}

#[test]
fn query_walks_the_handshake_and_collects_candidates() {
    let fen = b"rnbqkbnr/pppppppp/8/8/8/8/PPPPPPPP/RNBQKBNR w KQkq - 0 1".to_vec();
    let mut q = EngineQuery::new(ChessPlayer::White, fen, 10, 5);
    assert_eq!(q.initial_command(), b"uci\n".to_vec());
    assert_eq!(q.on_line(b"id name SomeEngine"), None);
    assert_eq!(
        q.on_line(b"uciok\n"),
        Some(b"setoption name MultiPV value 5\nisready\n".to_vec())
    );
    assert_eq!(
        q.on_line(b"readyok\n"),
        Some(
            b"position fen rnbqkbnr/pppppppp/8/8/8/8/PPPPPPPP/RNBQKBNR w KQkq - 0 1\nisready\n"
                .to_vec()
        )
    );
    assert_eq!(q.on_line(b"readyok\n"), Some(b"go depth 10\n".to_vec()));
    assert_eq!(q.on_line(b"info string some chatter"), None);
    assert_eq!(
        q.on_line(b"info depth 10 seldepth 12 multipv 1 score cp 34 nodes 500000 nps 9 pv e2e4"),
        None
    );
    assert_eq!(
        q.on_line(b"info depth 10 seldepth 12 multipv 2 score mate 2 nodes 500000 nps 9 pv d2d4"),
        None
    );
    assert_eq!(q.on_line(b"bestmove e2e4 ponder e7e5"), None);
    assert_eq!(q.phase, QueryPhase::Done);
    let cands = q.search_outcome().unwrap();
    assert_eq!(cands.len(), 2);
    assert_eq!(cands[0].eval, Evaluation::CentiPawn(34));
    assert_eq!(cands[0].mv, b"e2e4".to_vec());
    assert_eq!(cands[1].eval, Evaluation::MateIn(2));
    assert_eq!(cands[1].mv, b"d2d4".to_vec());
}

#[test]
fn silent_engine_is_a_missing_ack() {
    let q = EngineQuery::new(ChessPlayer::White, b"8/8".to_vec(), 10, 5);
    assert!(matches!(q.search_outcome(), Err(EngineError::MissingAck)));
}

#[test]
fn apply_session_reads_the_dumped_position() {
    let mut a = EngineApply::new(b"8/8/8/8 w - - 0 1".to_vec(), b"e2e4".to_vec(), Evaluation::CentiPawn(12));
    assert_eq!(a.initial_command(), b"uci\n".to_vec());
    assert_eq!(a.on_line(b"id name SomeEngine"), None);
    assert_eq!(
        a.on_line(b"uciok\n"),
        Some(b"position fen 8/8/8/8 w - - 0 1 moves e2e4\nisready\n".to_vec())
    );
    assert_eq!(a.on_line(b"readyok\n"), Some(b"d\n".to_vec()));
    assert_eq!(a.on_line(b"some ascii art"), None);
    assert_eq!(a.on_line(b" Fen: 8/8/8/8 b - - 0 1\n"), None);
    let gs = a.outcome().unwrap();
    assert_eq!(gs.fen, b"8/8/8/8 b - - 0 1".to_vec());
    assert_eq!(gs.eval, Evaluation::CentiPawn(12));
}

#[test]
fn missing_dump_line_is_a_typed_error() {
    let mut a = EngineApply::new(b"8/8".to_vec(), b"a2a3".to_vec(), Evaluation::MateIn(1));
    assert_eq!(a.on_line(b"uciok"), Some(b"position fen 8/8 moves a2a3\nisready\n".to_vec()));
    assert_eq!(a.on_line(b"readyok"), Some(b"d\n".to_vec()));
    assert!(matches!(a.outcome(), Err(EngineError::MissingFen)));
}

#[test]
fn apply_without_handshake_is_a_missing_ack() {
    let a = EngineApply::new(b"8/8".to_vec(), b"a2a3".to_vec(), Evaluation::MateIn(1));
    assert!(matches!(a.outcome(), Err(EngineError::MissingAck)));
}

#[test]
fn empty_candidate_list_cannot_be_applied() {
    let fen = b"8/8".to_vec();
    assert!(matches!(start_apply(&fen, &Vec::new()), Err(EngineError::NoCandidates)));
}

#[test]
fn chosen_candidate_comes_from_the_list() {
    let fen = b"8/8 w - - 0 1".to_vec();
    let mut q = EngineQuery::new(ChessPlayer::White, fen.clone(), 10, 1);
    q.on_line(b"uciok");
    q.on_line(b"readyok");
    q.on_line(b"readyok");
    q.on_line(b"info depth 10 multipv 1 score cp -9 nodes 3 pv g1f3");
    q.on_line(b"bestmove g1f3");
    let cands = q.search_outcome().unwrap();
    let a = start_apply(&fen, &cands).unwrap();
    assert_eq!(a.mv, b"g1f3".to_vec());
    assert_eq!(a.eval, Evaluation::CentiPawn(-9));
    assert_eq!(a.fen, fen);
}
