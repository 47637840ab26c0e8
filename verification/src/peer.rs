use vstd::prelude::*;

use crate::tictactoe::{
    TTTBlockState, TTTGameResult, TTTPlayer, TTTGameState, MAX_BOARD_SIZE, bytes_board, byte_cell,
    is_full, move_reply_model, tictactoe_rand, ttt_get_game_status, wins,
};
use crate::{
    decode_model, encode_model, DecodeError, Game, GameAndPlayer, Message, MessageModel, ResultTag,
};

verus! {

/// Running tallies of one peer, kept only for the life of the process.
#[derive(Clone, Copy, PartialEq, Eq, Structural, Debug)]
pub struct SessionStats {
    pub wins: u64,
    pub draws: u64,
    pub losses: u64,
}

impl SessionStats {
    /// Room is left for one more game in every tally.
    pub open spec fn ok(&self) -> bool {
        &&& self.wins < u64::MAX
        &&& self.draws < u64::MAX
        &&& self.losses < u64::MAX
    }
}

/// The mark opposite to `p`.
pub open spec fn complement(p: TTTPlayer) -> TTTPlayer {
    match p {
        TTTPlayer::Circle => TTTPlayer::Cross,
        TTTPlayer::Cross => TTTPlayer::Circle,
    }
}

/// The all-empty board of side `n`.
pub open spec fn empty_board(n: int) -> Seq<TTTBlockState> {
    Seq::new((n * n) as nat, |i: int| TTTBlockState::Empty)
}

/// Whether a game-over claim agrees with the recomputed verdict of the board.
pub open spec fn claim_ok(b: Seq<TTTBlockState>, n: int, k: int, tag: ResultTag) -> bool {
    match tag {
        ResultTag::Win => wins(b, n, k, TTTBlockState::Circle) || wins(
            b,
            n,
            k,
            TTTBlockState::Cross,
        ),
        ResultTag::Draw => is_full(b) && !wins(b, n, k, TTTBlockState::Circle) && !wins(
            b,
            n,
            k,
            TTTBlockState::Cross,
        ),
    }
}

/// What handling one inbound frame led to.
#[derive(Clone, Copy, PartialEq, Eq, Structural, Debug)]
pub enum PeerOutcome {
    /// A move was made on the given cell; the reply carries the new board or
    /// the game-over frame.
    Moved(usize, usize),
    /// The peer's game-over claim was verified; the reply starts a new game.
    Restart(TTTGameResult),
    /// The frame or its board payload was rejected.
    Rejected(DecodeError),
    /// The peer's game-over claim disagrees with the recomputed verdict.
    IntegrityError,
    /// An update arrived carrying a full board, so no move can be made.
    NoMoveLeft,
    /// The frame concerns the engine-backed game, which this peer does not play.
    UnsupportedKind,
}

/// One frame to send back, if any, and what happened.
#[derive(PartialEq, Debug)]
pub struct PeerReply {
    pub reply: Option<Vec<u8>>,
    pub outcome: PeerOutcome,
}

/// The tallies after a reply message: a sent win or draw is scored at once.
pub open spec fn stats_after_reply(s: SessionStats, mm: MessageModel) -> SessionStats {
    match mm {
        MessageModel::GameOver(_, _, ResultTag::Win) => SessionStats {
            wins: (s.wins + 1) as u64,
            ..s
        },
        MessageModel::GameOver(_, _, ResultTag::Draw) => SessionStats {
            draws: (s.draws + 1) as u64,
            ..s
        },
        _ => s,
    }
}

/// A reply that made the move `(px, py)` for `p` on board `b0` and sent the
/// right frame for it.
pub open spec fn moved_reply_ok(
    b0: Seq<TTTBlockState>,
    n: int,
    k: int,
    p: TTTPlayer,
    r: PeerReply,
    old_stats: SessionStats,
    new_stats: SessionStats,
) -> bool {
    match r.outcome {
        PeerOutcome::Moved(px, py) => {
            &&& (px as int) < n
            &&& (py as int) < n
            &&& b0[px as int * n + py as int] == TTTBlockState::Empty
            &&& match r.reply {
                Some(f) => f@ == encode_model(move_reply_model(b0, n, k, p, px as int, py as int)),
                None => false,
            }
            &&& new_stats == stats_after_reply(
                old_stats,
                move_reply_model(b0, n, k, p, px as int, py as int),
            )
        },
        _ => false,
    }
}

/// One peer's session: its mark, the board parameters both peers share, and
/// its tallies. The board itself travels in the frames; each inbound frame is
/// handled to completion against the board it carries.
pub struct PeerSession {
    pub player: TTTPlayer,
    pub n: usize,
    pub k: usize,
    pub stats: SessionStats,
}

impl PeerSession {
    /// The session's fixed parameters are sane.
    pub open spec fn wf(&self) -> bool {
        1 <= self.k <= self.n <= MAX_BOARD_SIZE
    }

    /// A fresh session playing Circle with zeroed tallies.
    pub fn new(n: usize, k: usize) -> (s: PeerSession)
        requires
            1 <= k <= n <= MAX_BOARD_SIZE,
        ensures
            s.wf(),
            s.n == n,
            s.k == k,
            s.player == TTTPlayer::Circle,
            s.stats == (SessionStats { wins: 0, draws: 0, losses: 0 }),
    {
        PeerSession { player: TTTPlayer::Circle, n, k, stats: SessionStats { wins: 0, draws: 0, losses: 0 } }
    }

    /// The unsolicited frame that opens play: a new game announcing this
    /// side's own mark, so the receiver takes the other one and moves first.
    pub fn kickoff_frame(&self) -> (f: Vec<u8>)
        ensures
            f@ == encode_model(MessageModel::NewGame(GameAndPlayer::TicTacToe(self.player))),
    {
        Message::NewGame(GameAndPlayer::TicTacToe(self.player)).encode()
    }

    /// Handles one inbound frame to completion: decodes it, applies the
    /// transition the protocol asks for, and hands back at most one frame to
    /// send. Malformed frames and integrity mismatches are reported, never
    /// fatal.
    pub fn handle_frame(&mut self, frame: &[u8]) -> (r: PeerReply)
        requires
            old(self).wf(),
            old(self).stats.ok(),
        ensures
            final(self).wf(),
            final(self).n == old(self).n,
            final(self).k == old(self).k,
            match decode_model(frame@) {
                Err(e) => *final(self) == *old(self) && r.reply is None && r.outcome
                    == PeerOutcome::Rejected(e),
                Ok(mm) => match mm {
                    MessageModel::NewGame(GameAndPlayer::TicTacToe(opp)) => {
                        &&& final(self).player == complement(opp)
                        &&& moved_reply_ok(
                            empty_board(old(self).n as int),
                            old(self).n as int,
                            old(self).k as int,
                            complement(opp),
                            r,
                            old(self).stats,
                            final(self).stats,
                        )
                    },
                    MessageModel::NewGame(GameAndPlayer::Chess(_)) => {
                        &&& *final(self) == *old(self)
                        &&& r.reply is None
                        &&& r.outcome == PeerOutcome::UnsupportedKind
                    },
                    MessageModel::GameMsg(Game::TicTacToe, payload) => {
                        if payload.len() != old(self).n * old(self).n {
                            &&& *final(self) == *old(self)
                            &&& r.reply is None
                            &&& r.outcome == PeerOutcome::Rejected(DecodeError::BadBoardLength)
                        } else if exists|t: int|
                            0 <= t < payload.len() && byte_cell(#[trigger] payload[t]) is None {
                            &&& *final(self) == *old(self)
                            &&& r.reply is None
                            &&& r.outcome == PeerOutcome::Rejected(DecodeError::BadBoardChar)
                        } else if is_full(bytes_board(payload)) {
                            &&& *final(self) == *old(self)
                            &&& r.reply is None
                            &&& r.outcome == PeerOutcome::NoMoveLeft
                        } else {
                            &&& final(self).player == old(self).player
                            &&& moved_reply_ok(
                                bytes_board(payload),
                                old(self).n as int,
                                old(self).k as int,
                                old(self).player,
                                r,
                                old(self).stats,
                                final(self).stats,
                            )
                        }
                    },
                    MessageModel::GameMsg(Game::Chess, _) => {
                        &&& *final(self) == *old(self)
                        &&& r.reply is None
                        &&& r.outcome == PeerOutcome::UnsupportedKind
                    },
                    MessageModel::GameOver(Game::TicTacToe, payload, tag) => {
                        if payload.len() != old(self).n * old(self).n {
                            &&& *final(self) == *old(self)
                            &&& r.reply is None
                            &&& r.outcome == PeerOutcome::Rejected(DecodeError::BadBoardLength)
                        } else if exists|t: int|
                            0 <= t < payload.len() && byte_cell(#[trigger] payload[t]) is None {
                            &&& *final(self) == *old(self)
                            &&& r.reply is None
                            &&& r.outcome == PeerOutcome::Rejected(DecodeError::BadBoardChar)
                        } else if !claim_ok(
                            bytes_board(payload),
                            old(self).n as int,
                            old(self).k as int,
                            tag,
                        ) {
                            &&& *final(self) == *old(self)
                            &&& r.reply is None
                            &&& r.outcome == PeerOutcome::IntegrityError
                        } else {
                            &&& final(self).player == TTTPlayer::Circle
                            &&& final(self).stats == (match tag {
                                ResultTag::Draw => SessionStats {
                                    draws: (old(self).stats.draws + 1) as u64,
                                    ..old(self).stats
                                },
                                ResultTag::Win => SessionStats {
                                    losses: (old(self).stats.losses + 1) as u64,
                                    ..old(self).stats
                                },
                            })
                            &&& match r.reply {
                                Some(f) => f@ == encode_model(
                                    MessageModel::NewGame(
                                        GameAndPlayer::TicTacToe(TTTPlayer::Circle),
                                    ),
                                ),
                                None => false,
                            }
                            &&& match r.outcome {
                                PeerOutcome::Restart(res) => match tag {
                                    ResultTag::Draw => res == TTTGameResult::Draw,
                                    ResultTag::Win => (res == TTTGameResult::CircleWin && wins(
                                        bytes_board(payload),
                                        old(self).n as int,
                                        old(self).k as int,
                                        TTTBlockState::Circle,
                                    )) || (res == TTTGameResult::CrossWin && wins(
                                        bytes_board(payload),
                                        old(self).n as int,
                                        old(self).k as int,
                                        TTTBlockState::Cross,
                                    )),
                                },
                                _ => false,
                            }
                        }
                    },
                    MessageModel::GameOver(Game::Chess, _, _) => {
                        &&& *final(self) == *old(self)
                        &&& r.reply is None
                        &&& r.outcome == PeerOutcome::UnsupportedKind
                    },
                },
            },
    {
        let decoded = Message::decode(frame);
        match decoded {
            Err(e) => PeerReply { reply: None, outcome: PeerOutcome::Rejected(e) },
            Ok(msg) => match msg {
                Message::NewGame(GameAndPlayer::TicTacToe(opp)) => {
                    self.player = match opp {
                        TTTPlayer::Circle => TTTPlayer::Cross,
                        TTTPlayer::Cross => TTTPlayer::Circle,
                    };
                    let board = TTTGameState::with_size(self.n, self.k);
                    proof {
                        crate::tictactoe::lemma_cell_index(self.n as int, 0, 0);
                        assert(board.board@[0] == TTTBlockState::Empty);
                        assert(!is_full(board.board@));
                        assert(board.board@ =~= empty_board(self.n as int));
                    }
                    self.reply_with_move(board)
                },
                Message::NewGame(GameAndPlayer::Chess(_)) => PeerReply {
                    reply: None,
                    outcome: PeerOutcome::UnsupportedKind,
                },
                Message::GameMsg(Game::TicTacToe, payload) => {
                    match TTTGameState::parse_board(payload.as_slice(), self.n, self.k) {
                        Err(e) => PeerReply { reply: None, outcome: PeerOutcome::Rejected(e) },
                        Ok(board) => {
                            if is_board_full(&board) {
                                PeerReply { reply: None, outcome: PeerOutcome::NoMoveLeft }
                            } else {
                                proof {
                                    assert(board.board@ =~= bytes_board(payload@));
                                }
                                self.reply_with_move(board)
                            }
                        },
                    }
                },
                Message::GameMsg(Game::Chess, _) => PeerReply {
                    reply: None,
                    outcome: PeerOutcome::UnsupportedKind,
                },
                Message::GameOver(Game::TicTacToe, payload, tag) => {
                    match TTTGameState::parse_board(payload.as_slice(), self.n, self.k) {
                        Err(e) => PeerReply { reply: None, outcome: PeerOutcome::Rejected(e) },
                        Ok(board) => {
                            proof {
                                assert(board.board@ =~= bytes_board(payload@));
                            }
                            let status = ttt_get_game_status(&board, None);
                            let agreed = match (tag, status) {
                                (ResultTag::Draw, Some(TTTGameResult::Draw)) => true,
                                (ResultTag::Win, Some(TTTGameResult::CircleWin)) => true,
                                (ResultTag::Win, Some(TTTGameResult::CrossWin)) => true,
                                _ => false,
                            };
                            if !agreed {
                                PeerReply { reply: None, outcome: PeerOutcome::IntegrityError }
                            } else {
                                let res = match status {
                                    Some(res) => res,
                                    None => vstd::pervasive::unreached(),
                                };
                                match tag {
                                    ResultTag::Draw => {
                                        self.stats.draws = self.stats.draws + 1;
                                    },
                                    ResultTag::Win => {
                                        self.stats.losses = self.stats.losses + 1;
                                    },
                                };
                                self.player = TTTPlayer::Circle;
                                let f = Message::NewGame(
                                    GameAndPlayer::TicTacToe(TTTPlayer::Circle),
                                ).encode();
                                PeerReply {
                                    reply: Some(f),
                                    outcome: PeerOutcome::Restart(res),
                                }
                            }
                        },
                    }
                },
                Message::GameOver(Game::Chess, _, _) => PeerReply {
                    reply: None,
                    outcome: PeerOutcome::UnsupportedKind,
                },
            },
        }
    }

    /// Makes the random move on `board` for this side, scores a terminal
    /// reply, and encodes the frame to send.
    fn reply_with_move(&mut self, board: TTTGameState) -> (r: PeerReply)
        requires
            old(self).wf(),
            old(self).stats.ok(),
            board.wf(),
            board.n == old(self).n,
            board.k == old(self).k,
            !is_full(board.board@),
        ensures
            final(self).wf(),
            final(self).n == old(self).n,
            final(self).k == old(self).k,
            final(self).player == old(self).player,
            moved_reply_ok(
                board.board@,
                old(self).n as int,
                old(self).k as int,
                old(self).player,
                r,
                old(self).stats,
                final(self).stats,
            ),
    {
        let p = self.player;
        let ((px, py), msg) = tictactoe_rand(board, &p);
        match &msg {
            Message::GameOver(_, _, ResultTag::Win) => {
                self.stats.wins = self.stats.wins + 1;
            },
            Message::GameOver(_, _, ResultTag::Draw) => {
                self.stats.draws = self.stats.draws + 1;
            },
            _ => {},
        }
        let f = msg.encode();
        PeerReply { reply: Some(f), outcome: PeerOutcome::Moved(px, py) }
    }
}

/// Whether no empty cell is left on the board.
fn is_board_full(gs: &TTTGameState) -> (r: bool)
    requires
        gs.wf(),
    ensures
        r == is_full(gs.board@),
{
    let mut t: usize = 0;
    let total: usize = gs.board.len();
    while t < total
        invariant
            total == gs.board@.len(),
            t <= total,
            forall|u: int| 0 <= u < t ==> #[trigger] gs.board@[u] != TTTBlockState::Empty,
        decreases total - t,
    {
        if gs.board[t] == TTTBlockState::Empty {
            return false;
        }
        t += 1;
    }
    true
}

} // verus!
