use vstd::prelude::*;

pub mod bytes;
pub mod chess;
pub mod choice;
pub mod peer;
pub mod tictactoe;

use crate::bytes::{bytes_eq, bytes_starts_with, push_bytes};

verus! {

/// The two game variants carried by the wire protocol.
#[derive(Clone, Copy, PartialEq, Eq, Structural, Debug)]
pub enum Game {
    Chess,
    TicTacToe,
}

/// The mark the sending peer plays, for either game variant.
#[derive(Clone, Copy, PartialEq, Eq, Structural, Debug)]
pub enum GameAndPlayer {
    Chess(chess::ChessPlayer),
    TicTacToe(tictactoe::TTTPlayer),
}

/// The verdict tag a game-over frame carries; the winner is always the peer
/// that sent the frame.
#[derive(Clone, Copy, PartialEq, Eq, Structural, Debug)]
pub enum ResultTag {
    Draw,
    Win,
}

/// Why a frame was rejected.
#[derive(Clone, Copy, PartialEq, Eq, Structural, Debug)]
pub enum DecodeError {
    /// The frame matches none of the known patterns.
    UnknownFrame,
    /// A board payload does not hold exactly one byte per cell.
    BadBoardLength,
    /// A board payload holds a byte that is no cell mark.
    BadBoardChar,
    /// A game-over frame carries a verdict line that is neither draw nor win.
    BadResultTag,
}

/// A protocol message: one frame's worth of content.
#[derive(PartialEq, Debug)]
pub enum Message {
    NewGame(GameAndPlayer),
    GameMsg(Game, Vec<u8>),
    GameOver(Game, Vec<u8>, ResultTag),
}

/// The mathematical shape of a message: payloads as byte sequences.
pub enum MessageModel {
    NewGame(GameAndPlayer),
    GameMsg(Game, Seq<u8>),
    GameOver(Game, Seq<u8>, ResultTag),
}

impl View for Message {
    type V = MessageModel;

    open spec fn view(&self) -> MessageModel {
        match self {
            Message::NewGame(gp) => MessageModel::NewGame(*gp),
            Message::GameMsg(g, b) => MessageModel::GameMsg(*g, b@),
            Message::GameOver(g, b, t) => MessageModel::GameOver(*g, b@, *t),
        }
    }
}

/// The bytes of `"start:ttt,o"`.
pub open spec fn frame_start_ttt_circle() -> Seq<u8> {
    seq![115u8, 116, 97, 114, 116, 58, 116, 116, 116, 44, 111]
}

/// The bytes of `"start:ttt,x"`.
pub open spec fn frame_start_ttt_cross() -> Seq<u8> {
    seq![115u8, 116, 97, 114, 116, 58, 116, 116, 116, 44, 120]
}

/// The bytes of `"start:chess,w"`.
pub open spec fn frame_start_chess_white() -> Seq<u8> {
    seq![115u8, 116, 97, 114, 116, 58, 99, 104, 101, 115, 115, 44, 119]
}

/// The bytes of `"start:chess,b"`.
pub open spec fn frame_start_chess_black() -> Seq<u8> {
    seq![115u8, 116, 97, 114, 116, 58, 99, 104, 101, 115, 115, 44, 98]
}

/// The bytes of `"ttt:"`.
pub open spec fn header_ttt_msg() -> Seq<u8> {
    seq![116u8, 116, 116, 58]
}

/// The bytes of `"chess:"`.
pub open spec fn header_chess_msg() -> Seq<u8> {
    seq![99u8, 104, 101, 115, 115, 58]
}

/// The bytes of `"ttt-game-over:\n"`.
pub open spec fn header_ttt_over() -> Seq<u8> {
    seq![116u8, 116, 116, 45, 103, 97, 109, 101, 45, 111, 118, 101, 114, 58, 10]
}

/// The bytes of `"chess-game-over:\n"`.
pub open spec fn header_chess_over() -> Seq<u8> {
    seq![99u8, 104, 101, 115, 115, 45, 103, 97, 109, 101, 45, 111, 118, 101, 114, 58, 10]
}

/// The verdict line of a game-over frame: `"draw"` or `"win"`.
pub open spec fn tag_bytes(t: ResultTag) -> Seq<u8> {
    match t {
        ResultTag::Draw => seq![100u8, 114, 97, 119],
        ResultTag::Win => seq![119u8, 105, 110],
    }
}

/// `p` is a prefix of `f`.
pub open spec fn has_prefix(f: Seq<u8>, p: Seq<u8>) -> bool {
    f.len() >= p.len() && f.subrange(0, p.len() as int) == p
}

/// The frame that carries a message.
pub open spec fn encode_model(m: MessageModel) -> Seq<u8> {
    match m {
        MessageModel::NewGame(GameAndPlayer::TicTacToe(tictactoe::TTTPlayer::Circle)) =>
            frame_start_ttt_circle(),
        MessageModel::NewGame(GameAndPlayer::TicTacToe(tictactoe::TTTPlayer::Cross)) =>
            frame_start_ttt_cross(),
        MessageModel::NewGame(GameAndPlayer::Chess(chess::ChessPlayer::White)) =>
            frame_start_chess_white(),
        MessageModel::NewGame(GameAndPlayer::Chess(chess::ChessPlayer::Black)) =>
            frame_start_chess_black(),
        MessageModel::GameMsg(Game::TicTacToe, b) => header_ttt_msg() + b,
        MessageModel::GameMsg(Game::Chess, b) => header_chess_msg() + b,
        MessageModel::GameOver(Game::TicTacToe, b, t) => header_ttt_over() + tag_bytes(t)
            + seq![10u8] + b,
        MessageModel::GameOver(Game::Chess, b, t) => header_chess_over() + tag_bytes(t)
            + seq![10u8] + b,
    }
}

/// Reads the verdict line and board payload of a game-over frame body.
pub open spec fn decode_over_model(g: Game, rest: Seq<u8>) -> Result<MessageModel, DecodeError> {
    if has_prefix(rest, tag_bytes(ResultTag::Draw) + seq![10u8]) {
        Ok(MessageModel::GameOver(g, rest.skip(5), ResultTag::Draw))
    } else if has_prefix(rest, tag_bytes(ResultTag::Win) + seq![10u8]) {
        Ok(MessageModel::GameOver(g, rest.skip(4), ResultTag::Win))
    } else {
        Err(DecodeError::BadResultTag)
    }
}

/// The message a frame carries, or the reason it carries none. Total over all
/// byte strings: anything outside the grammar is a `DecodeError`.
pub open spec fn decode_model(f: Seq<u8>) -> Result<MessageModel, DecodeError> {
    if f == frame_start_ttt_circle() {
        Ok(MessageModel::NewGame(GameAndPlayer::TicTacToe(tictactoe::TTTPlayer::Circle)))
    } else if f == frame_start_ttt_cross() {
        Ok(MessageModel::NewGame(GameAndPlayer::TicTacToe(tictactoe::TTTPlayer::Cross)))
    } else if f == frame_start_chess_white() {
        Ok(MessageModel::NewGame(GameAndPlayer::Chess(chess::ChessPlayer::White)))
    } else if f == frame_start_chess_black() {
        Ok(MessageModel::NewGame(GameAndPlayer::Chess(chess::ChessPlayer::Black)))
    } else if has_prefix(f, header_ttt_over()) {
        decode_over_model(Game::TicTacToe, f.skip(15))
    } else if has_prefix(f, header_chess_over()) {
        decode_over_model(Game::Chess, f.skip(17))
    } else if has_prefix(f, header_ttt_msg()) {
        Ok(MessageModel::GameMsg(Game::TicTacToe, f.skip(4)))
    } else if has_prefix(f, header_chess_msg()) {
        Ok(MessageModel::GameMsg(Game::Chess, f.skip(6)))
    } else {
        Err(DecodeError::UnknownFrame)
    }
}

/// A decode result, with the message reduced to its model.
pub open spec fn result_model(r: Result<Message, DecodeError>) -> Result<MessageModel, DecodeError> {
    match r {
        Ok(m) => Ok(m@),
        Err(e) => Err(e),
    }
}

} // verus!

verus! {

/// Builds the frame `"start:ttt,o"`.
fn frame_vec_start_ttt_circle() -> (v: Vec<u8>)
    ensures
        v@ == frame_start_ttt_circle(),
{
    let mut v: Vec<u8> = Vec::new();
    v.push(115);
    v.push(116);
    v.push(97);
    v.push(114);
    v.push(116);
    v.push(58);
    v.push(116);
    v.push(116);
    v.push(116);
    v.push(44);
    v.push(111);
    proof {
        assert(v@ =~= frame_start_ttt_circle());
    }
    v
}

/// Builds the frame `"start:ttt,x"`.
fn frame_vec_start_ttt_cross() -> (v: Vec<u8>)
    ensures
        v@ == frame_start_ttt_cross(),
{
    let mut v: Vec<u8> = Vec::new();
    v.push(115);
    v.push(116);
    v.push(97);
    v.push(114);
    v.push(116);
    v.push(58);
    v.push(116);
    v.push(116);
    v.push(116);
    v.push(44);
    v.push(120);
    proof {
        assert(v@ =~= frame_start_ttt_cross());
    }
    v
}

/// Builds the frame `"start:chess,w"`.
fn frame_vec_start_chess_white() -> (v: Vec<u8>)
    ensures
        v@ == frame_start_chess_white(),
{
    let mut v: Vec<u8> = Vec::new();
    v.push(115);
    v.push(116);
    v.push(97);
    v.push(114);
    v.push(116);
    v.push(58);
    v.push(99);
    v.push(104);
    v.push(101);
    v.push(115);
    v.push(115);
    v.push(44);
    v.push(119);
    proof {
        assert(v@ =~= frame_start_chess_white());
    }
    v
}

/// Builds the frame `"start:chess,b"`.
fn frame_vec_start_chess_black() -> (v: Vec<u8>)
    ensures
        v@ == frame_start_chess_black(),
{
    let mut v: Vec<u8> = Vec::new();
    v.push(115);
    v.push(116);
    v.push(97);
    v.push(114);
    v.push(116);
    v.push(58);
    v.push(99);
    v.push(104);
    v.push(101);
    v.push(115);
    v.push(115);
    v.push(44);
    v.push(98);
    proof {
        assert(v@ =~= frame_start_chess_black());
    }
    v
}

/// Builds the header `"ttt:"`.
fn header_vec_ttt_msg() -> (v: Vec<u8>)
    ensures
        v@ == header_ttt_msg(),
{
    let mut v: Vec<u8> = Vec::new();
    v.push(116);
    v.push(116);
    v.push(116);
    v.push(58);
    proof {
        assert(v@ =~= header_ttt_msg());
    }
    v
}

/// Builds the header `"chess:"`.
fn header_vec_chess_msg() -> (v: Vec<u8>)
    ensures
        v@ == header_chess_msg(),
{
    let mut v: Vec<u8> = Vec::new();
    v.push(99);
    v.push(104);
    v.push(101);
    v.push(115);
    v.push(115);
    v.push(58);
    proof {
        assert(v@ =~= header_chess_msg());
    }
    v
}

/// Builds the header `"ttt-game-over:\n"`.
fn header_vec_ttt_over() -> (v: Vec<u8>)
    ensures
        v@ == header_ttt_over(),
{
    let mut v: Vec<u8> = Vec::new();
    v.push(116);
    v.push(116);
    v.push(116);
    v.push(45);
    v.push(103);
    v.push(97);
    v.push(109);
    v.push(101);
    v.push(45);
    v.push(111);
    v.push(118);
    v.push(101);
    v.push(114);
    v.push(58);
    v.push(10);
    proof {
        assert(v@ =~= header_ttt_over());
    }
    v
}

/// Builds the header `"chess-game-over:\n"`.
fn header_vec_chess_over() -> (v: Vec<u8>)
    ensures
        v@ == header_chess_over(),
{
    let mut v: Vec<u8> = Vec::new();
    v.push(99);
    v.push(104);
    v.push(101);
    v.push(115);
    v.push(115);
    v.push(45);
    v.push(103);
    v.push(97);
    v.push(109);
    v.push(101);
    v.push(45);
    v.push(111);
    v.push(118);
    v.push(101);
    v.push(114);
    v.push(58);
    v.push(10);
    proof {
        assert(v@ =~= header_chess_over());
    }
    v
}

/// Builds the verdict line of a game-over frame: the tag followed by a newline.
fn tag_line_vec(t: ResultTag) -> (v: Vec<u8>)
    ensures
        v@ == tag_bytes(t) + seq![10u8],
{
    let mut v: Vec<u8> = Vec::new();
    match t {
        ResultTag::Draw => {
            v.push(100);
            v.push(114);
            v.push(97);
            v.push(119);
        },
        ResultTag::Win => {
            v.push(119);
            v.push(105);
            v.push(110);
        },
    }
    v.push(10);
    proof {
        assert(v@ =~= tag_bytes(t) + seq![10u8]);
    }
    v
}

impl Message {
    /// Encodes the message into one wire frame.
    pub fn encode(&self) -> (r: Vec<u8>)
        ensures
            r@ == encode_model(self@),
    {
        match self {
            Message::NewGame(GameAndPlayer::TicTacToe(tictactoe::TTTPlayer::Circle)) =>
                frame_vec_start_ttt_circle(),
            Message::NewGame(GameAndPlayer::TicTacToe(tictactoe::TTTPlayer::Cross)) =>
                frame_vec_start_ttt_cross(),
            Message::NewGame(GameAndPlayer::Chess(chess::ChessPlayer::White)) =>
                frame_vec_start_chess_white(),
            Message::NewGame(GameAndPlayer::Chess(chess::ChessPlayer::Black)) =>
                frame_vec_start_chess_black(),
            Message::GameMsg(g, b) => {
                let mut v = match g {
                    Game::TicTacToe => header_vec_ttt_msg(),
                    Game::Chess => header_vec_chess_msg(),
                };
                push_bytes(&mut v, b.as_slice());
                v
            },
            Message::GameOver(g, b, t) => {
                let mut v = match g {
                    Game::TicTacToe => header_vec_ttt_over(),
                    Game::Chess => header_vec_chess_over(),
                };
                let line = tag_line_vec(*t);
                push_bytes(&mut v, line.as_slice());
                push_bytes(&mut v, b.as_slice());
                proof {
                    assert(v@ =~= encode_model(self@));
                }
                v
            },
        }
    }

    /// Decodes one wire frame; any frame outside the grammar yields the
    /// matching `DecodeError`.
    pub fn decode(frame: &[u8]) -> (r: Result<Message, DecodeError>)
        ensures
            result_model(r) == decode_model(frame@),
    {
        let c = frame_vec_start_ttt_circle();
        if bytes_eq(frame, c.as_slice()) {
            return Ok(Message::NewGame(GameAndPlayer::TicTacToe(tictactoe::TTTPlayer::Circle)));
        }
        let c = frame_vec_start_ttt_cross();
        if bytes_eq(frame, c.as_slice()) {
            return Ok(Message::NewGame(GameAndPlayer::TicTacToe(tictactoe::TTTPlayer::Cross)));
        }
        let c = frame_vec_start_chess_white();
        if bytes_eq(frame, c.as_slice()) {
            return Ok(Message::NewGame(GameAndPlayer::Chess(chess::ChessPlayer::White)));
        }
        let c = frame_vec_start_chess_black();
        if bytes_eq(frame, c.as_slice()) {
            return Ok(Message::NewGame(GameAndPlayer::Chess(chess::ChessPlayer::Black)));
        }
        let h = header_vec_ttt_over();
        if bytes_starts_with(frame, h.as_slice()) {
            return decode_over(Game::TicTacToe, frame, 15);
        }
        let h = header_vec_chess_over();
        if bytes_starts_with(frame, h.as_slice()) {
            return decode_over(Game::Chess, frame, 17);
        }
        let h = header_vec_ttt_msg();
        if bytes_starts_with(frame, h.as_slice()) {
            let rest = vstd::slice::slice_subrange(frame, 4, frame.len());
            let payload = vstd::slice::slice_to_vec(rest);
            proof {
                assert(payload@ =~= frame@.skip(4));
            }
            return Ok(Message::GameMsg(Game::TicTacToe, payload));
        }
        let h = header_vec_chess_msg();
        if bytes_starts_with(frame, h.as_slice()) {
            let rest = vstd::slice::slice_subrange(frame, 6, frame.len());
            let payload = vstd::slice::slice_to_vec(rest);
            proof {
                assert(payload@ =~= frame@.skip(6));
            }
            return Ok(Message::GameMsg(Game::Chess, payload));
        }
        Err(DecodeError::UnknownFrame)
    }
}

/// Decodes the body of a game-over frame whose header fills `hlen` bytes.
fn decode_over(g: Game, frame: &[u8], hlen: usize) -> (r: Result<Message, DecodeError>)
    requires
        hlen <= frame@.len(),
    ensures
        result_model(r) == decode_over_model(g, frame@.skip(hlen as int)),
{
    let rest = vstd::slice::slice_subrange(frame, hlen, frame.len());
    proof {
        assert(rest@ =~= frame@.skip(hlen as int));
    }
    let dline = tag_line_vec(ResultTag::Draw);
    if bytes_starts_with(rest, dline.as_slice()) {
        let board = vstd::slice::slice_to_vec(vstd::slice::slice_subrange(rest, 5, rest.len()));
        proof {
            assert(board@ =~= frame@.skip(hlen as int).skip(5));
        }
        return Ok(Message::GameOver(g, board, ResultTag::Draw));
    }
    let wline = tag_line_vec(ResultTag::Win);
    if bytes_starts_with(rest, wline.as_slice()) {
        let board = vstd::slice::slice_to_vec(vstd::slice::slice_subrange(rest, 4, rest.len()));
        proof {
            assert(board@ =~= frame@.skip(hlen as int).skip(4));
        }
        return Ok(Message::GameOver(g, board, ResultTag::Win));
    }
    Err(DecodeError::BadResultTag)
}

} // verus!

verus! {

/// Law: decoding an encoded message recovers the message, for all three
/// message kinds and both game kinds.
pub proof fn lemma_message_round_trip(m: MessageModel)
    ensures
        decode_model(encode_model(m)) == Ok::<MessageModel, DecodeError>(m),
{
    let f = encode_model(m);
    match m {
        MessageModel::NewGame(gp) => {
            match gp {
                GameAndPlayer::TicTacToe(tictactoe::TTTPlayer::Circle) => {
                },
                GameAndPlayer::TicTacToe(tictactoe::TTTPlayer::Cross) => {
                    assert(f[10] == 120 && frame_start_ttt_circle()[10] == 111);
                },
                GameAndPlayer::Chess(chess::ChessPlayer::White) => {
                    assert(f.len() == 13 && frame_start_ttt_circle().len() == 11);
                },
                GameAndPlayer::Chess(chess::ChessPlayer::Black) => {
                    assert(f.len() == 13 && frame_start_ttt_circle().len() == 11);
                    assert(f[12] == 98 && frame_start_chess_white()[12] == 119);
                },
            }
        },
        MessageModel::GameMsg(g, b) => {
            match g {
                Game::TicTacToe => {
                    assert(f[0] == 116);
                    assert(frame_start_ttt_circle()[0] == 115);
                    assert(frame_start_chess_white()[0] == 115);
                    if has_prefix(f, header_ttt_over()) {
                        assert(f.subrange(0, 15)[3] == f[3]);
                        assert(f[3] == 58 && header_ttt_over()[3] == 45);
                        assert(false);
                    }
                    if has_prefix(f, header_chess_over()) {
                        assert(f.subrange(0, 17)[0] == f[0]);
                        assert(header_chess_over()[0] == 99);
                        assert(false);
                    }
                    assert(f.subrange(0, 4) =~= header_ttt_msg());
                    assert(f.skip(4) =~= b);
                },
                Game::Chess => {
                    assert(f[0] == 99);
                    assert(frame_start_ttt_circle()[0] == 115);
                    assert(frame_start_chess_white()[0] == 115);
                    if has_prefix(f, header_ttt_over()) {
                        assert(f.subrange(0, 15)[0] == f[0]);
                        assert(header_ttt_over()[0] == 116);
                        assert(false);
                    }
                    if has_prefix(f, header_chess_over()) {
                        assert(f.subrange(0, 17)[5] == f[5]);
                        assert(f[5] == 58 && header_chess_over()[5] == 45);
                        assert(false);
                    }
                    if has_prefix(f, header_ttt_msg()) {
                        assert(f.subrange(0, 4)[0] == f[0]);
                        assert(header_ttt_msg()[0] == 116);
                        assert(false);
                    }
                    assert(f.subrange(0, 6) =~= header_chess_msg());
                    assert(f.skip(6) =~= b);
                },
            }
        },
        MessageModel::GameOver(g, b, t) => {
            let line = tag_bytes(t) + seq![10u8];
            match g {
                Game::TicTacToe => {
                    assert(f[0] == 116);
                    assert(frame_start_ttt_circle()[0] == 115);
                    assert(frame_start_chess_white()[0] == 115);
                    assert(f.subrange(0, 15) =~= header_ttt_over());
                    let rest = f.skip(15);
                    assert(rest =~= line + b);
                    match t {
                        ResultTag::Draw => {
                            assert(rest.subrange(0, 5) =~= tag_bytes(ResultTag::Draw)
                                + seq![10u8]);
                            assert(rest.skip(5) =~= b);
                        },
                        ResultTag::Win => {
                            if has_prefix(rest, tag_bytes(ResultTag::Draw) + seq![10u8]) {
                                assert(rest.subrange(0, 5)[0] == rest[0]);
                                assert(rest[0] == 119);
                                assert((tag_bytes(ResultTag::Draw) + seq![10u8])[0] == 100);
                                assert(false);
                            }
                            assert(rest.subrange(0, 4) =~= tag_bytes(ResultTag::Win)
                                + seq![10u8]);
                            assert(rest.skip(4) =~= b);
                        },
                    }
                },
                Game::Chess => {
                    assert(f[0] == 99);
                    assert(frame_start_ttt_circle()[0] == 115);
                    assert(frame_start_chess_white()[0] == 115);
                    if has_prefix(f, header_ttt_over()) {
                        assert(f.subrange(0, 15)[0] == f[0]);
                        assert(header_ttt_over()[0] == 116);
                        assert(false);
                    }
                    assert(f.subrange(0, 17) =~= header_chess_over());
                    let rest = f.skip(17);
                    assert(rest =~= line + b);
                    match t {
                        ResultTag::Draw => {
                            assert(rest.subrange(0, 5) =~= tag_bytes(ResultTag::Draw)
                                + seq![10u8]);
                            assert(rest.skip(5) =~= b);
                        },
                        ResultTag::Win => {
                            if has_prefix(rest, tag_bytes(ResultTag::Draw) + seq![10u8]) {
                                assert(rest.subrange(0, 5)[0] == rest[0]);
                                assert(rest[0] == 119);
                                assert((tag_bytes(ResultTag::Draw) + seq![10u8])[0] == 100);
                                assert(false);
                            }
                            assert(rest.subrange(0, 4) =~= tag_bytes(ResultTag::Win)
                                + seq![10u8]);
                            assert(rest.skip(4) =~= b);
                        },
                    }
                },
            }
        },
    }
}

} // verus!
