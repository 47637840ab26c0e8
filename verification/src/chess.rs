use vstd::prelude::*;
use vstd::string::StringSliceAdditionalSpecFns;

verus! {

/// One of the two sides of the engine-backed game.
#[derive(Clone, Copy, PartialEq, Eq, Structural, Debug)]
pub enum ChessPlayer {
    White,
    Black,
}

/// An engine evaluation, from the fixed reference perspective: positive
/// centipawns or mate distances favour the first-moving side.
#[derive(Clone, Copy, PartialEq, Eq, Structural, Debug)]
pub enum Evaluation {
    CentiPawn(i32),
    MateIn(i32),
}

/// A position of the engine-backed game: an opaque position string together
/// with the last known evaluation.
#[derive(Debug)]
pub struct ChessGameState {
    pub fen: Vec<u8>,
    pub eval: Evaluation,
}

/// The position string of the starting position.
pub open spec fn initial_fen() -> Seq<u8> {
    "rnbqkbnr/pppppppp/8/8/8/8/PPPPPPPP/RNBQKBNR w KQkq - 0 1".spec_bytes()
}

impl ChessGameState {
    /// The starting position, with the conventional small edge for the side
    /// that moves first.
    pub fn new() -> (r: ChessGameState)
        ensures
            r.fen@ == initial_fen(),
            r.eval == Evaluation::CentiPawn(7),
    {
        let fen = vstd::slice::slice_to_vec(
            "rnbqkbnr/pppppppp/8/8/8/8/PPPPPPPP/RNBQKBNR w KQkq - 0 1".as_bytes(),
        );
        ChessGameState { fen, eval: Evaluation::CentiPawn(7) }
    }
}

} // verus!

verus! {

/// The decimal digits of a nonnegative number, most significant first.
pub open spec fn dec_digits(x: int) -> Seq<u8>
    decreases x,
{
    if x < 10 {
        seq![(48 + x) as u8]
    } else {
        dec_digits(x / 10) + seq![(48 + (x % 10)) as u8]
    }
}

/// Appends the decimal form of `x` to `v`.
pub fn push_dec(v: &mut Vec<u8>, x: u32)
    ensures
        final(v)@ == old(v)@ + dec_digits(x as int),
    decreases x,
{
    if x < 10 {
        v.push(48 + (x as u8));
        proof {
            assert(v@ =~= old(v)@ + dec_digits(x as int));
        }
    } else {
        push_dec(v, x / 10);
        v.push(48 + ((x % 10) as u8));
        proof {
            assert(v@ =~= old(v)@ + dec_digits(x as int));
        }
    }
}

/// Every byte is a decimal digit, and there is at least one.
pub open spec fn is_digits(s: Seq<u8>) -> bool {
    s.len() > 0 && forall|i: int| 0 <= i < s.len() ==> 48 <= #[trigger] s[i] <= 57
}

/// The number the digit string stands for.
pub open spec fn digits_value(s: Seq<u8>) -> int
    decreases s.len(),
{
    if s.len() == 0 {
        0
    } else {
        digits_value(s.drop_last()) * 10 + (s.last() - 48)
    }
}

/// Ten to the `t`.
pub open spec fn pow10(t: int) -> int
    decreases t,
{
    if t <= 0 {
        1
    } else {
        10 * pow10(t - 1)
    }
}

/// Ten to any power is positive.
pub proof fn lemma_pow10_pos(t: int)
    ensures
        pow10(t) >= 1,
    decreases t,
{
    if t > 0 {
        lemma_pow10_pos(t - 1);
    }
}

/// Ten to the power is monotone in the exponent.
pub proof fn lemma_pow10_mono(a: int, b: int)
    requires
        a <= b,
    ensures
        1 <= pow10(a) <= pow10(b),
    decreases b - a,
{
    lemma_pow10_pos(a);
    if a < b {
        lemma_pow10_mono(a, b - 1);
        lemma_pow10_pos(b - 1);
    }
}

/// A digit string of length `l` stands for a number below ten to the `l`.
pub proof fn lemma_digits_value_bound(s: Seq<u8>)
    requires
        forall|i: int| 0 <= i < s.len() ==> 48 <= #[trigger] s[i] <= 57,
    ensures
        0 <= digits_value(s) < pow10(s.len() as int),
    decreases s.len(),
{
    if s.len() == 0 {
    } else {
        let p = s.drop_last();
        assert(forall|i: int| 0 <= i < p.len() ==> 48 <= #[trigger] p[i] <= 57);
        lemma_digits_value_bound(p);
        let v = digits_value(p);
        let d = s.last() - 48;
        assert(0 <= d <= 9);
        assert(v * 10 + d < pow10(p.len() as int) * 10) by (nonlinear_arith)
            requires
                0 <= v < pow10(p.len() as int),
                0 <= d <= 9,
        ;
        assert(v * 10 >= 0) by (nonlinear_arith)
            requires
                v >= 0,
        ;
        assert(pow10(s.len() as int) == 10 * pow10(p.len() as int));
    }
}

/// The number a signed decimal token stands for: up to nine digits, with an
/// optional leading minus sign. Anything else is no number token.
pub open spec fn int_token(s: Seq<u8>) -> Option<int> {
    if is_digits(s) && s.len() <= 9 {
        Some(digits_value(s))
    } else if s.len() >= 2 && s[0] == 45 && is_digits(s.skip(1)) && s.len() <= 10 {
        Some(-digits_value(s.skip(1)))
    } else {
        None
    }
}

/// Reads the digits of `s` from `from` on, accumulating their value.
fn parse_digits(s: &[u8], from: usize) -> (r: Option<u32>)
    requires
        from < s@.len(),
        s@.len() - from <= 9,
    ensures
        (r is Some) <==> (forall|i: int| from <= i < s@.len() ==> 48 <= #[trigger] s@[i] <= 57),
        r matches Some(v) ==> v == digits_value(s@.skip(from as int)),
{
    let ghost digits = s@.skip(from as int);
    let mut acc: u32 = 0;
    let mut t: usize = from;
    while t < s.len()
        invariant
            from <= t <= s@.len(),
            s@.len() - from <= 9,
            digits == s@.skip(from as int),
            forall|i: int| from <= i < t ==> 48 <= #[trigger] s@[i] <= 57,
            acc == digits_value(s@.subrange(from as int, t as int)),
            0 <= acc < pow10(t - from),
        decreases s@.len() - t,
    {
        let x = s[t];
        if x < 48 || x > 57 {
            return None;
        }
        proof {
            let pre = s@.subrange(from as int, t as int);
            let cur = s@.subrange(from as int, t + 1);
            assert(cur.drop_last() =~= pre);
            assert(cur.last() == s@[t as int]);
            assert(forall|i: int| 0 <= i < cur.len() ==> 48 <= #[trigger] cur[i] <= 57);
            lemma_digits_value_bound(cur);
            assert(digits_value(cur) == acc * 10 + (s@[t as int] - 48));
            lemma_pow10_mono(t + 1 - from, 9);
            assert(pow10(9) == 1000000000) by {
                reveal_with_fuel(pow10, 11);
            }
            assert(acc * 10 + (s@[t as int] - 48) < 1000000000);
        }
        acc = acc * 10 + ((x - 48) as u32);
        t += 1;
    }
    proof {
        assert(s@.subrange(from as int, s@.len() as int) =~= digits);
    }
    Some(acc)
}

/// Reads a signed decimal token per `int_token`.
pub fn parse_int_token(s: &[u8]) -> (r: Option<i64>)
    ensures
        match r {
            Some(v) => int_token(s@) == Some(v as int),
            None => int_token(s@) is None,
        },
{
    if s.len() == 0 {
        return None;
    }
    let first = s[0];
    if first == 45 {
        if s.len() < 2 || s.len() > 10 {
            return None;
        }
        let r = parse_digits(s, 1);
        proof {
            assert(!(48 <= s@[0] <= 57));
            assert(!is_digits(s@));
            assert(forall|i: int|
                0 <= i < s@.skip(1).len() ==> #[trigger] s@.skip(1)[i] == s@[i + 1]);
        }
        match r {
            Some(v) => {
                proof {
                    assert(is_digits(s@.skip(1)));
                    assert(digits_value(s@.skip(1)) == v);
                }
                Some(-(v as i64))
            },
            None => {
                proof {
                    let w = choose|i: int| 1 <= i < s@.len() && !(48 <= #[trigger] s@[i] <= 57);
                    assert(s@.skip(1)[w - 1] == s@[w]);
                    assert(!is_digits(s@.skip(1)));
                }
                None
            },
        }
    } else {
        if s.len() > 9 {
            return None;
        }
        match parse_digits(s, 0) {
            Some(v) => {
                proof {
                    assert(s@.skip(0) =~= s@);
                    assert(is_digits(s@));
                }
                Some(v as i64)
            },
            None => {
                proof {
                    assert(!is_digits(s@));
                    assert(s@[0] != 45);
                }
                None
            },
        }
    }
}

} // verus!

verus! {

/// The words of a line, split on every single space byte.
pub open spec fn tokens_of(s: Seq<u8>) -> Seq<Seq<u8>>
    decreases s.len(),
{
    if s.len() == 0 {
        seq![Seq::<u8>::empty()]
    } else if s[0] == 32 {
        seq![Seq::<u8>::empty()] + tokens_of(s.skip(1))
    } else {
        let rest = tokens_of(s.skip(1));
        seq![seq![s[0]] + rest[0]] + rest.skip(1)
    }
}

/// A line always splits into at least one word.
pub proof fn lemma_tokens_len(s: Seq<u8>)
    ensures
        tokens_of(s).len() >= 1,
    decreases s.len(),
{
    if s.len() > 0 {
        lemma_tokens_len(s.skip(1));
    }
}

/// Splits a line into its words.
pub fn tokenize(s: &[u8]) -> (r: Vec<Vec<u8>>)
    ensures
        r.deep_view() == tokens_of(s@),
        r@.len() >= 1,
{
    let mut toks: Vec<Vec<u8>> = Vec::new();
    toks.push(Vec::new());
    proof {
        assert(s@.skip(s@.len() as int) =~= Seq::<u8>::empty());
        assert(toks.deep_view() =~~= tokens_of(s@.skip(s@.len() as int)));
    }
    let mut t: usize = s.len();
    while t > 0
        invariant
            t <= s@.len(),
            toks.deep_view() == tokens_of(s@.skip(t as int)),
            toks@.len() >= 1,
        decreases t,
    {
        let x = s[t - 1];
        let ghost old_deep = toks.deep_view();
        proof {
            lemma_tokens_len(s@.skip(t as int));
        }
        if x == 32 {
            toks.insert(0, Vec::new());
            proof {
                assert(toks.deep_view() =~~= seq![Seq::<u8>::empty()] + old_deep);
                assert(s@.skip(t - 1)[0] == 32);
                assert(s@.skip(t - 1).skip(1) =~= s@.skip(t as int));
                assert(tokens_of(s@.skip(t - 1)) =~~= toks.deep_view());
            }
        } else {
            let mut head: Vec<u8> = toks.remove(0);
            head.insert(0, x);
            toks.insert(0, head);
            proof {
                assert(toks.deep_view() =~~= seq![seq![s@[t - 1]] + old_deep[0]] + old_deep.skip(
                    1,
                ));
                assert(s@.skip(t - 1)[0] == s@[t - 1]);
                assert(s@.skip(t - 1).skip(1) =~= s@.skip(t as int));
                assert(tokens_of(s@.skip(t - 1)) =~~= toks.deep_view());
            }
        }
        t -= 1;
    }
    proof {
        assert(s@.skip(0) =~= s@);
        lemma_tokens_len(s@);
    }
    toks
}

/// The least index of word `w` in `toks`, or -1 when it never occurs.
pub open spec fn find_tok(toks: Seq<Seq<u8>>, w: Seq<u8>) -> int
    decreases toks.len(),
{
    if toks.len() == 0 {
        -1
    } else if toks[0] == w {
        0
    } else {
        let r = find_tok(toks.skip(1), w);
        if r == -1 {
            -1
        } else {
            r + 1
        }
    }
}

/// What the least-index search means, spelled out.
pub proof fn lemma_find_tok(toks: Seq<Seq<u8>>, w: Seq<u8>)
    ensures
        find_tok(toks, w) == -1 ==> forall|i: int| 0 <= i < toks.len() ==> #[trigger] toks[i]
            != w,
        find_tok(toks, w) != -1 ==> 0 <= find_tok(toks, w) < toks.len() && toks[find_tok(
            toks,
            w,
        )] == w && forall|i: int| 0 <= i < find_tok(toks, w) ==> #[trigger] toks[i] != w,
    decreases toks.len(),
{
    if toks.len() == 0 {
    } else if toks[0] == w {
    } else {
        lemma_find_tok(toks.skip(1), w);
        assert(forall|i: int|
            1 <= i < toks.len() ==> #[trigger] toks[i] == toks.skip(1)[i - 1]);
    }
}

/// Finds the first occurrence of the word `w` among `toks`.
pub fn find_token(toks: &Vec<Vec<u8>>, w: &[u8]) -> (r: Option<usize>)
    ensures
        match r {
            Some(i) => find_tok(toks.deep_view(), w@) == i as int,
            None => find_tok(toks.deep_view(), w@) == -1,
        },
{
    let ghost deep = toks.deep_view();
    proof {
        assert(deep.len() == toks@.len());
    }
    let mut i: usize = 0;
    while i < toks.len()
        invariant
            deep == toks.deep_view(),
            deep.len() == toks@.len(),
            i <= toks@.len(),
            forall|u: int| 0 <= u < i ==> #[trigger] deep[u] != w@,
        decreases toks@.len() - i,
    {
        proof {
            assert(deep[i as int] == toks@[i as int].deep_view());
            assert(toks@[i as int].deep_view() =~= toks@[i as int]@);
        }
        if crate::bytes::bytes_eq(toks[i].as_slice(), w) {
            proof {
                lemma_find_tok(deep, w@);
                assert(deep[i as int] == w@);
                assert(find_tok(deep, w@) != -1);
                assert(find_tok(deep, w@) == i as int);
            }
            return Some(i);
        }
        i += 1;
    }
    proof {
        lemma_find_tok(deep, w@);
        if find_tok(deep, w@) != -1 {
            assert(deep[find_tok(deep, w@)] == w@);
            assert(false);
        }
    }
    None
}

} // verus!

verus! {

/// The word `info`.
pub open spec fn tok_info() -> Seq<u8> {
    seq![105u8, 110, 102, 111]
}

/// The word `depth`.
pub open spec fn tok_depth() -> Seq<u8> {
    seq![100u8, 101, 112, 116, 104]
}

/// The word `score`.
pub open spec fn tok_score() -> Seq<u8> {
    seq![115u8, 99, 111, 114, 101]
}

/// The word `cp`.
pub open spec fn tok_cp() -> Seq<u8> {
    seq![99u8, 112]
}

/// The word `mate`.
pub open spec fn tok_mate() -> Seq<u8> {
    seq![109u8, 97, 116, 101]
}

/// The word `nodes`.
pub open spec fn tok_nodes() -> Seq<u8> {
    seq![110u8, 111, 100, 101, 115]
}

/// The word `pv`.
pub open spec fn tok_pv() -> Seq<u8> {
    seq![112u8, 118]
}

/// The acknowledgement word `uciok`.
pub open spec fn word_uciok() -> Seq<u8> {
    seq![117u8, 99, 105, 111, 107]
}

/// The acknowledgement word `readyok`.
pub open spec fn word_readyok() -> Seq<u8> {
    seq![114u8, 101, 97, 100, 121, 111, 107]
}

/// The prefix `bestmove` that ends a search.
pub open spec fn prefix_bestmove() -> Seq<u8> {
    seq![98u8, 101, 115, 116, 109, 111, 118, 101]
}

/// The prefix `Fen: ` of the position dump line.
pub open spec fn prefix_fen() -> Seq<u8> {
    seq![70u8, 101, 110, 58, 32]
}

/// The command line `uci`.
pub open spec fn cmd_uci() -> Seq<u8> {
    seq![117u8, 99, 105, 10]
}

/// The trailing `isready` exchange appended to a setup command.
pub open spec fn isready_tail() -> Seq<u8> {
    seq![10u8, 105, 115, 114, 101, 97, 100, 121, 10]
}

/// The command `setoption name MultiPV value {m}` followed by `isready`.
pub open spec fn cmd_setoption_multipv(m: u32) -> Seq<u8> {
    seq![
        115u8, 101, 116, 111, 112, 116, 105, 111, 110, 32, 110, 97, 109, 101, 32, 77, 117, 108,
        116, 105, 80, 86, 32, 118, 97, 108, 117, 101, 32,
    ] + dec_digits(m as int) + isready_tail()
}

/// The command `position fen {fen}` followed by `isready`.
pub open spec fn cmd_position(fen: Seq<u8>) -> Seq<u8> {
    seq![112u8, 111, 115, 105, 116, 105, 111, 110, 32, 102, 101, 110, 32] + fen + isready_tail()
}

/// The command `position fen {fen} moves {mv}` followed by `isready`.
pub open spec fn cmd_position_moves(fen: Seq<u8>, mv: Seq<u8>) -> Seq<u8> {
    seq![112u8, 111, 115, 105, 116, 105, 111, 110, 32, 102, 101, 110, 32] + fen + seq![
        32u8, 109, 111, 118, 101, 115, 32,
    ] + mv + isready_tail()
}

/// The command `go depth {d}`.
pub open spec fn cmd_go_depth(d: u32) -> Seq<u8> {
    seq![103u8, 111, 32, 100, 101, 112, 116, 104, 32] + dec_digits(d as int) + seq![10u8]
}

/// The command `d`, which makes the engine print the current position.
pub open spec fn cmd_show() -> Seq<u8> {
    seq![100u8, 10]
}

/// A principal-variation move token: two squares and an optional promotion
/// piece, as `e2e4` or `e7e8q`.
pub open spec fn move_token_ok(s: Seq<u8>) -> bool {
    &&& (s.len() == 4 || s.len() == 5)
    &&& 97 <= s[0] <= 104
    &&& 49 <= s[1] <= 56
    &&& 97 <= s[2] <= 104
    &&& 49 <= s[3] <= 56
    &&& (s.len() == 5 ==> (s[4] == 113 || s[4] == 114 || s[4] == 110 || s[4] == 98))
}

/// A number token names a value of at most nine digits.
pub proof fn lemma_int_token_bound(s: Seq<u8>)
    ensures
        int_token(s) matches Some(v) ==> -1000000000 < v < 1000000000,
{
    if int_token(s) is Some {
        assert(pow10(9) == 1000000000) by {
            reveal_with_fuel(pow10, 11);
        }
        if is_digits(s) && s.len() <= 9 {
            lemma_digits_value_bound(s);
            lemma_pow10_mono(s.len() as int, 9);
        } else {
            lemma_digits_value_bound(s.skip(1));
            lemma_pow10_mono(s.skip(1).len() as int, 9);
        }
    }
}

/// What a search output line contributes: for a line of the form
/// `info depth {d} ... score (cp|mate) {n} nodes ... pv {move}`, the
/// evaluation (negated when queried for the second-moving side, so that all
/// evaluations share one reference perspective) and the move token; nothing
/// for any other line.
pub open spec fn info_line_model(line: Seq<u8>, depth: u32, player: ChessPlayer) -> Option<
    (Evaluation, Seq<u8>),
> {
    let toks = tokens_of(line);
    let si = find_tok(toks, tok_score());
    let pi = find_tok(toks, tok_pv());
    if toks.len() >= 3 && toks[0] == tok_info() && toks[1] == tok_depth() && toks[2] == dec_digits(
        depth as int,
    ) && si >= 0 && si + 3 < toks.len() && pi >= 0 && pi + 1 < toks.len() && (toks[si + 1]
        == tok_cp() || toks[si + 1] == tok_mate()) && int_token(toks[si + 2]) is Some && toks[si
        + 3] == tok_nodes() && move_token_ok(toks[pi + 1]) {
        let v = int_token(toks[si + 2]).unwrap();
        let sv = if player is Black {
            -v
        } else {
            v
        };
        if toks[si + 1] == tok_cp() {
            Some((Evaluation::CentiPawn(sv as i32), toks[pi + 1]))
        } else {
            Some((Evaluation::MateIn(sv as i32), toks[pi + 1]))
        }
    } else {
        None
    }
}

/// Checks a principal-variation move token.
fn move_ok(s: &[u8]) -> (r: bool)
    ensures
        r == move_token_ok(s@),
{
    if s.len() != 4 && s.len() != 5 {
        return false;
    }
    if !(97 <= s[0] && s[0] <= 104 && 49 <= s[1] && s[1] <= 56 && 97 <= s[2] && s[2] <= 104 && 49
        <= s[3] && s[3] <= 56) {
        return false;
    }
    if s.len() == 5 {
        let p = s[4];
        p == 113 || p == 114 || p == 110 || p == 98
    } else {
        true
    }
}

/// Builds the word `score`.
fn tok_vec_score() -> (v: Vec<u8>)
    ensures
        v@ == tok_score(),
{
    let mut v: Vec<u8> = Vec::new();
    v.push(115);
    v.push(99);
    v.push(111);
    v.push(114);
    v.push(101);
    proof {
        assert(v@ =~= tok_score());
    }
    v
}

/// Builds the word `pv`.
fn tok_vec_pv() -> (v: Vec<u8>)
    ensures
        v@ == tok_pv(),
{
    let mut v: Vec<u8> = Vec::new();
    v.push(112);
    v.push(118);
    proof {
        assert(v@ =~= tok_pv());
    }
    v
}

/// Builds the word `info`.
fn tok_vec_info() -> (v: Vec<u8>)
    ensures
        v@ == tok_info(),
{
    let mut v: Vec<u8> = Vec::new();
    v.push(105);
    v.push(110);
    v.push(102);
    v.push(111);
    proof {
        assert(v@ =~= tok_info());
    }
    v
}

/// Builds the word `depth`.
fn tok_vec_depth() -> (v: Vec<u8>)
    ensures
        v@ == tok_depth(),
{
    let mut v: Vec<u8> = Vec::new();
    v.push(100);
    v.push(101);
    v.push(112);
    v.push(116);
    v.push(104);
    proof {
        assert(v@ =~= tok_depth());
    }
    v
}

/// Builds the word `cp`.
fn tok_vec_cp() -> (v: Vec<u8>)
    ensures
        v@ == tok_cp(),
{
    let mut v: Vec<u8> = Vec::new();
    v.push(99);
    v.push(112);
    proof {
        assert(v@ =~= tok_cp());
    }
    v
}

/// Builds the word `mate`.
fn tok_vec_mate() -> (v: Vec<u8>)
    ensures
        v@ == tok_mate(),
{
    let mut v: Vec<u8> = Vec::new();
    v.push(109);
    v.push(97);
    v.push(116);
    v.push(101);
    proof {
        assert(v@ =~= tok_mate());
    }
    v
}

/// Builds the word `nodes`.
fn tok_vec_nodes() -> (v: Vec<u8>)
    ensures
        v@ == tok_nodes(),
{
    let mut v: Vec<u8> = Vec::new();
    v.push(110);
    v.push(111);
    v.push(100);
    v.push(101);
    v.push(115);
    proof {
        assert(v@ =~= tok_nodes());
    }
    v
}

/// Reads one search output line, yielding the normalized evaluation and the
/// move token when, and only when, the line fits the search-info grammar.
pub fn parse_info_line(line: &[u8], depth: u32, player: ChessPlayer) -> (r: Option<
    (Evaluation, Vec<u8>),
>)
    ensures
        match r {
            Some(c) => info_line_model(line@, depth, player) == Some((c.0, c.1@)),
            None => info_line_model(line@, depth, player) is None,
        },
{
    let toks = tokenize(line);
    let ghost deep = toks.deep_view();
    proof {
        assert(deep.len() == toks@.len());
        assert(forall|i: int|
            0 <= i < toks@.len() ==> #[trigger] deep[i] == toks@[i]@);
    }
    if toks.len() < 3 {
        return None;
    }
    let w = tok_vec_info();
    if !crate::bytes::bytes_eq(toks[0].as_slice(), w.as_slice()) {
        return None;
    }
    let w = tok_vec_depth();
    if !crate::bytes::bytes_eq(toks[1].as_slice(), w.as_slice()) {
        return None;
    }
    let mut dv: Vec<u8> = Vec::new();
    push_dec(&mut dv, depth);
    if !crate::bytes::bytes_eq(toks[2].as_slice(), dv.as_slice()) {
        return None;
    }
    let w = tok_vec_score();
    let si = match find_token(&toks, w.as_slice()) {
        Some(i) => i,
        None => {
            return None;
        },
    };
    let w = tok_vec_pv();
    let pi = match find_token(&toks, w.as_slice()) {
        Some(i) => i,
        None => {
            return None;
        },
    };
    if si >= toks.len() - 3 || pi >= toks.len() - 1 {
        return None;
    }
    let w = tok_vec_cp();
    let is_cp = crate::bytes::bytes_eq(toks[si + 1].as_slice(), w.as_slice());
    let w = tok_vec_mate();
    let is_mate = crate::bytes::bytes_eq(toks[si + 1].as_slice(), w.as_slice());
    if !is_cp && !is_mate {
        return None;
    }
    let v = match parse_int_token(toks[si + 2].as_slice()) {
        Some(v) => v,
        None => {
            return None;
        },
    };
    let w = tok_vec_nodes();
    if !crate::bytes::bytes_eq(toks[si + 3].as_slice(), w.as_slice()) {
        return None;
    }
    if !move_ok(toks[pi + 1].as_slice()) {
        return None;
    }
    proof {
        lemma_int_token_bound(deep[si + 2]);
    }
    let sv: i64 = match player {
        ChessPlayer::Black => -v,
        ChessPlayer::White => v,
    };
    let ev = if is_cp {
        Evaluation::CentiPawn(sv as i32)
    } else {
        Evaluation::MateIn(sv as i32)
    };
    let mv = vstd::slice::slice_to_vec(toks[pi + 1].as_slice());
    Some((ev, mv))
}

} // verus!

verus! {

/// A typed, recoverable failure of the engine bridge.
#[derive(Clone, Copy, PartialEq, Eq, Structural, Debug)]
pub enum EngineError {
    /// The engine ended its output before an expected acknowledgement line.
    MissingAck,
    /// The engine ended its output before the position dump line.
    MissingFen,
    /// A search returned no candidate move to pick from.
    NoCandidates,
}

/// Builds the command line `uci`.
pub fn make_cmd_uci() -> (v: Vec<u8>)
    ensures
        v@ == cmd_uci(),
{
    let mut v: Vec<u8> = Vec::new();
    v.push(117);
    v.push(99);
    v.push(105);
    v.push(10);
    proof {
        assert(v@ =~= cmd_uci());
    }
    v
}

/// Appends the `isready` exchange that ends a setup command.
fn push_isready_tail(v: &mut Vec<u8>)
    ensures
        final(v)@ == old(v)@ + isready_tail(),
{
    v.push(10);
    v.push(105);
    v.push(115);
    v.push(114);
    v.push(101);
    v.push(97);
    v.push(100);
    v.push(121);
    v.push(10);
    proof {
        assert(v@ =~= old(v)@ + isready_tail());
    }
}

/// Builds the command asking for the top `m` principal variations.
pub fn make_cmd_setoption_multipv(m: u32) -> (v: Vec<u8>)
    ensures
        v@ == cmd_setoption_multipv(m),
{
    let mut v: Vec<u8> = Vec::new();
    v.push(115);
    v.push(101);
    v.push(116);
    v.push(111);
    v.push(112);
    v.push(116);
    v.push(105);
    v.push(111);
    v.push(110);
    v.push(32);
    v.push(110);
    v.push(97);
    v.push(109);
    v.push(101);
    v.push(32);
    v.push(77);
    v.push(117);
    v.push(108);
    v.push(116);
    v.push(105);
    v.push(80);
    v.push(86);
    v.push(32);
    v.push(118);
    v.push(97);
    v.push(108);
    v.push(117);
    v.push(101);
    v.push(32);
    push_dec(&mut v, m);
    push_isready_tail(&mut v);
    proof {
        assert(v@ =~= cmd_setoption_multipv(m));
    }
    v
}

/// Appends the prefix `position fen ` to `v`.
fn push_position_prefix(v: &mut Vec<u8>)
    ensures
        final(v)@ == old(v)@ + seq![
            112u8, 111, 115, 105, 116, 105, 111, 110, 32, 102, 101, 110, 32,
        ],
{
    v.push(112);
    v.push(111);
    v.push(115);
    v.push(105);
    v.push(116);
    v.push(105);
    v.push(111);
    v.push(110);
    v.push(32);
    v.push(102);
    v.push(101);
    v.push(110);
    v.push(32);
    proof {
        assert(v@ =~= old(v)@ + seq![
            112u8, 111, 115, 105, 116, 105, 111, 110, 32, 102, 101, 110, 32,
        ]);
    }
}

/// Builds the command that sets up the position `fen`.
pub fn make_cmd_position(fen: &[u8]) -> (v: Vec<u8>)
    ensures
        v@ == cmd_position(fen@),
{
    let mut v: Vec<u8> = Vec::new();
    push_position_prefix(&mut v);
    crate::bytes::push_bytes(&mut v, fen);
    push_isready_tail(&mut v);
    proof {
        assert(v@ =~= cmd_position(fen@));
    }
    v
}

/// Builds the command that sets up `fen` and then plays `mv` on it.
pub fn make_cmd_position_moves(fen: &[u8], mv: &[u8]) -> (v: Vec<u8>)
    ensures
        v@ == cmd_position_moves(fen@, mv@),
{
    let mut v: Vec<u8> = Vec::new();
    push_position_prefix(&mut v);
    crate::bytes::push_bytes(&mut v, fen);
    v.push(32);
    v.push(109);
    v.push(111);
    v.push(118);
    v.push(101);
    v.push(115);
    v.push(32);
    crate::bytes::push_bytes(&mut v, mv);
    push_isready_tail(&mut v);
    proof {
        assert(v@ =~= cmd_position_moves(fen@, mv@));
    }
    v
}

/// Builds the command `go depth {d}`.
pub fn make_cmd_go_depth(d: u32) -> (v: Vec<u8>)
    ensures
        v@ == cmd_go_depth(d),
{
    let mut v: Vec<u8> = Vec::new();
    v.push(103);
    v.push(111);
    v.push(32);
    v.push(100);
    v.push(101);
    v.push(112);
    v.push(116);
    v.push(104);
    v.push(32);
    push_dec(&mut v, d);
    v.push(10);
    proof {
        assert(v@ =~= cmd_go_depth(d));
    }
    v
}

/// Builds the command `d`.
pub fn make_cmd_show() -> (v: Vec<u8>)
    ensures
        v@ == cmd_show(),
{
    let mut v: Vec<u8> = Vec::new();
    v.push(100);
    v.push(10);
    proof {
        assert(v@ =~= cmd_show());
    }
    v
}

/// Builds the word `uciok`.
fn word_vec_uciok() -> (v: Vec<u8>)
    ensures
        v@ == word_uciok(),
{
    let mut v: Vec<u8> = Vec::new();
    v.push(117);
    v.push(99);
    v.push(105);
    v.push(111);
    v.push(107);
    proof {
        assert(v@ =~= word_uciok());
    }
    v
}

/// Builds the word `readyok`.
fn word_vec_readyok() -> (v: Vec<u8>)
    ensures
        v@ == word_readyok(),
{
    let mut v: Vec<u8> = Vec::new();
    v.push(114);
    v.push(101);
    v.push(97);
    v.push(100);
    v.push(121);
    v.push(111);
    v.push(107);
    proof {
        assert(v@ =~= word_readyok());
    }
    v
}

/// Builds the prefix `bestmove`.
fn word_vec_bestmove() -> (v: Vec<u8>)
    ensures
        v@ == prefix_bestmove(),
{
    let mut v: Vec<u8> = Vec::new();
    v.push(98);
    v.push(101);
    v.push(115);
    v.push(116);
    v.push(109);
    v.push(111);
    v.push(118);
    v.push(101);
    proof {
        assert(v@ =~= prefix_bestmove());
    }
    v
}

/// Builds the prefix `Fen: `.
fn word_vec_fen_prefix() -> (v: Vec<u8>)
    ensures
        v@ == prefix_fen(),
{
    let mut v: Vec<u8> = Vec::new();
    v.push(70);
    v.push(101);
    v.push(110);
    v.push(58);
    v.push(32);
    proof {
        assert(v@ =~= prefix_fen());
    }
    v
}

/// Whether the line, trimmed of surrounding whitespace, is exactly `w`.
fn line_is_word(line: &[u8], w: &[u8]) -> (r: bool)
    requires
        w@.len() > 0,
        !crate::bytes::is_space(w@[0]),
        !crate::bytes::is_space(w@[w@.len() - 1]),
    ensures
        r == crate::bytes::trims_to(line@, w@),
{
    let t = crate::bytes::trim_ascii(line);
    let e = crate::bytes::bytes_eq(t, w);
    proof {
        if !e && crate::bytes::trims_to(line@, w@) {
            crate::bytes::lemma_trims_to_unique(line@, t@, w@);
            assert(false);
        }
    }
    e
}

/// The position string on a `Fen: ` dump line, if this is one.
pub fn fen_line_value(line: &[u8]) -> (r: Option<Vec<u8>>)
    ensures
        match r {
            Some(f) => exists|w: Seq<u8>| #[trigger] crate::bytes::trims_to(line@, w)
                && crate::has_prefix(w, prefix_fen()) && f@ == w.skip(5),
            None => forall|w: Seq<u8>| #[trigger] crate::bytes::trims_to(line@, w)
                ==> !crate::has_prefix(w, prefix_fen()),
        },
{
    let t = crate::bytes::trim_ascii(line);
    let p = word_vec_fen_prefix();
    if crate::bytes::bytes_starts_with(t, p.as_slice()) {
        let f = vstd::slice::slice_to_vec(vstd::slice::slice_subrange(t, 5, t.len()));
        proof {
            assert(f@ =~= t@.skip(5));
            assert(crate::bytes::trims_to(line@, t@) && crate::has_prefix(t@, prefix_fen())
                && f@ == t@.skip(5));
        }
        Some(f)
    } else {
        proof {
            assert forall|w: Seq<u8>| #[trigger] crate::bytes::trims_to(line@, w)
                implies !crate::has_prefix(w, prefix_fen()) by {
                crate::bytes::lemma_trims_to_unique(line@, t@, w);
            }
        }
        None
    }
}

/// One candidate move with its normalized evaluation.
#[derive(Debug)]
pub struct Candidate {
    pub eval: Evaluation,
    pub mv: Vec<u8>,
}

/// The candidates reduced to mathematical pairs.
pub open spec fn cands_of(s: Seq<Candidate>) -> Seq<(Evaluation, Seq<u8>)> {
    s.map_values(|c: Candidate| (c.eval, c.mv@))
}

/// Where one query handshake and search stands.
#[derive(Clone, Copy, PartialEq, Eq, Structural, Debug)]
pub enum QueryPhase {
    AwaitUciOk,
    AwaitOptionsReady,
    AwaitPositionReady,
    Collecting,
    Done,
}

/// The sub-protocol state machine of one engine search: a handshake, the
/// MultiPV option, the position, then collecting candidate lines until
/// `bestmove`. The caller feeds it one output line at a time and sends
/// whatever command it hands back.
pub struct EngineQuery {
    pub phase: QueryPhase,
    pub player: ChessPlayer,
    pub fen: Vec<u8>,
    pub depth: u32,
    pub multipv: u32,
    pub candidates: Vec<Candidate>,
}

impl EngineQuery {
    /// A fresh query for the top `multipv` moves of `fen` at depth `depth`.
    pub fn new(player: ChessPlayer, fen: Vec<u8>, depth: u32, multipv: u32) -> (q: EngineQuery)
        ensures
            q.phase == QueryPhase::AwaitUciOk,
            q.player == player,
            q.fen@ == fen@,
            q.depth == depth,
            q.multipv == multipv,
            q.candidates@.len() == 0,
    {
        EngineQuery { phase: QueryPhase::AwaitUciOk, player, fen, depth, multipv, candidates: Vec::new() }
    }

    /// The command that opens the session.
    pub fn initial_command(&self) -> (c: Vec<u8>)
        ensures
            c@ == cmd_uci(),
    {
        make_cmd_uci()
    }

    /// Advances the machine on one engine output line; the returned bytes, if
    /// any, are the next command to send.
    pub fn on_line(&mut self, line: &[u8]) -> (cmd: Option<Vec<u8>>)
        ensures
            final(self).player == old(self).player,
            final(self).fen@ == old(self).fen@,
            final(self).depth == old(self).depth,
            final(self).multipv == old(self).multipv,
            match old(self).phase {
                QueryPhase::AwaitUciOk => {
                    if crate::bytes::trims_to(line@, word_uciok()) {
                        &&& final(self).phase == QueryPhase::AwaitOptionsReady
                        &&& cmd matches Some(c) && c@ == cmd_setoption_multipv(old(self).multipv)
                        &&& final(self).candidates@ == old(self).candidates@
                    } else {
                        &&& final(self).phase == old(self).phase
                        &&& cmd is None
                        &&& final(self).candidates@ == old(self).candidates@
                    }
                },
                QueryPhase::AwaitOptionsReady => {
                    if crate::bytes::trims_to(line@, word_readyok()) {
                        &&& final(self).phase == QueryPhase::AwaitPositionReady
                        &&& cmd matches Some(c) && c@ == cmd_position(old(self).fen@)
                        &&& final(self).candidates@ == old(self).candidates@
                    } else {
                        &&& final(self).phase == old(self).phase
                        &&& cmd is None
                        &&& final(self).candidates@ == old(self).candidates@
                    }
                },
                QueryPhase::AwaitPositionReady => {
                    if crate::bytes::trims_to(line@, word_readyok()) {
                        &&& final(self).phase == QueryPhase::Collecting
                        &&& cmd matches Some(c) && c@ == cmd_go_depth(old(self).depth)
                        &&& final(self).candidates@ == old(self).candidates@
                    } else {
                        &&& final(self).phase == old(self).phase
                        &&& cmd is None
                        &&& final(self).candidates@ == old(self).candidates@
                    }
                },
                QueryPhase::Collecting => {
                    if crate::has_prefix(line@, prefix_bestmove()) {
                        &&& final(self).phase == QueryPhase::Done
                        &&& cmd is None
                        &&& final(self).candidates@ == old(self).candidates@
                    } else {
                        &&& final(self).phase == QueryPhase::Collecting
                        &&& cmd is None
                        &&& match info_line_model(line@, old(self).depth, old(self).player) {
                            Some(c) => cands_of(final(self).candidates@) == cands_of(
                                old(self).candidates@,
                            ).push(c),
                            None => final(self).candidates@ == old(self).candidates@,
                        }
                    }
                },
                QueryPhase::Done => {
                    &&& final(self).phase == QueryPhase::Done
                    &&& cmd is None
                    &&& final(self).candidates@ == old(self).candidates@
                },
            },
    {
        match self.phase {
            QueryPhase::AwaitUciOk => {
                let w = word_vec_uciok();
                if line_is_word(line, w.as_slice()) {
                    self.phase = QueryPhase::AwaitOptionsReady;
                    Some(make_cmd_setoption_multipv(self.multipv))
                } else {
                    None
                }
            },
            QueryPhase::AwaitOptionsReady => {
                let w = word_vec_readyok();
                if line_is_word(line, w.as_slice()) {
                    self.phase = QueryPhase::AwaitPositionReady;
                    Some(make_cmd_position(self.fen.as_slice()))
                } else {
                    None
                }
            },
            QueryPhase::AwaitPositionReady => {
                let w = word_vec_readyok();
                if line_is_word(line, w.as_slice()) {
                    self.phase = QueryPhase::Collecting;
                    Some(make_cmd_go_depth(self.depth))
                } else {
                    None
                }
            },
            QueryPhase::Collecting => {
                let w = word_vec_bestmove();
                if crate::bytes::bytes_starts_with(line, w.as_slice()) {
                    self.phase = QueryPhase::Done;
                    None
                } else {
                    match parse_info_line(line, self.depth, self.player) {
                        Some((e, mv)) => {
                            let ghost oldc = self.candidates@;
                            self.candidates.push(Candidate { eval: e, mv });
                            proof {
                                assert(cands_of(self.candidates@) =~= cands_of(oldc).push(
                                    (e, self.candidates@.last().mv@),
                                ));
                            }
                            None
                        },
                        None => None,
                    }
                }
            },
            QueryPhase::Done => None,
        }
    }

    /// The collected candidates, once `bestmove` has been seen; an engine
    /// that stopped talking earlier yields a missing-acknowledgement error.
    pub fn search_outcome(self) -> (r: Result<Vec<Candidate>, EngineError>)
        ensures
            self.phase == QueryPhase::Done ==> (r matches Ok(c) && c@ == self.candidates@),
            self.phase != QueryPhase::Done ==> r == Err::<Vec<Candidate>, EngineError>(
                EngineError::MissingAck,
            ),
    {
        match self.phase {
            QueryPhase::Done => Ok(self.candidates),
            _ => Err(EngineError::MissingAck),
        }
    }
}

/// Picks one of the collected candidates uniformly at random and prepares the
/// session that applies it to `fen`; fails when the search found none.
pub fn start_apply(fen: &Vec<u8>, candidates: &Vec<Candidate>) -> (r: Result<
    EngineApply,
    EngineError,
>)
    ensures
        (r is Ok) <==> candidates@.len() > 0,
        r matches Ok(a) ==> (a.phase == ApplyPhase::AwaitUciOk && a.fen@ == fen@ && exists|i: int|
            0 <= i < candidates@.len() && a.mv@ == #[trigger] candidates@[i].mv@ && a.eval
                == candidates@[i].eval),
        r matches Err(e) ==> e == EngineError::NoCandidates,
{
    match crate::choice::choose_index(candidates.len()) {
        Some(i) => {
            let mv = vstd::slice::slice_to_vec(candidates[i].mv.as_slice());
            let fen2 = vstd::slice::slice_to_vec(fen.as_slice());
            Ok(EngineApply::new(fen2, mv, candidates[i].eval))
        },
        None => Err(EngineError::NoCandidates),
    }
}

/// Where one move-application session stands.
#[derive(Clone, Copy, PartialEq, Eq, Structural, Debug)]
pub enum ApplyPhase {
    AwaitUciOk,
    AwaitMoveReady,
    AwaitFen,
    Done,
}

/// The sub-protocol state machine that plays one chosen move on a position
/// and reads the resulting position string from the engine's dump output.
pub struct EngineApply {
    pub phase: ApplyPhase,
    pub fen: Vec<u8>,
    pub mv: Vec<u8>,
    pub eval: Evaluation,
    pub new_fen: Vec<u8>,
}

impl EngineApply {
    /// A fresh application of `mv`, carrying `eval`, to the position `fen`.
    pub fn new(fen: Vec<u8>, mv: Vec<u8>, eval: Evaluation) -> (a: EngineApply)
        ensures
            a.phase == ApplyPhase::AwaitUciOk,
            a.fen@ == fen@,
            a.mv@ == mv@,
            a.eval == eval,
    {
        EngineApply { phase: ApplyPhase::AwaitUciOk, fen, mv, eval, new_fen: Vec::new() }
    }

    /// The command that opens the session.
    pub fn initial_command(&self) -> (c: Vec<u8>)
        ensures
            c@ == cmd_uci(),
    {
        make_cmd_uci()
    }

    /// Advances the machine on one engine output line; the returned bytes, if
    /// any, are the next command to send.
    pub fn on_line(&mut self, line: &[u8]) -> (cmd: Option<Vec<u8>>)
        ensures
            final(self).fen@ == old(self).fen@,
            final(self).mv@ == old(self).mv@,
            final(self).eval == old(self).eval,
            match old(self).phase {
                ApplyPhase::AwaitUciOk => {
                    if crate::bytes::trims_to(line@, word_uciok()) {
                        &&& final(self).phase == ApplyPhase::AwaitMoveReady
                        &&& cmd matches Some(c) && c@ == cmd_position_moves(
                            old(self).fen@,
                            old(self).mv@,
                        )
                    } else {
                        &&& final(self).phase == old(self).phase
                        &&& cmd is None
                    }
                },
                ApplyPhase::AwaitMoveReady => {
                    if crate::bytes::trims_to(line@, word_readyok()) {
                        &&& final(self).phase == ApplyPhase::AwaitFen
                        &&& cmd matches Some(c) && c@ == cmd_show()
                    } else {
                        &&& final(self).phase == old(self).phase
                        &&& cmd is None
                    }
                },
                ApplyPhase::AwaitFen => {
                    &&& cmd is None
                    &&& if exists|w: Seq<u8>| #[trigger] crate::bytes::trims_to(line@, w)
                        && crate::has_prefix(w, prefix_fen()) {
                        &&& final(self).phase == ApplyPhase::Done
                        &&& exists|w: Seq<u8>| #[trigger] crate::bytes::trims_to(line@, w)
                            && crate::has_prefix(w, prefix_fen()) && final(self).new_fen@
                            == w.skip(5)
                    } else {
                        final(self).phase == old(self).phase
                    }
                },
                ApplyPhase::Done => {
                    &&& final(self).phase == ApplyPhase::Done
                    &&& cmd is None
                },
            },
    {
        match self.phase {
            ApplyPhase::AwaitUciOk => {
                let w = word_vec_uciok();
                if line_is_word(line, w.as_slice()) {
                    self.phase = ApplyPhase::AwaitMoveReady;
                    Some(make_cmd_position_moves(self.fen.as_slice(), self.mv.as_slice()))
                } else {
                    None
                }
            },
            ApplyPhase::AwaitMoveReady => {
                let w = word_vec_readyok();
                if line_is_word(line, w.as_slice()) {
                    self.phase = ApplyPhase::AwaitFen;
                    Some(make_cmd_show())
                } else {
                    None
                }
            },
            ApplyPhase::AwaitFen => {
                match fen_line_value(line) {
                    Some(f) => {
                        self.phase = ApplyPhase::Done;
                        self.new_fen = f;
                        None
                    },
                    None => None,
                }
            },
            ApplyPhase::Done => None,
        }
    }

    /// The updated game state, once the dump line has been seen; an engine
    /// that ended earlier yields the matching typed error.
    pub fn outcome(self) -> (r: Result<ChessGameState, EngineError>)
        ensures
            self.phase == ApplyPhase::Done ==> (r matches Ok(g) && g.fen@ == self.new_fen@
                && g.eval == self.eval),
            self.phase == ApplyPhase::AwaitFen ==> r == Err::<ChessGameState, EngineError>(
                EngineError::MissingFen,
            ),
            (self.phase == ApplyPhase::AwaitUciOk || self.phase == ApplyPhase::AwaitMoveReady)
                ==> r == Err::<ChessGameState, EngineError>(EngineError::MissingAck),
    {
        match self.phase {
            ApplyPhase::Done => Ok(ChessGameState { fen: self.new_fen, eval: self.eval }),
            ApplyPhase::AwaitFen => Err(EngineError::MissingFen),
            _ => Err(EngineError::MissingAck),
        }
    }
}

} // verus!
