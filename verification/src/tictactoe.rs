use vstd::prelude::*;

verus! {

/// Side length of the default board.
pub const BOARD_SIZE: usize = 20;

/// Run length that wins on the default board.
pub const WIN_CONDITION: usize = 10;

/// Largest accepted board side; keeps every cell index well inside `usize`.
pub const MAX_BOARD_SIZE: usize = 10000;

/// One cell of the board.
#[derive(Clone, Copy, PartialEq, Eq, Structural, Debug)]
pub enum TTTBlockState {
    Empty,
    Circle,
    Cross,
}

/// One of the two players.
#[derive(Clone, Copy, PartialEq, Eq, Structural, Debug)]
pub enum TTTPlayer {
    Circle,
    Cross,
}

/// Verdict of a finished game.
#[derive(Clone, Copy, PartialEq, Eq, Structural, Debug)]
pub enum TTTGameResult {
    Draw,
    CircleWin,
    CrossWin,
}

/// The board: an `n` by `n` grid stored row-major, with win length `k`.
pub struct TTTGameState {
    pub n: usize,
    pub k: usize,
    pub board: Vec<TTTBlockState>,
}

/// The mark a player places.
pub open spec fn mark_of(p: TTTPlayer) -> TTTBlockState {
    match p {
        TTTPlayer::Circle => TTTBlockState::Circle,
        TTTPlayer::Cross => TTTBlockState::Cross,
    }
}

/// The win verdict for a mark.
pub open spec fn result_of(m: TTTBlockState) -> TTTGameResult {
    match m {
        TTTBlockState::Circle => TTTGameResult::CircleWin,
        TTTBlockState::Cross => TTTGameResult::CrossWin,
        TTTBlockState::Empty => TTTGameResult::Draw,
    }
}

/// Row step of scan direction `d`; the four directions are
/// 0: right, 1: down, 2: down-right, 3: down-left.
pub open spec fn dx(d: int) -> int {
    if d == 0 {
        0
    } else {
        1
    }
}

/// Column step of scan direction `d`.
pub open spec fn dy(d: int) -> int {
    if d == 1 {
        0
    } else if d == 3 {
        -1
    } else {
        1
    }
}

/// Row coordinate of the cell `s` steps along direction `d` from row `x`.
pub open spec fn line_pt_x(x: int, d: int, s: int) -> int {
    x + s * dx(d)
}

/// Column coordinate of the cell `s` steps along direction `d` from column `y`.
pub open spec fn line_pt_y(y: int, d: int, s: int) -> int {
    y + s * dy(d)
}

/// Step `t` of a run from `(i, j)` along `d` is on the board and holds mark `m`.
pub open spec fn pos_ok(
    b: Seq<TTTBlockState>,
    n: int,
    m: TTTBlockState,
    i: int,
    j: int,
    d: int,
    t: int,
) -> bool {
    &&& 0 <= line_pt_x(i, d, t) < n
    &&& 0 <= line_pt_y(j, d, t) < n
    &&& b[line_pt_x(i, d, t) * n + line_pt_y(j, d, t)] == m
}

/// `k` consecutive cells of mark `m` start at `(i, j)` and go along direction `d`.
pub open spec fn run_at(
    b: Seq<TTTBlockState>,
    n: int,
    k: int,
    m: TTTBlockState,
    i: int,
    j: int,
    d: int,
) -> bool {
    forall|t: int| 0 <= t < k ==> #[trigger] pos_ok(b, n, m, i, j, d, t)
}

/// Mark `m` has `k` in a row somewhere on the board: the brute-force win verdict.
pub open spec fn wins(b: Seq<TTTBlockState>, n: int, k: int, m: TTTBlockState) -> bool {
    exists|i: int, j: int, d: int| 0 <= d < 4 && #[trigger] run_at(b, n, k, m, i, j, d)
}

/// No cell of the board is empty.
pub open spec fn is_full(b: Seq<TTTBlockState>) -> bool {
    forall|t: int| 0 <= t < b.len() ==> #[trigger] b[t] != TTTBlockState::Empty
}

/// A run of mark `m` lies on the line through `(px, py)` with direction `d`.
pub open spec fn line_win_through(
    b: Seq<TTTBlockState>,
    n: int,
    k: int,
    m: TTTBlockState,
    px: int,
    py: int,
    d: int,
) -> bool {
    exists|s: int| #[trigger] run_at(b, n, k, m, line_pt_x(px, d, s), line_pt_y(py, d, s), d)
}

/// A run of mark `m` lies on one of the four lines through `(px, py)`.
pub open spec fn incremental_win(
    b: Seq<TTTBlockState>,
    n: int,
    k: int,
    m: TTTBlockState,
    px: int,
    py: int,
) -> bool {
    exists|d: int| 0 <= d < 4 && #[trigger] line_win_through(b, n, k, m, px, py, d)
}

/// How a full-board verdict `r` relates to the brute-force scan of the board.
pub open spec fn status_matches(
    b: Seq<TTTBlockState>,
    n: int,
    k: int,
    r: Option<TTTGameResult>,
) -> bool {
    &&& (r == Some(TTTGameResult::CircleWin) ==> wins(b, n, k, TTTBlockState::Circle))
    &&& (r == Some(TTTGameResult::CrossWin) ==> wins(b, n, k, TTTBlockState::Cross))
    &&& ((wins(b, n, k, TTTBlockState::Circle) || wins(b, n, k, TTTBlockState::Cross)) <==> (r
        == Some(TTTGameResult::CircleWin) || r == Some(TTTGameResult::CrossWin)))
    &&& ((r == Some(TTTGameResult::Draw)) <==> (is_full(b) && !wins(
        b,
        n,
        k,
        TTTBlockState::Circle,
    ) && !wins(b, n, k, TTTBlockState::Cross)))
    &&& ((r == None::<TTTGameResult>) <==> (!is_full(b) && !wins(b, n, k, TTTBlockState::Circle)
        && !wins(b, n, k, TTTBlockState::Cross)))
}

impl TTTGameState {
    /// The board is square with a sane side length and a reachable win length.
    pub open spec fn wf(&self) -> bool {
        &&& 1 <= self.k <= self.n
        &&& self.n <= MAX_BOARD_SIZE
        &&& self.board@.len() == self.n * self.n
    }

    /// An empty board of side `n` with win length `k`.
    pub fn with_size(n: usize, k: usize) -> (r: TTTGameState)
        requires
            1 <= k <= n <= MAX_BOARD_SIZE,
        ensures
            r.wf(),
            r.n == n,
            r.k == k,
            forall|t: int| 0 <= t < r.board@.len() ==> r.board@[t] == TTTBlockState::Empty,
    {
        proof {
            lemma_square_bound(n as int);
        }
        let total: usize = n * n;
        let mut board: Vec<TTTBlockState> = Vec::new();
        let mut t: usize = 0;
        while t < total
            invariant
                0 <= t <= total,
                board@.len() == t,
                forall|u: int| 0 <= u < t ==> board@[u] == TTTBlockState::Empty,
            decreases total - t,
        {
            board.push(TTTBlockState::Empty);
            t += 1;
        }
        TTTGameState { n, k, board }
    }

    /// The default empty board.
    pub fn new() -> (r: TTTGameState)
        ensures
            r.wf(),
            r.n == BOARD_SIZE,
            r.k == WIN_CONDITION,
            forall|t: int| 0 <= t < r.board@.len() ==> r.board@[t] == TTTBlockState::Empty,
    {
        TTTGameState::with_size(BOARD_SIZE, WIN_CONDITION)
    }

    /// Places `p`'s mark on `(px, py)`; fails, leaving the board unchanged,
    /// when the cell is already occupied.
    pub fn apply_move(&mut self, p: TTTPlayer, px: usize, py: usize) -> (r: Result<(), MoveError>)
        requires
            old(self).wf(),
            px < old(self).n,
            py < old(self).n,
        ensures
            final(self).wf(),
            final(self).n == old(self).n,
            final(self).k == old(self).k,
            old(self).board@[px as int * old(self).n + py as int] == TTTBlockState::Empty ==> (r
                == Ok::<(), MoveError>(()) && final(self).board@ == old(self).board@.update(
                px as int * old(self).n + py as int,
                mark_of(p),
            )),
            old(self).board@[px as int * old(self).n + py as int] != TTTBlockState::Empty ==> (r
                == Err::<(), MoveError>(MoveError::CellOccupied) && final(self).board@ == old(
                self,
            ).board@),
    {
        proof {
            lemma_cell_index(self.n as int, px as int, py as int);
        }
        let idx: usize = px * self.n + py;
        if self.board[idx] != TTTBlockState::Empty {
            return Err(MoveError::CellOccupied);
        }
        let m = match p {
            TTTPlayer::Circle => TTTBlockState::Circle,
            TTTPlayer::Cross => TTTBlockState::Cross,
        };
        vstd::pervasive::VecAdditionalExecFns::set(&mut self.board, idx, m);
        Ok(())
    }
}

impl Default for TTTGameState {
    /// The default empty board.
    fn default() -> (r: TTTGameState)
        ensures
            r.wf(),
            r.n == BOARD_SIZE,
            r.k == WIN_CONDITION,
            forall|t: int| 0 <= t < r.board@.len() ==> r.board@[t] == TTTBlockState::Empty,
    {
        TTTGameState::new()
    }
}

/// Failure of a move application.
#[derive(Clone, Copy, PartialEq, Eq, Structural, Debug)]
pub enum MoveError {
    CellOccupied,
}

/// A cell's row-major index lies inside a board of `n * n` cells.
pub proof fn lemma_cell_index(n: int, i: int, j: int)
    requires
        0 <= i < n,
        0 <= j < n,
        n <= MAX_BOARD_SIZE,
    ensures
        0 <= i * n + j < n * n,
        n * n <= MAX_BOARD_SIZE * MAX_BOARD_SIZE,
{
    assert(i * n + j < n * n && n * n <= MAX_BOARD_SIZE * MAX_BOARD_SIZE) by (nonlinear_arith)
        requires
            0 <= i < n,
            0 <= j < n,
            n <= MAX_BOARD_SIZE,
    ;
}

/// Row-major indexing is injective on cells of the board.
pub proof fn lemma_cell_index_inj(n: int, i1: int, j1: int, i2: int, j2: int)
    requires
        0 <= i1 < n,
        0 <= j1 < n,
        0 <= i2 < n,
        0 <= j2 < n,
        i1 * n + j1 == i2 * n + j2,
    ensures
        i1 == i2,
        j1 == j2,
{
    assert(i1 == i2 && j1 == j2) by (nonlinear_arith)
        requires
            0 <= i1 < n,
            0 <= j1 < n,
            0 <= i2 < n,
            0 <= j2 < n,
            i1 * n + j1 == i2 * n + j2,
    ;
}

/// `n * n` fits comfortably in `usize` for an accepted side length.
pub proof fn lemma_square_bound(n: int)
    requires
        0 <= n <= MAX_BOARD_SIZE,
    ensures
        n * n <= MAX_BOARD_SIZE * MAX_BOARD_SIZE,
{
    assert(n * n <= MAX_BOARD_SIZE * MAX_BOARD_SIZE) by (nonlinear_arith)
        requires
            0 <= n <= MAX_BOARD_SIZE,
    ;
}

/// Checks for `gs.k` consecutive cells of mark `m` starting at `(i, j)` along `d`.
fn run_from(gs: &TTTGameState, i: usize, j: usize, d: usize, m: TTTBlockState) -> (r: bool)
    requires
        gs.wf(),
        i < gs.n,
        j < gs.n,
        d < 4,
    ensures
        r == run_at(gs.board@, gs.n as int, gs.k as int, m, i as int, j as int, d as int),
{
    let dxe: i64 = if d == 0 {
        0
    } else {
        1
    };
    let dye: i64 = if d == 1 {
        0
    } else if d == 3 {
        -1
    } else {
        1
    };
    assert(dxe as int == dx(d as int) && dye as int == dy(d as int));
    let n64: i64 = gs.n as i64;
    let mut cx: i64 = i as i64;
    let mut cy: i64 = j as i64;
    let mut t: usize = 0;
    while t < gs.k
        invariant
            gs.wf(),
            i < gs.n,
            j < gs.n,
            d < 4,
            0 <= t <= gs.k,
            dxe as int == dx(d as int),
            dye as int == dy(d as int),
            n64 == gs.n,
            cx as int == line_pt_x(i as int, d as int, t as int),
            cy as int == line_pt_y(j as int, d as int, t as int),
            -(MAX_BOARD_SIZE as int) <= cx as int <= 2 * MAX_BOARD_SIZE as int,
            -(MAX_BOARD_SIZE as int) <= cy as int <= 2 * MAX_BOARD_SIZE as int,
            forall|u: int|
                0 <= u < t ==> #[trigger] pos_ok(
                    gs.board@,
                    gs.n as int,
                    m,
                    i as int,
                    j as int,
                    d as int,
                    u,
                ),
        decreases gs.k - t,
    {
        if cx < 0 || cx >= n64 || cy < 0 || cy >= n64 {
            proof {
                assert(!pos_ok(gs.board@, gs.n as int, m, i as int, j as int, d as int, t as int));
            }
            return false;
        }
        proof {
            lemma_cell_index(gs.n as int, cx as int, cy as int);
        }
        let idx: usize = (cx as usize) * gs.n + (cy as usize);
        if gs.board[idx] != m {
            proof {
                assert(!pos_ok(gs.board@, gs.n as int, m, i as int, j as int, d as int, t as int));
            }
            return false;
        }
        proof {
            assert(pos_ok(gs.board@, gs.n as int, m, i as int, j as int, d as int, t as int));
            let ti = t as int;
            let dd = d as int;
            assert((ti + 1) * dx(dd) == ti * dx(dd) + dx(dd)) by (nonlinear_arith);
            assert((ti + 1) * dy(dd) == ti * dy(dd) + dy(dd)) by (nonlinear_arith);
        }
        cx = cx + dxe;
        cy = cy + dye;
        t += 1;
    }
    true
}

} // verus!

verus! {

/// Multiplying by a unit step factor is the identity, negation, or zero.
proof fn lemma_mul_consts(s: int)
    ensures
        s * 0 == 0,
        s * 1 == s,
        s * -1 == -s,
{
    assert(s * 0 == 0 && s * 1 == s && s * -1 == -s) by (nonlinear_arith);
}

/// A run of mark `m` starts on or after `(sx, sy)` along direction `d`.
pub open spec fn ray_win(
    b: Seq<TTTBlockState>,
    n: int,
    k: int,
    m: TTTBlockState,
    sx: int,
    sy: int,
    d: int,
) -> bool {
    exists|s: int|
        s >= 0 && #[trigger] run_at(b, n, k, m, line_pt_x(sx, d, s), line_pt_y(sy, d, s), d)
}

/// How many steps the line through `(px, py)` with direction `d` extends
/// backwards before leaving the board.
pub open spec fn back_steps(n: int, d: int, px: int, py: int) -> int {
    if d == 0 {
        py
    } else if d == 1 {
        px
    } else if d == 2 {
        if px < py {
            px
        } else {
            py
        }
    } else {
        if px < n - 1 - py {
            px
        } else {
            n - 1 - py
        }
    }
}

/// Scanning forward from the line's first on-board cell sees exactly the runs
/// that lie anywhere on the line through `(px, py)`.
pub proof fn lemma_ray_covers_line(
    b: Seq<TTTBlockState>,
    n: int,
    k: int,
    m: TTTBlockState,
    px: int,
    py: int,
    d: int,
)
    requires
        0 <= d < 4,
        0 <= px < n,
        0 <= py < n,
        k >= 1,
    ensures
        line_win_through(b, n, k, m, px, py, d) <==> ray_win(
            b,
            n,
            k,
            m,
            px - back_steps(n, d, px, py) * dx(d),
            py - back_steps(n, d, px, py) * dy(d),
            d,
        ),
{
    let a = back_steps(n, d, px, py);
    lemma_mul_consts(a);
    let sx = px - a * dx(d);
    let sy = py - a * dy(d);
    if line_win_through(b, n, k, m, px, py, d) {
        let s0 = choose|s: int|
            #[trigger] run_at(b, n, k, m, line_pt_x(px, d, s), line_pt_y(py, d, s), d);
        lemma_mul_consts(s0);
        lemma_mul_consts(s0 + a);
        let ix = line_pt_x(px, d, s0);
        let iy = line_pt_y(py, d, s0);
        assert(pos_ok(b, n, m, ix, iy, d, 0));
        lemma_mul_consts(0);
        assert(0 <= ix < n && 0 <= iy < n);
        if d == 0 {
            assert(iy == py + s0);
            assert(s0 + a >= 0);
        } else if d == 1 {
            assert(ix == px + s0);
            assert(s0 + a >= 0);
        } else if d == 2 {
            assert(ix == px + s0);
            assert(s0 + a >= 0);
        } else {
            assert(ix == px + s0 && iy == py - s0);
            assert(s0 + a >= 0);
        }
        assert(line_pt_x(sx, d, s0 + a) == ix && line_pt_y(sy, d, s0 + a) == iy);
        assert(ray_win(b, n, k, m, sx, sy, d));
    }
    if ray_win(b, n, k, m, sx, sy, d) {
        let s1 = choose|s: int|
            s >= 0 && #[trigger] run_at(b, n, k, m, line_pt_x(sx, d, s), line_pt_y(sy, d, s), d);
        lemma_mul_consts(s1);
        lemma_mul_consts(s1 - a);
        assert(line_pt_x(px, d, s1 - a) == line_pt_x(sx, d, s1) && line_pt_y(py, d, s1 - a)
            == line_pt_y(sy, d, s1));
        assert(line_win_through(b, n, k, m, px, py, d));
    }
}

/// Scans the whole line through `(px, py)` with direction `d` for `gs.k`
/// consecutive cells holding `current`.
pub fn check_line(
    gs: &TTTGameState,
    current: TTTBlockState,
    px: usize,
    py: usize,
    d: usize,
) -> (r: bool)
    requires
        gs.wf(),
        px < gs.n,
        py < gs.n,
        d < 4,
    ensures
        r == line_win_through(
            gs.board@,
            gs.n as int,
            gs.k as int,
            current,
            px as int,
            py as int,
            d as int,
        ),
{
    let ghost b = gs.board@;
    let ghost ni = gs.n as int;
    let ghost ki = gs.k as int;
    let ghost di = d as int;
    let n = gs.n;
    let a: usize = if d == 0 {
        py
    } else if d == 1 {
        px
    } else if d == 2 {
        if px < py {
            px
        } else {
            py
        }
    } else {
        if px < n - 1 - py {
            px
        } else {
            n - 1 - py
        }
    };
    let sx: usize = if d == 0 {
        px
    } else {
        px - a
    };
    let sy: usize = if d == 1 {
        py
    } else if d == 3 {
        py + a
    } else {
        py - a
    };
    proof {
        lemma_mul_consts(a as int);
        assert(a == back_steps(ni, di, px as int, py as int));
        assert(sx as int == px - a * dx(di));
        assert(sy as int == py - a * dy(di));
        lemma_mul_consts(0);
    }
    let dxe: i64 = if d == 0 {
        0
    } else {
        1
    };
    let dye: i64 = if d == 1 {
        0
    } else if d == 3 {
        -1
    } else {
        1
    };
    let n64: i64 = n as i64;
    let mut cx: i64 = sx as i64;
    let mut cy: i64 = sy as i64;
    let ghost mut s: int = 0;
    while cx >= 0 && cx < n64 && cy >= 0 && cy < n64
        invariant
            gs.wf(),
            b == gs.board@,
            ni == gs.n as int,
            ki == gs.k as int,
            di == d as int,
            0 <= sx < gs.n,
            0 <= sy < gs.n,
            px < gs.n,
            py < gs.n,
            sx as int == px - a * dx(di),
            sy as int == py - a * dy(di),
            a == back_steps(ni, di, px as int, py as int),
            d < 4,
            dxe as int == dx(di),
            dye as int == dy(di),
            n64 == gs.n,
            s >= 0,
            cx as int == line_pt_x(sx as int, di, s),
            cy as int == line_pt_y(sy as int, di, s),
            -1 <= cx as int <= n64 as int,
            -1 <= cy as int <= n64 as int,
            d == 0 ==> cx == sx && cy as int == sy + s,
            d == 1 ==> cy == sy && cx as int == sx + s,
            d == 2 ==> cx as int == sx + s && cy as int == sy + s,
            d == 3 ==> cx as int == sx + s && cy as int == sy - s,
            forall|u: int|
                0 <= u < s ==> !#[trigger] run_at(
                    b,
                    ni,
                    ki,
                    current,
                    line_pt_x(sx as int, di, u),
                    line_pt_y(sy as int, di, u),
                    di,
                ),
        decreases (if d == 0 { n64 - cy } else { n64 - cx }) as int,
    {
        if run_from(gs, cx as usize, cy as usize, d, current) {
            proof {
                assert(run_at(b, ni, ki, current, line_pt_x(sx as int, di, s), line_pt_y(sy as int, di, s), di));
                assert(ray_win(b, ni, ki, current, sx as int, sy as int, di));
                lemma_ray_covers_line(b, ni, ki, current, px as int, py as int, di);
            }
            return true;
        }
        proof {
            assert((s + 1) * dx(di) == s * dx(di) + dx(di)) by (nonlinear_arith);
            assert((s + 1) * dy(di) == s * dy(di) + dy(di)) by (nonlinear_arith);
            s = s + 1;
        }
        cx = cx + dxe;
        cy = cy + dye;
    }
    proof {
        assert forall|u: int| u >= 0 implies !#[trigger] run_at(
            b,
            ni,
            ki,
            current,
            line_pt_x(sx as int, di, u),
            line_pt_y(sy as int, di, u),
            di,
        ) by {
            if u < s {
            } else {
                lemma_mul_consts(u);
                if run_at(
                    b,
                    ni,
                    ki,
                    current,
                    line_pt_x(sx as int, di, u),
                    line_pt_y(sy as int, di, u),
                    di,
                ) {
                    assert(pos_ok(
                        b,
                        ni,
                        current,
                        line_pt_x(sx as int, di, u),
                        line_pt_y(sy as int, di, u),
                        di,
                        0,
                    ));
                    lemma_mul_consts(0);
                    if d == 0 {
                        assert(line_pt_y(sy as int, di, u) == sy + u);
                        assert(cy as int == sy + s);
                        assert(false);
                    } else if d == 1 {
                        assert(line_pt_x(sx as int, di, u) == sx + u);
                        assert(cx as int == sx + s);
                        assert(false);
                    } else if d == 2 {
                        assert(line_pt_x(sx as int, di, u) == sx + u);
                        assert(line_pt_y(sy as int, di, u) == sy + u);
                        assert(false);
                    } else {
                        assert(line_pt_x(sx as int, di, u) == sx + u);
                        assert(line_pt_y(sy as int, di, u) == sy - u);
                        assert(false);
                    }
                }
            }
        }
        assert(!ray_win(b, ni, ki, current, sx as int, sy as int, di));
        lemma_ray_covers_line(b, ni, ki, current, px as int, py as int, di);
    }
    false
}

} // verus!

verus! {

/// No winning run can start this deep inside the board: its far end would
/// leave the grid in every scan direction.
pub proof fn lemma_interior_no_run(
    b: Seq<TTTBlockState>,
    n: int,
    k: int,
    m: TTTBlockState,
    i: int,
    j: int,
    d: int,
)
    requires
        0 <= d < 4,
        1 <= k <= n,
        i >= n - k + 1,
        j >= n - k + 1,
    ensures
        !run_at(b, n, k, m, i, j, d),
{
    lemma_mul_consts(k - 1);
    if run_at(b, n, k, m, i, j, d) {
        assert(pos_ok(b, n, m, i, j, d, k - 1));
        if d == 0 {
            assert(line_pt_y(j, d, k - 1) == j + (k - 1));
            assert(false);
        } else {
            assert(line_pt_x(i, d, k - 1) == i + (k - 1));
            assert(false);
        }
    }
}

/// The win verdict for a mark, as executable code.
fn mark_result(m: TTTBlockState) -> (r: TTTGameResult)
    ensures
        r == result_of(m),
{
    match m {
        TTTBlockState::Circle => TTTGameResult::CircleWin,
        TTTBlockState::Cross => TTTGameResult::CrossWin,
        TTTBlockState::Empty => TTTGameResult::Draw,
    }
}

/// Win/draw detection. With `last_move` given, only the four lines through
/// that cell are scanned for a win of the mark standing there, and a draw is
/// never reported. With no `last_move`, the whole board is scanned and the
/// verdict is the brute-force one: a win of either mark, a draw on a full
/// board, or nothing while the game is still open.
pub fn ttt_get_game_status(gs: &TTTGameState, last_move: Option<(usize, usize)>) -> (r: Option<
    TTTGameResult,
>)
    requires
        gs.wf(),
        match last_move {
            Some((px, py)) => px < gs.n && py < gs.n && gs.board@[px as int * gs.n + py as int]
                != TTTBlockState::Empty,
            None => true,
        },
    ensures
        match last_move {
            Some((px, py)) => r == (if incremental_win(
                gs.board@,
                gs.n as int,
                gs.k as int,
                gs.board@[px as int * gs.n + py as int],
                px as int,
                py as int,
            ) {
                Some(result_of(gs.board@[px as int * gs.n + py as int]))
            } else {
                None::<TTTGameResult>
            }),
            None => status_matches(gs.board@, gs.n as int, gs.k as int, r),
        },
{
    let ghost b = gs.board@;
    let ghost ni = gs.n as int;
    let ghost ki = gs.k as int;
    let n = gs.n;
    let k = gs.k;
    match last_move {
        Some((px, py)) => {
            proof {
                lemma_cell_index(ni, px as int, py as int);
            }
            let idx: usize = px * n + py;
            let current = gs.board[idx];
            let mut d: usize = 0;
            while d < 4
                invariant
                    gs.wf(),
                    b == gs.board@,
                    ni == gs.n as int,
                    ki == gs.k as int,
                    px < gs.n,
                    py < gs.n,
                    d <= 4,
                    last_move == Some::<(usize, usize)>((px, py)),
                    current == b[px as int * ni + py as int],
                    forall|d2: int|
                        0 <= d2 < d ==> !#[trigger] line_win_through(
                            b,
                            ni,
                            ki,
                            current,
                            px as int,
                            py as int,
                            d2,
                        ),
                decreases 4 - d,
            {
                if check_line(gs, current, px, py, d) {
                    proof {
                        lemma_cell_index(ni, px as int, py as int);
                        assert(incremental_win(b, ni, ki, current, px as int, py as int));
                    }
                    return Some(mark_result(current));
                }
                d += 1;
            }
            proof {
                if incremental_win(b, ni, ki, current, px as int, py as int) {
                    let d2 = choose|d2: int|
                        0 <= d2 < 4 && #[trigger] line_win_through(
                            b,
                            ni,
                            ki,
                            current,
                            px as int,
                            py as int,
                            d2,
                        );
                    assert(false);
                }
            }
            None
        },
        None => {
            let mut saw_empty = false;
            let mut i: usize = 0;
            while i < n
                invariant
                    gs.wf(),
                    b == gs.board@,
                    ni == gs.n as int,
                    ki == gs.k as int,
                    n == gs.n,
                    k == gs.k,
                    last_move is None,
                    i <= n,
                    saw_empty <==> (exists|t: int|
                        0 <= t < i as int * ni && #[trigger] b[t] == TTTBlockState::Empty),
                    forall|i2: int, j2: int, d2: int|
                        #![trigger run_at(b, ni, ki, TTTBlockState::Circle, i2, j2, d2)]
                        #![trigger run_at(b, ni, ki, TTTBlockState::Cross, i2, j2, d2)]
                        (0 <= i2 < ni && 0 <= j2 < ni && i2 * ni + j2 < i as int * ni && 0 <= d2
                            < 4) ==> (!run_at(b, ni, ki, TTTBlockState::Circle, i2, j2, d2)
                            && !run_at(b, ni, ki, TTTBlockState::Cross, i2, j2, d2)),
                decreases n - i,
            {
                let mut j: usize = 0;
                while j < n
                    invariant
                        gs.wf(),
                        b == gs.board@,
                        ni == gs.n as int,
                        ki == gs.k as int,
                        n == gs.n,
                        k == gs.k,
                        last_move is None,
                        i < n,
                        j <= n,
                        saw_empty <==> (exists|t: int|
                            0 <= t < i as int * ni + j as int && #[trigger] b[t]
                                == TTTBlockState::Empty),
                        forall|i2: int, j2: int, d2: int|
                            #![trigger run_at(b, ni, ki, TTTBlockState::Circle, i2, j2, d2)]
                            #![trigger run_at(b, ni, ki, TTTBlockState::Cross, i2, j2, d2)]
                            (0 <= i2 < ni && 0 <= j2 < ni && i2 * ni + j2 < i as int * ni
                                + j as int && 0 <= d2 < 4) ==> (!run_at(
                                b,
                                ni,
                                ki,
                                TTTBlockState::Circle,
                                i2,
                                j2,
                                d2,
                            ) && !run_at(b, ni, ki, TTTBlockState::Cross, i2, j2, d2)),
                    decreases n - j,
                {
                    proof {
                        lemma_cell_index(ni, i as int, j as int);
                    }
                    let idx: usize = i * n + j;
                    let c = gs.board[idx];
                    if c == TTTBlockState::Empty {
                        saw_empty = true;
                        proof {
                            lemma_mul_consts(0);
                            assert forall|d2: int| 0 <= d2 < 4 implies !run_at(
                                b,
                                ni,
                                ki,
                                TTTBlockState::Circle,
                                i as int,
                                j as int,
                                d2,
                            ) && !run_at(b, ni, ki, TTTBlockState::Cross, i as int, j as int, d2) by {
                                if run_at(b, ni, ki, TTTBlockState::Circle, i as int, j as int, d2) {
                                    assert(pos_ok(
                                        b,
                                        ni,
                                        TTTBlockState::Circle,
                                        i as int,
                                        j as int,
                                        d2,
                                        0,
                                    ));
                                    assert(false);
                                }
                                if run_at(b, ni, ki, TTTBlockState::Cross, i as int, j as int, d2) {
                                    assert(pos_ok(
                                        b,
                                        ni,
                                        TTTBlockState::Cross,
                                        i as int,
                                        j as int,
                                        d2,
                                        0,
                                    ));
                                    assert(false);
                                }
                            }
                        }
                    } else if k >= 2 && i + k >= n + 1 && i + 2 <= k && j + k >= n + 1 && j + 2
                        <= k {
                        // interior cells where a winning run cannot start are skipped
                        proof {
                            assert forall|d2: int| 0 <= d2 < 4 implies !run_at(
                                b,
                                ni,
                                ki,
                                TTTBlockState::Circle,
                                i as int,
                                j as int,
                                d2,
                            ) && !run_at(b, ni, ki, TTTBlockState::Cross, i as int, j as int, d2) by {
                                lemma_interior_no_run(
                                    b,
                                    ni,
                                    ki,
                                    TTTBlockState::Circle,
                                    i as int,
                                    j as int,
                                    d2,
                                );
                                lemma_interior_no_run(
                                    b,
                                    ni,
                                    ki,
                                    TTTBlockState::Cross,
                                    i as int,
                                    j as int,
                                    d2,
                                );
                            }
                        }
                    } else {
                        let mut d: usize = 0;
                        while d < 4
                            invariant
                                gs.wf(),
                                b == gs.board@,
                                ni == gs.n as int,
                                ki == gs.k as int,
                                n == gs.n,
                                k == gs.k,
                                last_move is None,
                                i < n,
                                j < n,
                                d <= 4,
                                c == b[i as int * ni + j as int],
                                c != TTTBlockState::Empty,
                                forall|d2: int|
                                    0 <= d2 < d ==> !#[trigger] run_at(
                                        b,
                                        ni,
                                        ki,
                                        c,
                                        i as int,
                                        j as int,
                                        d2,
                                    ),
                            decreases 4 - d,
                        {
                            if run_from(gs, i, j, d, c) {
                                proof {
                                    lemma_cell_index(ni, i as int, j as int);
                                    assert(wins(b, ni, ki, c));
                                }
                                return Some(mark_result(c));
                            }
                            d += 1;
                        }
                        proof {
                            lemma_mul_consts(0);
                            assert forall|d2: int| 0 <= d2 < 4 implies !run_at(
                                b,
                                ni,
                                ki,
                                TTTBlockState::Circle,
                                i as int,
                                j as int,
                                d2,
                            ) && !run_at(b, ni, ki, TTTBlockState::Cross, i as int, j as int, d2) by {
                                if run_at(b, ni, ki, TTTBlockState::Circle, i as int, j as int, d2) {
                                    assert(pos_ok(
                                        b,
                                        ni,
                                        TTTBlockState::Circle,
                                        i as int,
                                        j as int,
                                        d2,
                                        0,
                                    ));
                                    assert(c == TTTBlockState::Circle);
                                    assert(!run_at(b, ni, ki, c, i as int, j as int, d2));
                                    assert(false);
                                }
                                if run_at(b, ni, ki, TTTBlockState::Cross, i as int, j as int, d2) {
                                    assert(pos_ok(
                                        b,
                                        ni,
                                        TTTBlockState::Cross,
                                        i as int,
                                        j as int,
                                        d2,
                                        0,
                                    ));
                                    assert(c == TTTBlockState::Cross);
                                    assert(!run_at(b, ni, ki, c, i as int, j as int, d2));
                                    assert(false);
                                }
                            }
                        }
                    }
                    proof {
                        assert forall|i2: int, j2: int, d2: int|
                            #![trigger run_at(b, ni, ki, TTTBlockState::Circle, i2, j2, d2)]
                            #![trigger run_at(b, ni, ki, TTTBlockState::Cross, i2, j2, d2)]
                            (0 <= i2 < ni && 0 <= j2 < ni && i2 * ni + j2 < i as int * ni
                                + j as int + 1 && 0 <= d2 < 4) implies (!run_at(
                                b,
                                ni,
                                ki,
                                TTTBlockState::Circle,
                                i2,
                                j2,
                                d2,
                            ) && !run_at(b, ni, ki, TTTBlockState::Cross, i2, j2, d2)) by {
                            if i2 * ni + j2 == i as int * ni + j as int {
                                lemma_cell_index_inj(ni, i2, j2, i as int, j as int);
                            }
                        }
                    }
                    j += 1;
                }
                proof {
                    assert((i as int + 1) * ni == i as int * ni + ni) by (nonlinear_arith);
                }
                i += 1;
            }
            proof {
                assert(ni * ni == b.len());
                if wins(b, ni, ki, TTTBlockState::Circle) {
                    let (i2, j2, d2) = choose|i2: int, j2: int, d2: int|
                        0 <= d2 < 4 && #[trigger] run_at(
                            b,
                            ni,
                            ki,
                            TTTBlockState::Circle,
                            i2,
                            j2,
                            d2,
                        );
                    lemma_mul_consts(0);
                    assert(pos_ok(b, ni, TTTBlockState::Circle, i2, j2, d2, 0));
                    lemma_cell_index(ni, i2, j2);
                    assert(false);
                }
                if wins(b, ni, ki, TTTBlockState::Cross) {
                    let (i2, j2, d2) = choose|i2: int, j2: int, d2: int|
                        0 <= d2 < 4 && #[trigger] run_at(
                            b,
                            ni,
                            ki,
                            TTTBlockState::Cross,
                            i2,
                            j2,
                            d2,
                        );
                    lemma_mul_consts(0);
                    assert(pos_ok(b, ni, TTTBlockState::Cross, i2, j2, d2, 0));
                    lemma_cell_index(ni, i2, j2);
                    assert(false);
                }
            }
            if saw_empty {
                None
            } else {
                Some(TTTGameResult::Draw)
            }
        },
    }
}

} // verus!

verus! {

/// The serialized byte of one cell: a space, `o`, or `x`.
pub open spec fn cell_byte(c: TTTBlockState) -> u8 {
    match c {
        TTTBlockState::Empty => 32,
        TTTBlockState::Circle => 111,
        TTTBlockState::Cross => 120,
    }
}

/// The cell a byte stands for, if any.
pub open spec fn byte_cell(x: u8) -> Option<TTTBlockState> {
    if x == 32 {
        Some(TTTBlockState::Empty)
    } else if x == 111 {
        Some(TTTBlockState::Circle)
    } else if x == 120 {
        Some(TTTBlockState::Cross)
    } else {
        None
    }
}

/// The canonical serialization of a board: one byte per cell, row-major.
pub open spec fn board_bytes(b: Seq<TTTBlockState>) -> Seq<u8> {
    b.map_values(|c: TTTBlockState| cell_byte(c))
}

/// The board a well-formed serialization stands for.
pub open spec fn bytes_board(s: Seq<u8>) -> Seq<TTTBlockState> {
    s.map_values(|x: u8| byte_cell(x).unwrap())
}

impl TTTGameState {
    /// Serializes the board: always exactly `n * n` bytes, one per cell.
    pub fn serialize(&self) -> (r: Vec<u8>)
        requires
            self.wf(),
        ensures
            r@ == board_bytes(self.board@),
            r@.len() == self.n * self.n,
    {
        let ghost b = self.board@;
        let mut r: Vec<u8> = Vec::new();
        let mut t: usize = 0;
        let total: usize = self.board.len();
        while t < total
            invariant
                b == self.board@,
                total == b.len(),
                0 <= t <= total,
                r@.len() == t,
                forall|u: int| 0 <= u < t ==> r@[u] == cell_byte(#[trigger] b[u]),
            decreases total - t,
        {
            let x = match self.board[t] {
                TTTBlockState::Empty => 32u8,
                TTTBlockState::Circle => 111u8,
                TTTBlockState::Cross => 120u8,
            };
            r.push(x);
            t += 1;
        }
        proof {
            assert(r@ =~= board_bytes(b));
        }
        r
    }

    /// Rebuilds a board of side `n` and win length `k` from its serialized
    /// form. Rejects a payload of the wrong length, then any byte that names
    /// no cell; accepts exactly the well-formed serializations.
    pub fn parse_board(bytes: &[u8], n: usize, k: usize) -> (r: Result<
        TTTGameState,
        crate::DecodeError,
    >)
        requires
            1 <= k <= n <= MAX_BOARD_SIZE,
        ensures
            r matches Ok(gs) ==> gs.wf() && gs.n == n && gs.k == k && board_bytes(gs.board@)
                == bytes@ && gs.board@ == bytes_board(bytes@),
            (r is Ok) <==> (bytes@.len() == n * n && forall|t: int|
                0 <= t < bytes@.len() ==> byte_cell(#[trigger] bytes@[t]) is Some),
            (r == Err::<TTTGameState, crate::DecodeError>(crate::DecodeError::BadBoardLength))
                <==> bytes@.len() != n * n,
            (r == Err::<TTTGameState, crate::DecodeError>(crate::DecodeError::BadBoardChar)) <==> (
            bytes@.len() == n * n && exists|t: int|
                0 <= t < bytes@.len() && byte_cell(#[trigger] bytes@[t]) is None),
    {
        proof {
            lemma_square_bound(n as int);
        }
        let total: usize = n * n;
        if bytes.len() != total {
            return Err(crate::DecodeError::BadBoardLength);
        }
        let mut board: Vec<TTTBlockState> = Vec::new();
        let mut t: usize = 0;
        while t < total
            invariant
                bytes@.len() == total,
                total == n * n,
                0 <= t <= total,
                board@.len() == t,
                forall|u: int|
                    0 <= u < t ==> byte_cell(#[trigger] bytes@[u]) == Some(board@[u]),
            decreases total - t,
        {
            let x = bytes[t];
            let c = if x == 32 {
                TTTBlockState::Empty
            } else if x == 111 {
                TTTBlockState::Circle
            } else if x == 120 {
                TTTBlockState::Cross
            } else {
                return Err(crate::DecodeError::BadBoardChar);
            };
            board.push(c);
            t += 1;
        }
        let gs = TTTGameState { n, k, board };
        proof {
            assert(board_bytes(gs.board@) =~= bytes@);
            assert(gs.board@ =~= bytes_board(bytes@));
        }
        Ok(gs)
    }
}

/// Law: board serialization round-trips. It is injective, and every byte it
/// emits names a cell, so parsing a serialized board recovers that board.
pub proof fn lemma_board_round_trip(b1: Seq<TTTBlockState>, b2: Seq<TTTBlockState>)
    requires
        board_bytes(b1) == board_bytes(b2),
    ensures
        b1 == b2,
        forall|t: int|
            0 <= t < board_bytes(b1).len() ==> byte_cell(#[trigger] board_bytes(b1)[t]) == Some(
                b1[t],
            ),
{
    assert(board_bytes(b1).len() == b1.len());
    assert(board_bytes(b2).len() == b2.len());
    assert forall|t: int| 0 <= t < b1.len() implies b1[t] == b2[t] by {
        assert(board_bytes(b1)[t] == cell_byte(b1[t]));
        assert(board_bytes(b2)[t] == cell_byte(b2[t]));
    }
    assert(b1 =~= b2);
}

/// A fresh win on a board reached by one legal move must run through the
/// placed cell, and can only belong to the mover.
proof fn lemma_new_win_through_move(
    b0: Seq<TTTBlockState>,
    b: Seq<TTTBlockState>,
    n: int,
    k: int,
    p: TTTPlayer,
    px: int,
    py: int,
    m2: TTTBlockState,
)
    requires
        1 <= k <= n,
        n <= MAX_BOARD_SIZE,
        b0.len() == n * n,
        0 <= px < n,
        0 <= py < n,
        b0[px * n + py] == TTTBlockState::Empty,
        b == b0.update(px * n + py, mark_of(p)),
        !wins(b0, n, k, m2),
        wins(b, n, k, m2),
    ensures
        incremental_win(b, n, k, mark_of(p), px, py),
        m2 == mark_of(p),
{
    lemma_cell_index(n, px, py);
    let (i, j, d) = choose|i: int, j: int, d: int|
        0 <= d < 4 && #[trigger] run_at(b, n, k, m2, i, j, d);
    if exists|t: int|
        0 <= t < k && #[trigger] line_pt_x(i, d, t) == px && line_pt_y(j, d, t) == py {
        let t = choose|t: int|
            0 <= t < k && #[trigger] line_pt_x(i, d, t) == px && line_pt_y(j, d, t) == py;
        assert(pos_ok(b, n, m2, i, j, d, t));
        lemma_cell_index(n, px, py);
        assert(b[px * n + py] == m2);
        assert(m2 == mark_of(p));
        lemma_mul_consts(t);
        assert((-t) * dx(d) == -(t * dx(d))) by (nonlinear_arith);
        assert((-t) * dy(d) == -(t * dy(d))) by (nonlinear_arith);
        assert(line_pt_x(px, d, -t) == i);
        assert(line_pt_y(py, d, -t) == j);
        assert(run_at(b, n, k, m2, line_pt_x(px, d, -t), line_pt_y(py, d, -t), d));
        assert(line_win_through(b, n, k, m2, px, py, d));
        assert(incremental_win(b, n, k, mark_of(p), px, py));
    } else {
        assert forall|t: int| 0 <= t < k implies #[trigger] pos_ok(b0, n, m2, i, j, d, t) by {
            assert(pos_ok(b, n, m2, i, j, d, t));
            let xx = line_pt_x(i, d, t);
            let yy = line_pt_y(j, d, t);
            if xx * n + yy == px * n + py {
                lemma_cell_index_inj(n, xx, yy, px, py);
                assert(false);
            }
            lemma_cell_index(n, xx, yy);
            assert(b0[xx * n + yy] == b[xx * n + yy]);
        }
        assert(run_at(b0, n, k, m2, i, j, d));
        assert(wins(b0, n, k, m2));
        assert(false);
    }
}

/// Law: on a board reached by one legal move from a position nobody had won,
/// the incremental check over the four lines through that move agrees with
/// the brute-force full-board win verdict.
pub proof fn lemma_incremental_matches_full(
    b0: Seq<TTTBlockState>,
    b: Seq<TTTBlockState>,
    n: int,
    k: int,
    p: TTTPlayer,
    px: int,
    py: int,
)
    requires
        1 <= k <= n,
        n <= MAX_BOARD_SIZE,
        b0.len() == n * n,
        0 <= px < n,
        0 <= py < n,
        b0[px * n + py] == TTTBlockState::Empty,
        b == b0.update(px * n + py, mark_of(p)),
        !wins(b0, n, k, TTTBlockState::Circle),
        !wins(b0, n, k, TTTBlockState::Cross),
    ensures
        incremental_win(b, n, k, mark_of(p), px, py) <==> (wins(b, n, k, TTTBlockState::Circle)
            || wins(b, n, k, TTTBlockState::Cross)),
        incremental_win(b, n, k, mark_of(p), px, py) ==> wins(b, n, k, mark_of(p)),
{
    if incremental_win(b, n, k, mark_of(p), px, py) {
        let d = choose|d: int|
            0 <= d < 4 && #[trigger] line_win_through(b, n, k, mark_of(p), px, py, d);
        let s = choose|s: int|
            #[trigger] run_at(b, n, k, mark_of(p), line_pt_x(px, d, s), line_pt_y(py, d, s), d);
        assert(wins(b, n, k, mark_of(p)));
    }
    if wins(b, n, k, TTTBlockState::Circle) {
        lemma_new_win_through_move(b0, b, n, k, p, px, py, TTTBlockState::Circle);
    }
    if wins(b, n, k, TTTBlockState::Cross) {
        lemma_new_win_through_move(b0, b, n, k, p, px, py, TTTBlockState::Cross);
    }
}

} // verus!

verus! {

/// The message a peer sends after placing `p`'s mark on the previously empty
/// cell `(px, py)` of board `b0`: a won game, a filled board, or an update.
pub open spec fn move_reply_model(
    b0: Seq<TTTBlockState>,
    n: int,
    k: int,
    p: TTTPlayer,
    px: int,
    py: int,
) -> crate::MessageModel {
    let b1 = b0.update(px * n + py, mark_of(p));
    if incremental_win(b1, n, k, mark_of(p), px, py) {
        crate::MessageModel::GameOver(crate::Game::TicTacToe, board_bytes(b1), crate::ResultTag::Win)
    } else if is_full(b1) {
        crate::MessageModel::GameOver(
            crate::Game::TicTacToe,
            board_bytes(b1),
            crate::ResultTag::Draw,
        )
    } else {
        crate::MessageModel::GameMsg(crate::Game::TicTacToe, board_bytes(b1))
    }
}

/// Plays the random strategy: picks one empty cell uniformly, places the
/// player's mark there, and reports either the game-over frame (a win seen by
/// the incremental check, or a draw when the last cell was filled) or the
/// updated board. Returns the chosen cell along with the message.
pub fn tictactoe_rand(game_state: TTTGameState, player: &TTTPlayer) -> (r: (
    (usize, usize),
    crate::Message,
))
    requires
        game_state.wf(),
        !is_full(game_state.board@),
    ensures
        r.0.0 < game_state.n,
        r.0.1 < game_state.n,
        game_state.board@[r.0.0 as int * game_state.n + r.0.1 as int] == TTTBlockState::Empty,
        r.1@ == move_reply_model(
            game_state.board@,
            game_state.n as int,
            game_state.k as int,
            *player,
            r.0.0 as int,
            r.0.1 as int,
        ),
{
    let mut gs = game_state;
    let ghost b0 = gs.board@;
    let ghost ni = gs.n as int;
    let ghost ki = gs.k as int;
    let n = gs.n;
    let mut empty_blocks: Vec<(usize, usize)> = Vec::new();
    let mut i: usize = 0;
    while i < n
        invariant
            gs.wf(),
            b0 == gs.board@,
            ni == gs.n as int,
            n == gs.n,
            i <= n,
            forall|u: int|
                0 <= u < empty_blocks@.len() ==> {
                    let e = #[trigger] empty_blocks@[u];
                    e.0 < n && e.1 < n && e.0 * ni + e.1 < i as int * ni && b0[e.0 * ni + e.1]
                        == TTTBlockState::Empty
                },
            forall|u1: int, u2: int|
                0 <= u1 < u2 < empty_blocks@.len() ==> #[trigger] empty_blocks@[u1].0 * ni
                    + empty_blocks@[u1].1 < #[trigger] empty_blocks@[u2].0 * ni
                    + empty_blocks@[u2].1,
            forall|t: int|
                0 <= t < i as int * ni && #[trigger] b0[t] == TTTBlockState::Empty
                    ==> exists|u: int|
                    0 <= u < empty_blocks@.len() && #[trigger] empty_blocks@[u].0 * ni
                        + empty_blocks@[u].1 == t,
        decreases n - i,
    {
        let mut j: usize = 0;
        while j < n
            invariant
                gs.wf(),
                b0 == gs.board@,
                ni == gs.n as int,
                n == gs.n,
                i < n,
                j <= n,
                forall|u: int|
                    0 <= u < empty_blocks@.len() ==> {
                        let e = #[trigger] empty_blocks@[u];
                        e.0 < n && e.1 < n && e.0 * ni + e.1 < i as int * ni + j as int && b0[e.0
                            * ni + e.1] == TTTBlockState::Empty
                    },
                forall|u1: int, u2: int|
                    0 <= u1 < u2 < empty_blocks@.len() ==> #[trigger] empty_blocks@[u1].0 * ni
                        + empty_blocks@[u1].1 < #[trigger] empty_blocks@[u2].0 * ni
                        + empty_blocks@[u2].1,
                forall|t: int|
                    0 <= t < i as int * ni + j as int && #[trigger] b0[t] == TTTBlockState::Empty
                        ==> exists|u: int|
                        0 <= u < empty_blocks@.len() && #[trigger] empty_blocks@[u].0 * ni
                            + empty_blocks@[u].1 == t,
            decreases n - j,
        {
            proof {
                lemma_cell_index(ni, i as int, j as int);
            }
            let idx: usize = i * n + j;
            let ghost oldlist = empty_blocks@;
            if gs.board[idx] == TTTBlockState::Empty {
                empty_blocks.push((i, j));
            }
            proof {
                assert(forall|u: int|
                    0 <= u < oldlist.len() ==> #[trigger] empty_blocks@[u] == oldlist[u]);
                assert forall|t: int|
                    0 <= t < i as int * ni + j as int + 1 && #[trigger] b0[t]
                        == TTTBlockState::Empty implies exists|u: int|
                    0 <= u < empty_blocks@.len() && #[trigger] empty_blocks@[u].0 * ni
                        + empty_blocks@[u].1 == t by {
                    if t == i as int * ni + j as int {
                        let w = empty_blocks@.len() - 1;
                        assert(empty_blocks@[w] == (i, j));
                        assert(empty_blocks@[w].0 * ni + empty_blocks@[w].1 == t);
                    } else {
                        let u = choose|u: int|
                            0 <= u < oldlist.len() && #[trigger] oldlist[u].0 * ni + oldlist[u].1
                                == t;
                        assert(empty_blocks@[u] == oldlist[u]);
                    }
                }
            }
            j += 1;
        }
        proof {
            assert((i as int + 1) * ni == i as int * ni + ni) by (nonlinear_arith);
        }
        i += 1;
    }
    proof {
        assert(ni * ni == b0.len());
        assert(!is_full(b0));
        let t0 = choose|t: int| 0 <= t < b0.len() && b0[t] == TTTBlockState::Empty;
        assert(b0[t0] == TTTBlockState::Empty);
        assert(empty_blocks@.len() > 0);
    }
    let pick = match crate::choice::choose_index(empty_blocks.len()) {
        Some(u) => u,
        None => vstd::pervasive::unreached(),
    };
    let (px, py) = empty_blocks[pick];
    proof {
        lemma_cell_index(ni, px as int, py as int);
    }
    let ghost pos = px as int * ni + py as int;
    let ghost b1 = b0.update(pos, mark_of(*player));
    let mv = gs.apply_move(*player, px, py);
    proof {
        assert(mv is Ok);
        assert(gs.board@ == b1);
    }
    let status = ttt_get_game_status(&gs, Some((px, py)));
    match status {
        Some(_) => {
            proof {
                assert(b1[pos] == mark_of(*player));
                assert(incremental_win(b1, ni, ki, mark_of(*player), px as int, py as int));
            }
            let payload = gs.serialize();
            (
                (px, py),
                crate::Message::GameOver(
                    crate::Game::TicTacToe,
                    payload,
                    crate::ResultTag::Win,
                ),
            )
        },
        None => {
            proof {
                assert(b1[pos] == mark_of(*player));
                assert(!incremental_win(b1, ni, ki, mark_of(*player), px as int, py as int));
            }
            if empty_blocks.len() == 1 {
                proof {
                    assert forall|t: int| 0 <= t < b1.len() implies b1[t]
                        != TTTBlockState::Empty by {
                        if t != pos {
                            assert(b1[t] == b0[t]);
                            if b0[t] == TTTBlockState::Empty {
                                let u = choose|u: int|
                                    0 <= u < empty_blocks@.len() && #[trigger] empty_blocks@[u].0
                                        * ni + empty_blocks@[u].1 == t;
                                assert(u == 0);
                                assert(pick == 0);
                                assert(empty_blocks@[0].0 * ni + empty_blocks@[0].1 == pos);
                                assert(false);
                            }
                        }
                    }
                    assert(is_full(b1));
                }
                let payload = gs.serialize();
                (
                    (px, py),
                    crate::Message::GameOver(
                        crate::Game::TicTacToe,
                        payload,
                        crate::ResultTag::Draw,
                    ),
                )
            } else {
                proof {
                    let e0 = empty_blocks@[0];
                    let e1 = empty_blocks@[1];
                    let f0 = e0.0 * ni + e0.1;
                    let f1 = e1.0 * ni + e1.1;
                    assert(f0 < f1);
                    if f0 == pos {
                        assert(b1[f1] == b0[f1]);
                        assert(b1[f1] == TTTBlockState::Empty);
                    } else {
                        assert(b1[f0] == b0[f0]);
                        assert(b1[f0] == TTTBlockState::Empty);
                    }
                    assert(!is_full(b1));
                }
                let payload = gs.serialize();
                ((px, py), crate::Message::GameMsg(crate::Game::TicTacToe, payload))
            }
        },
    }
}

} // verus!

verus! {

/// Law: the full-board verdict is pinned down by the board alone whenever at
/// most one mark holds a winning run, so any two scanners meeting
/// `status_matches` agree.
pub proof fn lemma_status_determined(
    b: Seq<TTTBlockState>,
    n: int,
    k: int,
    r1: Option<TTTGameResult>,
    r2: Option<TTTGameResult>,
)
    requires
        status_matches(b, n, k, r1),
        status_matches(b, n, k, r2),
        !(wins(b, n, k, TTTBlockState::Circle) && wins(b, n, k, TTTBlockState::Cross)),
    ensures
        r1 == r2,
{
}

} // verus!

verus! {

/// Law: after one legal move on a board nobody had yet won, the verdict of
/// the incremental check equals the verdict of the full scan, as long as the
/// move left the board unfinished or won; on a filled board with no winner
/// only the full scan can call the draw, so that board is excluded.
pub proof fn lemma_incremental_verdict_matches_full(
    b0: Seq<TTTBlockState>,
    b: Seq<TTTBlockState>,
    n: int,
    k: int,
    p: TTTPlayer,
    px: int,
    py: int,
    r_inc: Option<TTTGameResult>,
    r_full: Option<TTTGameResult>,
)
    requires
        1 <= k <= n,
        n <= MAX_BOARD_SIZE,
        b0.len() == n * n,
        0 <= px < n,
        0 <= py < n,
        b0[px * n + py] == TTTBlockState::Empty,
        b == b0.update(px * n + py, mark_of(p)),
        !wins(b0, n, k, TTTBlockState::Circle),
        !wins(b0, n, k, TTTBlockState::Cross),
        !is_full(b) || incremental_win(b, n, k, mark_of(p), px, py),
        r_inc == (if incremental_win(b, n, k, mark_of(p), px, py) {
            Some(result_of(mark_of(p)))
        } else {
            None::<TTTGameResult>
        }),
        status_matches(b, n, k, r_full),
    ensures
        r_inc == r_full,
{
    lemma_incremental_matches_full(b0, b, n, k, p, px, py);
    if incremental_win(b, n, k, mark_of(p), px, py) {
        let other = if mark_of(p) == TTTBlockState::Circle {
            TTTBlockState::Cross
        } else {
            TTTBlockState::Circle
        };
        if wins(b, n, k, other) {
            lemma_new_win_through_move(b0, b, n, k, p, px, py, other);
            assert(false);
        }
    }
}

} // verus!
