//! Iterative-deepening negamax alpha-beta searcher with a history
//! heuristic for move ordering. The search mutates the shared board and
//! restores it exactly; the committed move is always legal.

use vstd::prelude::*;
use crate::board::{
    Board, MOVE, ScoreType, get_move, has_any_move, legal_mv, lemma_move_undo_restores,
    lemma_moves_empty_iff_terminal, mv_cells, spec_check_win, BoardView,
};
use crate::chess::{ChessId, ChessKind, RoleType, spec_chess_idx, spec_kind_idx};
use crate::clock::{duration_micros, elapsed_of, instant_now};
use crate::player::Player;
use crate::rng::choose_move;
use crate::rules::{cell_idx, grid_at};

verus! {

broadcast use {
    vstd::seq_lib::group_to_multiset_ensures,
    vstd::std_specs::vec::group_vec_axioms,
};

/// Search scores are bounded by this value; a forced loss at ply `p`
/// scores `p - INF`.
pub const INF: ScoreType = 1000000;

/// Hard cap on the deepening loop.
pub const MAX_DEPTH: ScoreType = 100;

/// Scores at or beyond this magnitude mean a forced win or loss.
pub const WIN_SCORE: ScoreType = INF - MAX_DEPTH;

/// Material value of a kind: 1000 for the strongest down to 300.
pub open spec fn kind_score(k: ChessKind) -> int {
    1000 - 100 * spec_kind_idx(k)
}

/// Positional bonus of a kind on row `r` (counted from that side's own
/// back row), column `c`: the heavy kinds and the rat are pushed
/// forward, the light kinds guard the first three rows.
pub open spec fn pos_bonus(k: ChessKind, r: int, c: int) -> int {
    if k == ChessKind::ELEPHANT || k == ChessKind::LION || k == ChessKind::TIGER || k
        == ChessKind::RAT {
        10 * r
    } else if r == 0 {
        if c == 1 || c == 5 {
            20
        } else {
            15
        }
    } else if r == 1 {
        if c == 2 || c == 4 {
            20
        } else {
            15
        }
    } else if r == 2 {
        15
    } else {
        0
    }
}

/// Contribution of one cell to the evaluation, positive for the first
/// role, negative for the second.
pub open spec fn cell_score(o: Option<ChessId>, i: int, j: int) -> int {
    match o {
        None => 0,
        Some(p) => {
            let b = kind_score(p.kind) + if p.role == RoleType::RED {
                pos_bonus(p.kind, 8 - i, j)
            } else {
                pos_bonus(p.kind, i, j)
            };
            if p.role == RoleType::RED {
                b
            } else {
                -b
            }
        },
    }
}

/// Sum of the cell scores of the first `n` cells.
pub open spec fn eval_upto(g: Seq<Option<ChessId>>, n: int) -> int
    decreases n,
{
    if n <= 0 {
        0
    } else {
        eval_upto(g, n - 1) + cell_score(g[n - 1], (n - 1) / 7, (n - 1) % 7)
    }
}

/// Static evaluation from the perspective of the side to move.
pub open spec fn spec_evaluate(v: BoardView) -> int {
    if v.role == RoleType::RED {
        eval_upto(v.grid, 63)
    } else {
        -eval_upto(v.grid, 63)
    }
}

proof fn lemma_eval_bound(g: Seq<Option<ChessId>>, n: int)
    requires
        0 <= n <= 63,
    ensures
        -1080 * n <= eval_upto(g, n),
        eval_upto(g, n) <= 1080 * n,
    decreases n,
{
    if n > 0 {
        lemma_eval_bound(g, n - 1);
        let i = (n - 1) / 7;
        let j = (n - 1) % 7;
        assert(0 <= i <= 8);
        match g[n - 1] {
            None => {},
            Some(p) => {
                assert(300 <= kind_score(p.kind) <= 1000);
                assert(0 <= pos_bonus(p.kind, 8 - i, j) <= 80);
                assert(0 <= pos_bonus(p.kind, i, j) <= 80);
            },
        }
        assert(-1080 <= cell_score(g[n - 1], i, j) <= 1080);
    }
}

/// History score of a move: the table entry of (moving piece,
/// destination cell); zero when the source is empty or the entry does
/// not exist.
pub open spec fn spec_his(tbl: Seq<i64>, g: Seq<Option<ChessId>>, m: MOVE) -> int {
    let (sr, sc, dr, dc) = mv_cells(m as int);
    match grid_at(g, sr, sc) {
        None => 0,
        Some(p) => {
            let ix = spec_chess_idx(p) * 63 + cell_idx(dr, dc);
            if 0 <= ix < tbl.len() {
                tbl[ix] as int
            } else {
                0
            }
        },
    }
}

/// The sequence is ordered by descending history score.
pub open spec fn sorted_desc(tbl: Seq<i64>, g: Seq<Option<ChessId>>, s: Seq<MOVE>) -> bool {
    forall|i: int, j: int|
        0 <= i <= j < s.len() ==> spec_his(tbl, g, s[i]) >= spec_his(tbl, g, s[j])
}

/// The alpha-beta player: a history table for move ordering and the
/// move the most recent search committed to.
pub struct AlphaBeta {
    history_table: Vec<i64>,
    compture_mv: Option<MOVE>,
}

/// Static evaluation: material plus positional bonus over all pieces,
/// from the perspective of the side to move.
#[verifier::loop_isolation(false)]
pub fn evaluate(board: &Board) -> (s: ScoreType)
    requires
        board.inv(),
    ensures
        s as int == spec_evaluate(board@),
        -68040 <= s <= 68040,
{
    let ghost g = board@.grid;
    let mut acc: i32 = 0;
    let mut k: usize = 0;
    while k < 63
        invariant
            0 <= k <= 63,
            acc as int == eval_upto(g, k as int),
            -1080 * k <= acc as int <= 1080 * k,
        decreases 63 - k,
    {
        let r = k / 7;
        let c = k % 7;
        match board.piece_at(r, c) {
            None => {},
            Some(p) => {
                let ks: i32 = 1000 - 100 * (p.kind.get_idx() as i32);
                let row_from_home = match p.role {
                    RoleType::RED => 8 - r,
                    RoleType::BLACK => r,
                };
                let heavy = matches!(p.kind, ChessKind::ELEPHANT) || matches!(
                    p.kind,
                    ChessKind::LION,
                ) || matches!(p.kind, ChessKind::TIGER) || matches!(p.kind, ChessKind::RAT);
                let bonus: i32 = if heavy {
                    10 * (row_from_home as i32)
                } else if row_from_home == 0 {
                    if c == 1 || c == 5 {
                        20
                    } else {
                        15
                    }
                } else if row_from_home == 1 {
                    if c == 2 || c == 4 {
                        20
                    } else {
                        15
                    }
                } else if row_from_home == 2 {
                    15
                } else {
                    0
                };
                match p.role {
                    RoleType::RED => {
                        acc = acc + (ks + bonus);
                    },
                    RoleType::BLACK => {
                        acc = acc - (ks + bonus);
                    },
                }
            },
        }
        k = k + 1;
    }
    proof {
        lemma_eval_bound(g, 63);
    }
    match board.side() {
        RoleType::RED => acc,
        RoleType::BLACK => -acc,
    }
}

impl AlphaBeta {
    /// A fresh searcher with an empty history table and no committed
    /// move.
    pub fn new() -> (p: AlphaBeta) {
        let mut tbl: Vec<i64> = Vec::new();
        while tbl.len() < 1008
            invariant
                tbl@.len() <= 1008,
            decreases 1008 - tbl@.len(),
        {
            tbl.push(0);
        }
        AlphaBeta { history_table: tbl, compture_mv: None }
    }

    /// History score of a move on this board.
    fn history_score(&self, board: &Board, mv: MOVE) -> (h: i64)
        requires
            board.inv(),
            legal_mv(board@, mv),
        ensures
            h as int == spec_his(self.history_table@, board@.grid, mv),
    {
        let ((sr, sc), (dr, dc)) = get_move(mv);
        match board.piece_at(sr, sc) {
            None => 0,
            Some(p) => {
                let ix = p.get_chess_idx() * 63 + dr * 7 + dc;
                if ix < self.history_table.len() {
                    self.history_table[ix]
                } else {
                    0
                }
            },
        }
    }

    /// Credit a move that proved best at remaining depth `d`: its table
    /// entry grows by d squared (left unchanged near the ceiling).
    fn store_best_move(&mut self, board: &Board, mv: MOVE, d: ScoreType)
        requires
            board.inv(),
            legal_mv(board@, mv),
            0 <= d <= 100,
        ensures
            final(self).compture_mv == old(self).compture_mv,
    {
        let ((sr, sc), (dr, dc)) = get_move(mv);
        match board.piece_at(sr, sc) {
            None => {},
            Some(p) => {
                let ix = p.get_chess_idx() * 63 + dr * 7 + dc;
                if ix < self.history_table.len() {
                    let cur = self.history_table[ix];
                    if cur <= i64::MAX - 10000 {
                        let dd = d as i64;
                        proof {
                            assert(dd * dd <= 10000) by (nonlinear_arith)
                                requires
                                    0 <= dd <= 100,
                            ;
                        }
                        self.history_table.set(ix, cur + dd * dd);
                    }
                }
            },
        }
    }

    /// Where a move scoring `sm` belongs in a list sorted by descending
    /// history score: before the first strictly lower-scored entry.
    fn find_insert_pos(&self, board: &Board, res: &Vec<MOVE>, sm: i64) -> (p: usize)
        requires
            board.inv(),
            forall|m: MOVE| #[trigger] res@.contains(m) ==> legal_mv(board@, m),
        ensures
            p <= res@.len(),
            forall|t: int|
                0 <= t < p ==> spec_his(self.history_table@, board@.grid, res@[t]) >= sm as int,
            p == res@.len() || spec_his(self.history_table@, board@.grid, res@[p as int])
                < sm as int,
    {
        let mut p: usize = 0;
        loop
            invariant
                0 <= p <= res@.len(),
                board.inv(),
                forall|m: MOVE| #[trigger] res@.contains(m) ==> legal_mv(board@, m),
                forall|t: int|
                    0 <= t < p ==> spec_his(self.history_table@, board@.grid, res@[t])
                        >= sm as int,
            decreases res@.len() - p,
        {
            if p >= res.len() {
                return p;
            }
            proof {
                assert(res@.contains(res@[p as int]));
            }
            if self.history_score(board, res[p]) < sm {
                return p;
            }
            p = p + 1;
        }
    }

    /// The legal moves of the position, ordered by descending history
    /// score.
    #[verifier::loop_isolation(false)]
    fn sorted_steps(&self, board: &Board) -> (res: Vec<MOVE>)
        requires
            board.inv(),
        ensures
            forall|m: MOVE|
                #[trigger] res@.contains(m) <==> (spec_check_win(board@) is None && legal_mv(
                    board@,
                    m,
                )),
            sorted_desc(self.history_table@, board@.grid, res@),
    {
        let moves = board.generate_all_steps();
        let ghost tblv = self.history_table@;
        let ghost g = board@.grid;
        let mut res: Vec<MOVE> = Vec::new();
        let mut i: usize = 0;
        while i < moves.len()
            invariant
                0 <= i <= moves@.len(),
                res@.to_multiset() == moves@.subrange(0, i as int).to_multiset(),
                forall|m: MOVE|
                    #[trigger] res@.contains(m) ==> (spec_check_win(board@) is None && legal_mv(
                        board@,
                        m,
                    )),
                sorted_desc(tblv, g, res@),
            decreases moves@.len() - i,
        {
            let m = moves[i];
            proof {
                assert(moves@.contains(moves@[i as int]));
            }
            let sm = self.history_score(board, m);
            let p = self.find_insert_pos(board, &res, sm);
            let ghost res0 = res@;
            res.insert(p, m);
            proof {
                res0.insert_ensures(p as int, m);
                assert(res@.to_multiset() =~= res0.to_multiset().insert(m));
                assert(moves@.subrange(0, i + 1 as int) =~= moves@.subrange(0, i as int).push(
                    moves@[i as int],
                ));
                // order around the insertion point
                assert forall|a: int, b: int| 0 <= a <= b < res@.len() implies spec_his(
                    tblv,
                    g,
                    res@[a],
                ) >= spec_his(tblv, g, res@[b]) by {
                    if p < res0.len() {
                        assert(spec_his(tblv, g, res0[p as int]) < sm as int);
                    }
                    if a < p {
                        assert(res@[a] == res0[a]);
                    } else if a > p {
                        assert(res@[a] == res0[a - 1]);
                    }
                    if b < p {
                        assert(res@[b] == res0[b]);
                    } else if b > p {
                        assert(res@[b] == res0[b - 1]);
                    }
                }
                // membership: the new element is among the first i+1 moves
                assert forall|m2: MOVE| #[trigger] res@.contains(m2) implies (spec_check_win(
                    board@,
                ) is None && legal_mv(board@, m2)) by {
                    assert(res@.to_multiset().count(m2) > 0);
                    let sub = moves@.subrange(0, i + 1 as int);
                    assert(sub.to_multiset() =~= res@.to_multiset());
                    assert(sub.contains(m2));
                    let tt = choose|tt: int| 0 <= tt < sub.len() && (#[trigger] sub[tt]) == m2;
                    assert(moves@[tt] == m2);
                    assert(moves@.contains(moves@[tt]));
                }
            }
            i = i + 1;
        }
        proof {
            assert(moves@.subrange(0, moves@.len() as int) =~= moves@);
            assert forall|m: MOVE|
                (spec_check_win(board@) is None && legal_mv(board@, m)) implies #[trigger] res@
                .contains(m) by {
                assert(moves@.contains(m));
                assert(res@.to_multiset().count(m) > 0);
            }
        }
        res
    }

    /// Negamax with alpha-beta pruning. The board is handed back
    /// exactly as it was. At the root, when the position is open and a
    /// move exists, a legal best move is committed.
    #[verifier::loop_isolation(false)]
    fn alpha_beta(
        &mut self,
        board: &mut Board,
        cur_depth: ScoreType,
        depth: ScoreType,
        alpha0: ScoreType,
        beta: ScoreType,
    ) -> (score: ScoreType)
        requires
            old(board).inv(),
            0 <= cur_depth <= depth <= 100,
            -1000000 <= alpha0 < beta <= 1000000,
            cur_depth == 0 ==> alpha0 == -1000000 && beta == 1000000,
        ensures
            final(board).inv(),
            final(board)@ == old(board)@,
            cur_depth - 1000000 <= score <= 1000000 - 1 - cur_depth,
            (cur_depth == 0 && cur_depth < depth && spec_check_win(old(board)@) is None
                && has_any_move(old(board)@)) ==> (final(self).compture_mv matches Some(m)
                && legal_mv(old(board)@, m)),
        decreases depth - cur_depth,
    {
        if cur_depth == depth {
            return evaluate(board);
        }
        let ghost v0 = board@;
        proof {
            board.lemma_inv_wf();
        }
        let moves = self.sorted_steps(board);
        let mut alpha = alpha0;
        let mut best_score: ScoreType = -INF;
        let mut best_move: Option<MOVE> = None;
        let mut done = false;
        let mut t: usize = 0;
        while t < moves.len() && !done
            invariant
                0 <= t <= moves@.len(),
                board.inv(),
                board@ == v0,
                alpha0 <= alpha < beta,
                t == 0 ==> alpha == alpha0 && best_score == -1000000 && best_move is None
                    && !done,
                -1000000 <= best_score <= 1000000 - 1 - cur_depth,
                best_score > -1000000 ==> best_score >= cur_depth + 2 - 1000000,
                best_move matches Some(m) ==> legal_mv(v0, m),
                cur_depth == 0 && t > 0 ==> best_move is Some,
                done ==> best_move is Some,
                (t > 0 || done) ==> best_score > -1000000,
            decreases moves@.len() - t,
        {
            let mv = moves[t];
            proof {
                assert(moves@.contains(moves@[t as int]));
            }
            match board.move_chess(mv) {
                Ok(()) => {},
                Err(_) => {
                    proof {
                        assert(false);
                    }
                },
            }
            let child = self.alpha_beta(board, cur_depth + 1, depth, -beta, -alpha);
            board.undo_move();
            proof {
                lemma_move_undo_restores(v0, mv);
            }
            let score = -child;
            if score > best_score {
                best_score = score;
                if score >= beta {
                    best_move = Some(mv);
                    done = true;
                } else {
                    if score > alpha {
                        best_move = Some(mv);
                        alpha = score;
                    }
                }
            }
            t = t + 1;
        }
        if best_score == -INF {
            proof {
                lemma_moves_empty_iff_terminal(v0, moves@);
            }
            return cur_depth - INF;
        }
        match best_move {
            Some(mv) => {
                if cur_depth == 0 {
                    self.compture_mv = Some(mv);
                }
                self.store_best_move(board, mv, depth - cur_depth);
            },
            None => {},
        }
        proof {
            if cur_depth == 0 && spec_check_win(v0) is None && has_any_move(v0) {
                lemma_moves_empty_iff_terminal(v0, moves@);
            }
        }
        best_score
    }

    /// Iterative deepening from depth 1 up to the cap, with the clock
    /// checked between depths only; stops early on a forced result. If
    /// no depth completed, an arbitrary legal move is chosen instead.
    #[verifier::loop_isolation(false)]
    pub fn search_main(&mut self, board: &mut Board) -> (mv: MOVE)
        requires
            old(board).inv(),
            spec_check_win(old(board)@) is None,
            has_any_move(old(board)@),
        ensures
            final(board).inv(),
            final(board)@ == old(board)@,
            legal_mv(old(board)@, mv),
    {
        let ghost v0 = board@;
        let mut tbl: Vec<i64> = Vec::new();
        while tbl.len() < 1008
            invariant
                tbl@.len() <= 1008,
            decreases 1008 - tbl@.len(),
        {
            tbl.push(0);
        }
        self.history_table = tbl;
        self.compture_mv = None;
        let start = instant_now();
        let mut d: ScoreType = 1;
        while d <= MAX_DEPTH
            invariant
                1 <= d <= MAX_DEPTH + 1,
                board.inv(),
                board@ == v0,
                self.compture_mv matches Some(m) ==> legal_mv(v0, m),
            decreases 101 - d,
        {
            let el = duration_micros(&elapsed_of(&start));
            if el >= 500000 {
                break ;
            }
            let score = self.alpha_beta(board, 0, d, -INF, INF);
            if score >= WIN_SCORE || score <= -WIN_SCORE {
                break ;
            }
            d = d + 1;
        }
        match self.compture_mv {
            Some(mv) => mv,
            None => {
                let steps = board.generate_all_steps();
                proof {
                    lemma_moves_empty_iff_terminal(v0, steps@);
                }
                match choose_move(&steps) {
                    Some(mv) => {
                        proof {
                            assert(steps@.contains(mv));
                        }
                        mv
                    },
                    None => unreached(),
                }
            },
        }
    }
}

impl Player for AlphaBeta {
    fn get_move(&mut self, board: &mut Board) -> (mv: MOVE) {
        self.search_main(board)
    }
}

} // verus!
