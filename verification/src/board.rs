//! The board: a 9 x 7 grid of optional pieces, the side to move, live
//! piece counts, an incrementally maintained position hash, a repetition
//! counter and a LIFO move/undo history. Moves are applied in place and
//! reversed exactly; the searchers explore the game tree by mutating and
//! restoring this single value.

use vstd::prelude::*;
use vstd::std_specs::iter::IteratorSpec;
use vstd::string::StringExecFns;
use std::collections::HashMap;
use crate::fen::{
    char_piece, digit_char, digit_val, is_digit, pad63, parse_cells, piece_char, render_cells,
    render_rows, spec_parse_fen, spec_render_fen,
};
use crate::rng::random_u64;
use crate::chess::{ChessId, ChessKind, RoleType, spec_chess_idx, spec_opp};
use crate::rules::{
    at_bank, cell_idx, grid_at, in_bounds, is_den, jump_clear, jump_shape, legal_from, legal_jump,
    legal_step, movable, occupied_trapped, rat_at, step_shape,
};
use crate::zobrist::{board_cells, grid_hash, hash_upto, key_at, lemma_hash_update, table_size};

verus! {

broadcast use {vstd::std_specs::hash::group_hash_axioms, vstd::seq_lib::lemma_seq_contains_after_push};

/// A packed cell address: row in the high nibble, column in the low one.
pub type POS = u8;

/// A packed move: source position in the high byte, destination in the
/// low byte.
pub type MOVE = u16;

/// Score type of the searchers.
pub type ScoreType = i32;

pub open spec fn spec_pos(r: int, c: int) -> int {
    16 * r + c
}

pub open spec fn pos_r(p: int) -> int {
    p / 16
}

pub open spec fn pos_c(p: int) -> int {
    p % 16
}

pub open spec fn spec_mv(src: int, dst: int) -> int {
    256 * src + dst
}

pub open spec fn mv_src(m: int) -> int {
    m / 256
}

pub open spec fn mv_dst(m: int) -> int {
    m % 256
}

/// Row and column of a move's source and destination.
pub open spec fn mv_cells(m: int) -> (int, int, int, int) {
    (pos_r(mv_src(m)), pos_c(mv_src(m)), pos_r(mv_dst(m)), pos_c(mv_dst(m)))
}

/// The move `m` is legal on the position `v` describes.
pub open spec fn legal_mv(v: BoardView, m: MOVE) -> bool {
    let (sr, sc, dr, dc) = mv_cells(m as int);
    &&& in_bounds(sr, sc)
    &&& in_bounds(dr, dc)
    &&& legal_from(v.grid, v.role, sr, sc, dr, dc)
}

/// Row and column of (r, c) packed as one byte.
pub fn to_pos(pos: &(usize, usize)) -> (r: POS)
    requires
        pos.0 < 9,
        pos.1 < 7,
    ensures
        r as int == spec_pos(pos.0 as int, pos.1 as int),
{
    (pos.0 * 16 + pos.1) as u8
}

/// Row and column of a packed position.
pub fn get_pos(pos: POS) -> (r: (usize, usize))
    ensures
        r.0 as int == pos_r(pos as int),
        r.1 as int == pos_c(pos as int),
{
    ((pos / 16) as usize, (pos % 16) as usize)
}

/// Source position of a packed move.
pub fn get_src_pos(mv: MOVE) -> (r: POS)
    ensures
        r as int == mv_src(mv as int),
{
    (mv / 256) as u8
}

/// Destination position of a packed move.
pub fn get_dst_pos(mv: MOVE) -> (r: POS)
    ensures
        r as int == mv_dst(mv as int),
{
    (mv % 256) as u8
}

/// Source and destination cells of a packed move.
pub fn get_move(mv: MOVE) -> (r: ((usize, usize), (usize, usize)))
    ensures
        ({
            let (sr, sc, dr, dc) = mv_cells(mv as int);
            r.0.0 == sr && r.0.1 == sc && r.1.0 == dr && r.1.1 == dc
        }),
{
    let src = get_src_pos(mv);
    let dst = get_dst_pos(mv);
    (get_pos(src), get_pos(dst))
}

/// Two cells packed as one move word.
pub fn to_move(mv: &((usize, usize), (usize, usize))) -> (r: MOVE)
    requires
        mv.0.0 < 9,
        mv.0.1 < 7,
        mv.1.0 < 9,
        mv.1.1 < 7,
    ensures
        r as int == spec_mv(
            spec_pos(mv.0.0 as int, mv.0.1 as int),
            spec_pos(mv.1.0 as int, mv.1.1 as int),
        ),
{
    let src = to_pos(&mv.0);
    let dst = to_pos(&mv.1);
    (src as u16) * 256 + (dst as u16)
}

/// One undo record: the captured piece (if any), the hash value before
/// the move, and the move itself.
#[derive(Clone, Copy, Debug)]
pub struct Context {
    pub eated: Option<ChessId>,
    pub zobrist_key: u64,
    pub mv: MOVE,
}

impl Context {
    pub fn new(eated: Option<ChessId>, zobrist_key: u64, mv: MOVE) -> (c: Context)
        ensures
            c == (Context { eated, zobrist_key, mv }),
    {
        Context { eated, zobrist_key, mv }
    }
}

/// The mathematical state of a board: everything the contracts speak of.
/// The live piece counts are derived from the grid and the repetition
/// counts from the history, so neither appears separately.
#[verifier::ext_equal]
pub ghost struct BoardView {
    pub grid: Seq<Option<ChessId>>,
    pub role: RoleType,
    pub zobrist: u64,
    pub in_den: Option<RoleType>,
    pub history: Seq<Context>,
    pub tbl: Seq<u64>,
}

/// 1 if the cell holds a piece of `role`, else 0.
pub open spec fn role_contrib(o: Option<ChessId>, role: RoleType) -> int {
    match o {
        None => 0,
        Some(p) => if p.role == role {
            1int
        } else {
            0int
        },
    }
}

/// Number of pieces of `role` among the first `n` cells.
pub open spec fn count_role_upto(grid: Seq<Option<ChessId>>, role: RoleType, n: int) -> int
    decreases n,
{
    if n <= 0 {
        0
    } else {
        count_role_upto(grid, role, n - 1) + role_contrib(grid[n - 1], role)
    }
}

/// Number of live pieces of `role` on the grid.
pub open spec fn count_role(grid: Seq<Option<ChessId>>, role: RoleType) -> int {
    count_role_upto(grid, role, board_cells())
}

/// How many history entries carry `key` as their pre-move hash: the
/// number of times the position with that hash has been left so far.
pub open spec fn hist_count(h: Seq<Context>, key: u64) -> int
    decreases h.len(),
{
    if h.len() == 0 {
        0
    } else {
        hist_count(h.drop_last(), key) + if h.last().zobrist_key == key {
            1int
        } else {
            0int
        }
    }
}

/// Count a map stores for a key, with absence read as zero.
pub open spec fn map_count(m: Map<u64, usize>, key: u64) -> int {
    if m.contains_key(key) {
        m[key] as int
    } else {
        0
    }
}

/// The state after applying move `m`: grid updated, side flipped, hash
/// recomputed for the new layout, den flag set from the mover's new cell,
/// and an undo record pushed that snapshots the pre-move hash.
pub open spec fn view_move(v: BoardView, m: MOVE) -> BoardView {
    let (sr, sc, dr, dc) = mv_cells(m as int);
    let si = cell_idx(sr, sc);
    let di = cell_idx(dr, dc);
    let mover = v.grid[si];
    let eaten = v.grid[di];
    let grid2 = v.grid.update(di, mover).update(si, None);
    BoardView {
        grid: grid2,
        role: spec_opp(v.role),
        zobrist: grid_hash(grid2, v.tbl),
        in_den: match mover {
            None => None,
            Some(p) => if is_den(spec_opp(p.role), dr, dc) {
                Some(p.role)
            } else {
                None
            },
        },
        history: v.history.push(Context { eated: eaten, zobrist_key: v.zobrist, mv: m }),
        tbl: v.tbl,
    }
}

/// The state after undoing the most recent move, a no-op on an empty
/// history: the mover returns to its source, the captured piece (or the
/// empty cell) to the destination, the pre-move hash is restored and the
/// den flag cleared.
pub open spec fn view_undo(v: BoardView) -> BoardView {
    if v.history.len() == 0 {
        v
    } else {
        let e = v.history.last();
        let (sr, sc, dr, dc) = mv_cells(e.mv as int);
        let si = cell_idx(sr, sc);
        let di = cell_idx(dr, dc);
        let grid2 = v.grid.update(si, v.grid[di]).update(di, e.eated);
        BoardView {
            grid: grid2,
            role: spec_opp(v.role),
            zobrist: e.zobrist_key,
            in_den: None,
            history: v.history.drop_last(),
            tbl: v.tbl,
        }
    }
}

/// The history is a well-formed LIFO stack: undoing the top entry yields
/// a state whose hash matches its grid, whose own history is again
/// well-formed, and the top move's source cell is currently empty (the
/// mover stands on its destination).
pub open spec fn history_ok(v: BoardView) -> bool
    decreases v.history.len(),
{
    v.history.len() == 0 || {
        let e = v.history.last();
        let (sr, sc, dr, dc) = mv_cells(e.mv as int);
        &&& in_bounds(sr, sc)
        &&& in_bounds(dr, dc)
        &&& cell_idx(sr, sc) != cell_idx(dr, dc)
        &&& v.grid[cell_idx(sr, sc)] == Option::<ChessId>::None
        &&& e.zobrist_key == grid_hash(view_undo(v).grid, v.tbl)
        &&& history_ok(view_undo(v))
    }
}

/// A well-formed board state: right dimensions, the hash is exactly the
/// XOR fold of the occupied cells' keys, and the undo stack is sound.
pub open spec fn wf_view(v: BoardView) -> bool {
    &&& v.grid.len() == board_cells()
    &&& v.tbl.len() == table_size()
    &&& v.zobrist == grid_hash(v.grid, v.tbl)
    &&& history_ok(v)
}

/// Who has already won, if anyone: a breached den first, then a side
/// with no pieces left, then the repetition rule (a position seen twice
/// before loses for the side to move).
pub open spec fn spec_check_win(v: BoardView) -> Option<RoleType> {
    if v.in_den is Some {
        v.in_den
    } else if count_role(v.grid, RoleType::RED) == 0 || count_role(v.grid, RoleType::BLACK) == 0 {
        if count_role(v.grid, RoleType::RED) > 0 {
            Some(RoleType::RED)
        } else {
            Some(RoleType::BLACK)
        }
    } else if hist_count(v.history, v.zobrist) >= 2 {
        Some(spec_opp(v.role))
    } else {
        None
    }
}

/// Error returned when a move not produced by the generator (or any move
/// in an already decided position) is handed to `move_chess`.
#[derive(Clone, Copy, PartialEq, Eq, Structural, Debug)]
pub enum MoveError {
    IllegalMove,
}

pub proof fn lemma_cell_idx_inj(r1: int, c1: int, r2: int, c2: int)
    requires
        in_bounds(r1, c1),
        in_bounds(r2, c2),
        cell_idx(r1, c1) == cell_idx(r2, c2),
    ensures
        r1 == r2 && c1 == c2,
{
    assert(r1 * 7 + c1 == r2 * 7 + c2 && 0 <= c1 < 7 && 0 <= c2 < 7 && 0 <= r1 < 9 && 0 <= r2 < 9
        ==> r1 == r2 && c1 == c2) by (nonlinear_arith);
}

pub proof fn lemma_hist_count_bounds(h: Seq<Context>, key: u64)
    ensures
        0 <= hist_count(h, key) <= h.len(),
    decreases h.len(),
{
    if h.len() > 0 {
        lemma_hist_count_bounds(h.drop_last(), key);
    }
}

pub proof fn lemma_hist_count_push(h: Seq<Context>, e: Context, key: u64)
    ensures
        hist_count(h.push(e), key) == hist_count(h, key) + if e.zobrist_key == key {
            1int
        } else {
            0int
        },
{
    assert(h.push(e).drop_last() =~= h);
    assert(h.push(e).last() == e);
}

pub proof fn lemma_count_upto_bounds(grid: Seq<Option<ChessId>>, role: RoleType, n: int)
    ensures
        0 <= count_role_upto(grid, role, n),
        count_role_upto(grid, role, n) <= if n >= 0 {
            n
        } else {
            0int
        },
    decreases n,
{
    if n > 0 {
        lemma_count_upto_bounds(grid, role, n - 1);
    }
}

pub proof fn lemma_count_update(
    grid: Seq<Option<ChessId>>,
    role: RoleType,
    j: int,
    v: Option<ChessId>,
    n: int,
)
    requires
        0 <= j < n,
        n <= grid.len(),
    ensures
        count_role_upto(grid.update(j, v), role, n) == count_role_upto(grid, role, n)
            - role_contrib(grid[j], role) + role_contrib(v, role),
    decreases n,
{
    if n == j + 1 {
        lemma_count_congruence(grid.update(j, v), grid, role, j);
    } else {
        lemma_count_update(grid, role, j, v, n - 1);
    }
}

pub proof fn lemma_count_congruence(
    g1: Seq<Option<ChessId>>,
    g2: Seq<Option<ChessId>>,
    role: RoleType,
    n: int,
)
    requires
        forall|i: int| 0 <= i < n ==> g1[i] == g2[i],
    ensures
        count_role_upto(g1, role, n) == count_role_upto(g2, role, n),
    decreases n,
{
    if n > 0 {
        lemma_count_congruence(g1, g2, role, n - 1);
    }
}

/// A cell holding a piece of `role` witnesses a positive count.
pub proof fn lemma_count_positive(grid: Seq<Option<ChessId>>, role: RoleType, i: int, n: int)
    requires
        0 <= i < n,
        role_contrib(grid[i], role) == 1,
    ensures
        count_role_upto(grid, role, n) >= 1,
    decreases n,
{
    lemma_count_upto_bounds(grid, role, n - 1);
    if i < n - 1 {
        lemma_count_positive(grid, role, i, n - 1);
    }
}

} // verus!

verus! {

/// The board. `chesses` is the 63-cell row-major grid; `ctx` the LIFO
/// undo stack; `dup_counter` caches, per hash value, how many history
/// entries carry it (the repetition count of that position).
pub struct Board {
    pub chesses: Vec<Option<ChessId>>,
    pub role: RoleType,
    red_chess_num: usize,
    black_chess_num: usize,
    zobrist_tbl: Vec<u64>,
    pub zobrist_key: u64,
    in_den: Option<RoleType>,
    dup_counter: HashMap<u64, usize>,
    ctx: Vec<Context>,
}

impl View for Board {
    type V = BoardView;

    closed spec fn view(&self) -> BoardView {
        BoardView {
            grid: self.chesses@,
            role: self.role,
            zobrist: self.zobrist_key,
            in_den: self.in_den,
            history: self.ctx@,
            tbl: self.zobrist_tbl@,
        }
    }
}

impl Board {
    /// The board's invariant: the view is well formed, the stored piece
    /// counts match the grid, and the repetition cache matches the
    /// history.
    pub closed spec fn inv(self) -> bool {
        &&& wf_view(self@)
        &&& self.red_chess_num == count_role(self@.grid, RoleType::RED)
        &&& self.black_chess_num == count_role(self@.grid, RoleType::BLACK)
        &&& forall|k: u64| #[trigger] map_count(self.dup_counter@, k) == hist_count(self@.history, k)
    }

    /// Repetition count stored for a hash value, zero when absent.
    fn dup_get(&self, key: u64) -> (c: usize)
        ensures
            c as int == map_count(self.dup_counter@, key),
    {
        match self.dup_counter.get(&key) {
            Some(v) => *v,
            None => 0,
        }
    }

    /// How often the current position (by hash) has already been left.
    pub fn get_dup_count(&self) -> (c: usize)
        requires
            self.inv(),
        ensures
            c == hist_count(self@.history, self@.zobrist),
    {
        self.dup_get(self.zobrist_key)
    }

    /// Depth of the undo stack.
    pub fn get_step_count(&self) -> (c: usize)
        ensures
            c == self@.history.len(),
    {
        self.ctx.len()
    }

    /// Who has won already, if anyone; `None` while the game is open.
    pub fn check_win(&self) -> (r: Option<RoleType>)
        requires
            self.inv(),
        ensures
            r == spec_check_win(self@),
    {
        if let Some(w) = self.in_den {
            return Some(w);
        }
        if self.red_chess_num == 0 || self.black_chess_num == 0 {
            if self.red_chess_num > 0 {
                return Some(RoleType::RED);
            }
            return Some(RoleType::BLACK);
        }
        let d = self.dup_get(self.zobrist_key);
        if d >= 2 {
            return Some(self.role.opposite());
        }
        None
    }

    /// The occupant of (dr, dc) stands in a trap its opponent controls.
    fn trapped_at(&self, dr: usize, dc: usize) -> (b: bool)
        requires
            self@.grid.len() == board_cells(),
            in_bounds(dr as int, dc as int),
        ensures
            b == occupied_trapped(self@.grid, dr as int, dc as int),
    {
        let trap_cell = (dr == 0 && (dc == 2 || dc == 4)) || (dr == 1 && dc == 3) || (dr == 8 && (
        dc == 2 || dc == 4)) || (dr == 7 && dc == 3);
        if !trap_cell {
            return false;
        }
        match self.chesses[dr * 7 + dc] {
            None => false,
            Some(p) => if matches!(p.role, RoleType::RED) {
                dr <= 1
            } else {
                dr >= 7
            },
        }
    }

    /// The piece on (sr, sc) may land on (dr, dc) under the den, trap
    /// and rank rules. False when the source cell is empty.
    fn movable_at(&self, sr: usize, sc: usize, dr: usize, dc: usize) -> (b: bool)
        requires
            self@.grid.len() == board_cells(),
            in_bounds(sr as int, sc as int),
            in_bounds(dr as int, dc as int),
        ensures
            b == movable(self@.grid, sr as int, sc as int, dr as int, dc as int),
    {
        let sp = match self.chesses[sr * 7 + sc] {
            Some(p) => p,
            None => {
                return false;
            },
        };
        let own_den = match sp.role {
            RoleType::RED => dr == 8 && dc == 3,
            RoleType::BLACK => dr == 0 && dc == 3,
        };
        if own_den {
            return false;
        }
        match self.chesses[dr * 7 + dc] {
            None => true,
            Some(dp) => {
                if sp.role == dp.role {
                    return false;
                }
                if self.trapped_at(dr, dc) {
                    return true;
                }
                if matches!(sp.kind, ChessKind::RAT) && matches!(dp.kind, ChessKind::ELEPHANT) {
                    sr >= 3 && sr <= 5 && sc % 3 != 0
                } else if matches!(sp.kind, ChessKind::ELEPHANT) && matches!(
                    dp.kind,
                    ChessKind::RAT,
                ) {
                    false
                } else {
                    sp.kind.get_idx() <= dp.kind.get_idx()
                }
            },
        }
    }

    /// No rat blocks the straight path strictly between the two cells.
    #[verifier::loop_isolation(false)]
    fn path_clear(&self, sr: usize, sc: usize, dr: usize, dc: usize) -> (b: bool)
        requires
            self@.grid.len() == board_cells(),
            in_bounds(sr as int, sc as int),
            in_bounds(dr as int, dc as int),
            sr == dr || sc == dc,
        ensures
            b == jump_clear(self@.grid, sr as int, sc as int, dr as int, dc as int),
    {
        if sc == dc {
            let lo = if sr < dr {
                sr
            } else {
                dr
            };
            let hi = if sr < dr {
                dr
            } else {
                sr
            };
            let mut r = lo + 1;
            while r < hi
                invariant
                    self@.grid.len() == board_cells(),
                    in_bounds(lo as int, sc as int),
                    in_bounds(hi as int, sc as int),
                    lo < r <= hi || (lo + 1 > hi && r == lo + 1),
                    forall|i: int| lo < i < r ==> !rat_at(self@.grid, i, sc as int),
                decreases hi - r,
            {
                let blocked = match self.chesses[r * 7 + sc] {
                    Some(p) => matches!(p.kind, ChessKind::RAT),
                    None => false,
                };
                if blocked {
                    proof {
                        assert(rat_at(self@.grid, r as int, sc as int));
                    }
                    return false;
                }
                r = r + 1;
            }
            true
        } else {
            let lo = if sc < dc {
                sc
            } else {
                dc
            };
            let hi = if sc < dc {
                dc
            } else {
                sc
            };
            let mut c = lo + 1;
            while c < hi
                invariant
                    self@.grid.len() == board_cells(),
                    in_bounds(sr as int, lo as int),
                    in_bounds(sr as int, hi as int),
                    lo < c <= hi || (lo + 1 > hi && c == lo + 1),
                    forall|i: int| lo < i < c ==> !rat_at(self@.grid, sr as int, i),
                decreases hi - c,
            {
                let blocked = match self.chesses[sr * 7 + c] {
                    Some(p) => matches!(p.kind, ChessKind::RAT),
                    None => false,
                };
                if blocked {
                    proof {
                        assert(rat_at(self@.grid, sr as int, c as int));
                    }
                    return false;
                }
                c = c + 1;
            }
            true
        }
    }

    /// Whether `mv` is a legal move in the current position.
    fn mv_legal(&self, mv: MOVE) -> (b: bool)
        requires
            self@.grid.len() == board_cells(),
        ensures
            b == legal_mv(self@, mv),
    {
        let ((sr, sc), (dr, dc)) = get_move(mv);
        if sr >= 9 || sc >= 7 || dr >= 9 || dc >= 7 {
            return false;
        }
        let sp = match self.chesses[sr * 7 + sc] {
            Some(p) => p,
            None => {
                return false;
            },
        };
        if sp.role != self.role {
            return false;
        }
        let is_step = (dc == sc && (dr == sr + 1 || dr + 1 == sr)) || (dr == sr && (dc == sc + 1
            || dc + 1 == sc));
        if is_step {
            let water_dst = dr >= 3 && dr <= 5 && dc % 3 != 0;
            return self.movable_at(sr, sc, dr, dc) && (!water_dst || matches!(
                sp.kind,
                ChessKind::RAT,
            ));
        }
        // only a tiger or lion jump remains possible
        if !(matches!(sp.kind, ChessKind::TIGER) || matches!(sp.kind, ChessKind::LION)) {
            return false;
        }
        let bank = ((sr == 2 || sr == 6) && sc % 3 != 0) || (sr >= 3 && sr <= 5 && sc % 3 == 0);
        if !bank {
            return false;
        }
        let vertical = ((sr == 2 && dr == 6) || (sr == 6 && dr == 2)) && dc == sc && sc % 3 != 0;
        let horizontal = sr >= 3 && sr <= 5 && dr == sr && (((sc == 0 || sc == 6) && dc == 3) || (
        sc == 3 && (dc == 0 || dc == 6)));
        if !(vertical || horizontal) {
            return false;
        }
        self.path_clear(sr, sc, dr, dc) && self.movable_at(sr, sc, dr, dc)
    }
}

} // verus!

verus! {

impl Board {
    /// Apply a move. A move that the generator would not produce — or
    /// any move in a position already decided — is rejected and the
    /// board is left untouched. On success the grid, hash, den flag,
    /// side to move, undo stack and repetition counter all advance as
    /// `view_move` describes.
    pub fn move_chess(&mut self, mv: MOVE) -> (r: Result<(), MoveError>)
        requires
            old(self).inv(),
        ensures
            final(self).inv(),
            r is Ok <==> (spec_check_win(old(self)@) is None && legal_mv(old(self)@, mv)),
            r is Ok ==> final(self)@ == view_move(old(self)@, mv),
            r is Err ==> *final(self) == *old(self),
    {
        if self.check_win().is_some() {
            return Err(MoveError::IllegalMove);
        }
        if !self.mv_legal(mv) {
            return Err(MoveError::IllegalMove);
        }
        let ghost v0 = self@;
        let ((sr, sc), (dr, dc)) = get_move(mv);
        let si = sr * 7 + sc;
        let di = dr * 7 + dc;
        proof {
            if cell_idx(sr as int, sc as int) == cell_idx(dr as int, dc as int) {
                lemma_cell_idx_inj(sr as int, sc as int, dr as int, dc as int);
            }
        }
        let eated = self.chesses[di];
        let src_chess = match self.chesses[si] {
            Some(p) => p,
            None => unreached(),
        };
        let key0 = self.zobrist_key;
        let ghost g0 = v0.grid;
        let ghost tbl = v0.tbl;
        let ghost ekey = key_at(g0, tbl, di as int);
        if let Some(e) = eated {
            let ei = e.get_chess_idx() * 63 + di;
            self.zobrist_key = self.zobrist_key ^ self.zobrist_tbl[ei];
        }
        let pi = src_chess.get_chess_idx();
        let ka = self.zobrist_tbl[pi * 63 + di];
        let kb = self.zobrist_tbl[pi * 63 + si];
        self.zobrist_key = self.zobrist_key ^ ka;
        self.zobrist_key = self.zobrist_key ^ kb;
        self.chesses.set(di, Some(src_chess));
        self.chesses.set(si, None);
        proof {
            let g1 = g0.update(di as int, Some(src_chess));
            let g2 = g1.update(si as int, None);
            assert(self.chesses@ =~= g2);
            lemma_hash_update(g0, tbl, di as int, Some(src_chess), board_cells());
            lemma_hash_update(g1, tbl, si as int, None, board_cells());
            assert(key_at(g1, tbl, di as int) == ka);
            assert(key_at(g1, tbl, si as int) == kb);
            assert(key_at(g2, tbl, si as int) == 0u64);
            let h1 = grid_hash(g1, tbl);
            if eated is Some {
                assert(self.zobrist_key == ((key0 ^ ekey) ^ ka) ^ kb);
            } else {
                assert(ekey == 0u64);
                assert((key0 ^ ka) ^ kb == ((key0 ^ 0u64) ^ ka) ^ kb) by (bit_vector);
            }
            assert((h1 ^ kb) ^ 0u64 == h1 ^ kb) by (bit_vector);
            assert(self.zobrist_key == grid_hash(g2, tbl));
        }
        // den flag: did the mover enter the opponent's den?
        let opp_den_hit = match src_chess.role {
            RoleType::RED => dr == 0 && dc == 3,
            RoleType::BLACK => dr == 8 && dc == 3,
        };
        self.in_den = if opp_den_hit {
            Some(src_chess.role)
        } else {
            None
        };
        // live piece counts
        if let Some(e) = eated {
            proof {
                lemma_count_positive(g0, e.role, di as int, board_cells());
                lemma_count_update(g0, RoleType::RED, di as int, Some(src_chess), board_cells());
                lemma_count_update(
                    g0.update(di as int, Some(src_chess)),
                    RoleType::RED,
                    si as int,
                    None,
                    board_cells(),
                );
                lemma_count_update(g0, RoleType::BLACK, di as int, Some(src_chess), board_cells());
                lemma_count_update(
                    g0.update(di as int, Some(src_chess)),
                    RoleType::BLACK,
                    si as int,
                    None,
                    board_cells(),
                );
            }
            match e.role {
                RoleType::RED => {
                    self.red_chess_num = self.red_chess_num - 1;
                },
                RoleType::BLACK => {
                    self.black_chess_num = self.black_chess_num - 1;
                },
            }
        } else {
            proof {
                lemma_count_update(g0, RoleType::RED, di as int, Some(src_chess), board_cells());
                lemma_count_update(
                    g0.update(di as int, Some(src_chess)),
                    RoleType::RED,
                    si as int,
                    None,
                    board_cells(),
                );
                lemma_count_update(g0, RoleType::BLACK, di as int, Some(src_chess), board_cells());
                lemma_count_update(
                    g0.update(di as int, Some(src_chess)),
                    RoleType::BLACK,
                    si as int,
                    None,
                    board_cells(),
                );
            }
        }
        self.role = self.role.opposite();
        let rec = Context::new(eated, key0, mv);
        self.ctx.push(rec);
        let new_len = self.ctx.len();
        let c = self.dup_get(key0);
        proof {
            lemma_hist_count_bounds(v0.history, key0);
            assert(c as int <= v0.history.len());
            assert(new_len == v0.history.len() + 1);
        }
        self.dup_counter.insert(key0, c + 1);
        proof {
            let nv = self@;
            assert(nv.history.last() == rec);
            assert(nv.history.drop_last() =~= v0.history);
            // the undone state is exactly the old one
            let u = view_undo(nv);
            assert(u.grid =~= g0);
            assert(u =~= v0);
            assert(history_ok(nv));
            assert(nv =~= view_move(v0, mv));
            // repetition cache matches the new history
            assert forall|k: u64| #[trigger] map_count(self.dup_counter@, k) == hist_count(
                nv.history,
                k,
            ) by {
                lemma_hist_count_push(v0.history, rec, k);
                assert(map_count(old(self).dup_counter@, k) == hist_count(v0.history, k));
            }
        }
        Ok(())
    }

    /// Undo the most recent move still on the stack; a no-op when the
    /// stack is empty.
    pub fn undo_move(&mut self)
        requires
            old(self).inv(),
        ensures
            final(self).inv(),
            final(self)@ == view_undo(old(self)@),
    {
        let ghost v0 = self@;
        let e = match self.ctx.pop() {
            Some(e) => e,
            None => {
                proof {
                    assert(self@ =~= view_undo(v0));
                }
                return ;
            },
        };
        let ghost g0 = v0.grid;
        let ((sr, sc), (dr, dc)) = get_move(e.mv);
        let si = sr * 7 + sc;
        let di = dr * 7 + dc;
        let moved = self.chesses[di];
        self.chesses.set(si, moved);
        self.chesses.set(di, e.eated);
        self.in_den = None;
        let c = self.dup_get(e.zobrist_key);
        proof {
            lemma_hist_count_bounds(v0.history.drop_last(), e.zobrist_key);
            assert(hist_count(v0.history, e.zobrist_key) >= 1);
            assert(c >= 1);
        }
        self.dup_counter.insert(e.zobrist_key, c - 1);
        self.zobrist_key = e.zobrist_key;
        if let Some(p) = e.eated {
            proof {
                lemma_count_update(g0, RoleType::RED, si as int, g0[di as int], board_cells());
                lemma_count_update(
                    g0.update(si as int, g0[di as int]),
                    RoleType::RED,
                    di as int,
                    e.eated,
                    board_cells(),
                );
                lemma_count_update(g0, RoleType::BLACK, si as int, g0[di as int], board_cells());
                lemma_count_update(
                    g0.update(si as int, g0[di as int]),
                    RoleType::BLACK,
                    di as int,
                    e.eated,
                    board_cells(),
                );
                lemma_count_upto_bounds(self.chesses@, RoleType::RED, board_cells());
                lemma_count_upto_bounds(self.chesses@, RoleType::BLACK, board_cells());
            }
            match p.role {
                RoleType::RED => {
                    self.red_chess_num = self.red_chess_num + 1;
                },
                RoleType::BLACK => {
                    self.black_chess_num = self.black_chess_num + 1;
                },
            }
        } else {
            proof {
                lemma_count_update(g0, RoleType::RED, si as int, g0[di as int], board_cells());
                lemma_count_update(
                    g0.update(si as int, g0[di as int]),
                    RoleType::RED,
                    di as int,
                    e.eated,
                    board_cells(),
                );
                lemma_count_update(g0, RoleType::BLACK, si as int, g0[di as int], board_cells());
                lemma_count_update(
                    g0.update(si as int, g0[di as int]),
                    RoleType::BLACK,
                    di as int,
                    e.eated,
                    board_cells(),
                );
            }
        }
        self.role = self.role.opposite();
        proof {
            let u = view_undo(v0);
            assert(self@ =~= u);
            assert forall|k: u64| #[trigger] map_count(self.dup_counter@, k) == hist_count(
                self@.history,
                k,
            ) by {
                assert(map_count(old(self).dup_counter@, k) == hist_count(v0.history, k));
            }
        }
    }
}

/// Applying a legal move and then undoing it restores the exact previous
/// state: grid (hence the live-piece counts), side to move, hash value,
/// den flag and history.
pub proof fn lemma_move_undo_restores(v: BoardView, m: MOVE)
    requires
        wf_view(v),
        spec_check_win(v) is None,
        legal_mv(v, m),
    ensures
        view_undo(view_move(v, m)) == v,
{
    let (sr, sc, dr, dc) = mv_cells(m as int);
    if cell_idx(sr, sc) == cell_idx(dr, dc) {
        lemma_cell_idx_inj(sr, sc, dr, dc);
    }
    let nv = view_move(v, m);
    assert(nv.history.drop_last() =~= v.history);
    assert(view_undo(nv).grid =~= v.grid);
    assert(view_undo(nv) =~= v);
}

} // verus!

verus! {

/// The occupant of (sr, sc) — whoever it belongs to — may make this step.
pub open spec fn legal_step_of(
    grid: Seq<Option<ChessId>>,
    sr: int,
    sc: int,
    dr: int,
    dc: int,
) -> bool {
    match grid_at(grid, sr, sc) {
        None => false,
        Some(p) => legal_step(grid, p.role, sr, sc, dr, dc),
    }
}

/// The occupant of (sr, sc) may make this bank-to-bank jump.
pub open spec fn legal_jump_of(
    grid: Seq<Option<ChessId>>,
    sr: int,
    sc: int,
    dr: int,
    dc: int,
) -> bool {
    match grid_at(grid, sr, sc) {
        None => false,
        Some(p) => legal_jump(grid, p.role, sr, sc, dr, dc),
    }
}

/// The occupant of (sr, sc) may move to (dr, dc), by step or jump.
pub open spec fn legal_of_piece(
    grid: Seq<Option<ChessId>>,
    sr: int,
    sc: int,
    dr: int,
    dc: int,
) -> bool {
    legal_step_of(grid, sr, sc, dr, dc) || legal_jump_of(grid, sr, sc, dr, dc)
}

/// Some legal move exists for the side to move.
pub open spec fn has_any_move(v: BoardView) -> bool {
    exists|m: MOVE| legal_mv(v, m)
}

/// What the move list of a position contains: nothing in a decided
/// position, else exactly the legal moves. The list is empty if and only
/// if the game is decided or the side to move is completely blocked.
pub proof fn lemma_moves_empty_iff_terminal(v: BoardView, moves: Seq<MOVE>)
    requires
        forall|m: MOVE| #[trigger] moves.contains(m) <==> (spec_check_win(v) is None && legal_mv(
            v,
            m,
        )),
    ensures
        moves.len() == 0 <==> (spec_check_win(v) is Some || !has_any_move(v)),
{
    if moves.len() > 0 {
        assert(moves.contains(moves[0]));
    }
    if spec_check_win(v) is None && has_any_move(v) {
        let m = choose|m: MOVE| legal_mv(v, m);
        assert(moves.contains(m));
    }
}

impl Board {
    /// Append the step to (dr, dc) if it is legal for the occupant.
    fn try_push_step(
        &self,
        res: &mut Vec<MOVE>,
        sr: usize,
        sc: usize,
        dr: usize,
        dc: usize,
        to_water: bool,
    )
        requires
            self@.grid.len() == board_cells(),
            in_bounds(sr as int, sc as int),
            in_bounds(dr as int, dc as int),
            step_shape(sr as int, sc as int, dr as int, dc as int),
            grid_at(self@.grid, sr as int, sc as int) matches Some(p) && (to_water <==> p.kind
                == ChessKind::RAT),
        ensures
            ({
                let m = spec_mv(
                    spec_pos(sr as int, sc as int),
                    spec_pos(dr as int, dc as int),
                ) as MOVE;
                if legal_step_of(self@.grid, sr as int, sc as int, dr as int, dc as int) {
                    final(res)@ == old(res)@.push(m)
                } else {
                    final(res)@ == old(res)@
                }
            }),
    {
        let water_dst = dr >= 3 && dr <= 5 && dc % 3 != 0;
        if self.movable_at(sr, sc, dr, dc) && (!water_dst || to_water) {
            res.push(to_move(&((sr, sc), (dr, dc))));
        }
    }

    /// Append the jump to (dr, dc) if it is legal for the occupant.
    fn try_push_jump(&self, res: &mut Vec<MOVE>, sr: usize, sc: usize, dr: usize, dc: usize)
        requires
            self@.grid.len() == board_cells(),
            in_bounds(sr as int, sc as int),
            in_bounds(dr as int, dc as int),
            jump_shape(sr as int, sc as int, dr as int, dc as int),
            grid_at(self@.grid, sr as int, sc as int) matches Some(p) && (p.kind
                == ChessKind::TIGER || p.kind == ChessKind::LION),
        ensures
            ({
                let m = spec_mv(
                    spec_pos(sr as int, sc as int),
                    spec_pos(dr as int, dc as int),
                ) as MOVE;
                if legal_jump_of(self@.grid, sr as int, sc as int, dr as int, dc as int) {
                    final(res)@ == old(res)@.push(m)
                } else {
                    final(res)@ == old(res)@
                }
            }),
    {
        if self.path_clear(sr, sc, dr, dc) && self.movable_at(sr, sc, dr, dc) {
            res.push(to_move(&((sr, sc), (dr, dc))));
        }
    }

    /// The four orthogonal steps available from `pos`, with `to_water`
    /// saying whether the mover (a rat) may end in the water.
    fn generate_basic_steps(&self, pos: POS, to_water: bool) -> (res: Vec<MOVE>)
        requires
            self@.grid.len() == board_cells(),
            in_bounds(pos_r(pos as int), pos_c(pos as int)),
            match grid_at(self@.grid, pos_r(pos as int), pos_c(pos as int)) {
                Some(p) => to_water <==> p.kind == ChessKind::RAT,
                None => true,
            },
        ensures
            forall|m: MOVE|
                #[trigger] res@.contains(m) <==> ({
                    let (sr, sc, dr, dc) = mv_cells(m as int);
                    mv_src(m as int) == pos as int && legal_step_of(self@.grid, sr, sc, dr, dc)
                }),
    {
        let (sr, sc) = get_pos(pos);
        let mut res: Vec<MOVE> = Vec::new();
        let occupied = matches!(self.chesses[sr * 7 + sc], Some(_));
        if !occupied {
            return res;
        }
        if sr + 1 <= 8 {
            self.try_push_step(&mut res, sr, sc, sr + 1, sc, to_water);
        }
        if sr >= 1 {
            self.try_push_step(&mut res, sr, sc, sr - 1, sc, to_water);
        }
        if sc + 1 <= 6 {
            self.try_push_step(&mut res, sr, sc, sr, sc + 1, to_water);
        }
        if sc >= 1 {
            self.try_push_step(&mut res, sr, sc, sr, sc - 1, to_water);
        }
        res
    }

    /// Steps of a tiger or lion standing on `pos`: the four orthogonal
    /// steps plus, from a bank cell, the jump(s) across the water.
    fn generate_tl_steps(&self, pos: POS) -> (res: Vec<MOVE>)
        requires
            self@.grid.len() == board_cells(),
            in_bounds(pos_r(pos as int), pos_c(pos as int)),
            grid_at(self@.grid, pos_r(pos as int), pos_c(pos as int)) matches Some(p) && (p.kind
                == ChessKind::TIGER || p.kind == ChessKind::LION),
        ensures
            forall|m: MOVE|
                #[trigger] res@.contains(m) <==> ({
                    let (sr, sc, dr, dc) = mv_cells(m as int);
                    mv_src(m as int) == pos as int && legal_of_piece(self@.grid, sr, sc, dr, dc)
                }),
    {
        let (sr, sc) = get_pos(pos);
        let mut res = self.generate_basic_steps(pos, false);
        if sr == 2 || sr == 6 {
            if sc % 3 != 0 {
                let dr = if sr == 2 {
                    6
                } else {
                    2
                };
                self.try_push_jump(&mut res, sr, sc, dr, sc);
            }
        } else if sr >= 3 && sr <= 5 && sc % 3 == 0 {
            if sc == 0 || sc == 6 {
                self.try_push_jump(&mut res, sr, sc, sr, 3);
            } else {
                self.try_push_jump(&mut res, sr, sc, sr, 0);
                self.try_push_jump(&mut res, sr, sc, sr, 6);
            }
        }
        res
    }

    /// All moves available to the piece standing on `pos` (whichever
    /// side it belongs to); empty for an empty or out-of-range cell.
    pub fn generate_steps(&self, pos: POS) -> (res: Vec<MOVE>)
        requires
            self.inv(),
        ensures
            forall|m: MOVE|
                #[trigger] res@.contains(m) <==> ({
                    let (sr, sc, dr, dc) = mv_cells(m as int);
                    mv_src(m as int) == pos as int && legal_of_piece(self@.grid, sr, sc, dr, dc)
                }),
    {
        let (sr, sc) = get_pos(pos);
        if sr >= 9 || sc >= 7 {
            let res: Vec<MOVE> = Vec::new();
            return res;
        }
        match self.chesses[sr * 7 + sc] {
            None => {
                let res: Vec<MOVE> = Vec::new();
                res
            },
            Some(p) => match p.kind {
                ChessKind::RAT => {
                    let res = self.generate_basic_steps(pos, true);
                    proof {
                        assert forall|m: MOVE| #[trigger] res@.contains(m) <==> ({
                            let (sr2, sc2, dr2, dc2) = mv_cells(m as int);
                            mv_src(m as int) == pos as int && legal_of_piece(
                                self@.grid,
                                sr2,
                                sc2,
                                dr2,
                                dc2,
                            )
                        }) by {}
                    }
                    res
                },
                ChessKind::TIGER | ChessKind::LION => self.generate_tl_steps(pos),
                _ => {
                    let res = self.generate_basic_steps(pos, false);
                    proof {
                        assert forall|m: MOVE| #[trigger] res@.contains(m) <==> ({
                            let (sr2, sc2, dr2, dc2) = mv_cells(m as int);
                            mv_src(m as int) == pos as int && legal_of_piece(
                                self@.grid,
                                sr2,
                                sc2,
                                dr2,
                                dc2,
                            )
                        }) by {}
                    }
                    res
                },
            },
        }
    }

    /// Every legal move of the side to move; empty exactly when the game
    /// is already decided or that side has no move at all.
    #[verifier::loop_isolation(false)]
    pub fn generate_all_steps(&self) -> (res: Vec<MOVE>)
        requires
            self.inv(),
        ensures
            forall|m: MOVE|
                #[trigger] res@.contains(m) <==> (spec_check_win(self@) is None && legal_mv(
                    self@,
                    m,
                )),
    {
        let mut res: Vec<MOVE> = Vec::new();
        if self.check_win().is_some() {
            return res;
        }
        let mut k: usize = 0;
        while k < 63
            invariant
                0 <= k <= 63,
                forall|m: MOVE|
                    #[trigger] res@.contains(m) <==> ({
                        let (sr, sc, dr, dc) = mv_cells(m as int);
                        legal_mv(self@, m) && cell_idx(sr, sc) < k
                    }),
            decreases 63 - k,
        {
            let r = k / 7;
            let c = k % 7;
            let advance = match self.chesses[k] {
                Some(p) => p.role == self.role,
                None => false,
            };
            if advance {
                let pos = to_pos(&(r, c));
                let sub = self.generate_steps(pos);
                let ghost res_before = res@;
                let mut t: usize = 0;
                while t < sub.len()
                    invariant
                        0 <= t <= sub@.len(),
                        forall|m: MOVE|
                            #[trigger] res@.contains(m) <==> (res_before.contains(m)
                                || sub@.subrange(0, t as int).contains(m)),
                    decreases sub@.len() - t,
                {
                    let m = sub[t];
                    res.push(m);
                    proof {
                        assert(sub@.subrange(0, t + 1 as int).drop_last() =~= sub@.subrange(
                            0,
                            t as int,
                        ));
                        assert(sub@.subrange(0, t + 1 as int).last() == sub@[t as int]);
                        assert forall|m2: MOVE| #[trigger] sub@.subrange(0, t + 1 as int).contains(
                            m2,
                        ) <==> (sub@.subrange(0, t as int).contains(m2) || m2 == sub@[t as int]) by {
                            let s_new = sub@.subrange(0, t + 1 as int);
                            let s_old = sub@.subrange(0, t as int);
                            assert(s_new =~= s_old.push(sub@[t as int]));
                        }
                    }
                    t = t + 1;
                }
                proof {
                    assert(sub@.subrange(0, sub@.len() as int) =~= sub@);
                }
            }
            k = k + 1;
        }
        res
    }
}

} // verus!

// ---------------------------------------------------------------------
// Compact encodings for the outside numeric consumer: a move as one
// byte (direction x source cell) whose decoding needs the board to
// resolve bank jumps.

verus! {

/// Direction index of a straight move: 0 down, 1 right, 2 up, 3 left;
/// 4 marks a pair of cells that no straight move connects.
pub open spec fn dir_of(sr: int, sc: int, dr: int, dc: int) -> int {
    if dr > sr && dc == sc {
        0
    } else if dr == sr && dc > sc {
        1
    } else if dr < sr && dc == sc {
        2
    } else if dr == sr && dc < sc {
        3
    } else {
        4
    }
}

/// The one-byte encoding of a move: direction index times 63 plus the
/// source cell index.
pub open spec fn spec_encode(m: int) -> int {
    let (sr, sc, dr, dc) = mv_cells(m);
    dir_of(sr, sc, dr, dc) * 63 + sr * 7 + sc
}

/// The move a one-byte action index denotes on the given grid. The
/// destination is one step in the encoded direction, except that for a
/// tiger or lion on a bank cell the step along the jump axis is re-read
/// as the jump across the water (the short step there would end in the
/// water, which those kinds may never enter). A direction that would
/// leave the board yields the null move of the source cell.
pub open spec fn spec_decode(grid: Seq<Option<ChessId>>, idx: int) -> int {
    let sr = (idx / 7) % 9;
    let sc = idx % 7;
    let d = idx / 63;
    let tlbank = (match grid_at(grid, sr, sc) {
        Some(p) => p.kind == ChessKind::TIGER || p.kind == ChessKind::LION,
        None => false,
    }) && at_bank(sr, sc);
    let dr0 = if d == 0 {
        if tlbank && sr == 2 {
            6int
        } else {
            sr + 1
        }
    } else if d == 2 {
        if tlbank && sr == 6 {
            2int
        } else {
            sr - 1
        }
    } else {
        sr
    };
    let dc0 = if d == 1 {
        if tlbank && 3 <= sr <= 5 {
            if sc == 3 {
                6int
            } else {
                3int
            }
        } else {
            sc + 1
        }
    } else if d == 3 {
        if tlbank && 3 <= sr <= 5 {
            if sc == 3 {
                0int
            } else {
                3int
            }
        } else {
            sc - 1
        }
    } else {
        sc
    };
    let dr = if 0 <= dr0 <= 8 {
        dr0
    } else {
        sr
    };
    let dc = if 0 <= dc0 <= 6 {
        dc0
    } else {
        sc
    };
    spec_mv(spec_pos(sr, sc), spec_pos(dr, dc))
}

impl Board {
    /// Encode a straight move as a single byte below 252.
    pub fn encode_move(&self, mv: MOVE) -> (e: u8)
        requires
            ({
                let (sr, sc, dr, dc) = mv_cells(mv as int);
                in_bounds(sr, sc) && in_bounds(dr, dc) && dir_of(sr, sc, dr, dc) < 4
            }),
        ensures
            e as int == spec_encode(mv as int),
            e < 252,
    {
        let ((sr, sc), (dr, dc)) = get_move(mv);
        let d: usize = if dr > sr {
            0
        } else if dr < sr {
            2
        } else if dc > sc {
            1
        } else {
            3
        };
        (d * 63 + sr * 7 + sc) as u8
    }

    /// Decode a one-byte action index against the current position.
    pub fn decode_move(&self, idx: u8) -> (mv: MOVE)
        requires
            self.inv(),
            idx < 252,
        ensures
            mv as int == spec_decode(self@.grid, idx as int),
    {
        let i = idx as usize;
        let sr = (i / 7) % 9;
        let sc = i % 7;
        let d = i / 63;
        let tlbank = (match self.chesses[sr * 7 + sc] {
            Some(p) => matches!(p.kind, ChessKind::TIGER) || matches!(p.kind, ChessKind::LION),
            None => false,
        }) && (((sr == 2 || sr == 6) && sc % 3 != 0) || (sr >= 3 && sr <= 5 && sc % 3 == 0));
        let mut dr = sr;
        let mut dc = sc;
        if d == 0 {
            if tlbank && sr == 2 {
                dr = 6;
            } else if sr + 1 <= 8 {
                dr = sr + 1;
            }
        } else if d == 2 {
            if tlbank && sr == 6 {
                dr = 2;
            } else if sr >= 1 {
                dr = sr - 1;
            }
        } else if d == 1 {
            if tlbank && sr >= 3 && sr <= 5 {
                dc = if sc == 3 {
                    6
                } else {
                    3
                };
            } else if sc + 1 <= 6 {
                dc = sc + 1;
            }
        } else {
            if tlbank && sr >= 3 && sr <= 5 {
                dc = if sc == 3 {
                    0
                } else {
                    3
                };
            } else if sc >= 1 {
                dc = sc - 1;
            }
        }
        to_move(&((sr, sc), (dr, dc)))
    }
}

/// Round trip of the move codec: every legal move encodes below 252 and
/// decodes, on the position it is legal in, back to itself.
pub proof fn lemma_codec_round_trip(v: BoardView, m: MOVE)
    requires
        v.grid.len() == board_cells(),
        legal_mv(v, m),
    ensures
        0 <= spec_encode(m as int) < 252,
        spec_decode(v.grid, spec_encode(m as int)) == m as int,
{
    let (sr, sc, dr, dc) = mv_cells(m as int);
    let d = dir_of(sr, sc, dr, dc);
    assert(step_shape(sr, sc, dr, dc) || jump_shape(sr, sc, dr, dc));
    assert(d < 4);
    let e = d * 63 + sr * 7 + sc;
    assert(0 <= e < 252);
    // the decoder recovers source cell and direction exactly
    assert((e / 7) % 9 == sr && e % 7 == sc && e / 63 == d) by (nonlinear_arith)
        requires
            0 <= d < 4 && 0 <= sr < 9 && 0 <= sc < 7 && e == d * 63 + sr * 7 + sc,
    ;
    // the move is its own canonical encoding
    assert(m as int == spec_mv(spec_pos(sr, sc), spec_pos(dr, dc)));
}

} // verus!

verus! {

/// Append the digit character of a run length.
fn push_digit(out: &mut String, count: usize)
    requires
        1 <= count <= 9,
    ensures
        final(out)@ == old(out)@ + seq![digit_char(count as int)],
{
    match count {
        1 => {
            proof {
                reveal_strlit("1");
            }
            out.append("1");
        },
        2 => {
            proof {
                reveal_strlit("2");
            }
            out.append("2");
        },
        3 => {
            proof {
                reveal_strlit("3");
            }
            out.append("3");
        },
        4 => {
            proof {
                reveal_strlit("4");
            }
            out.append("4");
        },
        5 => {
            proof {
                reveal_strlit("5");
            }
            out.append("5");
        },
        6 => {
            proof {
                reveal_strlit("6");
            }
            out.append("6");
        },
        7 => {
            proof {
                reveal_strlit("7");
            }
            out.append("7");
        },
        8 => {
            proof {
                reveal_strlit("8");
            }
            out.append("8");
        },
        _ => {
            proof {
                reveal_strlit("9");
            }
            out.append("9");
        },
    }
    proof {
        assert(final(out)@ =~= old(out)@ + seq![digit_char(count as int)]);
    }
}

/// Append the letter of a piece.
fn push_piece(out: &mut String, p: ChessId)
    ensures
        final(out)@ == old(out)@ + seq![piece_char(p)],
{
    match (p.role, p.kind) {
        (RoleType::BLACK, ChessKind::ELEPHANT) => {
            proof {
                reveal_strlit("e");
            }
            out.append("e");
        },
        (RoleType::BLACK, ChessKind::LION) => {
            proof {
                reveal_strlit("l");
            }
            out.append("l");
        },
        (RoleType::BLACK, ChessKind::TIGER) => {
            proof {
                reveal_strlit("t");
            }
            out.append("t");
        },
        (RoleType::BLACK, ChessKind::PANTHER) => {
            proof {
                reveal_strlit("p");
            }
            out.append("p");
        },
        (RoleType::BLACK, ChessKind::WOLF) => {
            proof {
                reveal_strlit("w");
            }
            out.append("w");
        },
        (RoleType::BLACK, ChessKind::DOG) => {
            proof {
                reveal_strlit("d");
            }
            out.append("d");
        },
        (RoleType::BLACK, ChessKind::CAT) => {
            proof {
                reveal_strlit("c");
            }
            out.append("c");
        },
        (RoleType::BLACK, ChessKind::RAT) => {
            proof {
                reveal_strlit("r");
            }
            out.append("r");
        },
        (RoleType::RED, ChessKind::ELEPHANT) => {
            proof {
                reveal_strlit("E");
            }
            out.append("E");
        },
        (RoleType::RED, ChessKind::LION) => {
            proof {
                reveal_strlit("L");
            }
            out.append("L");
        },
        (RoleType::RED, ChessKind::TIGER) => {
            proof {
                reveal_strlit("T");
            }
            out.append("T");
        },
        (RoleType::RED, ChessKind::PANTHER) => {
            proof {
                reveal_strlit("P");
            }
            out.append("P");
        },
        (RoleType::RED, ChessKind::WOLF) => {
            proof {
                reveal_strlit("W");
            }
            out.append("W");
        },
        (RoleType::RED, ChessKind::DOG) => {
            proof {
                reveal_strlit("D");
            }
            out.append("D");
        },
        (RoleType::RED, ChessKind::CAT) => {
            proof {
                reveal_strlit("C");
            }
            out.append("C");
        },
        (RoleType::RED, ChessKind::RAT) => {
            proof {
                reveal_strlit("R");
            }
            out.append("R");
        },
    }
    proof {
        assert(final(out)@ =~= old(out)@ + seq![piece_char(p)]);
    }
}

impl Board {
    /// Serialize the grid and side to move as a position string; the
    /// inverse of `load_fen` for those two components.
    #[verifier::loop_isolation(false)]
    pub fn get_fen(&self) -> (out: String)
        requires
            self.inv(),
        ensures
            out@ == spec_render_fen(self@.grid, self@.role),
    {
        let ghost g = self@.grid;
        let mut out = String::new();
        let mut i: usize = 0;
        while i < 9
            invariant
                0 <= i <= 9,
                out@ + render_rows(g, i as int) == render_rows(g, 0),
            decreases 9 - i,
        {
            let ghost row = g.subrange(7 * i as int, 7 * i as int + 7);
            let mut count: usize = 0;
            let mut j: usize = 0;
            proof {
                assert(render_rows(g, i as int) == render_cells(row, 0, 0) + (if i < 8 {
                    seq!['/']
                } else {
                    Seq::<char>::empty()
                }) + render_rows(g, i as int + 1));
            }
            while j < 7
                invariant
                    0 <= count <= j <= 7,
                    out@ + render_cells(row, j as int, count as int) + (if i < 8 {
                        seq!['/']
                    } else {
                        Seq::<char>::empty()
                    }) + render_rows(g, i as int + 1) == render_rows(g, 0),
                decreases 7 - j,
            {
                proof {
                    assert(row[j as int] == g[7 * i as int + j as int]);
                }
                match self.chesses[i * 7 + j] {
                    None => {
                        count = count + 1;
                    },
                    Some(p) => {
                        let ghost out0 = out@;
                        if count > 0 {
                            push_digit(&mut out, count);
                        }
                        push_piece(&mut out, p);
                        proof {
                            if count > 0 {
                                assert(out@ + render_cells(row, j as int + 1, 0) =~= out0 + (
                                seq![digit_char(count as int)] + seq![piece_char(
                                    row[j as int]->Some_0,
                                )] + render_cells(row, j as int + 1, 0)));
                            } else {
                                assert(out@ + render_cells(row, j as int + 1, 0) =~= out0 + (
                                Seq::<char>::empty() + seq![piece_char(row[j as int]->Some_0)]
                                    + render_cells(row, j as int + 1, 0)));
                            }
                            assert((out@ + render_cells(row, j as int + 1, 0)) + (if i < 8 {
                                seq!['/']
                            } else {
                                Seq::<char>::empty()
                            }) + render_rows(g, i as int + 1) =~= (out0 + render_cells(
                                row,
                                j as int,
                                count as int,
                            )) + (if i < 8 {
                                seq!['/']
                            } else {
                                Seq::<char>::empty()
                            }) + render_rows(g, i as int + 1));
                        }
                        count = 0;
                    },
                }
                j = j + 1;
            }
            let ghost out1 = out@;
            if count > 0 {
                push_digit(&mut out, count);
                proof {
                    assert(out@ =~= out1 + render_cells(row, 7, count as int));
                }
            } else {
                proof {
                    assert(out@ =~= out1 + render_cells(row, 7, 0));
                }
            }
            if i < 8 {
                let ghost out2 = out@;
                proof {
                    reveal_strlit("/");
                }
                out.append("/");
                proof {
                    assert(out@ =~= out2 + seq!['/']);
                }
            }
            proof {
                assert(out@ + render_rows(g, i as int + 1) =~= (out1 + render_cells(
                    row,
                    7,
                    count as int,
                )) + (if i < 8 {
                    seq!['/']
                } else {
                    Seq::<char>::empty()
                }) + render_rows(g, i as int + 1));
            }
            i = i + 1;
        }
        let ghost body = out@;
        proof {
            reveal_strlit(" ");
            reveal_strlit("w");
            reveal_strlit("b");
        }
        out.append(" ");
        match self.role {
            RoleType::RED => out.append("w"),
            RoleType::BLACK => out.append("b"),
        }
        proof {
            assert(render_rows(g, 9).len() == 0);
            assert(body =~= render_rows(g, 0));
            assert(out@ =~= spec_render_fen(self@.grid, self@.role));
        }
        out
    }
}

} // verus!

verus! {

/// Error returned for a malformed position string.
#[derive(Clone, Copy, PartialEq, Eq, Structural, Debug)]
pub enum FenError {
    Malformed,
}

/// A grid that is empty up to `n` hashes to zero.
proof fn lemma_hash_none(g: Seq<Option<ChessId>>, tbl: Seq<u64>, n: int)
    requires
        forall|i: int| 0 <= i < n ==> g[i] is None,
    ensures
        hash_upto(g, tbl, n) == 0u64,
    decreases n,
{
    if n > 0 {
        lemma_hash_none(g, tbl, n - 1);
        assert(0u64 ^ 0u64 == 0u64) by (bit_vector);
    }
}

/// A grid that is empty up to `n` holds no pieces there.
proof fn lemma_count_none(g: Seq<Option<ChessId>>, role: RoleType, n: int)
    requires
        forall|i: int| 0 <= i < n ==> g[i] is None,
    ensures
        count_role_upto(g, role, n) == 0,
    decreases n,
{
    if n > 0 {
        lemma_count_none(g, role, n - 1);
    }
}

/// Value of a digit character.
fn digit_of(c: char) -> (d: usize)
    requires
        is_digit(c),
    ensures
        d as int == digit_val(c),
        1 <= d <= 9,
{
    match c {
        '1' => 1,
        '2' => 2,
        '3' => 3,
        '4' => 4,
        '5' => 5,
        '6' => 6,
        '7' => 7,
        '8' => 8,
        '9' => 9,
        _ => unreached(),
    }
}

/// The piece a letter denotes, if any.
fn piece_of(c: char) -> (p: Option<ChessId>)
    ensures
        p == char_piece(c),
{
    let role = if c >= 'a' {
        RoleType::BLACK
    } else {
        RoleType::RED
    };
    let kind = match c {
        'e' | 'E' => ChessKind::ELEPHANT,
        'l' | 'L' => ChessKind::LION,
        't' | 'T' => ChessKind::TIGER,
        'p' | 'P' => ChessKind::PANTHER,
        'w' | 'W' => ChessKind::WOLF,
        'd' | 'D' => ChessKind::DOG,
        'c' | 'C' => ChessKind::CAT,
        'r' | 'R' => ChessKind::RAT,
        _ => {
            return None;
        },
    };
    Some(ChessId { role, kind })
}

/// All characters of a string collected for indexed access.
fn str_chars(s: &str) -> (cs: Vec<char>)
    ensures
        cs@ == s@,
{
    let mut cs: Vec<char> = Vec::new();
    let mut it = s.chars();
    proof {
        vstd::string::axiom_spec_iter(s);
    }
    loop
        invariant
            it.obeys_prophetic_iter_laws(),
            it.decrease() is Some,
            cs@ + it.remaining() == s@,
        decreases it.decrease()->0,
    {
        match it.next() {
            Some(c) => {
                cs.push(c);
                proof {
                    assert(cs@ + it.remaining() =~= s@);
                }
            },
            None => {
                proof {
                    assert(cs@ =~= s@);
                }
                return cs;
            },
        }
    }
}

impl Board {
    /// Parse a position string into the board: grid and side to move
    /// from the string; piece counts and hash rebuilt from scratch;
    /// history, repetition counts and den flag cleared. A malformed
    /// string is rejected and the board left untouched.
    #[verifier::loop_isolation(false)]
    pub fn load_fen(&mut self, fen: &str) -> (r: Result<(), FenError>)
        requires
            old(self).inv(),
        ensures
            final(self).inv(),
            r is Ok <==> spec_parse_fen(fen@) is Some,
            r is Ok ==> (spec_parse_fen(fen@) matches Some(pr) && final(self)@.grid == pr.0
                && final(self)@.role == pr.1),
            r is Ok ==> final(self)@.history.len() == 0 && final(self)@.in_den is None
                && final(self)@.tbl == old(self)@.tbl,
            r is Err ==> *final(self) == *old(self),
    {
        let ghost s = fen@;
        let cs = str_chars(fen);
        let n = cs.len();
        let mut acc: Vec<Option<ChessId>> = Vec::new();
        let mut i: usize = 0;
        let role: RoleType;
        loop
            invariant
                0 <= i <= n,
                n == s.len(),
                parse_cells(s, 0, Seq::empty()) == parse_cells(s, i as int, acc@),
            decreases n - i,
        {
            if i >= n {
                return Err(FenError::Malformed);
            }
            let c = cs[i];
            if c == ' ' {
                if i + 1 < n {
                    let side = cs[i + 1];
                    if side == 'w' {
                        role = RoleType::RED;
                        break ;
                    } else if side == 'b' {
                        role = RoleType::BLACK;
                        break ;
                    }
                }
                return Err(FenError::Malformed);
            } else if c == '/' {
                i = i + 1;
            } else if c >= '1' && c <= '9' {
                let d = digit_of(c);
                let ghost acc0 = acc@;
                let mut t: usize = 0;
                while t < d
                    invariant
                        0 <= t <= d,
                        acc@ =~= acc0 + Seq::new(t as nat, |_x: int| None),
                    decreases d - t,
                {
                    acc.push(None);
                    proof {
                        assert(acc@ =~= acc0 + Seq::new((t + 1) as nat, |_x: int| None));
                    }
                    t = t + 1;
                }
                proof {
                    assert(acc@ =~= acc0 + Seq::new(digit_val(c) as nat, |_x: int| None));
                }
                i = i + 1;
            } else {
                match piece_of(c) {
                    Some(p) => {
                        if acc.len() >= 63 {
                            return Err(FenError::Malformed);
                        }
                        acc.push(Some(p));
                        i = i + 1;
                    },
                    None => {
                        return Err(FenError::Malformed);
                    },
                }
            }
        }
        // the string parsed; commit it to the board
        let ghost parsed = spec_parse_fen(s)->Some_0;
        proof {
            assert(spec_parse_fen(s) == Some((pad63(acc@), role)));
        }
        let ghost acc0 = acc@;
        acc.truncate(63);
        while acc.len() < 63
            invariant
                acc@.len() <= 63,
                acc@.len() >= (if acc0.len() <= 63 {
                    acc0.len() as int
                } else {
                    63int
                }),
                forall|t: int| 0 <= t < acc@.len() ==> acc@[t] == pad63(acc0)[t],
            decreases 63 - acc@.len(),
        {
            acc.push(None);
        }
        proof {
            assert(acc@ =~= pad63(acc0));
        }
        // piece counts
        let mut red: usize = 0;
        let mut black: usize = 0;
        let mut k: usize = 0;
        while k < 63
            invariant
                0 <= k <= 63,
                acc@.len() == 63,
                red as int == count_role_upto(acc@, RoleType::RED, k as int),
                black as int == count_role_upto(acc@, RoleType::BLACK, k as int),
                red <= k && black <= k,
            decreases 63 - k,
        {
            match acc[k] {
                Some(p) => match p.role {
                    RoleType::RED => {
                        red = red + 1;
                    },
                    RoleType::BLACK => {
                        black = black + 1;
                    },
                },
                None => {},
            }
            k = k + 1;
        }
        // rebuild the hash from scratch
        let mut h: u64 = 0;
        let mut k2: usize = 0;
        while k2 < 63
            invariant
                0 <= k2 <= 63,
                acc@.len() == 63,
                self == old(self),
                h == hash_upto(acc@, self.zobrist_tbl@, k2 as int),
            decreases 63 - k2,
        {
            match acc[k2] {
                Some(p) => {
                    h = h ^ self.zobrist_tbl[p.get_chess_idx() * 63 + k2];
                },
                None => {
                    proof {
                        let h0 = h;
                        assert(h0 ^ 0u64 == h0) by (bit_vector);
                    }
                },
            }
            k2 = k2 + 1;
        }
        self.chesses = acc;
        self.role = role;
        self.red_chess_num = red;
        self.black_chess_num = black;
        self.zobrist_key = h;
        self.in_den = None;
        self.ctx.clear();
        self.dup_counter = HashMap::new();
        Ok(())
    }

    /// A fresh board with random hash keys, loaded with the fixed
    /// starting layout, the first role to move.
    pub fn new() -> (b: Board)
        ensures
            b.inv(),
            (spec_parse_fen("l5t/1d3c1/r1p1w1e/7/7/7/E1W1P1R/1C3D1/T5L w"@) matches Some(pr)
                && b@.grid == pr.0 && b@.role == pr.1),
            b@.history.len() == 0,
            b@.in_den is None,
    {
        let mut tbl: Vec<u64> = Vec::new();
        while tbl.len() < 1008
            invariant
                tbl@.len() <= 1008,
            decreases 1008 - tbl@.len(),
        {
            tbl.push(random_u64());
        }
        let mut cells: Vec<Option<ChessId>> = Vec::new();
        while cells.len() < 63
            invariant
                cells@.len() <= 63,
                forall|t: int| 0 <= t < cells@.len() ==> cells@[t] is None,
            decreases 63 - cells@.len(),
        {
            cells.push(None);
        }
        let mut b = Board {
            chesses: cells,
            role: RoleType::RED,
            red_chess_num: 0,
            black_chess_num: 0,
            zobrist_tbl: tbl,
            zobrist_key: 0,
            in_den: None,
            dup_counter: HashMap::new(),
            ctx: Vec::new(),
        };
        proof {
            lemma_hash_none(b@.grid, b@.tbl, board_cells());
            lemma_count_none(b@.grid, RoleType::RED, board_cells());
            lemma_count_none(b@.grid, RoleType::BLACK, board_cells());
            assert(b.inv());
            reveal_strlit("l5t/1d3c1/r1p1w1e/7/7/7/E1W1P1R/1C3D1/T5L w");
            assert(spec_parse_fen("l5t/1d3c1/r1p1w1e/7/7/7/E1W1P1R/1C3D1/T5L w"@) is Some) by {
                reveal_with_fuel(parse_cells, 50);
            }
        }
        match b.load_fen("l5t/1d3c1/r1p1w1e/7/7/7/E1W1P1R/1C3D1/T5L w") {
            Ok(()) => b,
            Err(_) => unreached(),
        }
    }
}

} // verus!

verus! {

impl Board {
    /// The board as 18 binary 9 x 7 planes for the outside numeric
    /// consumer: one plane per (role, kind) pair, one marking the side
    /// to move (all ones when the second role moves), and one
    /// broadcasting the repetition count of the current position.
    #[verifier::loop_isolation(false)]
    pub fn encode_board(&self) -> (res: Vec<Vec<Vec<u8>>>)
        requires
            self.inv(),
        ensures
            res@.len() == 18,
            forall|k: int| 0 <= k < 18 ==> #[trigger] res@[k]@.len() == 9,
            forall|k: int, i: int|
                0 <= k < 18 && 0 <= i < 9 ==> #[trigger] res@[k]@[i]@.len() == 7,
            forall|k: int, i: int, j: int|
                0 <= k < 16 && 0 <= i < 9 && 0 <= j < 7 ==> #[trigger] res@[k]@[i]@[j] == (
                match grid_at(self@.grid, i, j) {
                    Some(p) => if spec_chess_idx(p) == k {
                        1u8
                    } else {
                        0u8
                    },
                    None => 0u8,
                }),
            forall|i: int, j: int|
                0 <= i < 9 && 0 <= j < 7 ==> #[trigger] res@[16]@[i]@[j] == (if self@.role
                    == RoleType::BLACK {
                    1u8
                } else {
                    0u8
                }),
            forall|i: int, j: int|
                0 <= i < 9 && 0 <= j < 7 ==> #[trigger] res@[17]@[i]@[j] as int == (
                if hist_count(self@.history, self@.zobrist) < 255 {
                    hist_count(self@.history, self@.zobrist)
                } else {
                    255int
                }),
    {
        let dup = self.get_dup_count();
        let dup8: u8 = if dup < 255 {
            dup as u8
        } else {
            255
        };
        let black: u8 = match self.role {
            RoleType::RED => 0,
            RoleType::BLACK => 1,
        };
        let mut res: Vec<Vec<Vec<u8>>> = Vec::new();
        let mut k: usize = 0;
        while k < 18
            invariant
                0 <= k <= 18,
                res@.len() == k,
                forall|k2: int| 0 <= k2 < k ==> #[trigger] res@[k2]@.len() == 9,
                forall|k2: int, i: int|
                    0 <= k2 < k && 0 <= i < 9 ==> #[trigger] res@[k2]@[i]@.len() == 7,
                forall|k2: int, i: int, j: int|
                    0 <= k2 < k && k2 < 16 && 0 <= i < 9 && 0 <= j < 7 ==> #[trigger] res@[k2]@[i]@[j]
                        == (match grid_at(self@.grid, i, j) {
                        Some(p) => if spec_chess_idx(p) == k2 {
                            1u8
                        } else {
                            0u8
                        },
                        None => 0u8,
                    }),
                forall|i: int, j: int|
                    k > 16 && 0 <= i < 9 && 0 <= j < 7 ==> #[trigger] res@[16]@[i]@[j] == (
                    if self@.role == RoleType::BLACK {
                        1u8
                    } else {
                        0u8
                    }),
                forall|i: int, j: int|
                    k > 17 && 0 <= i < 9 && 0 <= j < 7 ==> #[trigger] res@[17]@[i]@[j] == dup8,
                dup8 as int == (if hist_count(self@.history, self@.zobrist) < 255 {
                    hist_count(self@.history, self@.zobrist)
                } else {
                    255int
                }),
            decreases 18 - k,
        {
            let mut plane: Vec<Vec<u8>> = Vec::new();
            let mut i: usize = 0;
            while i < 9
                invariant
                    0 <= i <= 9,
                    k < 18,
                    plane@.len() == i,
                    forall|i2: int| 0 <= i2 < i ==> #[trigger] plane@[i2]@.len() == 7,
                    forall|i2: int, j: int|
                        k < 16 && 0 <= i2 < i && 0 <= j < 7 ==> #[trigger] plane@[i2]@[j] == (
                        match grid_at(self@.grid, i2, j) {
                            Some(p) => if spec_chess_idx(p) == k {
                                1u8
                            } else {
                                0u8
                            },
                            None => 0u8,
                        }),
                    forall|i2: int, j: int|
                        k == 16 && 0 <= i2 < i && 0 <= j < 7 ==> #[trigger] plane@[i2]@[j] == (
                        if self@.role == RoleType::BLACK {
                            1u8
                        } else {
                            0u8
                        }),
                    forall|i2: int, j: int|
                        k == 17 && 0 <= i2 < i && 0 <= j < 7 ==> #[trigger] plane@[i2]@[j] == dup8,
                decreases 9 - i,
            {
                let mut row: Vec<u8> = Vec::new();
                let mut j: usize = 0;
                while j < 7
                    invariant
                        0 <= j <= 7,
                        i < 9,
                        k < 18,
                        row@.len() == j,
                        forall|j2: int|
                            k < 16 && 0 <= j2 < j ==> #[trigger] row@[j2] == (match grid_at(
                                self@.grid,
                                i as int,
                                j2,
                            ) {
                                Some(p) => if spec_chess_idx(p) == k {
                                    1u8
                                } else {
                                    0u8
                                },
                                None => 0u8,
                            }),
                        forall|j2: int|
                            k == 16 && 0 <= j2 < j ==> #[trigger] row@[j2] == (if self@.role
                                == RoleType::BLACK {
                                1u8
                            } else {
                                0u8
                            }),
                        forall|j2: int| k == 17 && 0 <= j2 < j ==> #[trigger] row@[j2] == dup8,
                    decreases 7 - j,
                {
                    let v: u8 = if k < 16 {
                        match self.chesses[i * 7 + j] {
                            Some(p) => if p.get_chess_idx() == k {
                                1
                            } else {
                                0
                            },
                            None => 0,
                        }
                    } else if k == 16 {
                        black
                    } else {
                        dup8
                    };
                    row.push(v);
                    j = j + 1;
                }
                plane.push(row);
                i = i + 1;
            }
            res.push(plane);
            k = k + 1;
        }
        res
    }
}

} // verus!

verus! {

impl Board {
    /// The invariant keeps the view well formed.
    pub proof fn lemma_inv_wf(&self)
        requires
            self.inv(),
        ensures
            wf_view(self@),
    {
    }

    /// The piece standing on (r, c).
    pub fn piece_at(&self, r: usize, c: usize) -> (p: Option<ChessId>)
        requires
            self.inv(),
            r < 9,
            c < 7,
        ensures
            p == grid_at(self@.grid, r as int, c as int),
    {
        self.chesses[r * 7 + c]
    }

    /// The side to move.
    pub fn side(&self) -> (r: RoleType)
        ensures
            r == self@.role,
    {
        self.role
    }
}

} // verus!
