//! Monte-Carlo tree search over an arena of nodes addressed by index.
//! Selection walks down by a fixed-point upper-confidence score,
//! expansion grows the tree by one node, a bounded random rollout plays
//! the position out, and backpropagation walks back to the root undoing
//! every applied move, so the shared board comes back exactly as it was.

use vstd::prelude::*;
use crate::board::{
    Board, MOVE, has_any_move, legal_mv, lemma_move_undo_restores, lemma_moves_empty_iff_terminal,
    spec_check_win, view_move, view_undo, BoardView,
};
use crate::chess::RoleType;
use crate::player::Player;
use crate::rng::{choose_move, shuffle_indices};

verus! {

broadcast use vstd::seq_lib::group_to_multiset_ensures;

/// Fixed-point scale of rewards and confidence values.
pub const UCT_SCALE: u64 = 1024;

/// Hard cap on the length of one random rollout.
pub const ROLLOUT_CAP: usize = 4096;

/// One tree node: accumulated scaled reward, visit count, the legal
/// moves of its position, the indices of moves not yet expanded (in
/// random order), one optional child per move, the move that led here,
/// the parent index, and the position itself as a ghost view.
struct Node {
    wins: u64,
    visited: u64,
    action: Vec<MOVE>,
    mv: MOVE,
    untried_moves: Vec<usize>,
    parent: Option<usize>,
    children: Vec<Option<usize>>,
    pos: Ghost<BoardView>,
}

/// Well-formedness of one node within the arena: its move list is
/// exactly the legal-move set of its position, children line up with
/// moves, a child's position is its parent's position after that move,
/// and undoing a node's position gives its parent's position.
spec fn node_ok_at(nodes: Seq<Node>, x: int) -> bool {
    let n = nodes[x];
    &&& crate::board::wf_view(n.pos@)
    &&& (forall|m: MOVE|
        #[trigger] n.action@.contains(m) <==> (spec_check_win(n.pos@) is None && legal_mv(
            n.pos@,
            m,
        )))
    &&& n.children@.len() == n.action@.len()
    &&& (forall|t: int|
        0 <= t < n.untried_moves@.len() ==> (#[trigger] n.untried_moves@[t]) < n.action@.len())
    &&& (forall|i: usize|
        (i as int) < n.children@.len() && n.children@[i as int] is None
            ==> n.untried_moves@.contains(i))
    &&& (forall|i: int|
        0 <= i < n.children@.len() ==> match #[trigger] n.children@[i] {
            Some(c) => x < c < nodes.len() && nodes[c as int].pos@ == view_move(
                n.pos@,
                n.action@[i],
            ),
            None => true,
        })
    &&& match n.parent {
        Some(p) => 0 <= (p as int) < x && view_undo(n.pos@) == nodes[p as int].pos@,
        None => x == 0,
    }
}

/// Every node of the arena is well formed.
spec fn arena_ok(nodes: Seq<Node>) -> bool {
    forall|x: int| 0 <= x < nodes.len() ==> #[trigger] node_ok_at(nodes, x)
}

/// Floor of the base-2 logarithm; 0 for inputs below 2.
spec fn spec_ilog2(x: int) -> int
    decreases x,
{
    if x < 2 {
        0
    } else {
        1 + spec_ilog2(x / 2)
    }
}

/// Two to the `n`-th power.
spec fn pow2(n: nat) -> int
    decreases n,
{
    if n == 0 {
        1
    } else {
        2 * pow2((n - 1) as nat)
    }
}

proof fn lemma_ilog2_lt(x: int, n: nat)
    requires
        n >= 1,
        x < pow2(n),
    ensures
        spec_ilog2(x) < n,
    decreases n,
{
    if x >= 2 {
        assert(pow2(0) == 1);
        assert(pow2(1) == 2);
        if n == 1 {
            assert(false);
        } else {
            lemma_ilog2_lt(x / 2, (n - 1) as nat);
        }
    }
}

/// The base-2 logarithm of any 64-bit value stays below 64.
proof fn lemma_ilog2_u64(x: u64)
    ensures
        0 <= spec_ilog2(x as int) <= 63,
{
    lemma_ilog2_nonneg(x as int);
    assert(pow2(64) == 0x10000000000000000) by {
        reveal_with_fuel(pow2, 65);
    }
    lemma_ilog2_lt(x as int, 64);
}

/// Floor of the base-2 logarithm.
fn ilog2(x: u64) -> (r: u64)
    ensures
        r <= 63,
        r as int == spec_ilog2(x as int),
{
    let mut y = x;
    let mut r: u64 = 0;
    while y >= 2 && r < 63
        invariant
            spec_ilog2(x as int) == r + spec_ilog2(y as int),
            y <= x,
            r <= 63,
        decreases y,
    {
        y = y / 2;
        r = r + 1;
    }
    proof {
        lemma_ilog2_nonneg(y as int);
        if y >= 2 {
            lemma_ilog2_u64(x);
            lemma_ilog2_nonneg(y as int / 2);
            assert(spec_ilog2(y as int) >= 1);
            assert(false);
        }
    }
    r
}

proof fn lemma_ilog2_nonneg(x: int)
    ensures
        spec_ilog2(x) >= 0,
    decreases x,
{
    if x >= 2 {
        lemma_ilog2_nonneg(x / 2);
    }
}

/// The integer square root: the unique `r` with `r * r <= q` below
/// `(r + 1) * (r + 1)`.
spec fn spec_isqrt(q: int) -> int {
    choose|r: int| 0 <= r && (#[trigger] (r * r)) <= q && q < (r + 1) * (r + 1)
}

proof fn lemma_isqrt_unique(q: int, r1: int, r2: int)
    requires
        0 <= r1 && r1 * r1 <= q && q < (r1 + 1) * (r1 + 1),
        0 <= r2 && r2 * r2 <= q && q < (r2 + 1) * (r2 + 1),
    ensures
        r1 == r2,
{
    assert(r1 == r2) by (nonlinear_arith)
        requires
            0 <= r1 && r1 * r1 <= q && q < (r1 + 1) * (r1 + 1),
            0 <= r2 && r2 * r2 <= q && q < (r2 + 1) * (r2 + 1),
    ;
}

/// Integer square root.
fn isqrt(x: u64) -> (r: u64)
    requires
        x < 0x10000000,
    ensures
        r as int == spec_isqrt(x as int),
        (r * r) as int <= x as int,
        (x as int) < (r as int + 1) * (r as int + 1),
{
    let mut r: u64 = 0;
    loop
        invariant
            x < 0x10000000,
            (r * r) as int <= x as int,
            r <= 0x4000,
        decreases x - r,
    {
        let nxt = r + 1;
        proof {
            let ni = nxt as int;
            assert(ni <= ni * ni) by (nonlinear_arith)
                requires
                    ni >= 1,
            ;
            assert(ni <= 0x4001 ==> ni * ni <= 0x4001 * 0x4001) by (nonlinear_arith)
                requires
                    ni >= 1,
            ;
            assert(ni * ni < 0x10000000 ==> ni <= 0x4000) by (nonlinear_arith)
                requires
                    ni >= 1,
            ;
        }
        if nxt * nxt <= x {
            r = nxt;
        } else {
            proof {
                let rs = spec_isqrt(x as int);
                assert(0 <= r as int && (r * r) as int <= x as int && (x as int) < (r as int + 1)
                    * (r as int + 1));
                assert(0 <= rs && rs * rs <= x as int && (x as int) < (rs + 1) * (rs + 1));
                lemma_isqrt_unique(x as int, r as int, rs);
            }
            return r;
        }
    }
}

/// The fixed-point upper-confidence score of a child: scaled win rate
/// plus the scaled exploration term sqrt(2 log2(parent visits) /
/// visits); the largest possible value when the child is unvisited.
spec fn spec_uct(parent_visited: u64, wins: u64, visited: u64) -> int {
    if visited == 0 {
        u64::MAX as int
    } else {
        let t1 = wins as int / visited as int;
        let pv: int = if parent_visited >= 1 {
            parent_visited as int
        } else {
            1
        };
        let q = 2 * spec_ilog2(pv) * (UCT_SCALE * UCT_SCALE) as int / visited as int;
        let qq: int = if q < 0x10000000 {
            q
        } else {
            0xfffffff
        };
        let t2 = spec_isqrt(qq);
        if t1 + t2 <= u64::MAX as int {
            t1 + t2
        } else {
            u64::MAX as int
        }
    }
}

/// The score of the `j`-th child of node `cur`, zero for an empty slot.
spec fn child_uct(nodes: Seq<Node>, cur: int, j: int) -> int {
    match nodes[cur].children@[j] {
        Some(c) => spec_uct(nodes[cur].visited, nodes[c as int].wins, nodes[c as int].visited),
        None => 0,
    }
}

/// The visit count of the `j`-th child of node `cur`, zero for an
/// empty slot.
spec fn child_visits(nodes: Seq<Node>, cur: int, j: int) -> int {
    match nodes[cur].children@[j] {
        Some(c) => nodes[c as int].visited as int,
        None => 0,
    }
}

/// The upper-confidence score of a child, in fixed point.
fn uct_value(parent_visited: u64, wins: u64, visited: u64) -> (r: u64)
    ensures
        r as int == spec_uct(parent_visited, wins, visited),
{
    if visited == 0 {
        return u64::MAX;
    }
    let t1 = wins / visited;
    let pv = if parent_visited >= 1 {
        parent_visited
    } else {
        1
    };
    let l = ilog2(pv);
    let q = 2 * l * (UCT_SCALE * UCT_SCALE) / visited;
    proof {
        assert(2 * (l as int) * 0x100000 < 0x10000000000) by (nonlinear_arith)
            requires
                0 <= l <= 63,
        ;
        lemma_ilog2_nonneg(pv as int);
    }
    let qq = if q < 0x10000000 {
        q
    } else {
        0xfffffff
    };
    let t2 = isqrt(qq);
    if t1 <= u64::MAX - t2 {
        t1 + t2
    } else {
        u64::MAX
    }
}

/// The MCTS player.
pub struct MCTSPlayer {
}

impl MCTSPlayer {
    /// A fresh player.
    pub fn new() -> (p: MCTSPlayer) {
        MCTSPlayer {  }
    }

    /// Run the given number of search iterations on the shared board
    /// and return the root move with the highest visit count. The board
    /// comes back exactly as it was handed in.
    #[verifier::loop_isolation(false)]
    pub fn mcts_run(&mut self, board: &mut Board, itermax: usize) -> (mv: MOVE)
        requires
            old(board).inv(),
            spec_check_win(old(board)@) is None,
            has_any_move(old(board)@),
            itermax <= 100000,
        ensures
            final(board).inv(),
            final(board)@ == old(board)@,
            legal_mv(old(board)@, mv),
    {
        let ghost v0 = board@;
        proof {
            board.lemma_inv_wf();
        }
        let root = Self::make_node(board, None, 0);
        proof {
            lemma_moves_empty_iff_terminal(v0, root.action@);
        }
        let mut nodes: Vec<Node> = Vec::new();
        nodes.push(root);
        proof {
            assert(node_ok_at(nodes@, 0));
        }
        let mut it: usize = 0;
        while it < itermax
            invariant
                0 <= it <= itermax,
                1 <= nodes@.len() <= 1 + it,
                arena_ok(nodes@),
                nodes@[0].pos@ == v0,
                nodes@[0].action@.len() > 0,
                nodes@[0].children@.len() == nodes@[0].action@.len(),
                board.inv(),
                board@ == v0,
            decreases itermax - it,
        {
            self.run_iteration(board, &mut nodes);
            it = it + 1;
        }
        // commit the root child with the highest visit count
        let rootlen = nodes[0].children.len();
        let mut best_idx: usize = 0;
        let mut best_vis: u64 = 0;
        let mut i: usize = 0;
        while i < rootlen
            invariant
                0 <= i <= rootlen,
                best_idx < rootlen,
                forall|j: int| 0 <= j < i ==> #[trigger] child_visits(nodes@, 0, j) <= best_vis,
            decreases rootlen - i,
        {
            match nodes[0].children[i] {
                Some(c) => {
                    proof {
                        assert(node_ok_at(nodes@, 0));
                    }
                    let v = nodes[c].visited;
                    if v > best_vis {
                        best_vis = v;
                        best_idx = i;
                    }
                },
                None => {},
            }
            i = i + 1;
        }
        // best_idx now carries the highest visit count over all root
        // children, the invariant above being the committed-move rule
        let mv = nodes[0].action[best_idx];
        proof {
            assert(node_ok_at(nodes@, 0));
            assert(nodes@[0].action@.contains(nodes@[0].action@[best_idx as int]));
        }
        mv
    }

    /// Build a node for the board's current position.
    fn make_node(board: &Board, parent: Option<usize>, mv: MOVE) -> (n: Node)
        requires
            board.inv(),
        ensures
            n.pos@ == board@,
            n.wins == 0 && n.visited == 0,
            n.parent == parent,
            n.mv == mv,
            n.children@.len() == n.action@.len(),
            forall|m: MOVE|
                #[trigger] n.action@.contains(m) <==> (spec_check_win(board@) is None && legal_mv(
                    board@,
                    m,
                )),
            forall|t: int|
                0 <= t < n.untried_moves@.len() ==> (#[trigger] n.untried_moves@[t])
                    < n.action@.len(),
            forall|i: int| 0 <= i < n.children@.len() ==> (#[trigger] n.children@[i]) is None,
            forall|i: usize|
                (i as int) < n.children@.len() && n.children@[i as int] is None
                    ==> n.untried_moves@.contains(i),
    {
        let action = board.generate_all_steps();
        let n_act = action.len();
        let mut untried: Vec<usize> = Vec::new();
        let mut t: usize = 0;
        while t < n_act
            invariant
                0 <= t <= n_act,
                untried@.len() == t,
                forall|k: int| 0 <= k < t ==> #[trigger] untried@[k] == k,
            decreases n_act - t,
        {
            untried.push(t);
            t = t + 1;
        }
        let ghost untried0 = untried@;
        shuffle_indices(&mut untried);
        proof {
            assert forall|k: int|
                0 <= k < untried@.len() implies (#[trigger] untried@[k]) < n_act by {
                assert(untried@.contains(untried@[k]));
                assert(untried@.to_multiset().count(untried@[k]) > 0);
                assert(untried0.contains(untried@[k]));
            }
            assert forall|i: usize| (i as int) < n_act implies #[trigger] untried@.contains(i) by {
                assert(untried0[i as int] == i);
                assert(untried0.contains(i));
                assert(untried0.to_multiset().count(i) > 0);
            }
        }
        let mut children: Vec<Option<usize>> = Vec::new();
        let mut c: usize = 0;
        while c < n_act
            invariant
                0 <= c <= n_act,
                children@.len() == c,
                forall|k: int| 0 <= k < c ==> (#[trigger] children@[k]) is None,
            decreases n_act - c,
        {
            children.push(None);
            c = c + 1;
        }
        let ghost posv = board@;
        Node {
            wins: 0,
            visited: 0,
            action,
            mv,
            untried_moves: untried,
            parent,
            children,
            pos: Ghost(posv),
        }
    }

    /// Select a child by the UCT score; callable only when every move
    /// has been expanded. The returned index carries the highest score.
    #[verifier::loop_isolation(false)]
    fn uct_select_child(nodes: &Vec<Node>, cur: usize) -> (r: usize)
        requires
            arena_ok(nodes@),
            cur < nodes@.len(),
            nodes@[cur as int].untried_moves@.len() == 0,
            nodes@[cur as int].children@.len() > 0,
        ensures
            r < nodes@[cur as int].children@.len(),
            nodes@[cur as int].children@[r as int] is Some,
            forall|j: int|
                0 <= j < nodes@[cur as int].children@.len() ==> #[trigger] child_uct(
                    nodes@,
                    cur as int,
                    j,
                ) <= child_uct(nodes@, cur as int, r as int),
    {
        proof {
            assert(node_ok_at(nodes@, cur as int));
        }
        let pv = nodes[cur].visited;
        let len = nodes[cur].children.len();
        let mut best: usize = 0;
        proof {
            if nodes@[cur as int].children@[0] is None {
                assert(nodes@[cur as int].untried_moves@.contains(0usize));
                assert(false);
            }
        }
        let c0 = match nodes[cur].children[0] {
            Some(c) => c,
            None => unreached(),
        };
        let mut best_val = uct_value(pv, nodes[c0].wins, nodes[c0].visited);
        let mut i: usize = 1;
        while i < len
            invariant
                1 <= i <= len,
                best < len,
                nodes@[cur as int].children@[best as int] is Some,
                best_val as int == child_uct(nodes@, cur as int, best as int),
                forall|j: int|
                    0 <= j < i ==> #[trigger] child_uct(nodes@, cur as int, j)
                        <= best_val as int,
            decreases len - i,
        {
            match nodes[cur].children[i] {
                Some(c) => {
                    proof {
                        assert(node_ok_at(nodes@, cur as int));
                    }
                    let val = uct_value(pv, nodes[c].wins, nodes[c].visited);
                    if val > best_val {
                        best_val = val;
                        best = i;
                    }
                },
                None => {
                    proof {
                        assert(node_ok_at(nodes@, cur as int));
                        assert(nodes@[cur as int].untried_moves@.contains(i));
                        assert(false);
                    }
                },
            }
            i = i + 1;
        }
        best
    }

    /// Selection and expansion: walk down by UCT while every move is
    /// expanded, then expand one untried move if the leaf has any. The
    /// board is left at the reached node's position.
    #[verifier::loop_isolation(false)]
    #[verifier::rlimit(60)]
    fn select_and_expand(board: &mut Board, nodes: &mut Vec<Node>) -> (r: (usize, usize))
        requires
            old(board).inv(),
            arena_ok(old(nodes)@),
            old(nodes)@.len() >= 1,
            old(nodes)@.len() <= 200000,
            old(board)@ == old(nodes)@[0].pos@,
        ensures
            final(board).inv(),
            arena_ok(final(nodes)@),
            old(nodes)@.len() <= final(nodes)@.len() <= old(nodes)@.len() + 1,
            final(nodes)@[0].pos@ == old(nodes)@[0].pos@,
            final(nodes)@[0].action@ == old(nodes)@[0].action@,
            final(nodes)@[0].children@.len() == old(nodes)@[0].children@.len(),
            r.0 < final(nodes)@.len(),
            r.1 <= r.0,
            final(board)@ == final(nodes)@[r.0 as int].pos@,
    {
        let mut cur: usize = 0;
        let mut steps: usize = 0;
        // selection
        while nodes[cur].untried_moves.len() == 0 && nodes[cur].children.len() > 0
            invariant
                board.inv(),
                arena_ok(nodes@),
                cur < nodes@.len(),
                steps <= cur,
                board@ == nodes@[cur as int].pos@,
            decreases nodes@.len() - cur,
        {
            let idx = Self::uct_select_child(nodes, cur);
            proof {
                assert(node_ok_at(nodes@, cur as int));
            }
            let mv = nodes[cur].action[idx];
            proof {
                assert(nodes@[cur as int].action@.contains(
                    nodes@[cur as int].action@[idx as int],
                ));
            }
            match board.move_chess(mv) {
                Ok(()) => {},
                Err(_) => {
                    proof {
                        assert(false);
                    }
                },
            }
            let c = match nodes[cur].children[idx] {
                Some(c) => c,
                None => unreached(),
            };
            cur = c;
            steps = steps + 1;
        }
        // expansion
        if nodes[cur].untried_moves.len() > 0 {
            proof {
                assert(node_ok_at(nodes@, cur as int));
            }
            let ulen = nodes[cur].untried_moves.len();
            let t = nodes[cur].untried_moves[ulen - 1];
            let ghost vcur = board@;
            let mv = nodes[cur].action[t];
            proof {
                assert(nodes@[cur as int].action@.contains(nodes@[cur as int].action@[t as int]));
            }
            match board.move_chess(mv) {
                Ok(()) => {},
                Err(_) => {
                    proof {
                        assert(false);
                    }
                },
            }
            proof {
                board.lemma_inv_wf();
                lemma_move_undo_restores(vcur, mv);
            }
            let child = Self::make_node(board, Some(cur), mv);
            let child_idx = nodes.len();
            let ghost nodes1 = nodes@;
            nodes.push(child);
            proof {
                assert forall|x: int| 0 <= x < nodes@.len() implies node_ok_at(nodes@, x) by {
                    if x < nodes1.len() {
                        assert(node_ok_at(nodes1, x));
                    }
                }
            }
            let ghost nodes2 = nodes@;
            {
                let nref = &mut nodes[cur];
                match nref.untried_moves.pop() {
                    Some(_t2) => {},
                    None => {
                        proof {
                            assert(false);
                        }
                    },
                }
                nref.children.set(t, Some(child_idx));
            }
            proof {
                assert(nodes@ =~= nodes2.update(
                    cur as int,
                    Node {
                        untried_moves: nodes@[cur as int].untried_moves,
                        children: nodes@[cur as int].children,
                        ..nodes2[cur as int]
                    },
                ));
                assert(nodes@[cur as int].children@ =~= nodes2[cur as int].children@.update(
                    t as int,
                    Some(child_idx),
                ));
                assert(nodes@[cur as int].untried_moves@ =~= nodes2[cur as int].untried_moves@
                    .drop_last());
                assert forall|x: int| 0 <= x < nodes@.len() implies node_ok_at(nodes@, x) by {
                    assert(node_ok_at(nodes2, x));
                    if x == cur as int {
                        // the popped move index now has a child; any other
                        // still-empty slot keeps its place in the list
                        assert forall|i: usize|
                            (i as int) < nodes@[x].children@.len() && nodes@[x].children@[i as int]
                                is None implies nodes@[x].untried_moves@.contains(i) by {
                            assert(nodes@[x].children@[t as int] == Some(child_idx));
                            assert(i != t);
                            assert(nodes2[x].children@[i as int] is None);
                            assert(nodes2[x].untried_moves@.contains(i));
                            let k = choose|k: int|
                                0 <= k < nodes2[x].untried_moves@.len() && (
                                #[trigger] nodes2[x].untried_moves@[k]) == i;
                            if k < nodes2[x].untried_moves@.len() - 1 {
                                assert(nodes@[x].untried_moves@[k] == i);
                            } else {
                                assert(nodes2[x] == nodes1[cur as int]);
                                assert(nodes1[cur as int].untried_moves@[ulen - 1] == t);
                                assert(k == ulen - 1);
                                assert(false);
                            }
                        }
                    }
                }
            }
            cur = child_idx;
            steps = steps + 1;
        }
        (cur, steps)
    }

    /// Random rollout to a decided position (or the step cap), then
    /// undo every rollout move: the board comes back where it started.
    /// Returns the number of rollout steps and the winner seen at the
    /// end, if any.
    #[verifier::loop_isolation(false)]
    fn rollout_and_undo(board: &mut Board) -> (r: (usize, Option<RoleType>))
        requires
            old(board).inv(),
        ensures
            final(board).inv(),
            final(board)@ == old(board)@,
            r.0 <= ROLLOUT_CAP,
    {
        let ghost vexp = board@;
        let mut rollout_step: usize = 0;
        let ghost mut rtrail: Seq<BoardView> = seq![board@];
        while rollout_step < ROLLOUT_CAP
            invariant
                board.inv(),
                rollout_step <= ROLLOUT_CAP,
                rtrail.len() == rollout_step + 1,
                rtrail[0] == vexp,
                rtrail.last() == board@,
                forall|k: int|
                    0 <= k < rollout_step ==> view_undo(#[trigger] rtrail[k + 1]) == rtrail[k],
            decreases ROLLOUT_CAP - rollout_step,
        {
            let steps_v = board.generate_all_steps();
            if steps_v.len() == 0 {
                break ;
            }
            let mv = match choose_move(&steps_v) {
                Some(mv) => mv,
                None => unreached(),
            };
            proof {
                assert(steps_v@.contains(mv));
                board.lemma_inv_wf();
            }
            let ghost vpre = board@;
            match board.move_chess(mv) {
                Ok(()) => {},
                Err(_) => {
                    proof {
                        assert(false);
                    }
                },
            }
            proof {
                lemma_move_undo_restores(vpre, mv);
                rtrail = rtrail.push(board@);
            }
            rollout_step = rollout_step + 1;
        }
        let win_role = board.check_win();
        let mut k: usize = 0;
        while k < rollout_step
            invariant
                board.inv(),
                k <= rollout_step,
                rtrail.len() == rollout_step + 1,
                rtrail[0] == vexp,
                board@ == rtrail[rollout_step - k],
                forall|t: int|
                    0 <= t < rollout_step ==> view_undo(#[trigger] rtrail[t + 1]) == rtrail[t],
            decreases rollout_step - k,
        {
            proof {
                assert(view_undo(rtrail[(rollout_step - k - 1) + 1]) == rtrail[rollout_step - k
                    - 1]);
            }
            board.undo_move();
            k = k + 1;
        }
        (rollout_step, win_role)
    }

    /// Walk from the reached node back to the root, undoing the applied
    /// moves and crediting each node on the path: a node is rewarded
    /// when the side to move there is not the winner.
    #[verifier::loop_isolation(false)]
    fn backpropagate(
        board: &mut Board,
        nodes: &mut Vec<Node>,
        cur: usize,
        win_role: Option<RoleType>,
        reward_if_loss: u64,
    )
        requires
            old(board).inv(),
            arena_ok(old(nodes)@),
            cur < old(nodes)@.len(),
            old(board)@ == old(nodes)@[cur as int].pos@,
        ensures
            final(board).inv(),
            arena_ok(final(nodes)@),
            final(nodes)@.len() == old(nodes)@.len(),
            final(board)@ == final(nodes)@[0].pos@,
            final(nodes)@[0].pos@ == old(nodes)@[0].pos@,
            final(nodes)@[0].action@ == old(nodes)@[0].action@,
            final(nodes)@[0].children@.len() == old(nodes)@[0].children@.len(),
    {
        let mut node_opt: Option<usize> = Some(cur);
        while node_opt.is_some()
            invariant
                board.inv(),
                arena_ok(nodes@),
                nodes@.len() == old(nodes)@.len(),
                nodes@[0].pos@ == old(nodes)@[0].pos@,
                nodes@[0].action@ == old(nodes)@[0].action@,
                nodes@[0].children@.len() == old(nodes)@[0].children@.len(),
                match node_opt {
                    Some(x) => (x as int) < nodes@.len() && board@ == nodes@[x as int].pos@,
                    None => board@ == nodes@[0].pos@,
                },
            decreases (match node_opt {
                Some(x) => x as int + 1,
                None => 0int,
            }),
        {
            let x = match node_opt {
                Some(x) => x,
                None => unreached(),
            };
            let side = board.side();
            let lost = match win_role {
                Some(w) => w != side,
                None => true,
            };
            let reward = if lost {
                reward_if_loss
            } else {
                0
            };
            let ghost nodesb = nodes@;
            {
                let nref = &mut nodes[x];
                if nref.visited < u64::MAX {
                    nref.visited = nref.visited + 1;
                }
                if nref.wins <= u64::MAX - reward {
                    nref.wins = nref.wins + reward;
                }
            }
            proof {
                assert(nodes@ =~= nodesb.update(
                    x as int,
                    Node {
                        wins: nodes@[x as int].wins,
                        visited: nodes@[x as int].visited,
                        ..nodesb[x as int]
                    },
                ));
                assert forall|y: int| 0 <= y < nodes@.len() implies node_ok_at(nodes@, y) by {
                    assert(node_ok_at(nodesb, y));
                }
                assert(node_ok_at(nodes@, x as int));
            }
            let parent = nodes[x].parent;
            match parent {
                Some(_p) => {
                    board.undo_move();
                },
                None => {
                    proof {
                        assert(x == 0);
                    }
                },
            }
            node_opt = parent;
        }
    }

    /// One search iteration: selection, expansion, rollout, undo to the
    /// root, backpropagation.
    fn run_iteration(&mut self, board: &mut Board, nodes: &mut Vec<Node>)
        requires
            old(board).inv(),
            arena_ok(old(nodes)@),
            old(nodes)@.len() >= 1,
            old(nodes)@.len() <= 200000,
            old(board)@ == old(nodes)@[0].pos@,
        ensures
            final(board).inv(),
            final(board)@ == old(board)@,
            old(nodes)@.len() <= final(nodes)@.len() <= old(nodes)@.len() + 1,
            arena_ok(final(nodes)@),
            final(nodes)@[0].pos@ == old(nodes)@[0].pos@,
            final(nodes)@[0].action@ == old(nodes)@[0].action@,
            final(nodes)@[0].children@.len() == old(nodes)@[0].children@.len(),
    {
        let (cur, steps) = Self::select_and_expand(board, nodes);
        let (rollout_step, win_role) = Self::rollout_and_undo(board);
        let denom_raw = if steps <= usize::MAX - rollout_step {
            steps + rollout_step
        } else {
            usize::MAX
        };
        let denom: u64 = if denom_raw == 0 {
            1
        } else {
            denom_raw as u64
        };
        let reward_if_loss = UCT_SCALE / denom;
        Self::backpropagate(board, nodes, cur, win_role, reward_if_loss);
    }
}

impl Player for MCTSPlayer {
    fn get_move(&mut self, board: &mut Board) -> (mv: MOVE) {
        self.mcts_run(board, 500)
    }
}

} // verus!
