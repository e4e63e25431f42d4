use crate::board::{
    empty_count, empties_before, empty_positions, is_full, is_terminal, lemma_board_len,
    lemma_successor, score, successors, turn_of, Board, Square, Turn,
};
use rand::seq::SliceRandom;
use std::collections::HashMap;
use vstd::prelude::*;

verus! {

broadcast use {vstd::std_specs::hash::group_hash_axioms, lemma_board_len};

// ---------------------------------------------------------------------------
// The game value under optimal play.
/// The side that moves at a node: the perspective when maximising, its opponent otherwise.
pub open spec fn mover(p: Turn, maximizing: bool) -> Turn {
    if maximizing {
        p
    } else {
        p.opponent()
    }
}

/// The larger of `a` and `b` when maximising, the smaller otherwise.
pub open spec fn combine(maximizing: bool, a: int, b: int) -> int {
    if maximizing {
        if a >= b {
            a
        } else {
            b
        }
    } else {
        if a <= b {
            a
        } else {
            b
        }
    }
}

/// The minimax value of `s` from perspective `p`: the score of a finished game, else the
/// best over all successors for the side that moves (the maximum for `p`, the minimum for
/// its opponent).
pub open spec fn minimax(s: Seq<Square>, p: Turn, maximizing: bool) -> int
    decreases empty_count(s), 1int, 0int,
{
    if is_terminal(s) {
        score(s, p)
    } else {
        fold_children(s, p, maximizing, successors(s, mover(p, maximizing)).len() as int)
    }
}

/// The first `i` successors' minimax values combined, starting from the neutral score
/// (-1 for a maximum, +1 for a minimum, as scores lie in -1..=1).
pub open spec fn fold_children(s: Seq<Square>, p: Turn, maximizing: bool, i: int) -> int
    decreases empty_count(s), 0int, i,
    via fold_children_decreases
{
    let cs = successors(s, mover(p, maximizing));
    if i <= 0 || i > cs.len() {
        if maximizing {
            -1
        } else {
            1
        }
    } else {
        combine(
            maximizing,
            fold_children(s, p, maximizing, i - 1),
            minimax(cs[i - 1], p, !maximizing),
        )
    }
}

#[via_fn]
proof fn fold_children_decreases(s: Seq<Square>, p: Turn, maximizing: bool, i: int) {
    let cs = successors(s, mover(p, maximizing));
    if 0 < i <= cs.len() {
        lemma_successor(s, mover(p, maximizing), i - 1);
    }
}

// ---------------------------------------------------------------------------
// The cache key: the board read as a base-3 number, one digit per cell.
pub open spec fn digit(c: Square) -> nat {
    match c {
        Square::Empty => 0,
        Square::X => 1,
        Square::O => 2,
    }
}

/// The first `k` cells as a base-3 number, the first cell most significant.
pub open spec fn code_before(s: Seq<Square>, k: int) -> nat
    decreases k,
{
    if k <= 0 {
        0
    } else {
        3 * code_before(s, k - 1) + digit(s[k - 1])
    }
}

pub open spec fn pow3(k: int) -> nat
    decreases k,
{
    if k <= 0 {
        1
    } else {
        3 * pow3(k - 1)
    }
}

/// The key under which the cache holds the score of `s`.
pub open spec fn memo_key(s: Seq<Square>) -> u32 {
    code_before(s, 9) as u32
}

proof fn lemma_code_bound(s: Seq<Square>, k: int)
    requires
        0 <= k,
    ensures
        code_before(s, k) < pow3(k),
    decreases k,
{
    if k > 0 {
        lemma_code_bound(s, k - 1);
        let a = code_before(s, k - 1);
        let d = digit(s[k - 1]);
        let b = pow3(k - 1);
        assert(3 * a + d < 3 * b) by (nonlinear_arith)
            requires
                a < b,
                d < 3,
        ;
    }
}

proof fn lemma_code_injective(s: Seq<Square>, t: Seq<Square>, k: int)
    requires
        0 <= k,
        code_before(s, k) == code_before(t, k),
    ensures
        forall|i: int| 0 <= i < k ==> s[i] == t[i],
    decreases k,
{
    if k > 0 {
        let a = code_before(s, k - 1);
        let b = code_before(t, k - 1);
        let d = digit(s[k - 1]);
        let e = digit(t[k - 1]);
        assert(a == b && d == e) by (nonlinear_arith)
            requires
                3 * a + d == 3 * b + e,
                d < 3,
                e < 3,
        ;
        lemma_code_injective(s, t, k - 1);
    }
}

/// Distinct boards have distinct keys.
proof fn lemma_key_injective(s: Seq<Square>, t: Seq<Square>)
    requires
        s.len() == 9,
        t.len() == 9,
        memo_key(s) == memo_key(t),
    ensures
        s == t,
{
    lemma_code_bound(s, 9);
    lemma_code_bound(t, 9);
    reveal_with_fuel(pow3, 10);
    lemma_code_injective(s, t, 9);
    assert(s =~= t);
}

/// The cache key of `board`.
fn board_key(board: &Board) -> (r: u32)
    ensures
        r == memo_key(board@),
{
    let mut acc: u32 = 0;
    let mut k: usize = 0;
    proof {
        reveal_with_fuel(pow3, 10);
    }
    while k < 9
        invariant
            k <= 9,
            acc as int == code_before(board@, k as int),
            pow3(9) == 19683,
        decreases 9 - k,
    {
        proof {
            lemma_code_bound(board@, k as int);
            assert(pow3(k as int) <= pow3(9)) by {
                lemma_pow3_monotone(k as int, 9);
            }
        }
        let d: u32 = match board.get_square(k / 3, k % 3) {
            Square::Empty => 0,
            Square::X => 1,
            Square::O => 2,
        };
        proof {
            assert(3 * (k / 3) + k % 3 == k);
        }
        acc = 3 * acc + d;
        k += 1;
    }
    acc
}

proof fn lemma_pow3_monotone(i: int, j: int)
    requires
        0 <= i <= j,
    ensures
        pow3(i) <= pow3(j),
    decreases j - i,
{
    if i < j {
        lemma_pow3_monotone(i, j - 1);
    }
}

// ---------------------------------------------------------------------------
/// How much `p` prefers to move to `c`: 3 for a line completed at once, else 2, 1 or 0
/// as the minimax value of `c` is a win, a draw or a loss.
pub open spec fn preference(c: Seq<Square>, p: Turn) -> int {
    if score(c, p) == 1 {
        3
    } else {
        let v = minimax(c, p, turn_of(c) == p);
        if v == 1 {
            2
        } else if v == 0 {
            1
        } else {
            0
        }
    }
}

/// A minimax player for one side, with a cache of every board it has scored.
pub struct TicTacToeAI {
    turn: Turn,
    state_evals: HashMap<u32, i8>,
}

impl TicTacToeAI {
    /// The side whose scores this engine computes.
    pub closed spec fn perspective(&self) -> Turn {
        self.turn
    }

    /// The cached scores, by board key.
    pub closed spec fn cache(&self) -> Map<u32, i8> {
        self.state_evals@
    }

    /// Every cached score is the minimax value of its board, with the side to move on the
    /// board maximising exactly when it is the engine's side.
    pub closed spec fn wf(&self) -> bool {
        forall|s: Seq<Square>|
            #![trigger memo_key(s)]
            s.len() == 9 && self.state_evals@.contains_key(memo_key(s))
                ==> self.state_evals@[memo_key(s)] as int == minimax(
                s,
                self.turn,
                turn_of(s) == self.turn,
            )
    }

    /// What an evaluation of `s` with `t` to move guarantees: the engine stays well formed
    /// and keeps its side, the result is the minimax value, `s` is cached afterwards, and a
    /// board that was cached before leaves the cache unchanged.
    pub open spec fn evaluates(pre: Self, post: Self, s: Seq<Square>, t: Turn, r: i8) -> bool {
        &&& post.wf()
        &&& post.perspective() == pre.perspective()
        &&& r as int == minimax(s, pre.perspective(), t == pre.perspective())
        &&& post.cache().contains_key(memo_key(s))
        &&& pre.cache().contains_key(memo_key(s)) ==> post.cache() == pre.cache()
    }

    /// An engine playing for `turn`, with an empty cache.
    pub fn from_turn(turn: Turn) -> (r: Self)
        ensures
            r.wf(),
            r.perspective() == turn,
            r.cache() == Map::<u32, i8>::empty(),
    {
        Self { turn: turn, state_evals: HashMap::new() }
    }

    /// The number of cached scores.
    pub fn cache_len(&self) -> (r: usize)
        ensures
            r == self.cache().len(),
    {
        self.state_evals.len()
    }

    /// The minimax value of `board` from this engine's side, with `t`, the side to move on
    /// the board, maximising if it is the engine's side and minimising otherwise.
    pub fn eval(&mut self, board: Board, t: Turn) -> (r: i8)
        requires
            old(self).wf(),
            t == turn_of(board@),
        ensures
            Self::evaluates(*old(self), *final(self), board@, t, r),
    {
        if self.turn == t {
            self.minimax_evaluate(board, true)
        } else {
            self.minimax_evaluate(board, false)
        }
    }

    /// Records `e` as the score of `board`.
    fn remember(&mut self, board: &Board, key: u32, e: i8)
        requires
            old(self).wf(),
            key == memo_key(board@),
            e as int == minimax(board@, old(self).turn, turn_of(board@) == old(self).turn),
        ensures
            final(self).wf(),
            final(self).turn == old(self).turn,
            final(self).state_evals@ == old(self).state_evals@.insert(key, e),
    {
        self.state_evals.insert(key, e);
        proof {
            let p = self.turn;
            assert forall|s: Seq<Square>|
                #![trigger memo_key(s)]
                s.len() == 9 && self.state_evals@.contains_key(memo_key(s))
                    implies self.state_evals@[memo_key(s)] as int == minimax(s, p, turn_of(s) == p)
                by {
                if memo_key(s) == key {
                    lemma_key_injective(s, board@);
                }
            }
        }
    }

    /// The minimax value of `board`, looked up in the cache or searched to the end of the
    /// game over all continuations; every board searched is cached.
    fn minimax_evaluate(&mut self, board: Board, maximizing: bool) -> (r: i8)
        requires
            old(self).wf(),
            maximizing == (turn_of(board@) == old(self).turn),
        ensures
            final(self).wf(),
            final(self).turn == old(self).turn,
            r as int == minimax(board@, old(self).turn, maximizing),
            final(self).state_evals@.contains_key(memo_key(board@)),
            old(self).state_evals@.contains_key(memo_key(board@)) ==> final(self).state_evals@
                == old(self).state_evals@,
        decreases empty_count(board@),
    {
        let key = board_key(&board);
        match self.state_evals.get(&key) {
            Some(v) => {
                return *v;
            },
            None => {},
        }
        if board.accepts() {
            let e = board.evaluate(self.turn);
            self.remember(&board, key, e);
            return e;
        }
        let ghost p = self.turn;
        let side = if maximizing {
            self.turn
        } else {
            self.turn.other()
        };
        let next = board.succ(side);
        let mut acc: i8 = if maximizing {
            -1
        } else {
            1
        };
        let mut i: usize = 0;
        while i < next.len()
            invariant
                self.wf(),
                self.turn == p,
                i <= next.len(),
                side == mover(p, maximizing),
                maximizing == (turn_of(board@) == p),
                !is_terminal(board@),
                next@.map_values(|b: Board| b@) == successors(board@, side),
                acc as int == fold_children(board@, p, maximizing, i as int),
            decreases next.len() - i,
        {
            let child = next[i];
            proof {
                assert(child@ == next@.map_values(|b: Board| b@)[i as int]);
                lemma_successor(board@, side, i as int);
            }
            let e = self.minimax_evaluate(child, !maximizing);
            acc = if maximizing {
                if acc >= e {
                    acc
                } else {
                    e
                }
            } else {
                if acc <= e {
                    acc
                } else {
                    e
                }
            };
            i += 1;
        }
        self.remember(&board, key, acc);
        acc
    }

    /// The move this engine makes on `board`: a successor for the side to move, taken from
    /// the best non-empty group among lines completed at once, forced wins, draws and
    /// losses, uniformly at random within the group.
    pub fn choose_move(&mut self, board: Board) -> (r: Board)
        requires
            old(self).wf(),
            !is_full(board@),
        ensures
            final(self).wf(),
            final(self).perspective() == old(self).perspective(),
            successors(board@, turn_of(board@)).contains(r@),
            forall|i: int|
                0 <= i < successors(board@, turn_of(board@)).len() ==> preference(
                    #[trigger] successors(board@, turn_of(board@))[i],
                    old(self).perspective(),
                ) <= preference(r@, old(self).perspective()),
    {
        let ghost p = self.turn;
        let t = board.turn();
        self.eval(board, t);
        let next = board.succ(t);
        let ghost cs = successors(board@, t);
        proof {
            lemma_not_full_has_successor(board@, t);
        }
        let mut instant_wins: Vec<Board> = Vec::new();
        let mut wins: Vec<Board> = Vec::new();
        let mut draws: Vec<Board> = Vec::new();
        let mut losses: Vec<Board> = Vec::new();
        let mut i: usize = 0;
        while i < next.len()
            invariant
                self.wf(),
                self.turn == p,
                i <= next.len(),
                next.len() > 0,
                next@.map_values(|b: Board| b@) == cs,
                forall|k: int|
                    0 <= k < instant_wins.len() ==> cs.contains(#[trigger] instant_wins@[k]@)
                        && preference(instant_wins@[k]@, p) == 3,
                forall|k: int|
                    0 <= k < wins.len() ==> cs.contains(#[trigger] wins@[k]@) && preference(
                        wins@[k]@,
                        p,
                    ) == 2,
                forall|k: int|
                    0 <= k < draws.len() ==> cs.contains(#[trigger] draws@[k]@) && preference(
                        draws@[k]@,
                        p,
                    ) == 1,
                forall|k: int|
                    0 <= k < losses.len() ==> cs.contains(#[trigger] losses@[k]@) && preference(
                        losses@[k]@,
                        p,
                    ) == 0,
                forall|j: int|
                    0 <= j < i ==> {
                        let q = preference(#[trigger] cs[j], p);
                        &&& q == 3 ==> instant_wins.len() > 0
                        &&& q == 2 ==> wins.len() > 0
                        &&& q == 1 ==> draws.len() > 0
                        &&& q == 0 ==> losses.len() > 0
                    },
            decreases next.len() - i,
        {
            let n = next[i];
            proof {
                assert(n@ == next@.map_values(|b: Board| b@)[i as int]);
                assert(cs[i as int] == n@);
            }
            if n.evaluate(self.turn) == 1 {
                instant_wins.push(n);
            } else {
                // The successor's score: a cache hit after the evaluation of `board`
                // above, and searched here should it be missing.
                let nt = n.turn();
                let e = self.eval(n, nt);
                if e == 1 {
                    wins.push(n);
                } else if e == 0 {
                    draws.push(n);
                } else {
                    losses.push(n);
                }
            }
            i += 1;
        }
        proof {
            assert(preference(cs[0], p) >= 0);
        }
        if instant_wins.len() > 0 {
            pick(&instant_wins)
        } else if wins.len() > 0 {
            pick(&wins)
        } else if draws.len() > 0 {
            pick(&draws)
        } else {
            pick(&losses)
        }
    }
}

impl Default for TicTacToeAI {
    /// An engine playing for X, with an empty cache.
    fn default() -> (r: Self)
        ensures
            r.wf(),
            r.perspective() == Turn::X,
            r.cache() == Map::<u32, i8>::empty(),
    {
        Self { turn: Turn::X, state_evals: HashMap::new() }
    }
}

/// Relies on rand's `SliceRandom::choose` with the thread-local generator: on a non-empty
/// slice it returns one of the slice's elements.
#[verifier::external_body]
fn pick(candidates: &Vec<Board>) -> (r: Board)
    requires
        candidates.len() > 0,
    ensures
        candidates@.contains(r),
{
    *candidates.choose(&mut rand::thread_rng()).unwrap()
}

proof fn lemma_empty_before(s: Seq<Square>, j: int, k: int)
    requires
        0 <= j < k,
        s[j] == Square::Empty,
    ensures
        empties_before(s, k) > 0,
    decreases k,
{
    if j < k - 1 {
        lemma_empty_before(s, j, k - 1);
    }
}

/// A board with an empty cell has a successor.
proof fn lemma_not_full_has_successor(s: Seq<Square>, t: Turn)
    requires
        s.len() == 9,
        !is_full(s),
    ensures
        successors(s, t).len() > 0,
{
    let j = choose|j: int| 0 <= j < 9 && s[j] == Square::Empty;
    lemma_empty_before(s, j, 9);
    crate::board::lemma_successors_shape(s, t);
}

/// Evaluating a board a second time on the same engine gives the score of the first
/// evaluation and leaves the cache, and so its size, as it was.
pub proof fn lemma_repeat_evaluation(
    e0: TicTacToeAI,
    e1: TicTacToeAI,
    e2: TicTacToeAI,
    s: Seq<Square>,
    t: Turn,
    r1: i8,
    r2: i8,
)
    requires
        TicTacToeAI::evaluates(e0, e1, s, t, r1),
        TicTacToeAI::evaluates(e1, e2, s, t, r2),
    ensures
        r1 == r2,
        e2.cache() == e1.cache(),
        e2.cache().len() == e1.cache().len(),
{
}

} // verus!
