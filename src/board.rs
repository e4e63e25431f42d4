use vstd::prelude::*;

verus! {

broadcast use vstd::array::group_array_axioms;

/// The content of one cell.
#[derive(Clone, Copy, Debug, PartialEq, Eq, Hash, Structural)]
pub enum Square {
    X,
    O,
    Empty,
}

/// A player.
#[derive(Clone, Copy, Debug, PartialEq, Eq, Hash, Structural)]
pub enum Turn {
    X,
    O,
}

impl Turn {
    pub open spec fn opponent(self) -> Turn {
        match self {
            Turn::X => Turn::O,
            Turn::O => Turn::X,
        }
    }

    pub open spec fn mark(self) -> Square {
        match self {
            Turn::X => Square::X,
            Turn::O => Square::O,
        }
    }

    pub fn other(&self) -> (r: Turn)
        ensures
            r == self.opponent(),
    {
        match self {
            Turn::X => Turn::O,
            Turn::O => Turn::X,
        }
    }

    pub fn to_square(&self) -> (r: Square)
        ensures
            r == self.mark(),
    {
        match self {
            Turn::X => Square::X,
            Turn::O => Square::O,
        }
    }
}

// ---------------------------------------------------------------------------
// The mathematical model: a board is a sequence of nine cells in row-major
// order, cell `3 * row + col`.
/// Cells `a`, `b` and `c` all hold `m`.
pub open spec fn three(s: Seq<Square>, a: int, b: int, c: int, m: Square) -> bool {
    s[a] == m && s[b] == m && s[c] == m
}

pub open spec fn row_line(s: Seq<Square>, m: Square) -> bool {
    three(s, 0, 1, 2, m) || three(s, 3, 4, 5, m) || three(s, 6, 7, 8, m)
}

pub open spec fn col_line(s: Seq<Square>, m: Square) -> bool {
    three(s, 0, 3, 6, m) || three(s, 1, 4, 7, m) || three(s, 2, 5, 8, m)
}

pub open spec fn diag_line(s: Seq<Square>, m: Square) -> bool {
    three(s, 0, 4, 8, m) || three(s, 6, 4, 2, m)
}

/// Some row, column or diagonal is filled with `m`.
pub open spec fn has_line(s: Seq<Square>, m: Square) -> bool {
    row_line(s, m) || col_line(s, m) || diag_line(s, m)
}

/// +1 if `t` has a line, else -1 if its opponent has one, else 0.
pub open spec fn score(s: Seq<Square>, t: Turn) -> int {
    if has_line(s, t.mark()) {
        1
    } else if has_line(s, t.opponent().mark()) {
        -1
    } else {
        0
    }
}

/// No cell is empty.
pub open spec fn is_full(s: Seq<Square>) -> bool {
    forall|i: int| 0 <= i < 9 ==> s[i] != Square::Empty
}

/// The game is over: a line is complete or the board is full.
pub open spec fn is_terminal(s: Seq<Square>) -> bool {
    has_line(s, Square::X) || has_line(s, Square::O) || is_full(s)
}

/// Number of empty cells among the first `k`.
pub open spec fn empties_before(s: Seq<Square>, k: int) -> nat
    decreases k,
{
    if k <= 0 {
        0
    } else {
        empties_before(s, k - 1) + if s[k - 1] == Square::Empty {
            1nat
        } else {
            0nat
        }
    }
}

/// Number of empty cells.
pub open spec fn empty_count(s: Seq<Square>) -> nat {
    empties_before(s, s.len() as int)
}

/// The side to move: X after an even number of placed marks, O after an odd one.
pub open spec fn turn_of(s: Seq<Square>) -> Turn {
    if (s.len() - empty_count(s)) % 2 == 0 {
        Turn::X
    } else {
        Turn::O
    }
}

/// Indices of the empty cells among the first `k`, in increasing order.
pub open spec fn empty_positions(s: Seq<Square>, k: int) -> Seq<int>
    decreases k,
{
    if k <= 0 {
        Seq::empty()
    } else if s[k - 1] == Square::Empty {
        empty_positions(s, k - 1).push(k - 1)
    } else {
        empty_positions(s, k - 1)
    }
}

/// The boards reached by `t` marking each empty cell among the first `k`, in row-major order.
pub open spec fn successors_before(s: Seq<Square>, t: Turn, k: int) -> Seq<Seq<Square>> {
    empty_positions(s, k).map_values(|j: int| s.update(j, t.mark()))
}

/// The boards reached by `t` marking one empty cell, in row-major order.
pub open spec fn successors(s: Seq<Square>, t: Turn) -> Seq<Seq<Square>> {
    successors_before(s, t, s.len() as int)
}

/// The cells of a 3x3 grid in row-major order.
pub open spec fn flatten(state: [[Square; 3]; 3]) -> Seq<Square> {
    Seq::new(9, |i: int| state[i / 3][i % 3])
}

/// The grid position (1 to 9) `key` names cell `key - 1`.
pub open spec fn key_in_range(key: i8) -> bool {
    1 <= key <= 9
}

// ---------------------------------------------------------------------------
// Lemmas on the model.
proof fn lemma_empty_positions(s: Seq<Square>, k: int)
    requires
        0 <= k <= s.len(),
    ensures
        empty_positions(s, k).len() == empties_before(s, k),
        forall|i: int|
            0 <= i < empty_positions(s, k).len() ==> 0 <= #[trigger] empty_positions(s, k)[i] < k
                && s[empty_positions(s, k)[i]] == Square::Empty,
        forall|i: int, j: int|
            0 <= i < j < empty_positions(s, k).len() ==> empty_positions(s, k)[i]
                < empty_positions(s, k)[j],
    decreases k,
{
    if k > 0 {
        lemma_empty_positions(s, k - 1);
    }
}

proof fn lemma_update_empties(s: Seq<Square>, j: int, m: Square, k: int)
    requires
        0 <= j < s.len(),
        0 <= k <= s.len(),
        s[j] == Square::Empty,
        m != Square::Empty,
    ensures
        empties_before(s.update(j, m), k) + (if j < k {
            1nat
        } else {
            0nat
        }) == empties_before(s, k),
    decreases k,
{
    if k > 0 {
        lemma_update_empties(s, j, m, k - 1);
    }
}

/// Marking an empty cell leaves one empty cell fewer and passes the move to the other side.
pub proof fn lemma_mark_cell(s: Seq<Square>, j: int, t: Turn)
    requires
        0 <= j < s.len(),
        s[j] == Square::Empty,
    ensures
        empty_count(s.update(j, t.mark())) + 1 == empty_count(s),
        turn_of(s.update(j, t.mark())) == turn_of(s).opponent(),
{
    lemma_update_empties(s, j, t.mark(), s.len() as int);
}

/// Every successor is the board with one empty cell marked: it has one empty cell fewer,
/// and the other side is to move on it.
pub proof fn lemma_successor(s: Seq<Square>, t: Turn, i: int)
    requires
        0 <= i < successors(s, t).len(),
    ensures
        0 <= empty_positions(s, s.len() as int)[i] < s.len(),
        s[empty_positions(s, s.len() as int)[i]] == Square::Empty,
        successors(s, t)[i] == s.update(empty_positions(s, s.len() as int)[i], t.mark()),
        empty_count(successors(s, t)[i]) + 1 == empty_count(s),
        turn_of(successors(s, t)[i]) == turn_of(s).opponent(),
{
    lemma_empty_positions(s, s.len() as int);
    lemma_mark_cell(s, empty_positions(s, s.len() as int)[i], t);
}

/// Scores are antisymmetric: a non-zero score for one side is the negated score of the
/// other, on every board where the two sides do not both hold a complete line. A board with
/// a line of each is unreachable in play; there the own line takes precedence for both.
pub proof fn lemma_score_antisymmetric(s: Seq<Square>, t: Turn)
    requires
        !(has_line(s, Square::X) && has_line(s, Square::O)),
    ensures
        score(s, t) != 0 ==> score(s, t) == -score(s, t.opponent()),
        !(score(s, t) == 1 && score(s, t.opponent()) == 1),
{
}

/// For every board and side, the successors are as many as the empty cells, pairwise
/// distinct, and each differs from the board in exactly one cell, which was empty and now
/// holds the side's mark.
pub proof fn lemma_successors_shape(s: Seq<Square>, t: Turn)
    requires
        s.len() == 9,
    ensures
        successors(s, t).len() == empty_count(s),
        forall|i: int, j: int|
            0 <= i < j < successors(s, t).len() ==> successors(s, t)[i] != successors(s, t)[j],
        forall|i: int|
            0 <= i < successors(s, t).len() ==> exists|c: int|
                0 <= c < 9 && s[c] == Square::Empty && (#[trigger] successors(s, t)[i]).len() == 9
                    && successors(s, t)[i][c] == t.mark() && forall|d: int|
                    0 <= d < 9 && d != c ==> successors(s, t)[i][d] == s[d],
{
    let n = s.len() as int;
    lemma_empty_positions(s, n);
    let ps = empty_positions(s, n);
    assert forall|i: int, j: int|
        0 <= i < j < successors(s, t).len() implies successors(s, t)[i]
        != successors(s, t)[j] by {
        assert(successors(s, t)[i][ps[i]] == t.mark());
        assert(successors(s, t)[j][ps[i]] == Square::Empty);
    }
    assert forall|i: int| 0 <= i < successors(s, t).len() implies exists|c: int|
        0 <= c < 9 && s[c] == Square::Empty && (#[trigger] successors(s, t)[i]).len() == 9
            && successors(s, t)[i][c] == t.mark() && forall|d: int|
            0 <= d < 9 && d != c ==> successors(s, t)[i][d] == s[d] by {
        let c = ps[i];
        assert(0 <= c < 9 && s[c] == Square::Empty);
        assert(successors(s, t)[i] == s.update(c, t.mark()));
    }
}

// ---------------------------------------------------------------------------
/// A 3x3 tic-tac-toe grid. The side to move is derived from the number of marks.
#[derive(Clone, Copy, Debug, PartialEq, Eq, Hash)]
pub struct Board {
    cells: [Square; 9],
}

/// A board always has nine cells.
pub broadcast proof fn lemma_board_len(b: Board)
    ensures
        #[trigger] b@.len() == 9,
{
}

impl View for Board {
    type V = Seq<Square>;

    closed spec fn view(&self) -> Seq<Square> {
        self.cells@
    }
}

impl Board {
    /// The board with every cell empty.
    pub fn new() -> (r: Board)
        ensures
            r@.len() == 9,
            forall|i: int| 0 <= i < 9 ==> r@[i] == Square::Empty,
    {
        Board { cells: [Square::Empty; 9] }
    }

    /// The board holding `state`, given as rows of columns.
    pub fn from_state(state: [[Square; 3]; 3]) -> (r: Board)
        ensures
            r@ == flatten(state),
    {
        let r = Board {
            cells: [
                state[0][0],
                state[0][1],
                state[0][2],
                state[1][0],
                state[1][1],
                state[1][2],
                state[2][0],
                state[2][1],
                state[2][2],
            ],
        };
        assert(r@ =~= flatten(state));
        r
    }

    /// Row and column of grid position `key`, 1 to 9 in row-major order.
    fn key_to_coords(key: i8) -> (r: (usize, usize))
        requires
            key_in_range(key),
        ensures
            r.0 < 3 && r.1 < 3,
            3 * r.0 + r.1 == key - 1,
    {
        match key {
            1 => (0, 0),
            2 => (0, 1),
            3 => (0, 2),
            4 => (1, 0),
            5 => (1, 1),
            6 => (1, 2),
            7 => (2, 0),
            8 => (2, 1),
            _ => (2, 2),
        }
    }

    /// The cell at row `i`, column `j`.
    pub fn get_square(&self, i: usize, j: usize) -> (r: Square)
        requires
            i < 3,
            j < 3,
        ensures
            r == self@[3 * i + j],
    {
        self.cells[3 * i + j]
    }

    /// A copy of `board` with the cell at row `i`, column `j` set to `square`.
    fn with_set_square(board: &Board, i: usize, j: usize, square: Square) -> (r: Board)
        requires
            i < 3,
            j < 3,
        ensures
            r@ == board@.update(3 * i + j, square),
    {
        let mut b = *board;
        b.cells[3 * i + j] = square;
        b
    }

    /// `board` with `turn`'s mark at grid position `key` (1 to 9, row-major), or `None` if
    /// the position is out of range or already taken.
    pub fn try_move(board: &Board, key: i8, turn: Turn) -> (r: Option<Board>)
        ensures
            match r {
                Some(b) => key_in_range(key) && board@[key - 1] == Square::Empty && b@
                    == board@.update(key - 1, turn.mark()),
                None => !(key_in_range(key) && board@[key - 1] == Square::Empty),
            },
    {
        if 1 <= key && key <= 9 {
            let (i, j) = Board::key_to_coords(key);
            if board.get_square(i, j) != Square::Empty {
                None
            } else {
                Some(Board::with_set_square(board, i, j, turn.to_square()))
            }
        } else {
            None
        }
    }

    /// The side to move: X when the number of marks is even, O when it is odd.
    pub fn turn(&self) -> (r: Turn)
        ensures
            r == turn_of(self@),
    {
        let mut count: usize = 0;
        let mut k: usize = 0;
        while k < 9
            invariant
                k <= 9,
                self@.len() == 9,
                count + empties_before(self@, k as int) == k,
            decreases 9 - k,
        {
            match self.cells[k] {
                Square::Empty => (),
                _ => count += 1,
            }
            k += 1;
        }
        if count % 2 == 0 {
            Turn::X
        } else {
            Turn::O
        }
    }

    /// The boards reached by `turn` marking one empty cell, in row-major order.
    pub fn succ(&self, turn: Turn) -> (r: Vec<Board>)
        ensures
            r@.map_values(|b: Board| b@) == successors(self@, turn),
    {
        let mark = turn.to_square();
        let mut moves: Vec<Board> = Vec::new();
        let mut k: usize = 0;
        while k < 9
            invariant
                k <= 9,
                self@.len() == 9,
                mark == turn.mark(),
                moves@.map_values(|b: Board| b@) == successors_before(self@, turn, k as int),
            decreases 9 - k,
        {
            if self.cells[k] == Square::Empty {
                assert(3 * (k / 3) + k % 3 == k);
                let child = Self::with_set_square(self, k / 3, k % 3, mark);
                let ghost before = moves@;
                moves.push(child);
                assert(moves@.map_values(|b: Board| b@) =~= before.map_values(|b: Board| b@).push(
                    child@,
                ));
                assert(moves@.map_values(|b: Board| b@) =~= successors_before(
                    self@,
                    turn,
                    k + 1,
                ));
            } else {
                assert(moves@.map_values(|b: Board| b@) =~= successors_before(
                    self@,
                    turn,
                    k + 1,
                ));
            }
            k += 1;
        }
        moves
    }

    /// The game is over: some line is complete, or no cell is empty.
    pub fn accepts(&self) -> (r: bool)
        ensures
            r == is_terminal(self@),
    {
        if self.evaluate(Turn::X) != 0 {
            true
        } else {
            let mut k: usize = 0;
            while k < 9
                invariant
                    k <= 9,
                    self@.len() == 9,
                    score(self@, Turn::X) == 0,
                    forall|i: int| 0 <= i < k ==> self@[i] != Square::Empty,
                decreases 9 - k,
            {
                if self.cells[k] == Square::Empty {
                    assert(!is_full(self@));
                    return false;
                }
                k += 1;
            }
            true
        }
    }

    /// +1 if `turn` has a complete line, else -1 if the other side has one, else 0.
    pub fn evaluate(&self, turn: Turn) -> (r: i8)
        ensures
            r == score(self@, turn),
    {
        let mine = turn.to_square();
        let theirs = turn.other().to_square();
        if self.row_same(mine) || self.col_same(mine) || self.diag_same(mine) {
            1
        } else if self.row_same(theirs) || self.col_same(theirs) || self.diag_same(theirs) {
            -1
        } else {
            0
        }
    }

    /// A description of the result of the game.
    pub fn outcome(&self) -> (r: String)
        ensures
            is_terminal(self@) && has_line(self@, Square::X) ==> r@ == "Player 1 (X) wins!"@,
            is_terminal(self@) && !has_line(self@, Square::X) && has_line(self@, Square::O)
                ==> r@ == "Player 2 (O) wins!"@,
            is_terminal(self@) && !has_line(self@, Square::X) && !has_line(self@, Square::O)
                ==> r@ == "The game is drawn."@,
            !is_terminal(self@) ==> r@ == "The game is not yet decided."@,
    {
        if self.accepts() {
            if self.evaluate(Turn::X) == 1 {
                "Player 1 (X) wins!".to_owned()
            } else if self.evaluate(Turn::O) == 1 {
                "Player 2 (O) wins!".to_owned()
            } else {
                "The game is drawn.".to_owned()
            }
        } else {
            "The game is not yet decided.".to_owned()
        }
    }

    fn row_same(&self, square: Square) -> (r: bool)
        ensures
            r == row_line(self@, square),
    {
        let mut i: usize = 0;
        while i < 3
            invariant
                i <= 3,
                self@.len() == 9,
                i > 0 ==> !three(self@, 0, 1, 2, square),
                i > 1 ==> !three(self@, 3, 4, 5, square),
                i > 2 ==> !three(self@, 6, 7, 8, square),
            decreases 3 - i,
        {
            if Self::three_same(self.cells[3 * i], self.cells[3 * i + 1], self.cells[3 * i + 2], square) {
                return true;
            }
            i += 1;
        }
        assert(!three(self@, 0, 1, 2, square));
        assert(!three(self@, 3, 4, 5, square));
        assert(!three(self@, 6, 7, 8, square));
        false
    }

    fn col_same(&self, square: Square) -> (r: bool)
        ensures
            r == col_line(self@, square),
    {
        let mut i: usize = 0;
        while i < 3
            invariant
                i <= 3,
                self@.len() == 9,
                i > 0 ==> !three(self@, 0, 3, 6, square),
                i > 1 ==> !three(self@, 1, 4, 7, square),
                i > 2 ==> !three(self@, 2, 5, 8, square),
            decreases 3 - i,
        {
            if Self::three_same(self.cells[i], self.cells[i + 3], self.cells[i + 6], square) {
                return true;
            }
            i += 1;
        }
        assert(!three(self@, 0, 3, 6, square));
        assert(!three(self@, 1, 4, 7, square));
        assert(!three(self@, 2, 5, 8, square));
        false
    }

    fn diag_same(&self, square: Square) -> (r: bool)
        ensures
            r == diag_line(self@, square),
    {
        Self::three_same(self.cells[0], self.cells[4], self.cells[8], square)
            || Self::three_same(self.cells[6], self.cells[4], self.cells[2], square)
    }

    fn three_same(s1: Square, s2: Square, s3: Square, square: Square) -> (r: bool)
        ensures
            r == (s1 == square && s2 == square && s3 == square),
    {
        s1 == s2 && s2 == s3 && s3 == square
    }
}

/// What a number entered by a player means on a board.
#[derive(Clone, Copy, Debug, PartialEq, Eq)]
pub enum Command {
    /// 0: leave the game.
    Quit,
    /// A number outside 0 to 9.
    OutOfRange,
    /// A grid position whose cell is taken.
    Occupied,
    /// A grid position whose cell was empty, and the board with the mark placed there.
    Moved(Board),
}

/// The meaning of `key` entered by `turn` on `board`: 0 quits, 1 to 9 places a mark on an
/// empty cell (or names a taken one), anything else is out of range.
pub fn interpret_key(board: &Board, key: i8, turn: Turn) -> (r: Command)
    ensures
        key == 0 ==> r == Command::Quit,
        key != 0 && !key_in_range(key) ==> r == Command::OutOfRange,
        key_in_range(key) && board@[key - 1] != Square::Empty ==> r == Command::Occupied,
        key_in_range(key) && board@[key - 1] == Square::Empty ==> (match r {
            Command::Moved(b) => b@ == board@.update(key - 1, turn.mark()),
            _ => false,
        }),
{
    if key == 0 {
        Command::Quit
    } else if 1 <= key && key <= 9 {
        match Board::try_move(board, key, turn) {
            Some(b) => Command::Moved(b),
            None => Command::Occupied,
        }
    } else {
        Command::OutOfRange
    }
}


} // verus!
