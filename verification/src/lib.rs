//! A tic-tac-toe rules engine and opponent AI for a 3x3 board.
//!
//! The board is a flat, row-major vector of cells. The engine detects a
//! completed line across rows, columns and diagonals, and picks an optimal
//! move for the computer by an exhaustive minimax search. Every operation is
//! specified against a mathematical view of the board (a sequence of cells)
//! and verified.

use vstd::prelude::*;
use vstd::pervasive::VecAdditionalExecFns;

verus! {

/// One grid position's state.
#[derive(Clone, Copy, PartialEq, Eq, Structural, Debug)]
pub enum Cell {
    Empty,
    X,
    O,
}

/// The board every game starts from: nine empty cells.
pub open spec fn blank_board() -> Seq<Cell> {
    Seq::new(9, |i: int| Cell::Empty)
}

/// How many cells of `b` carry a mark (are not `Empty`).
pub open spec fn count_marks(b: Seq<Cell>) -> nat
    decreases b.len(),
{
    if b.len() == 0 {
        0
    } else {
        count_marks(b.drop_last()) + (if b.last() == Cell::Empty { 0nat } else { 1nat })
    }
}

/// How many cells of `b` are still `Empty`.
pub open spec fn count_empty(b: Seq<Cell>) -> nat
    decreases b.len(),
{
    if b.len() == 0 {
        0
    } else {
        count_empty(b.drop_last()) + (if b.last() == Cell::Empty { 1nat } else { 0nat })
    }
}

/// Every cell is either marked or empty, so the two counts partition the
/// board: on a 3x3 board the number of marks is 9 minus the number of empty
/// cells.
pub proof fn lemma_marks_empty_partition(b: Seq<Cell>)
    ensures
        count_marks(b) + count_empty(b) == b.len(),
    decreases b.len(),
{
    if b.len() > 0 {
        lemma_marks_empty_partition(b.drop_last());
    }
}

/// Marking an empty cell adds one mark and removes one empty cell.
pub proof fn lemma_count_update(b: Seq<Cell>, i: int, p: Cell)
    requires
        0 <= i < b.len(),
        b[i] == Cell::Empty,
        p != Cell::Empty,
    ensures
        count_marks(b.update(i, p)) == count_marks(b) + 1,
        count_empty(b.update(i, p)) + 1 == count_empty(b),
    decreases b.len(),
{
    let u = b.update(i, p);
    if i == b.len() - 1 {
        assert(u.drop_last() =~= b.drop_last());
    } else {
        assert(u.drop_last() =~= b.drop_last().update(i, p));
        lemma_count_update(b.drop_last(), i, p);
    }
}

/// A positive empty-cell count names a witness: some cell is still `Empty`.
pub proof fn lemma_exists_empty(b: Seq<Cell>)
    requires
        count_empty(b) > 0,
    ensures
        exists|i: int| 0 <= i < b.len() && b[i] == Cell::Empty,
    decreases b.len(),
{
    if b.len() > 0 {
        if b.last() == Cell::Empty {
            assert(b[b.len() - 1] == Cell::Empty);
        } else {
            lemma_exists_empty(b.drop_last());
            let i = choose|i: int| 0 <= i < b.drop_last().len() && b.drop_last()[i] == Cell::Empty;
            assert(b[i] == Cell::Empty);
        }
    }
}

/// A board whose cells are all `Empty` carries no mark.
pub proof fn lemma_all_empty_no_marks(b: Seq<Cell>)
    requires
        forall|i: int| 0 <= i < b.len() ==> b[i] == Cell::Empty,
    ensures
        count_marks(b) == 0,
    decreases b.len(),
{
    if b.len() > 0 {
        assert(forall|i: int| 0 <= i < b.drop_last().len() ==> b.drop_last()[i] == b[i]);
        lemma_all_empty_no_marks(b.drop_last());
    }
}

#[verifier::loop_isolation(false)]
fn generate_blank_board(width: u8, height: u8) -> (cells: Vec<Cell>)
    ensures
        cells@.len() == width as int * height as int,
        forall|i: int| 0 <= i < cells@.len() ==> cells@[i] == Cell::Empty,
{
    proof {
        assert(width as int * height as int <= 255 * 255) by (nonlinear_arith)
            requires
                width <= 255,
                height <= 255,
        ;
    }
    let total: usize = (width as usize) * (height as usize);
    let mut cells: Vec<Cell> = Vec::new();
    let mut i: usize = 0;
    while i < total
        invariant
            i <= total,
            cells@.len() == i,
            forall|k: int| 0 <= k < i ==> cells@[k] == Cell::Empty,
        decreases total - i,
    {
        cells.push(Cell::Empty);
        i += 1;
    }
    cells
}

/// The game board: a 3x3 grid stored row-major, so the cell at `(row, col)`
/// sits at flat index `row * 3 + col`.
pub struct Game {
    height: u8,
    width: u8,
    cells: Vec<Cell>,
}

impl View for Game {
    type V = Seq<Cell>;

    closed spec fn view(&self) -> Seq<Cell> {
        self.cells@
    }
}

impl Game {
    /// The structural invariant: fixed 3x3 dimensions and exactly nine cells.
    pub closed spec fn wf(&self) -> bool {
        &&& self.width == 3
        &&& self.height == 3
        &&& self.cells@.len() == 9
    }

    /// A new game: 3x3 dimensions, all cells empty.
    pub fn new() -> (game: Game)
        ensures
            game.wf(),
            game@ == blank_board(),
    {
        let width: u8 = 3;
        let height: u8 = 3;
        let cells = generate_blank_board(width, height);
        let game = Game { height, width, cells };
        proof {
            assert(game@ =~= blank_board());
        }
        game
    }

    /// Overwrite every cell with `Empty`; the dimensions stay 3x3 and the
    /// move count falls back to zero.
    pub fn reset(&mut self)
        requires
            old(self).wf(),
        ensures
            final(self).wf(),
            final(self)@ == blank_board(),
            count_marks(final(self)@) == 0,
    {
        self.cells = generate_blank_board(self.width, self.height);
        proof {
            assert(self@ =~= blank_board());
            lemma_all_empty_no_marks(self@);
        }
    }

    pub fn height(&self) -> (h: u8)
        requires
            self.wf(),
        ensures
            h == 3,
    {
        self.height
    }

    pub fn width(&self) -> (w: u8)
        requires
            self.wf(),
        ensures
            w == 3,
    {
        self.width
    }

    /// A snapshot of the cell sequence, copied by value for a host renderer
    /// to read.
    #[verifier::loop_isolation(false)]
    pub fn cells(&self) -> (snapshot: Vec<Cell>)
        ensures
            snapshot@ == self@,
    {
        let mut snapshot: Vec<Cell> = Vec::new();
        let mut i: usize = 0;
        while i < self.cells.len()
            invariant
                i <= self.cells@.len(),
                snapshot@ == self.cells@.take(i as int),
            decreases self.cells@.len() - i,
        {
            snapshot.push(self.cells[i]);
            proof {
                assert(snapshot@ =~= self.cells@.take(i + 1));
            }
            i += 1;
        }
        proof {
            assert(self.cells@.take(self.cells@.len() as int) =~= self@);
        }
        snapshot
    }

    fn get_index(&self, row: u8, col: u8) -> (idx: usize)
        requires
            self.wf(),
            row < 3,
            col < 3,
        ensures
            idx == 3 * row + col,
            idx < 9,
    {
        (row * self.width + col) as usize
    }

    /// The number of marks placed so far.
    #[verifier::loop_isolation(false)]
    pub fn move_count(&self) -> (moves: usize)
        requires
            self.wf(),
        ensures
            moves == count_marks(self@),
    {
        let mut moves: usize = 0;
        let mut i: usize = 0;
        while i < self.cells.len()
            invariant
                i <= self.cells@.len(),
                moves == count_marks(self.cells@.take(i as int)),
                moves <= i,
            decreases self.cells@.len() - i,
        {
            proof {
                assert(self.cells@.take(i + 1).drop_last() =~= self.cells@.take(i as int));
            }
            if self.cells[i] != Cell::Empty {
                moves += 1;
            }
            i += 1;
        }
        proof {
            assert(self.cells@.take(self.cells@.len() as int) =~= self@);
        }
        moves
    }

    /// Place `player`'s mark at `(row, col)`. Succeeds, and changes exactly
    /// that cell, when the coordinates are in bounds and the cell is empty;
    /// any other call leaves the board unchanged and reports `false`.
    pub fn mark_player(&mut self, row: u8, col: u8, player: Cell) -> (placed: bool)
        requires
            old(self).wf(),
        ensures
            final(self).wf(),
            placed == (row < 3 && col < 3 && old(self)@[3 * row + col] == Cell::Empty),
            placed ==> final(self)@ == old(self)@.update(3 * row + col, player),
            !placed ==> final(self)@ == old(self)@,
    {
        if row >= self.height || col >= self.width {
            return false;
        }
        let idx = self.get_index(row, col);
        if self.cells[idx] == Cell::Empty {
            self.cells.set(idx, player);
            true
        } else {
            false
        }
    }
}

/// Row `r` (top to bottom) is filled with `p`'s mark.
pub open spec fn row_won(b: Seq<Cell>, r: int, p: Cell) -> bool {
    b[3 * r] == p && b[3 * r + 1] == p && b[3 * r + 2] == p
}

/// Column `c` (left to right) is filled with `p`'s mark.
pub open spec fn col_won(b: Seq<Cell>, c: int, p: Cell) -> bool {
    b[c] == p && b[c + 3] == p && b[c + 6] == p
}

/// The anti-diagonal (top-right to bottom-left) is filled with `p`'s mark.
pub open spec fn anti_diag_won(b: Seq<Cell>, p: Cell) -> bool {
    b[2] == p && b[4] == p && b[6] == p
}

/// The main diagonal (top-left to bottom-right) is filled with `p`'s mark.
pub open spec fn main_diag_won(b: Seq<Cell>, p: Cell) -> bool {
    b[0] == p && b[4] == p && b[8] == p
}

/// Some line of the board is filled with `p`'s mark.
pub open spec fn player_won(b: Seq<Cell>, p: Cell) -> bool {
    ||| row_won(b, 0, p)
    ||| row_won(b, 1, p)
    ||| row_won(b, 2, p)
    ||| col_won(b, 0, p)
    ||| col_won(b, 1, p)
    ||| col_won(b, 2, p)
    ||| anti_diag_won(b, p)
    ||| main_diag_won(b, p)
}

/// The indices of the first completed line of `p`, in the fixed scan order:
/// rows top to bottom, then columns left to right, then the anti-diagonal,
/// then the main diagonal. Empty when `p` has no completed line.
pub open spec fn winning_line(b: Seq<Cell>, p: Cell) -> Seq<i32> {
    if row_won(b, 0, p) {
        seq![0i32, 1i32, 2i32]
    } else if row_won(b, 1, p) {
        seq![3i32, 4i32, 5i32]
    } else if row_won(b, 2, p) {
        seq![6i32, 7i32, 8i32]
    } else if col_won(b, 0, p) {
        seq![0i32, 3i32, 6i32]
    } else if col_won(b, 1, p) {
        seq![1i32, 4i32, 7i32]
    } else if col_won(b, 2, p) {
        seq![2i32, 5i32, 8i32]
    } else if anti_diag_won(b, p) {
        seq![2i32, 4i32, 6i32]
    } else if main_diag_won(b, p) {
        seq![0i32, 4i32, 8i32]
    } else {
        Seq::empty()
    }
}

/// What a winner query on board `b` for `p` must report: below five marks
/// nothing is concluded; a completed line of `p` concludes the game with the
/// first such line in scan order; a full board without one is a draw, marked
/// by `Empty` as the winning player; anything else is still in play.
pub open spec fn winner_ok(b: Seq<Cell>, p: Cell, won: bool, line: Seq<i32>, wp: Cell) -> bool {
    if count_marks(b) < 5 {
        !won && line.len() == 0 && wp == p
    } else if player_won(b, p) {
        won && line == winning_line(b, p) && wp == p
    } else if count_marks(b) == 9 {
        won && line.len() == 0 && wp == Cell::Empty
    } else {
        !won && line.len() == 0 && wp == p
    }
}

/// The result of a win/draw query: whether the game has concluded, the
/// indices of the winning line (empty on a draw or an open game), and the
/// winning player (`Empty` stands for a draw).
pub struct Winner {
    pub won: bool,
    pub line: Vec<i32>,
    pub player: Cell,
}

impl Winner {
    pub fn new(won: bool, line: Vec<i32>, player: Cell) -> (w: Winner)
        ensures
            w.won == won,
            w.line@ == line@,
            w.player == player,
    {
        Winner { won, line, player }
    }
}

impl Game {
    /// True exactly when `line` is three cells long and filled with
    /// `player`'s mark.
    fn get_succession(&self, line: &Vec<Cell>, player: Cell) -> (all: bool)
        ensures
            all == (line@.len() == 3 && line@[0] == player && line@[1] == player && line@[2]
                == player),
    {
        line.len() == 3 && line[0] == player && line[1] == player && line[2] == player
    }

    /// The three cells of row `row`, left to right.
    #[verifier::loop_isolation(false)]
    fn get_row(&self, row: u8) -> (out: Vec<Cell>)
        requires
            self.wf(),
            row < 3,
        ensures
            out@.len() == 3,
            forall|i: int| 0 <= i < 3 ==> out@[i] == self@[3 * row + i],
    {
        let mut out: Vec<Cell> = Vec::new();
        let mut i: u8 = 0;
        while i < 3
            invariant
                i <= 3,
                out@.len() == i,
                forall|k: int| 0 <= k < i ==> out@[k] == self@[3 * row + k],
            decreases 3 - i,
        {
            out.push(self.cells[self.get_index(row, i)]);
            i += 1;
        }
        out
    }

    /// The three cells of column `col`, top to bottom.
    #[verifier::loop_isolation(false)]
    fn get_col(&self, col: u8) -> (out: Vec<Cell>)
        requires
            self.wf(),
            col < 3,
        ensures
            out@.len() == 3,
            forall|i: int| 0 <= i < 3 ==> out@[i] == self@[3 * i + col],
    {
        let mut out: Vec<Cell> = Vec::new();
        let mut i: u8 = 0;
        while i < 3
            invariant
                i <= 3,
                out@.len() == i,
                forall|k: int| 0 <= k < i ==> out@[k] == self@[3 * k + col],
            decreases 3 - i,
        {
            out.push(self.cells[self.get_index(i, col)]);
            i += 1;
        }
        out
    }

    /// The three cells of a diagonal, by increasing row: the main diagonal
    /// for `negative`, the anti-diagonal otherwise.
    #[verifier::loop_isolation(false)]
    fn get_diagonal(&self, negative: bool) -> (out: Vec<Cell>)
        requires
            self.wf(),
        ensures
            out@.len() == 3,
            forall|i: int|
                0 <= i < 3 ==> out@[i] == self@[if negative {
                    4 * i
                } else {
                    2 * i + 2
                }],
    {
        let mut out: Vec<Cell> = Vec::new();
        let mut i: u8 = 0;
        while i < 3
            invariant
                i <= 3,
                out@.len() == i,
                forall|k: int|
                    0 <= k < i ==> out@[k] == self@[if negative {
                        4 * k
                    } else {
                        2 * k + 2
                    }],
            decreases 3 - i,
        {
            let idx = if negative {
                self.get_index(i, i)
            } else {
                self.get_index(i, (self.width - 1) - i)
            };
            out.push(self.cells[idx]);
            i += 1;
        }
        out
    }

    /// Report whether `player` has completed a line, scanning rows, then
    /// columns, then the diagonals, and the draw once the board is full; with
    /// fewer than five marks no line is possible, so nothing is scanned.
    #[verifier::loop_isolation(false)]
    pub fn find_winner(&self, player: Cell) -> (w: Winner)
        requires
            self.wf(),
        ensures
            winner_ok(self@, player, w.won, w.line@, w.player),
    {
        if self.move_count() < 5 {
            return Winner::new(false, Vec::new(), player);
        }
        let mut r: u8 = 0;
        while r < 3
            invariant
                r <= 3,
                forall|k: int| 0 <= k < r ==> !row_won(self@, k, player),
            decreases 3 - r,
        {
            let row = self.get_row(r);
            if self.get_succession(&row, player) {
                let mut line: Vec<i32> = Vec::new();
                line.push((3 * r) as i32);
                line.push((3 * r + 1) as i32);
                line.push((3 * r + 2) as i32);
                proof {
                    assert(line@ =~= winning_line(self@, player));
                }
                return Winner::new(true, line, player);
            }
            r += 1;
        }
        let mut c: u8 = 0;
        while c < 3
            invariant
                c <= 3,
                forall|k: int| 0 <= k < 3 ==> !row_won(self@, k, player),
                forall|k: int| 0 <= k < c ==> !col_won(self@, k, player),
            decreases 3 - c,
        {
            let col = self.get_col(c);
            if self.get_succession(&col, player) {
                let mut line: Vec<i32> = Vec::new();
                line.push(c as i32);
                line.push((c + 3) as i32);
                line.push((c + 6) as i32);
                proof {
                    assert(line@ =~= winning_line(self@, player));
                }
                return Winner::new(true, line, player);
            }
            c += 1;
        }
        let anti = self.get_diagonal(false);
        if self.get_succession(&anti, player) {
            let mut line: Vec<i32> = Vec::new();
            line.push(2);
            line.push(4);
            line.push(6);
            proof {
                assert(line@ =~= winning_line(self@, player));
            }
            return Winner::new(true, line, player);
        }
        let main = self.get_diagonal(true);
        if self.get_succession(&main, player) {
            let mut line: Vec<i32> = Vec::new();
            line.push(0);
            line.push(4);
            line.push(8);
            proof {
                assert(line@ =~= winning_line(self@, player));
            }
            return Winner::new(true, line, player);
        }
        if self.move_count() == 9 {
            return Winner::new(true, Vec::new(), Cell::Empty);
        }
        Winner::new(false, Vec::new(), player)
    }
}

/// The adversary of `p`; a draw marker stays what it is.
pub open spec fn opponent(p: Cell) -> Cell {
    match p {
        Cell::X => Cell::O,
        Cell::O => Cell::X,
        Cell::Empty => Cell::Empty,
    }
}

/// The static score of a hypothetical board for `p`: 1 when `p` has a
/// completed line, -1 when the opponent has one, 0 otherwise. Lines are
/// scanned in the fixed order rows, columns, anti-diagonal, main diagonal,
/// and within each line `p` before the opponent; the first match decides.
pub open spec fn eval_spec(b: Seq<Cell>, p: Cell) -> i32 {
    let o = opponent(p);
    if row_won(b, 0, p) {
        1
    } else if row_won(b, 0, o) {
        -1i32
    } else if row_won(b, 1, p) {
        1
    } else if row_won(b, 1, o) {
        -1i32
    } else if row_won(b, 2, p) {
        1
    } else if row_won(b, 2, o) {
        -1i32
    } else if col_won(b, 0, p) {
        1
    } else if col_won(b, 0, o) {
        -1i32
    } else if col_won(b, 1, p) {
        1
    } else if col_won(b, 1, o) {
        -1i32
    } else if col_won(b, 2, p) {
        1
    } else if col_won(b, 2, o) {
        -1i32
    } else if anti_diag_won(b, p) {
        1
    } else if anti_diag_won(b, o) {
        -1i32
    } else if main_diag_won(b, p) {
        1
    } else if main_diag_won(b, o) {
        -1i32
    } else {
        0
    }
}

/// The minimax value of board `b` with `p` as the maximising side, under a
/// fuel that callers fix to the number of empty cells. A position already won
/// scores immediately; a full board is a draw; otherwise the value folds over
/// the possible next moves.
pub open spec fn minimax_spec(b: Seq<Cell>, maximizing: bool, p: Cell, fuel: nat) -> int
    decreases fuel, 10int,
{
    if eval_spec(b, p) == 1 {
        1
    } else if eval_spec(b, p) == -1 {
        -1
    } else if count_marks(b) == 9 {
        0
    } else {
        search_from(
            b,
            0,
            maximizing,
            p,
            fuel,
            if maximizing {
                -1000
            } else {
                1000
            },
        )
    }
}

/// The fold of the minimax search over the empty cells at indices `i` and
/// beyond: the maximising side keeps the greatest child value seen, the
/// minimising side the least, starting from the accumulator `acc`.
pub open spec fn search_from(
    b: Seq<Cell>,
    i: int,
    maximizing: bool,
    p: Cell,
    fuel: nat,
    acc: int,
) -> int
    decreases fuel, 9 - i,
{
    if i < 0 || i >= 9 {
        acc
    } else {
        let acc2 = if b[i] == Cell::Empty && fuel > 0 {
            let mark = if maximizing {
                p
            } else {
                opponent(p)
            };
            let child = minimax_spec(b.update(i, mark), !maximizing, p, (fuel - 1) as nat);
            if maximizing {
                if child > acc {
                    child
                } else {
                    acc
                }
            } else {
                if child < acc {
                    child
                } else {
                    acc
                }
            }
        } else {
            acc
        };
        search_from(b, i + 1, maximizing, p, fuel, acc2)
    }
}

impl Game {
    /// The number of marks on a hypothetical board.
    #[verifier::loop_isolation(false)]
    fn moves_left_board(&self, board: &Vec<Cell>) -> (moves: i32)
        requires
            board@.len() == 9,
        ensures
            moves == count_marks(board@),
    {
        let mut moves: i32 = 0;
        let mut i: usize = 0;
        while i < board.len()
            invariant
                i <= board@.len(),
                moves == count_marks(board@.take(i as int)),
                moves <= i,
            decreases board@.len() - i,
        {
            proof {
                assert(board@.take(i + 1).drop_last() =~= board@.take(i as int));
            }
            if board[i] != Cell::Empty {
                moves += 1;
            }
            i += 1;
        }
        proof {
            assert(board@.take(board@.len() as int) =~= board@);
        }
        moves
    }

    /// Whether a hypothetical board still has room for a move.
    fn is_moves_left(&self, board: &Vec<Cell>) -> (left: bool)
        requires
            board@.len() == 9,
        ensures
            left == (count_marks(board@) != 9),
    {
        self.moves_left_board(board) != 9
    }

    /// The adversary of `player`.
    fn opposite_player(&self, player: Cell) -> (o: Cell)
        ensures
            o == opponent(player),
    {
        match player {
            Cell::X => Cell::O,
            Cell::O => Cell::X,
            Cell::Empty => Cell::Empty,
        }
    }

    /// Score a hypothetical board for `player` by the fixed line scan.
    #[verifier::loop_isolation(false)]
    pub fn evaluate(&self, board: &Vec<Cell>, player: Cell) -> (score: i32)
        requires
            self.wf(),
            board@.len() == 9,
        ensures
            score == eval_spec(board@, player),
    {
        let opponent = self.opposite_player(player);
        let mut r: usize = 0;
        while r < 3
            invariant
                r <= 3,
                forall|k: int|
                    0 <= k < r ==> !row_won(board@, k, player) && !row_won(board@, k, opponent),
            decreases 3 - r,
        {
            if board[3 * r] == player && board[3 * r + 1] == player && board[3 * r + 2] == player {
                return 1;
            }
            if board[3 * r] == opponent && board[3 * r + 1] == opponent && board[3 * r + 2]
                == opponent {
                return -1;
            }
            r += 1;
        }
        let mut c: usize = 0;
        while c < 3
            invariant
                c <= 3,
                forall|k: int|
                    0 <= k < 3 ==> !row_won(board@, k, player) && !row_won(board@, k, opponent),
                forall|k: int|
                    0 <= k < c ==> !col_won(board@, k, player) && !col_won(board@, k, opponent),
            decreases 3 - c,
        {
            if board[c] == player && board[c + 3] == player && board[c + 6] == player {
                return 1;
            }
            if board[c] == opponent && board[c + 3] == opponent && board[c + 6] == opponent {
                return -1;
            }
            c += 1;
        }
        if board[2] == player && board[4] == player && board[6] == player {
            return 1;
        }
        if board[2] == opponent && board[4] == opponent && board[6] == opponent {
            return -1;
        }
        if board[0] == player && board[4] == player && board[8] == player {
            return 1;
        }
        if board[0] == opponent && board[4] == opponent && board[8] == opponent {
            return -1;
        }
        0
    }

    /// The minimax value of a hypothetical board, computed by placing a mark
    /// on each empty cell in turn, recursing for the other side, and
    /// restoring the cell, so the board leaves the call exactly as it came.
    #[verifier::loop_isolation(false)]
    fn minimax(
        &self,
        board: &mut Vec<Cell>,
        depth: i32,
        is_maximising_player: bool,
        player: Cell,
    ) -> (score: i32)
        requires
            self.wf(),
            old(board)@.len() == 9,
            player == Cell::X || player == Cell::O,
            0 <= depth,
            depth + count_empty(old(board)@) <= 9,
        ensures
            final(board)@ == old(board)@,
            score == minimax_spec(
                old(board)@,
                is_maximising_player,
                player,
                count_empty(old(board)@),
            ),
            -1 <= score <= 1,
        decreases 9 - depth,
    {
        let score = self.evaluate(board, player);
        let opponent = self.opposite_player(player);
        if score == 1 {
            return score;
        }
        if score == -1 {
            return score;
        }
        if !self.is_moves_left(board) {
            return 0;
        }
        let ghost b0 = board@;
        let ghost fuel = count_empty(b0);
        proof {
            lemma_marks_empty_partition(b0);
            lemma_exists_empty(b0);
        }
        if is_maximising_player {
            let mut best: i32 = -1000;
            let mut idx: usize = 0;
            while idx < 9
                invariant
                    board@ == b0,
                    idx <= 9,
                    search_from(b0, 0, true, player, fuel, -1000) == search_from(
                        b0,
                        idx as int,
                        true,
                        player,
                        fuel,
                        best as int,
                    ),
                    (best == -1000 && (exists|k: int|
                        idx <= k < 9 && b0[k] == Cell::Empty)) || -1 <= best <= 1,
                decreases 9 - idx,
            {
                if board[idx] == Cell::Empty {
                    board.set(idx, player);
                    proof {
                        lemma_count_update(b0, idx as int, player);
                    }
                    let child = self.minimax(board, depth + 1, false, player);
                    board.set(idx, Cell::Empty);
                    proof {
                        assert(board@ =~= b0);
                    }
                    if child > best {
                        best = child;
                    }
                }
                idx += 1;
            }
            best
        } else {
            let mut best: i32 = 1000;
            let mut idx: usize = 0;
            while idx < 9
                invariant
                    board@ == b0,
                    idx <= 9,
                    search_from(b0, 0, false, player, fuel, 1000) == search_from(
                        b0,
                        idx as int,
                        false,
                        player,
                        fuel,
                        best as int,
                    ),
                    (best == 1000 && (exists|k: int|
                        idx <= k < 9 && b0[k] == Cell::Empty)) || -1 <= best <= 1,
                decreases 9 - idx,
            {
                if board[idx] == Cell::Empty {
                    board.set(idx, opponent);
                    proof {
                        lemma_count_update(b0, idx as int, opponent);
                    }
                    let child = self.minimax(board, depth + 1, true, player);
                    board.set(idx, Cell::Empty);
                    proof {
                        assert(board@ =~= b0);
                    }
                    if child < best {
                        best = child;
                    }
                }
                idx += 1;
            }
            best
        }
    }
}

/// The fold that picks the computer's move: over the empty cells at indices
/// `i` and beyond, keep the first cell whose minimax value strictly beats the
/// best value seen so far.
pub open spec fn best_move_from(b: Seq<Cell>, i: int, p: Cell, best_val: int, best: u8) -> u8
    decreases 9 - i,
{
    if i < 0 || i >= 9 {
        best
    } else if b[i] == Cell::Empty {
        let v = minimax_spec(b.update(i, p), false, p, (count_empty(b) - 1) as nat);
        if v > best_val {
            best_move_from(b, i + 1, p, v, i as u8)
        } else {
            best_move_from(b, i + 1, p, best_val, best)
        }
    } else {
        best_move_from(b, i + 1, p, best_val, best)
    }
}

/// The move the computer plays for `p` on board `b`: the scan starts from a
/// sentinel value every real position beats, so the first empty cell always
/// takes over, and later cells only on a strictly greater minimax value.
pub open spec fn best_move_spec(b: Seq<Cell>, p: Cell) -> u8 {
    best_move_from(b, 0, p, -1000, 0)
}

impl Game {
    /// Pick the optimal move for `player` by trying every empty cell on a
    /// scratch copy of the board and keeping the one with the strictly
    /// greatest minimax value; ties keep the first cell seen. The chosen
    /// index is always an empty cell of the board.
    #[verifier::loop_isolation(false)]
    pub fn find_best_move(&self, player: Cell) -> (best_move: u8)
        requires
            self.wf(),
            player == Cell::X || player == Cell::O,
            count_empty(self@) > 0,
        ensures
            best_move == best_move_spec(self@, player),
            best_move < 9,
            self@[best_move as int] == Cell::Empty,
    {
        let mut board = self.cells();
        let mut best_val: i32 = -1000;
        let mut best_move: u8 = 0;
        let ghost b0 = self@;
        proof {
            lemma_marks_empty_partition(b0);
        }
        let mut idx: usize = 0;
        while idx < 9
            invariant
                board@ == b0,
                idx <= 9,
                best_move_spec(b0, player) == best_move_from(
                    b0,
                    idx as int,
                    player,
                    best_val as int,
                    best_move,
                ),
                (best_val == -1000 && best_move == 0 && (forall|k: int|
                    0 <= k < idx ==> b0[k] != Cell::Empty)) || (-1 <= best_val <= 1 && best_move
                    < 9 && b0[best_move as int] == Cell::Empty),
            decreases 9 - idx,
        {
            if board[idx] == Cell::Empty {
                board.set(idx, player);
                proof {
                    lemma_count_update(b0, idx as int, player);
                }
                let move_val = self.minimax(&mut board, 0, false, player);
                board.set(idx, Cell::Empty);
                proof {
                    assert(board@ =~= b0);
                }
                if move_val > best_val {
                    best_move = idx as u8;
                    best_val = move_val;
                }
            }
            idx += 1;
        }
        proof {
            if best_val == -1000 {
                lemma_exists_empty(b0);
            }
        }
        best_move
    }
}

/// On a fully played-out board, the static evaluation and the winner query
/// classify the position the same way, as long as at most one side holds a
/// completed line: the evaluation scores 1 exactly when the queried player
/// has a line (the winner query then reports that player), -1 exactly when
/// the opponent has one, and 0 exactly when neither does (the winner query
/// then reports a draw for both sides).
pub proof fn lemma_evaluate_agrees_with_find_winner(b: Seq<Cell>, p: Cell)
    requires
        b.len() == 9,
        count_marks(b) == 9,
        p == Cell::X || p == Cell::O,
        !(player_won(b, p) && player_won(b, opponent(p))),
    ensures
        eval_spec(b, p) == 1 <==> player_won(b, p),
        eval_spec(b, p) == -1 <==> player_won(b, opponent(p)),
        eval_spec(b, p) == 0 <==> !player_won(b, p) && !player_won(b, opponent(p)),
        player_won(b, p) <==> winner_ok(b, p, true, winning_line(b, p), p),
        !player_won(b, p) <==> winner_ok(b, p, true, Seq::empty(), Cell::Empty),
{
}

} // verus!
