//! The board: a square grid of cells, its construction, its accessors and
//! the board-level queries (piece counts, neutron position, blocked state,
//! raw win signal).

use vstd::prelude::*;

use crate::enums::{BoardError, Cell, Winner};

verus! {

/// A square grid of cells. `size` is fixed at construction; the grid is
/// mutated in place by move application and never resized.
pub struct Board {
    grid: Vec<Vec<Cell>>,
    size: usize,
}

/// How many cells of one row hold `c`.
pub open spec fn count_row(row: Seq<Cell>, c: Cell) -> nat
    decreases row.len(),
{
    if row.len() == 0 {
        0
    } else {
        count_row(row.drop_last(), c) + if row.last() == c {
            1nat
        } else {
            0nat
        }
    }
}

/// How many cells of the whole grid hold `c`.
pub open spec fn count_grid(g: Seq<Seq<Cell>>, c: Cell) -> nat
    decreases g.len(),
{
    if g.len() == 0 {
        0
    } else {
        count_grid(g.drop_last(), c) + count_row(g.last(), c)
    }
}

/// Whether `(x, y)` lies on a board of side `size`.
pub open spec fn in_bounds(size: int, x: int, y: int) -> bool {
    0 <= x < size && 0 <= y < size
}

/// The cell the initial layout puts at `(x, y)`: the top row is all black,
/// the bottom row all white, the neutron sits at the exact centre, and
/// everything else is empty.
pub open spec fn init_cell(size: int, x: int, y: int) -> Cell {
    if y == 0 {
        Cell::Black
    } else if y == size - 1 {
        Cell::White
    } else if x == (size - 1) / 2 && y == (size - 1) / 2 {
        Cell::Neutron
    } else {
        Cell::Empty
    }
}

/// The whole initial layout of a board of side `size`.
pub open spec fn initial_grid(size: int) -> Seq<Seq<Cell>> {
    Seq::new(size as nat, |y: int| Seq::new(size as nat, |x: int| init_cell(size, x, y)))
}

/// Whether one step from `(x, y)` by the displacement `(dx, dy)` lands on
/// the board, on an empty cell. This is the cell a slide may move onto and
/// also what makes a neighbour count as an escape for the neutron.
pub open spec fn open_toward(g: Seq<Seq<Cell>>, size: int, x: int, y: int, dx: int, dy: int) -> bool {
    in_bounds(size, x + dx, y + dy) && g[y + dy][x + dx] == Cell::Empty
}

/// Whether the piece at `(x, y)` cannot move: none of its eight neighbour
/// slots is an in-bounds empty cell. Off-board slots never count as open.
pub open spec fn blocked_at(g: Seq<Seq<Cell>>, size: int, x: int, y: int) -> bool {
    &&& !open_toward(g, size, x, y, -1, -1)
    &&& !open_toward(g, size, x, y, 0, -1)
    &&& !open_toward(g, size, x, y, 1, -1)
    &&& !open_toward(g, size, x, y, -1, 0)
    &&& !open_toward(g, size, x, y, 1, 0)
    &&& !open_toward(g, size, x, y, -1, 1)
    &&& !open_toward(g, size, x, y, 0, 1)
    &&& !open_toward(g, size, x, y, 1, 1)
}

/// Whether `(p.0, p.1)` is a position of the grid holding `c`.
pub open spec fn cell_is(g: Seq<Seq<Cell>>, p: (int, int), c: Cell) -> bool {
    &&& 0 <= p.1 < g.len()
    &&& 0 <= p.0 < g[p.1].len()
    &&& g[p.1][p.0] == c
}

/// The position of the neutron. Meaningful whenever the grid holds exactly
/// one neutron.
pub open spec fn neutron_pos(g: Seq<Seq<Cell>>) -> (int, int) {
    choose|p: (int, int)| cell_is(g, p, Cell::Neutron)
}

/// A well-formed game board: `size` white pieces, `size` black pieces and
/// exactly one neutron.
pub open spec fn spec_valid_counts(g: Seq<Seq<Cell>>, size: int) -> bool {
    &&& count_grid(g, Cell::White) == size
    &&& count_grid(g, Cell::Black) == size
    &&& count_grid(g, Cell::Neutron) == 1
}

/// Whether some cell of `row` holds `c`.
pub open spec fn row_has(row: Seq<Cell>, c: Cell) -> bool {
    exists|x: int| 0 <= x < row.len() && row[x] == c
}

/// The raw outcome the board reports: white wins when the neutron stands in
/// the top row, black when it stands in the bottom row; otherwise the board
/// can only signal that the neutron is pinned. Row checks take precedence.
pub open spec fn spec_board_state(g: Seq<Seq<Cell>>, size: int) -> Option<Winner> {
    if row_has(g[0], Cell::Neutron) {
        Some(Winner::White)
    } else if row_has(g[size - 1], Cell::Neutron) {
        Some(Winner::Black)
    } else if blocked_at(g, size, neutron_pos(g).0, neutron_pos(g).1) {
        Some(Winner::NeutronIsBlocked)
    } else {
        None
    }
}

/// The grid after lifting the cell standing at `from` and dropping it on
/// `to`: `from` is cleared and `to` receives what `from` held.
pub open spec fn grid_after_move(g: Seq<Seq<Cell>>, from: (int, int), to: (int, int)) -> Seq<
    Seq<Cell>,
> {
    let moved = g[from.1][from.0];
    let cleared = g.update(from.1, g[from.1].update(from.0, Cell::Empty));
    cleared.update(to.1, cleared[to.1].update(to.0, moved))
}

proof fn lemma_count_row_take_succ(row: Seq<Cell>, c: Cell, j: int)
    requires
        0 <= j < row.len(),
    ensures
        count_row(row.take(j + 1), c) == count_row(row.take(j), c) + if row[j] == c {
            1nat
        } else {
            0nat
        },
{
    assert(row.take(j + 1).drop_last() =~= row.take(j));
    assert(row.take(j + 1).last() == row[j]);
}

proof fn lemma_count_row_take_le(row: Seq<Cell>, c: Cell, j: int)
    requires
        0 <= j <= row.len(),
    ensures
        count_row(row.take(j), c) <= count_row(row, c),
    decreases row.len() - j,
{
    if j == row.len() {
        assert(row.take(j) =~= row);
    } else {
        lemma_count_row_take_succ(row, c, j);
        lemma_count_row_take_le(row, c, j + 1);
    }
}

proof fn lemma_count_grid_take_succ(g: Seq<Seq<Cell>>, c: Cell, i: int)
    requires
        0 <= i < g.len(),
    ensures
        count_grid(g.take(i + 1), c) == count_grid(g.take(i), c) + count_row(g[i], c),
{
    assert(g.take(i + 1).drop_last() =~= g.take(i));
    assert(g.take(i + 1).last() == g[i]);
}

proof fn lemma_count_grid_take_le(g: Seq<Seq<Cell>>, c: Cell, i: int)
    requires
        0 <= i <= g.len(),
    ensures
        count_grid(g.take(i), c) <= count_grid(g, c),
    decreases g.len() - i,
{
    if i == g.len() {
        assert(g.take(i) =~= g);
    } else {
        lemma_count_grid_take_succ(g, c, i);
        lemma_count_grid_take_le(g, c, i + 1);
    }
}

proof fn lemma_count_row_update(row: Seq<Cell>, c: Cell, j: int, v: Cell)
    requires
        0 <= j < row.len(),
    ensures
        count_row(row.update(j, v), c) + (if row[j] == c {
            1nat
        } else {
            0nat
        }) == count_row(row, c) + (if v == c {
            1nat
        } else {
            0nat
        }),
    decreases row.len(),
{
    let u = row.update(j, v);
    if j == row.len() - 1 {
        assert(u.drop_last() =~= row.drop_last());
        assert(u.last() == v);
    } else {
        assert(u.drop_last() =~= row.drop_last().update(j, v));
        assert(u.last() == row.last());
        lemma_count_row_update(row.drop_last(), c, j, v);
    }
}

proof fn lemma_count_grid_update(g: Seq<Seq<Cell>>, c: Cell, i: int, r: Seq<Cell>)
    requires
        0 <= i < g.len(),
    ensures
        count_grid(g.update(i, r), c) + count_row(g[i], c) == count_grid(g, c) + count_row(r, c),
    decreases g.len(),
{
    let u = g.update(i, r);
    if i == g.len() - 1 {
        assert(u.drop_last() =~= g.drop_last());
        assert(u.last() == r);
    } else {
        assert(u.drop_last() =~= g.drop_last().update(i, r));
        assert(u.last() == g.last());
        lemma_count_grid_update(g.drop_last(), c, i, r);
    }
}

proof fn lemma_count_row_ge1(row: Seq<Cell>, c: Cell, j: int)
    requires
        0 <= j < row.len(),
        row[j] == c,
    ensures
        count_row(row, c) >= 1,
    decreases row.len(),
{
    if j < row.len() - 1 {
        assert(row.drop_last()[j] == row[j]);
        lemma_count_row_ge1(row.drop_last(), c, j);
    }
}

proof fn lemma_count_row_two(row: Seq<Cell>, c: Cell, j1: int, j2: int)
    requires
        0 <= j1 < j2 < row.len(),
        row[j1] == c,
        row[j2] == c,
    ensures
        count_row(row, c) >= 2,
    decreases row.len(),
{
    if j2 == row.len() - 1 {
        assert(row.drop_last()[j1] == row[j1]);
        lemma_count_row_ge1(row.drop_last(), c, j1);
    } else {
        assert(row.drop_last()[j1] == row[j1]);
        assert(row.drop_last()[j2] == row[j2]);
        lemma_count_row_two(row.drop_last(), c, j1, j2);
    }
}

proof fn lemma_count_grid_row_lb(g: Seq<Seq<Cell>>, c: Cell, i: int)
    requires
        0 <= i < g.len(),
    ensures
        count_grid(g, c) >= count_row(g[i], c),
    decreases g.len(),
{
    if i < g.len() - 1 {
        assert(g.drop_last()[i] == g[i]);
        lemma_count_grid_row_lb(g.drop_last(), c, i);
    }
}

proof fn lemma_count_grid_two_rows(g: Seq<Seq<Cell>>, c: Cell, i1: int, i2: int)
    requires
        0 <= i1 < i2 < g.len(),
    ensures
        count_grid(g, c) >= count_row(g[i1], c) + count_row(g[i2], c),
    decreases g.len(),
{
    if i2 == g.len() - 1 {
        assert(g.drop_last()[i1] == g[i1]);
        lemma_count_grid_row_lb(g.drop_last(), c, i1);
    } else {
        assert(g.drop_last()[i1] == g[i1]);
        assert(g.drop_last()[i2] == g[i2]);
        lemma_count_grid_two_rows(g.drop_last(), c, i1, i2);
    }
}

proof fn lemma_count_row_pos_exists(row: Seq<Cell>, c: Cell)
    requires
        count_row(row, c) >= 1,
    ensures
        exists|j: int| 0 <= j < row.len() && row[j] == c,
    decreases row.len(),
{
    if row.last() == c {
        assert(row[row.len() - 1] == c);
    } else {
        lemma_count_row_pos_exists(row.drop_last(), c);
        let j = choose|j: int| 0 <= j < row.drop_last().len() && row.drop_last()[j] == c;
        assert(row[j] == c);
    }
}

proof fn lemma_count_pos_exists(g: Seq<Seq<Cell>>, c: Cell)
    requires
        count_grid(g, c) >= 1,
    ensures
        exists|p: (int, int)| cell_is(g, p, c),
    decreases g.len(),
{
    if count_row(g.last(), c) >= 1 {
        lemma_count_row_pos_exists(g.last(), c);
        let j = choose|j: int| 0 <= j < g.last().len() && g.last()[j] == c;
        assert(cell_is(g, (j, g.len() - 1), c));
    } else {
        lemma_count_pos_exists(g.drop_last(), c);
        let p = choose|p: (int, int)| cell_is(g.drop_last(), p, c);
        assert(g.drop_last()[p.1] == g[p.1]);
        assert(cell_is(g, p, c));
    }
}

proof fn lemma_unique_cell(g: Seq<Seq<Cell>>, c: Cell, p1: (int, int), p2: (int, int))
    requires
        count_grid(g, c) == 1,
        cell_is(g, p1, c),
        cell_is(g, p2, c),
    ensures
        p1 == p2,
{
    if p1 != p2 {
        if p1.1 == p2.1 {
            if p1.0 < p2.0 {
                lemma_count_row_two(g[p1.1], c, p1.0, p2.0);
            } else {
                lemma_count_row_two(g[p1.1], c, p2.0, p1.0);
            }
            lemma_count_grid_row_lb(g, c, p1.1);
        } else {
            lemma_count_row_ge1(g[p1.1], c, p1.0);
            lemma_count_row_ge1(g[p2.1], c, p2.0);
            if p1.1 < p2.1 {
                lemma_count_grid_two_rows(g, c, p1.1, p2.1);
            } else {
                lemma_count_grid_two_rows(g, c, p2.1, p1.1);
            }
        }
        assert(false);
    }
}

proof fn lemma_count_row_const(row: Seq<Cell>, v: Cell, c: Cell)
    requires
        forall|j: int| 0 <= j < row.len() ==> row[j] == v,
    ensures
        count_row(row, c) == if v == c {
            row.len()
        } else {
            0nat
        },
    decreases row.len(),
{
    if row.len() > 0 {
        assert forall|j: int| 0 <= j < row.drop_last().len() implies #[trigger] row.drop_last()[j]
            == v by {
            assert(row.drop_last()[j] == row[j]);
        }
        lemma_count_row_const(row.drop_last(), v, c);
    }
}

proof fn lemma_count_row_single(row: Seq<Cell>, k: int, v: Cell, w: Cell, c: Cell)
    requires
        0 <= k < row.len(),
        row[k] == v,
        forall|j: int| 0 <= j < row.len() && j != k ==> row[j] == w,
    ensures
        count_row(row, c) == (if v == c {
            1nat
        } else {
            0nat
        }) + (if w == c {
            (row.len() - 1) as nat
        } else {
            0nat
        }),
{
    let base = Seq::new(row.len(), |j: int| w);
    assert(row =~= base.update(k, v));
    lemma_count_row_const(base, w, c);
    lemma_count_row_update(base, c, k, v);
}

proof fn lemma_initial_grid_counts_upto(size: int, i: int)
    requires
        size % 2 == 1,
        3 <= size,
        0 <= i <= size,
    ensures
        count_grid(initial_grid(size).take(i), Cell::White) == if i == size {
            size as nat
        } else {
            0nat
        },
        count_grid(initial_grid(size).take(i), Cell::Black) == if i >= 1 {
            size as nat
        } else {
            0nat
        },
        count_grid(initial_grid(size).take(i), Cell::Neutron) == if i > (size - 1) / 2 {
            1nat
        } else {
            0nat
        },
    decreases i,
{
    let g = initial_grid(size);
    let mid = (size - 1) / 2;
    assert(1 <= mid < size - 1);
    if i > 0 {
        lemma_initial_grid_counts_upto(size, i - 1);
        lemma_count_grid_take_succ(g, Cell::White, i - 1);
        lemma_count_grid_take_succ(g, Cell::Black, i - 1);
        lemma_count_grid_take_succ(g, Cell::Neutron, i - 1);
        let row = g[i - 1];
        assert(row.len() == size);
        if i - 1 == 0 {
            lemma_count_row_const(row, Cell::Black, Cell::White);
            lemma_count_row_const(row, Cell::Black, Cell::Black);
            lemma_count_row_const(row, Cell::Black, Cell::Neutron);
        } else if i - 1 == size - 1 {
            lemma_count_row_const(row, Cell::White, Cell::White);
            lemma_count_row_const(row, Cell::White, Cell::Black);
            lemma_count_row_const(row, Cell::White, Cell::Neutron);
        } else if i - 1 == mid {
            lemma_count_row_single(row, mid, Cell::Neutron, Cell::Empty, Cell::White);
            lemma_count_row_single(row, mid, Cell::Neutron, Cell::Empty, Cell::Black);
            lemma_count_row_single(row, mid, Cell::Neutron, Cell::Empty, Cell::Neutron);
        } else {
            lemma_count_row_const(row, Cell::Empty, Cell::White);
            lemma_count_row_const(row, Cell::Empty, Cell::Black);
            lemma_count_row_const(row, Cell::Empty, Cell::Neutron);
        }
    }
}

/// Law: for every odd size of at least 3 the freshly laid-out board passes
/// the validity check — exactly `size` white pieces, `size` black pieces and
/// one neutron — and the neutron stands at the exact centre.
pub proof fn lemma_initial_grid_valid(size: int)
    requires
        size % 2 == 1,
        3 <= size,
    ensures
        spec_valid_counts(initial_grid(size), size),
        initial_grid(size)[(size - 1) / 2][(size - 1) / 2] == Cell::Neutron,
{
    let g = initial_grid(size);
    lemma_initial_grid_counts_upto(size, size);
    assert(g.take(size) =~= g);
}

/// Law: the blocked check says exactly that every in-bounds neighbour of
/// the cell is occupied. Off-board neighbour slots are simply absent from
/// the check, never counted as open.
pub proof fn lemma_blocked_iff_all_neighbors_occupied(g: Seq<Seq<Cell>>, size: int, x: int, y: int)
    ensures
        blocked_at(g, size, x, y) <==> (forall|dx: int, dy: int|
            -1 <= dx <= 1 && -1 <= dy <= 1 && !(dx == 0 && dy == 0) && in_bounds(
                size,
                x + dx,
                y + dy,
            ) ==> #[trigger] g[y + dy][x + dx] != Cell::Empty),
{
    if blocked_at(g, size, x, y) {
        assert forall|dx: int, dy: int|
            -1 <= dx <= 1 && -1 <= dy <= 1 && !(dx == 0 && dy == 0) && in_bounds(
                size,
                x + dx,
                y + dy,
            ) implies #[trigger] g[y + dy][x + dx] != Cell::Empty by {
            assert(!open_toward(g, size, x, y, dx, dy));
        }
    }
}

/// Law: moving the content of `from` onto the empty cell `to` only
/// relocates one piece: every kind of cell keeps its total count.
pub proof fn lemma_move_preserves_counts(g: Seq<Seq<Cell>>, from: (int, int), to: (int, int))
    requires
        0 <= from.1 < g.len(),
        0 <= from.0 < g[from.1].len(),
        0 <= to.1 < g.len(),
        0 <= to.0 < g[to.1].len(),
        g[to.1][to.0] == Cell::Empty,
        from != to,
    ensures
        forall|c: Cell| #[trigger] count_grid(grid_after_move(g, from, to), c) == count_grid(g, c),
{
    let moved = g[from.1][from.0];
    let cleared = g.update(from.1, g[from.1].update(from.0, Cell::Empty));
    assert(cleared[to.1][to.0] == Cell::Empty);
    assert forall|c: Cell| #[trigger] count_grid(grid_after_move(g, from, to), c) == count_grid(
        g,
        c,
    ) by {
        lemma_count_row_update(g[from.1], c, from.0, Cell::Empty);
        lemma_count_grid_update(g, c, from.1, g[from.1].update(from.0, Cell::Empty));
        lemma_count_row_update(cleared[to.1], c, to.0, moved);
        lemma_count_grid_update(cleared, c, to.1, cleared[to.1].update(to.0, moved));
    }
}

impl View for Board {
    type V = Seq<Seq<Cell>>;

    closed spec fn view(&self) -> Seq<Seq<Cell>> {
        Seq::new(self.grid@.len(), |y: int| self.grid@[y]@)
    }
}

impl Board {
    /// The side length of the board.
    pub closed spec fn spec_size(&self) -> int {
        self.size as int
    }

    /// The grid is square with side `spec_size`.
    pub open spec fn wf(&self) -> bool {
        &&& self@.len() == self.spec_size()
        &&& forall|y: int| 0 <= y < self@.len() ==> (#[trigger] self@[y]).len() == self.spec_size()
    }

    /// Create a new board of the given size, laid out as `initial_grid`.
    /// Sizes without a proper layout are rejected: an even size has no
    /// unambiguous centre cell and a one-cell board cannot hold the pieces.
    pub fn new(size: usize) -> (r: Result<Board, BoardError>)
        ensures
            match r {
                Ok(b) => size % 2 == 1 && size != 1 && b.wf() && b.spec_size() == size && b@
                    == initial_grid(size as int) && spec_valid_counts(b@, size as int),
                Err(BoardError::EvenSize) => size % 2 == 0,
                Err(BoardError::SizeOfOne) => size == 1,
            },
    {
        if size % 2 != 1 {
            return Err(BoardError::EvenSize);
        } else if size == 1 {
            return Err(BoardError::SizeOfOne);
        }
        let mut grid: Vec<Vec<Cell>> = Vec::new();
        let mut y: usize = 0;
        while y < size
            invariant
                y <= size,
                grid@.len() == y,
                forall|j: int| 0 <= j < y ==> (#[trigger] grid@[j])@.len() == size,
                forall|j: int, i: int|
                    0 <= j < y && 0 <= i < size ==> (#[trigger] grid@[j]@[i]) == init_cell(
                        size as int,
                        i,
                        j,
                    ),
            decreases size - y,
        {
            let mut row: Vec<Cell> = Vec::new();
            let mut x: usize = 0;
            while x < size
                invariant
                    x <= size,
                    y < size,
                    row@.len() == x,
                    forall|i: int|
                        0 <= i < x ==> (#[trigger] row@[i]) == init_cell(size as int, i, y as int),
                decreases size - x,
            {
                let c = if y == 0 {
                    Cell::Black
                } else if y == size - 1 {
                    Cell::White
                } else if x == (size - 1) / 2 && y == (size - 1) / 2 {
                    Cell::Neutron
                } else {
                    Cell::Empty
                };
                row.push(c);
                x = x + 1;
            }
            grid.push(row);
            y = y + 1;
        }
        let b = Board { grid, size };
        proof {
            assert(b@ =~~= initial_grid(size as int));
            lemma_initial_grid_valid(size as int);
        }
        Ok(b)
    }

    /// A board of the classic size, 5 by 5.
    pub fn new_classic() -> (b: Board)
        ensures
            b.wf() && b.spec_size() == 5 && b@ == initial_grid(5) && spec_valid_counts(b@, 5),
    {
        Board::new(5).unwrap()
    }

    /// A board of the big size, 7 by 7.
    pub fn new_big() -> (b: Board)
        ensures
            b.wf() && b.spec_size() == 7 && b@ == initial_grid(7) && spec_valid_counts(b@, 7),
    {
        Board::new(7).unwrap()
    }

    /// Bounds-checked read: the cell at `cell_pos`, or nothing when the
    /// position lies off the board. Never fails.
    pub fn get(&self, cell_pos: (usize, usize)) -> (r: Option<&Cell>)
        requires
            self.wf(),
        ensures
            match r {
                Some(c) => in_bounds(self.spec_size(), cell_pos.0 as int, cell_pos.1 as int) && *c
                    == self@[cell_pos.1 as int][cell_pos.0 as int],
                None => !in_bounds(self.spec_size(), cell_pos.0 as int, cell_pos.1 as int),
            },
    {
        let (x, y) = cell_pos;
        if x >= self.size || y >= self.size {
            return None;
        }
        Some(&self.grid[y][x])
    }

    /// Read reserved for call sites that have already validated the
    /// position; out-of-range coordinates are a caller error, not a value.
    pub fn get_unchecked(&self, cell_pos: (usize, usize)) -> (r: &Cell)
        requires
            self.wf(),
            in_bounds(self.spec_size(), cell_pos.0 as int, cell_pos.1 as int),
        ensures
            *r == self@[cell_pos.1 as int][cell_pos.0 as int],
    {
        let (x, y) = cell_pos;
        &self.grid[y][x]
    }

    /// Unconditional write of one cell. An internal primitive: it re-checks
    /// no game invariant, and callers must have validated the position.
    pub fn set(&mut self, cell_pos: (usize, usize), cell_type: Cell)
        requires
            old(self).wf(),
            in_bounds(old(self).spec_size(), cell_pos.0 as int, cell_pos.1 as int),
        ensures
            final(self).wf(),
            final(self).spec_size() == old(self).spec_size(),
            final(self)@ == old(self)@.update(
                cell_pos.1 as int,
                old(self)@[cell_pos.1 as int].update(cell_pos.0 as int, cell_type),
            ),
    {
        let (x, y) = cell_pos;
        assert(y < self.grid@.len());
        assert(self@[y as int] == self.grid@[y as int]@);
        assert(x < self.grid@[y as int]@.len());
        let row: &mut Vec<Cell> = &mut self.grid[y];
        row[x] = cell_type;
        proof {
            assert(final(self)@ =~~= old(self)@.update(
                cell_pos.1 as int,
                old(self)@[cell_pos.1 as int].update(cell_pos.0 as int, cell_type),
            ));
        }
    }

    /// Whether one step from `(x, y)` by `(dx, dy)` lands on an empty cell
    /// of the board.
    pub(crate) fn is_open_toward(&self, x: usize, y: usize, dx: i8, dy: i8) -> (r: bool)
        requires
            self.wf(),
            in_bounds(self.spec_size(), x as int, y as int),
            -1 <= dx as int <= 1,
            -1 <= dy as int <= 1,
        ensures
            r == open_toward(self@, self.spec_size(), x as int, y as int, dx as int, dy as int),
    {
        if dx < 0 && x == 0 {
            return false;
        }
        if dx > 0 && x + 1 >= self.size {
            return false;
        }
        if dy < 0 && y == 0 {
            return false;
        }
        if dy > 0 && y + 1 >= self.size {
            return false;
        }
        let nx = if dx < 0 {
            x - 1
        } else if dx > 0 {
            x + 1
        } else {
            x
        };
        let ny = if dy < 0 {
            y - 1
        } else if dy > 0 {
            y + 1
        } else {
            y
        };
        let c = *self.get_unchecked((nx, ny));
        c == Cell::Empty
    }

    /// Whether the piece standing at `pos` cannot slide anywhere. This does
    /// not check that a piece actually stands there.
    fn is_piece_blocked(&self, pos: (usize, usize)) -> (r: bool)
        requires
            self.wf(),
            in_bounds(self.spec_size(), pos.0 as int, pos.1 as int),
        ensures
            r == blocked_at(self@, self.spec_size(), pos.0 as int, pos.1 as int),
    {
        let (x, y) = pos;
        if self.is_open_toward(x, y, -1, -1) {
            return false;
        }
        if self.is_open_toward(x, y, 0, -1) {
            return false;
        }
        if self.is_open_toward(x, y, 1, -1) {
            return false;
        }
        if self.is_open_toward(x, y, -1, 0) {
            return false;
        }
        if self.is_open_toward(x, y, 1, 0) {
            return false;
        }
        if self.is_open_toward(x, y, -1, 1) {
            return false;
        }
        if self.is_open_toward(x, y, 0, 1) {
            return false;
        }
        if self.is_open_toward(x, y, 1, 1) {
            return false;
        }
        true
    }

    /// Scan all cells once and check the piece counts: exactly `size` white,
    /// `size` black and exactly one neutron. A second neutron sighting is a
    /// corruption signal and fails the check immediately.
    pub fn is_valid(&self) -> (r: bool)
        requires
            self.wf(),
        ensures
            r == spec_valid_counts(self@, self.spec_size()),
    {
        let ghost g = self@;
        let size = self.size;
        let mut count_w: usize = 0;
        let mut count_b: usize = 0;
        let mut is_neutron: bool = false;
        let mut y: usize = 0;
        while y < size
            invariant
                self.wf(),
                size == self.size,
                g == self@,
                y <= size,
                count_w == count_grid(g.take(y as int), Cell::White),
                count_b == count_grid(g.take(y as int), Cell::Black),
                count_w <= size,
                count_b <= size,
                is_neutron <==> count_grid(g.take(y as int), Cell::Neutron) == 1,
                !is_neutron ==> count_grid(g.take(y as int), Cell::Neutron) == 0,
            decreases size - y,
        {
            let ghost row = g[y as int];
            let mut x: usize = 0;
            while x < size
                invariant
                    self.wf(),
                    size == self.size,
                    g == self@,
                    y < size,
                    row == g[y as int],
                    x <= size,
                    count_w == count_grid(g.take(y as int), Cell::White) + count_row(
                        row.take(x as int),
                        Cell::White,
                    ),
                    count_b == count_grid(g.take(y as int), Cell::Black) + count_row(
                        row.take(x as int),
                        Cell::Black,
                    ),
                    count_w <= size,
                    count_b <= size,
                    is_neutron <==> count_grid(g.take(y as int), Cell::Neutron) + count_row(
                        row.take(x as int),
                        Cell::Neutron,
                    ) == 1,
                    !is_neutron ==> count_grid(g.take(y as int), Cell::Neutron) + count_row(
                        row.take(x as int),
                        Cell::Neutron,
                    ) == 0,
                decreases size - x,
            {
                let cell = *self.get_unchecked((x, y));
                proof {
                    lemma_count_row_take_succ(row, Cell::White, x as int);
                    lemma_count_row_take_succ(row, Cell::Black, x as int);
                    lemma_count_row_take_succ(row, Cell::Neutron, x as int);
                    lemma_count_row_take_le(row, Cell::White, x + 1);
                    lemma_count_row_take_le(row, Cell::Black, x + 1);
                    lemma_count_row_take_le(row, Cell::Neutron, x + 1);
                    lemma_count_grid_take_succ(g, Cell::White, y as int);
                    lemma_count_grid_take_succ(g, Cell::Black, y as int);
                    lemma_count_grid_take_succ(g, Cell::Neutron, y as int);
                    lemma_count_grid_take_le(g, Cell::White, y + 1);
                    lemma_count_grid_take_le(g, Cell::Black, y + 1);
                    lemma_count_grid_take_le(g, Cell::Neutron, y + 1);
                }
                match cell {
                    Cell::White => {
                        if count_w == size {
                            return false;
                        }
                        count_w = count_w + 1;
                    },
                    Cell::Black => {
                        if count_b == size {
                            return false;
                        }
                        count_b = count_b + 1;
                    },
                    Cell::Neutron => {
                        if is_neutron {
                            return false;
                        }
                        is_neutron = true;
                    },
                    Cell::Empty => {},
                }
                x = x + 1;
            }
            proof {
                assert(row.take(size as int) =~= row);
                lemma_count_grid_take_succ(g, Cell::White, y as int);
                lemma_count_grid_take_succ(g, Cell::Black, y as int);
                lemma_count_grid_take_succ(g, Cell::Neutron, y as int);
            }
            y = y + 1;
        }
        proof {
            assert(g.take(size as int) =~= g);
        }
        count_b == size && count_w == size && is_neutron
    }

    /// The position `(x, y)` of the neutron, found by a linear scan. Must
    /// never be reached on a board without a neutron: that is a programming
    /// error, not a recoverable state.
    pub fn get_neutron(&self) -> (r: (usize, usize))
        requires
            self.wf(),
            count_grid(self@, Cell::Neutron) >= 1,
        ensures
            cell_is(self@, (r.0 as int, r.1 as int), Cell::Neutron),
            count_grid(self@, Cell::Neutron) == 1 ==> (r.0 as int, r.1 as int) == neutron_pos(
                self@,
            ),
    {
        let ghost g = self@;
        let size = self.size;
        let mut y: usize = 0;
        while y < size
            invariant
                self.wf(),
                size == self.size,
                g == self@,
                y <= size,
                forall|j: int, i: int|
                    0 <= j < y && 0 <= i < size ==> #[trigger] g[j][i] != Cell::Neutron,
            decreases size - y,
        {
            let mut x: usize = 0;
            while x < size
                invariant
                    self.wf(),
                    size == self.size,
                    g == self@,
                    y < size,
                    x <= size,
                    forall|j: int, i: int|
                        0 <= j < y && 0 <= i < size ==> #[trigger] g[j][i] != Cell::Neutron,
                    forall|i: int| 0 <= i < x ==> #[trigger] g[y as int][i] != Cell::Neutron,
                decreases size - x,
            {
                if *self.get_unchecked((x, y)) == Cell::Neutron {
                    proof {
                        if count_grid(g, Cell::Neutron) == 1 {
                            lemma_unique_cell(
                                g,
                                Cell::Neutron,
                                (x as int, y as int),
                                neutron_pos(g),
                            );
                        }
                    }
                    return (x, y);
                }
                x = x + 1;
            }
            y = y + 1;
        }
        proof {
            lemma_count_pos_exists(g, Cell::Neutron);
            let p = choose|p: (int, int)| cell_is(g, p, Cell::Neutron);
            assert(g[p.1].len() == size);
            assert(false);
        }
        vstd::pervasive::unreached()
    }

    /// Whether the neutron cannot be moved any more: none of the in-bounds
    /// neighbours of its cell is empty.
    pub fn is_neutron_blocked(&self) -> (r: bool)
        requires
            self.wf(),
            count_grid(self@, Cell::Neutron) == 1,
        ensures
            r == blocked_at(self@, self.spec_size(), neutron_pos(self@).0, neutron_pos(self@).1),
    {
        let pos = self.get_neutron();
        proof {
            assert(self@[pos.1 as int].len() == self.spec_size());
        }
        self.is_piece_blocked(pos)
    }

    /// The raw outcome: white when the neutron stands in the top row, black
    /// when it stands in the bottom row, the blocked signal when it cannot
    /// move, and nothing otherwise. Row checks take precedence over the
    /// blocked check.
    pub fn game_state(&self) -> (r: Option<Winner>)
        requires
            self.wf(),
            count_grid(self@, Cell::Neutron) == 1,
        ensures
            r == spec_board_state(self@, self.spec_size()),
    {
        let ghost g = self@;
        proof {
            lemma_count_pos_exists(g, Cell::Neutron);
            let p = choose|p: (int, int)| cell_is(g, p, Cell::Neutron);
            assert(g.len() > 0);
        }
        let size = self.size;
        let mut x: usize = 0;
        while x < size
            invariant
                self.wf(),
                size == self.size,
                g == self@,
                size >= 1,
                x <= size,
                forall|i: int| 0 <= i < x ==> #[trigger] g[0][i] != Cell::Neutron,
            decreases size - x,
        {
            if *self.get_unchecked((x, 0)) == Cell::Neutron {
                return Some(Winner::White);
            }
            x = x + 1;
        }
        proof {
            assert(!row_has(g[0], Cell::Neutron));
        }
        let mut x2: usize = 0;
        while x2 < size
            invariant
                self.wf(),
                size == self.size,
                g == self@,
                size >= 1,
                x2 <= size,
                !row_has(g[0], Cell::Neutron),
                forall|i: int| 0 <= i < x2 ==> #[trigger] g[size - 1][i] != Cell::Neutron,
            decreases size - x2,
        {
            if *self.get_unchecked((x2, size - 1)) == Cell::Neutron {
                return Some(Winner::Black);
            }
            x2 = x2 + 1;
        }
        proof {
            assert(!row_has(g[size - 1], Cell::Neutron));
        }
        if self.is_neutron_blocked() {
            Some(Winner::NeutronIsBlocked)
        } else {
            None
        }
    }

    /// The side length of the board.
    pub fn get_size(&self) -> (s: usize)
        ensures
            s as int == self.spec_size(),
    {
        self.size
    }
}

} // verus!
