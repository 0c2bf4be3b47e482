//! The turn engine: it owns a board and the current turn, validates and
//! applies slide moves, and composes the board's raw win signal with the
//! turn context.

use vstd::prelude::*;

use crate::enums::{dir_delta, BoardError, Cell, Direction, GameError, Winner};
use crate::grid::{
    count_grid, grid_after_move, in_bounds, initial_grid, open_toward, spec_board_state,
    spec_valid_counts, Board,
};

verus! {

/// Whose turn it is and which piece class they must move. The schedule is
/// a fixed four-step cycle; there is no terminal turn state.
#[derive(Clone, Copy, PartialEq, Eq, Structural, Debug)]
pub enum Turn {
    WhiteNeutron,
    WhitePiece,
    BlackNeutron,
    BlackPiece,
}

/// The turn that follows `t` in the fixed cycle.
pub open spec fn next_turn(t: Turn) -> Turn {
    match t {
        Turn::WhiteNeutron => Turn::WhitePiece,
        Turn::WhitePiece => Turn::BlackNeutron,
        Turn::BlackNeutron => Turn::BlackPiece,
        Turn::BlackPiece => Turn::WhiteNeutron,
    }
}

/// How far a slide from `(x, y)` can possibly run in direction `(dx, dy)`
/// before leaving the board: the distance to the edge along a moving
/// coordinate. Only used as a termination measure.
pub open spec fn slide_room(size: int, x: int, y: int, dx: int, dy: int) -> int {
    if dx > 0 {
        size - 1 - x
    } else if dx < 0 {
        x
    } else if dy > 0 {
        size - 1 - y
    } else if dy < 0 {
        y
    } else {
        0
    }
}

/// The farthest position a piece standing at `(x, y)` reaches when sliding
/// in direction `(dx, dy)`: it advances one step at a time while the next
/// cell is on the board and empty, and stops at the first obstruction.
pub open spec fn slide_dest(g: Seq<Seq<Cell>>, size: int, x: int, y: int, dx: int, dy: int) -> (
    int,
    int,
)
    decreases slide_room(size, x, y, dx, dy),
{
    if dx == 0 && dy == 0 {
        (x, y)
    } else if open_toward(g, size, x, y, dx, dy) {
        slide_dest(g, size, x + dx, y + dy, dx, dy)
    } else {
        (x, y)
    }
}

/// Every cell reached from `(x, y)` by 1 to `k` steps along `(dx, dy)`
/// lies on the board and is empty.
pub open spec fn slide_path_clear(
    g: Seq<Seq<Cell>>,
    size: int,
    x: int,
    y: int,
    dx: int,
    dy: int,
    k: int,
) -> bool {
    forall|i: int|
        1 <= i <= k ==> in_bounds(size, x + i * dx, y + i * dy) && #[trigger] g[y + i * dy][x + i
            * dx] == Cell::Empty
}

/// Law: a maximal slide travels over empty in-bounds cells only and stops
/// exactly at the first obstruction: the destination lies `k` steps along
/// the direction, every cell passed over is empty, and no further step is
/// open from the destination — it is the board edge or an occupied cell,
/// never a fixed step count, that ends the slide.
pub proof fn lemma_slide_stops_at_first_obstruction(
    g: Seq<Seq<Cell>>,
    size: int,
    x: int,
    y: int,
    dx: int,
    dy: int,
)
    requires
        in_bounds(size, x, y),
        -1 <= dx <= 1,
        -1 <= dy <= 1,
        !(dx == 0 && dy == 0),
    ensures
        ({
            let (rx, ry) = slide_dest(g, size, x, y, dx, dy);
            &&& !open_toward(g, size, rx, ry, dx, dy)
            &&& exists|k: int|
                0 <= k && rx == x + k * dx && ry == y + k * dy && #[trigger] slide_path_clear(
                    g,
                    size,
                    x,
                    y,
                    dx,
                    dy,
                    k,
                )
        }),
    decreases slide_room(size, x, y, dx, dy),
{
    let (rx, ry) = slide_dest(g, size, x, y, dx, dy);
    if open_toward(g, size, x, y, dx, dy) {
        lemma_slide_stops_at_first_obstruction(g, size, x + dx, y + dy, dx, dy);
        let k0 = choose|k0: int|
            0 <= k0 && rx == (x + dx) + k0 * dx && ry == (y + dy) + k0 * dy
                && #[trigger] slide_path_clear(g, size, x + dx, y + dy, dx, dy, k0);
        let k = k0 + 1;
        assert(rx == x + k * dx && ry == y + k * dy) by (nonlinear_arith)
            requires
                rx == (x + dx) + k0 * dx,
                ry == (y + dy) + k0 * dy,
                k == k0 + 1,
        ;
        assert forall|i: int| 1 <= i <= k implies in_bounds(size, x + i * dx, y + i * dy)
            && #[trigger] g[y + i * dy][x + i * dx] == Cell::Empty by {
            if i == 1 {
                assert(x + 1 * dx == x + dx && y + 1 * dy == y + dy) by (nonlinear_arith);
            } else {
                let j = i - 1;
                assert(1 <= j <= k0);
                assert((x + dx) + j * dx == x + i * dx && (y + dy) + j * dy == y + i * dy)
                    by (nonlinear_arith)
                    requires
                        j == i - 1,
                ;
                assert(in_bounds(size, (x + dx) + j * dx, (y + dy) + j * dy) && g[(y + dy) + j
                    * dy][(x + dx) + j * dx] == Cell::Empty);
            }
        }
        assert(slide_path_clear(g, size, x, y, dx, dy, k));
        assert(0 <= k && rx == x + k * dx && ry == y + k * dy && slide_path_clear(
            g,
            size,
            x,
            y,
            dx,
            dy,
            k,
        ));
    } else {
        let k: int = 0;
        assert(rx == x + k * dx && ry == y + k * dy) by (nonlinear_arith)
            requires
                rx == x,
                ry == y,
                k == 0,
        ;
        assert(slide_path_clear(g, size, x, y, dx, dy, k));
        assert(0 <= k && rx == x + k * dx && ry == y + k * dy && slide_path_clear(
            g,
            size,
            x,
            y,
            dx,
            dy,
            k,
        ));
    }
}

/// The destination of a slide stays on the board, and unless the slide
/// never left its origin, the destination cell is empty.
pub proof fn lemma_slide_dest_props(
    g: Seq<Seq<Cell>>,
    size: int,
    x: int,
    y: int,
    dx: int,
    dy: int,
)
    requires
        in_bounds(size, x, y),
        -1 <= dx <= 1,
        -1 <= dy <= 1,
    ensures
        ({
            let (rx, ry) = slide_dest(g, size, x, y, dx, dy);
            &&& in_bounds(size, rx, ry)
            &&& (rx, ry) == (x, y) || g[ry][rx] == Cell::Empty
        }),
    decreases slide_room(size, x, y, dx, dy),
{
    if !(dx == 0 && dy == 0) && open_toward(g, size, x, y, dx, dy) {
        lemma_slide_dest_props(g, size, x + dx, y + dy, dx, dy);
    }
}

/// A game of Neutron: one board and the current turn. Created once,
/// mutated in place by exactly one move each round.
pub struct Game {
    board: Board,
    turn: Turn,
}

impl Game {
    /// The board this game is played on.
    pub closed spec fn spec_board(&self) -> Board {
        self.board
    }

    /// Whose turn it is and which piece class must move.
    pub closed spec fn spec_turn(&self) -> Turn {
        self.turn
    }

    /// The game's board is a square grid.
    pub open spec fn wf(&self) -> bool {
        self.spec_board().wf()
    }

    /// Create a game on a fresh board of the given size. White opens, and
    /// they open by moving one of their own pieces, not the neutron.
    pub fn new(size: usize) -> (r: Result<Game, BoardError>)
        ensures
            match r {
                Ok(game) => size % 2 == 1 && size != 1 && game.wf() && game.spec_turn()
                    == Turn::WhitePiece && game.spec_board().spec_size() == size
                    && game.spec_board()@ == initial_grid(size as int) && spec_valid_counts(
                    game.spec_board()@,
                    size as int,
                ),
                Err(BoardError::EvenSize) => size % 2 == 0,
                Err(BoardError::SizeOfOne) => size == 1,
            },
    {
        let board = Board::new(size);
        match board {
            Err(e) => Err(e),
            Ok(board) => Ok(Game { board, turn: Turn::WhitePiece }),
        }
    }

    /// A game on the classic 5 by 5 board.
    pub fn new_classic() -> (game: Game)
        ensures
            game.wf(),
            game.spec_turn() == Turn::WhitePiece,
            game.spec_board().spec_size() == 5,
            game.spec_board()@ == initial_grid(5),
            spec_valid_counts(game.spec_board()@, 5),
    {
        Game { board: Board::new_classic(), turn: Turn::WhitePiece }
    }

    /// A game on the big 7 by 7 board.
    pub fn new_big() -> (game: Game)
        ensures
            game.wf(),
            game.spec_turn() == Turn::WhitePiece,
            game.spec_board().spec_size() == 7,
            game.spec_board()@ == initial_grid(7),
            spec_valid_counts(game.spec_board()@, 7),
    {
        Game { board: Board::new_big(), turn: Turn::WhitePiece }
    }

    /// The turn-aware outcome of the game. The board's raw blocked signal
    /// is decisive only on a neutron turn: the side that did not just fail
    /// to move the neutron wins. Row wins pass through unchanged.
    pub open spec fn spec_game_state(&self) -> Option<Winner> {
        match spec_board_state(self.spec_board()@, self.spec_board().spec_size()) {
            Some(Winner::NeutronIsBlocked) => match self.spec_turn() {
                Turn::BlackNeutron => Some(Winner::White),
                Turn::WhiteNeutron => Some(Winner::Black),
                _ => None,
            },
            other => other,
        }
    }

    /// Whether the game is over and who won, composing the board's raw
    /// signal with the turn context.
    pub fn game_state(&self) -> (r: Option<Winner>)
        requires
            self.wf(),
            count_grid(self.spec_board()@, Cell::Neutron) == 1,
        ensures
            r == self.spec_game_state(),
    {
        match self.board.game_state() {
            Some(Winner::NeutronIsBlocked) => match self.turn {
                Turn::BlackNeutron => Some(Winner::White),
                Turn::WhiteNeutron => Some(Winner::Black),
                _ => None,
            },
            other => other,
        }
    }

    /// The farthest position the piece at `piece` reaches when sliding in
    /// `direction`.
    fn get_max_pos(&self, piece: (usize, usize), direction: Direction) -> (r: (usize, usize))
        requires
            self.wf(),
            in_bounds(self.spec_board().spec_size(), piece.0 as int, piece.1 as int),
        ensures
            ({
                let d = dir_delta(direction);
                (r.0 as int, r.1 as int) == slide_dest(
                    self.spec_board()@,
                    self.spec_board().spec_size(),
                    piece.0 as int,
                    piece.1 as int,
                    d.0,
                    d.1,
                )
            }),
    {
        let ghost g = self.spec_board()@;
        let n = self.board.get_size();
        let ghost size = self.spec_board().spec_size();
        let (dx, dy) = direction.displacement();
        let mut x = piece.0;
        let mut y = piece.1;
        while self.board.is_open_toward(x, y, dx, dy)
            invariant
                self.wf(),
                g == self.spec_board()@,
                size == self.spec_board().spec_size(),
                size == n as int,
                (dx as int, dy as int) == dir_delta(direction),
                in_bounds(size, x as int, y as int),
                slide_dest(g, size, x as int, y as int, dx as int, dy as int) == slide_dest(
                    g,
                    size,
                    piece.0 as int,
                    piece.1 as int,
                    dx as int,
                    dy as int,
                ),
            decreases slide_room(size, x as int, y as int, dx as int, dy as int),
        {
            if dx < 0 {
                x = x - 1;
            } else if dx > 0 {
                x = x + 1;
            }
            if dy < 0 {
                y = y - 1;
            } else if dy > 0 {
                y = y + 1;
            }
        }
        (x, y)
    }

    /// Move the piece standing at `cell_pos` as far as it slides in
    /// `direction`. The move is atomic: either the origin is cleared and
    /// the destination receives the moved piece, or nothing changes.
    /// Selecting an empty cell is a caller error; a direction with zero
    /// slide distance is a recoverable condition and leaves the board
    /// untouched, bit for bit.
    pub fn move_piece(&mut self, cell_pos: (usize, usize), direction: Direction) -> (r: Result<
        (),
        GameError,
    >)
        requires
            old(self).wf(),
            in_bounds(old(self).spec_board().spec_size(), cell_pos.0 as int, cell_pos.1 as int),
        ensures
            final(self).wf(),
            final(self).spec_turn() == old(self).spec_turn(),
            final(self).spec_board().spec_size() == old(self).spec_board().spec_size(),
            forall|c: Cell| #[trigger] count_grid(final(self).spec_board()@, c) == count_grid(
                old(self).spec_board()@,
                c,
            ),
            ({
                let g = old(self).spec_board()@;
                let size = old(self).spec_board().spec_size();
                let from = (cell_pos.0 as int, cell_pos.1 as int);
                let d = dir_delta(direction);
                let dest = slide_dest(g, size, from.0, from.1, d.0, d.1);
                match r {
                    Err(GameError::TryToMoveEmptyCell) => g[from.1][from.0] == Cell::Empty
                        && final(self).spec_board()@ == g,
                    Err(GameError::DidNotMoved) => g[from.1][from.0] != Cell::Empty && dest == from
                        && final(self).spec_board()@ == g,
                    Err(GameError::Invalid) => false,
                    Ok(()) => g[from.1][from.0] != Cell::Empty && dest != from && g[dest.1][dest.0]
                        == Cell::Empty && final(self).spec_board()@ == grid_after_move(
                        g,
                        from,
                        dest,
                    ),
                }
            }),
    {
        let ghost g = old(self).spec_board()@;
        let ghost size = old(self).spec_board().spec_size();
        let cell = *self.board.get_unchecked(cell_pos);
        if cell == Cell::Empty {
            return Err(GameError::TryToMoveEmptyCell);
        }
        let new_pos = self.get_max_pos(cell_pos, direction);
        proof {
            let d = dir_delta(direction);
            lemma_slide_dest_props(g, size, cell_pos.0 as int, cell_pos.1 as int, d.0, d.1);
        }
        if new_pos.0 == cell_pos.0 && new_pos.1 == cell_pos.1 {
            return Err(GameError::DidNotMoved);
        }
        self.board.set(cell_pos, Cell::Empty);
        self.board.set(new_pos, cell);
        proof {
            assert(final(self).spec_board()@ =~~= grid_after_move(
                g,
                (cell_pos.0 as int, cell_pos.1 as int),
                (new_pos.0 as int, new_pos.1 as int),
            ));
            crate::grid::lemma_move_preserves_counts(
                g,
                (cell_pos.0 as int, cell_pos.1 as int),
                (new_pos.0 as int, new_pos.1 as int),
            );
        }
        Ok(())
    }

    /// The current turn.
    pub fn get_turn(&self) -> (t: Turn)
        ensures
            t == self.spec_turn(),
    {
        self.turn
    }

    /// Advance the turn one step along the fixed cycle. The board is left
    /// untouched.
    pub fn advance_turn(&mut self)
        ensures
            final(self).spec_turn() == next_turn(old(self).spec_turn()),
            final(self).spec_board() == old(self).spec_board(),
    {
        self.turn = match self.turn {
            Turn::WhiteNeutron => Turn::WhitePiece,
            Turn::WhitePiece => Turn::BlackNeutron,
            Turn::BlackNeutron => Turn::BlackPiece,
            Turn::BlackPiece => Turn::WhiteNeutron,
        };
    }

    /// Whether `pos` selects a cell the player to move may pick on a piece
    /// turn: on the board and holding a piece of their own colour. On a
    /// neutron turn nothing is selectable — the neutron's position is not
    /// chosen.
    pub fn can_select(&self, pos: (usize, usize)) -> (r: bool)
        requires
            self.wf(),
        ensures
            r == (in_bounds(self.spec_board().spec_size(), pos.0 as int, pos.1 as int) && match (
            self.spec_board()@[pos.1 as int][pos.0 as int], self.spec_turn()) {
                (Cell::White, Turn::WhitePiece) => true,
                (Cell::Black, Turn::BlackPiece) => true,
                _ => false,
            }),
    {
        match self.board.get(pos) {
            None => false,
            Some(cell) => match (*cell, self.turn) {
                (Cell::White, Turn::WhitePiece) => true,
                (Cell::Black, Turn::BlackPiece) => true,
                _ => false,
            },
        }
    }

    /// The board, for read-only queries and rendering.
    pub fn get_board(&self) -> (b: &Board)
        ensures
            *b == self.spec_board(),
    {
        &self.board
    }
}

} // verus!


