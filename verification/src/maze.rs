//! The grid maze and its well-formedness.
//!
//! A maze is a rectangular grid of cells; a cell holding [`OPEN_CELL`] is
//! traversable, any other character is a solid cell carrying a texture
//! identifier. The engine requires a maze whose boundary is entirely solid,
//! so a ray walked from an interior cell always stops before leaving the
//! grid; [`validate_maze`] checks exactly that once, at load time.

use vstd::prelude::*;

verus! {

/// The character of a traversable cell.
pub const OPEN_CELL: char = ' ';

/// The goal marker: a solid cell that ends the game once it is unlocked.
pub const GOAL_CELL: char = 'g';

/// Upper bound on either maze dimension, so that every coordinate
/// computation in the engine stays far from overflow.
pub const MAX_MAZE_DIM: usize = 4096;

/// A maze: rows of cells, addressed as `maze[row][column]`.
pub type Maze = Vec<Vec<char>>;

/// The mathematical view of a maze.
pub open spec fn maze_view(m: &Maze) -> Seq<Seq<char>> {
    m.deep_view()
}

/// The grid is non-degenerate, rectangular and within the size cap.
pub open spec fn maze_dims_ok(m: Seq<Seq<char>>) -> bool {
    &&& 3 <= m.len() <= MAX_MAZE_DIM
    &&& 3 <= m[0].len() <= MAX_MAZE_DIM
    &&& forall|j: int| 0 <= j < m.len() ==> (#[trigger] m[j]).len() == m[0].len()
}

/// Every cell of the first and last row and of the first and last column is
/// solid.
pub open spec fn maze_enclosed(m: Seq<Seq<char>>) -> bool {
    &&& forall|i: int|
        0 <= i < m[0].len() ==> m[0][i] != OPEN_CELL && m[m.len() - 1][i] != OPEN_CELL
    &&& forall|j: int|
        0 <= j < m.len() ==> (#[trigger] m[j])[0] != OPEN_CELL && m[j][m[0].len() - 1] != OPEN_CELL
}

/// A maze the engine may walk: rectangular, bounded, fully wall-enclosed.
pub open spec fn maze_wf(m: Seq<Seq<char>>) -> bool {
    maze_dims_ok(m) && maze_enclosed(m)
}

/// The cell at `(row, col)` is in bounds and traversable.
pub open spec fn cell_open(m: Seq<Seq<char>>, row: int, col: int) -> bool {
    &&& 0 <= row < m.len()
    &&& 0 <= col < m[0].len()
    &&& m[row][col] == OPEN_CELL
}

/// In a well-formed maze an open cell is strictly inside the boundary.
pub proof fn lemma_open_cell_interior(m: Seq<Seq<char>>, row: int, col: int)
    requires
        maze_wf(m),
        cell_open(m, row, col),
    ensures
        1 <= row < m.len() - 1,
        1 <= col < m[0].len() - 1,
{
    assert(m[0][col] != OPEN_CELL);
    assert(m[m.len() - 1][col] != OPEN_CELL);
    assert(m[row][0] != OPEN_CELL);
    assert(m[row][m[0].len() - 1] != OPEN_CELL);
}

/// The deep view of one row agrees with the row vector's own view.
pub proof fn lemma_row_view(m: &Maze, j: int)
    requires
        0 <= j < maze_view(m).len(),
    ensures
        maze_view(m).len() == m@.len(),
        maze_view(m)[j].len() == m@[j]@.len(),
        forall|i: int| 0 <= i < m@[j]@.len() ==> maze_view(m)[j][i] == m@[j]@[i],
{
    assert(maze_view(m)[j] == m@[j].deep_view());
}

/// Reads one cell.
pub fn cell_at(m: &Maze, row: usize, col: usize) -> (c: char)
    requires
        row < maze_view(m).len(),
        col < maze_view(m)[row as int].len(),
    ensures
        c == maze_view(m)[row as int][col as int],
{
    proof {
        lemma_row_view(m, row as int);
    }
    m[row][col]
}

/// The number of rows.
pub fn maze_rows(m: &Maze) -> (n: usize)
    ensures
        n == maze_view(m).len(),
{
    m.len()
}

/// The number of columns of one row.
pub fn maze_cols(m: &Maze, row: usize) -> (n: usize)
    requires
        row < maze_view(m).len(),
    ensures
        n == maze_view(m)[row as int].len(),
{
    proof {
        lemma_row_view(m, row as int);
    }
    m[row].len()
}

/// Load-time validation: accepts exactly the well-formed mazes, so that an
/// unenclosed boundary is a load-time error instead of a runtime fault.
pub fn validate_maze(m: &Maze) -> (ok: bool)
    ensures
        ok <==> maze_wf(maze_view(m)),
{
    let rows = maze_rows(m);
    if rows < 3 || rows > MAX_MAZE_DIM {
        return false;
    }
    let cols = maze_cols(m, 0);
    if cols < 3 || cols > MAX_MAZE_DIM {
        return false;
    }
    let mut j: usize = 0;
    while j < rows
        invariant
            rows == maze_view(m).len(),
            3 <= rows <= MAX_MAZE_DIM,
            3 <= cols <= MAX_MAZE_DIM,
            cols == maze_view(m)[0].len(),
            j <= rows,
            forall|t: int| 0 <= t < j ==> (#[trigger] maze_view(m)[t]).len() == cols,
        decreases rows - j,
    {
        if maze_cols(m, j) != cols {
            return false;
        }
        j = j + 1;
    }
    assert(maze_dims_ok(maze_view(m)));
    let mut i: usize = 0;
    while i < cols
        invariant
            maze_dims_ok(maze_view(m)),
            rows == maze_view(m).len(),
            cols == maze_view(m)[0].len(),
            i <= cols,
            forall|t: int|
                0 <= t < i ==> maze_view(m)[0][t] != OPEN_CELL && maze_view(m)[rows - 1][t]
                    != OPEN_CELL,
        decreases cols - i,
    {
        assert(maze_view(m)[rows - 1].len() == cols);
        if cell_at(m, 0, i) == OPEN_CELL || cell_at(m, rows - 1, i) == OPEN_CELL {
            return false;
        }
        i = i + 1;
    }
    let mut j: usize = 0;
    while j < rows
        invariant
            maze_dims_ok(maze_view(m)),
            rows == maze_view(m).len(),
            cols == maze_view(m)[0].len(),
            j <= rows,
            forall|i: int|
                0 <= i < cols ==> maze_view(m)[0][i] != OPEN_CELL && maze_view(m)[rows - 1][i]
                    != OPEN_CELL,
            forall|t: int|
                0 <= t < j ==> (#[trigger] maze_view(m)[t])[0] != OPEN_CELL && maze_view(
                    m,
                )[t][cols - 1] != OPEN_CELL,
        decreases rows - j,
    {
        assert(maze_view(m)[j as int].len() == cols);
        if cell_at(m, j, 0) == OPEN_CELL || cell_at(m, j, cols - 1) == OPEN_CELL {
            return false;
        }
        j = j + 1;
    }
    true
}

} // verus!
