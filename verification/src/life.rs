//! Conway's Game of Life on a torus: a rectangular grid of cells whose edges
//! are glued together, so that every cell has exactly eight neighbours.

use vstd::prelude::*;
use vstd::arithmetic::div_mod::{
    lemma_fundamental_div_mod,
    lemma_fundamental_div_mod_converse,
    lemma_mod_multiples_vanish,
    lemma_small_mod,
};

verus! {

/// The cells of a vector of rows, as a sequence of sequences.
pub open spec fn cells_of(rows: Vec<Vec<bool>>) -> Seq<Seq<bool>> {
    Seq::new(rows.len() as nat, |r: int| rows[r]@)
}

/// Every row of `g` has `cols` cells.
pub open spec fn rectangular(g: Seq<Seq<bool>>, cols: int) -> bool {
    forall|r: int| 0 <= r < g.len() ==> (#[trigger] g[r]).len() == cols
}

/// The place reached from `x` by `d` steps on a ring of `n` places.
pub open spec fn wrap(x: int, d: int, n: int) -> int {
    (x + d) % n
}

/// 1 if the cell `d_row` rows and `d_col` columns away from (`row`, `col`)
/// on the torus is alive, else 0.
pub open spec fn alive_at(g: Seq<Seq<bool>>, row: int, col: int, d_row: int, d_col: int) -> nat {
    let r = wrap(row, d_row, g.len() as int);
    let c = wrap(col, d_col, g[r].len() as int);
    if g[r][c] {
        1
    } else {
        0
    }
}

/// How many of the eight neighbours of (`row`, `col`) are alive.
pub open spec fn alive_neighbours(g: Seq<Seq<bool>>, row: int, col: int) -> nat {
    alive_at(g, row, col, -1, -1) + alive_at(g, row, col, -1, 0) + alive_at(g, row, col, -1, 1)
        + alive_at(g, row, col, 0, -1) + alive_at(g, row, col, 0, 1) + alive_at(g, row, col, 1, -1)
        + alive_at(g, row, col, 1, 0) + alive_at(g, row, col, 1, 1)
}

/// Conway's rule: a live cell survives with two or three live neighbours, a
/// dead cell comes alive with exactly three.
pub open spec fn rule(alive: bool, neighbours: nat) -> bool {
    if alive {
        neighbours == 2 || neighbours == 3
    } else {
        neighbours == 3
    }
}

/// The grid one generation after `g`.
pub open spec fn step(g: Seq<Seq<bool>>) -> Seq<Seq<bool>> {
    Seq::new(
        g.len(),
        |r: int| Seq::new(g[r].len(), |c: int| rule(g[r][c], alive_neighbours(g, r, c))),
    )
}

/// Whether the pattern `s`, laid with its first cell on (`top`, `left`),
/// covers the cell (`r`, `c`).
pub open spec fn covers(s: Seq<Seq<bool>>, top: int, left: int, r: int, c: int) -> bool {
    &&& top <= r < top + s.len()
    &&& left <= c < left + s[r - top].len()
}

/// The grid `g` with the pattern `s` written over it from (`top`, `left`);
/// what falls outside the grid is cut off.
pub open spec fn stamp(g: Seq<Seq<bool>>, top: int, left: int, s: Seq<Seq<bool>>) -> Seq<
    Seq<bool>,
> {
    Seq::new(
        g.len(),
        |r: int|
            Seq::new(
                g[r].len(),
                |c: int|
                    if covers(s, top, left, r, c) {
                        s[r - top][c - left]
                    } else {
                        g[r][c]
                    },
            ),
    )
}

/// The row and the column of the cell (`i`, `j`) of a pattern that is laid
/// with its first cell on (`top`, `left`).
pub open spec fn place(top: int, left: int, i: int, j: int) -> (int, int) {
    (top + i, left + j)
}

/// Every cell of the pattern `s`, laid with its first cell on (`top`,
/// `left`), has a row and a column that a `usize` can hold.
pub open spec fn addressable(s: Seq<Seq<bool>>, top: int, left: int) -> bool {
    forall|i: int, j: int|
        0 <= i < s.len() && 0 <= j < s[i].len() ==> {
            let at = #[trigger] place(top, left, i, j);
            at.0 <= usize::MAX && at.1 <= usize::MAX
        }
}

/// The glider, three rows of three cells.
pub open spec fn glider_pattern() -> Seq<Seq<bool>> {
    seq![seq![false, true, false], seq![false, false, true], seq![true, true, true]]
}

/// The lightweight spaceship, four rows of five cells.
pub open spec fn lightweight_spaceship_pattern() -> Seq<Seq<bool>> {
    seq![
        seq![false, true, true, true, true],
        seq![true, false, false, false, true],
        seq![false, false, false, false, true],
        seq![true, false, false, true, false],
    ]
}

/// The character that shows a cell.
pub open spec fn glyph(alive: bool) -> char {
    if alive {
        'o'
    } else {
        ' '
    }
}

/// Two patterns that share no cell may be written in either order: the
/// grid is the same after both, and it holds every cell of each pattern
/// that falls on the grid. Neither writing needs the other, and neither
/// disturbs what the other wrote.
pub proof fn lemma_disjoint_patterns_commute(
    g: Seq<Seq<bool>>,
    top1: int,
    left1: int,
    s1: Seq<Seq<bool>>,
    top2: int,
    left2: int,
    s2: Seq<Seq<bool>>,
)
    requires
        forall|r: int, c: int|
            !(#[trigger] covers(s1, top1, left1, r, c) && #[trigger] covers(s2, top2, left2, r, c)),
    ensures
        stamp(stamp(g, top1, left1, s1), top2, left2, s2) == stamp(
            stamp(g, top2, left2, s2),
            top1,
            left1,
            s1,
        ),
        forall|r: int, c: int|
            0 <= r < g.len() && 0 <= c < g[r].len() && #[trigger] covers(s1, top1, left1, r, c)
                ==> stamp(stamp(g, top1, left1, s1), top2, left2, s2)[r][c] == s1[r - top1][c
                - left1],
        forall|r: int, c: int|
            0 <= r < g.len() && 0 <= c < g[r].len() && #[trigger] covers(s2, top2, left2, r, c)
                ==> stamp(stamp(g, top1, left1, s1), top2, left2, s2)[r][c] == s2[r - top2][c
                - left2],
        forall|r: int, c: int|
            0 <= r < g.len() && 0 <= c < g[r].len() && !covers(s1, top1, left1, r, c) && !covers(
                s2,
                top2,
                left2,
                r,
                c,
            ) ==> #[trigger] stamp(stamp(g, top1, left1, s1), top2, left2, s2)[r][c] == g[r][c],
{
    let a = stamp(stamp(g, top1, left1, s1), top2, left2, s2);
    let b = stamp(stamp(g, top2, left2, s2), top1, left1, s1);
    assert forall|r: int, c: int| 0 <= r < g.len() && 0 <= c < g[r].len() implies a[r][c]
        == b[r][c] by {
        assert(!(covers(s1, top1, left1, r, c) && covers(s2, top2, left2, r, c)));
    }
    assert(a =~~= b);
}

/// A glider and a lightweight spaceship whose boxes share no cell may be
/// written in either order.
pub proof fn lemma_glider_and_spaceship_commute(
    g: Seq<Seq<bool>>,
    top1: int,
    left1: int,
    top2: int,
    left2: int,
)
    requires
        top1 + 3 <= top2 || top2 + 4 <= top1 || left1 + 3 <= left2 || left2 + 5 <= left1,
    ensures
        stamp(
            stamp(g, top1, left1, glider_pattern()),
            top2,
            left2,
            lightweight_spaceship_pattern(),
        ) == stamp(
            stamp(g, top2, left2, lightweight_spaceship_pattern()),
            top1,
            left1,
            glider_pattern(),
        ),
{
    lemma_disjoint_patterns_commute(
        g,
        top1,
        left1,
        glider_pattern(),
        top2,
        left2,
        lightweight_spaceship_pattern(),
    );
}

/// Walking `d` steps from `x` on a ring is walking them from `x % n`.
proof fn lemma_wrap_reduce(x: int, d: int, n: int)
    requires
        n > 0,
    ensures
        wrap(x, d, n) == wrap(x % n, d, n),
{
    lemma_fundamental_div_mod(x, n);
    lemma_mod_multiples_vanish(x / n, x % n + d, n);
}

/// The place before `x` on a ring of `n` places.
fn ring_prev(x: usize, n: usize) -> (r: usize)
    requires
        x < n,
    ensures
        r == wrap(x as int, -1, n as int),
        r < n,
{
    proof {
        if x == 0 {
            lemma_fundamental_div_mod_converse(-1, n as int, -1, n - 1);
        } else {
            lemma_small_mod((x - 1) as nat, n as nat);
        }
    }
    if x == 0 {
        n - 1
    } else {
        x - 1
    }
}

/// The place after `x` on a ring of `n` places.
fn ring_next(x: usize, n: usize) -> (r: usize)
    requires
        x < n,
    ensures
        r == wrap(x as int, 1, n as int),
        r < n,
{
    proof {
        if x + 1 == n {
            lemma_fundamental_div_mod_converse(n as int, n as int, 1, 0);
        } else {
            lemma_small_mod((x + 1) as nat, n as nat);
        }
    }
    if x + 1 == n {
        0
    } else {
        x + 1
    }
}

/// A row of `cols` dead cells.
fn dead_row(cols: usize) -> (row: Vec<bool>)
    ensures
        row@ == Seq::new(cols as nat, |c: int| false),
{
    let mut row: Vec<bool> = Vec::new();
    while row.len() < cols
        invariant
            row.len() <= cols,
            forall|c: int| 0 <= c < row.len() ==> !row[c],
        decreases cols - row.len(),
    {
        row.push(false);
    }
    assert(row@ =~= Seq::new(cols as nat, |c: int| false));
    row
}

/// A board of `rows` × `cols` cells on a torus.
pub struct GameOfLife {
    grid: Vec<Vec<bool>>,
    rows: usize,
    cols: usize,
}

impl View for GameOfLife {
    type V = Seq<Seq<bool>>;

    /// The cells, row by row.
    closed spec fn view(&self) -> Seq<Seq<bool>> {
        cells_of(self.grid)
    }
}

impl GameOfLife {
    /// The number of rows the board was made with.
    pub closed spec fn spec_rows(&self) -> nat {
        self.rows as nat
    }

    /// The number of columns the board was made with.
    pub closed spec fn spec_cols(&self) -> nat {
        self.cols as nat
    }

    /// The board holds `spec_rows()` rows of `spec_cols()` cells each.
    pub open spec fn wf(&self) -> bool {
        &&& self@.len() == self.spec_rows()
        &&& rectangular(self@, self.spec_cols() as int)
    }

    /// A board of `rows` × `cols` dead cells.
    pub fn new(rows: usize, cols: usize) -> (game: GameOfLife)
        ensures
            game.wf(),
            game.spec_rows() == rows,
            game.spec_cols() == cols,
            game@ == Seq::new(rows as nat, |r: int| Seq::new(cols as nat, |c: int| false)),
    {
        let mut grid: Vec<Vec<bool>> = Vec::new();
        while grid.len() < rows
            invariant
                grid.len() <= rows,
                forall|r: int|
                    0 <= r < grid.len() ==> (#[trigger] grid[r])@ == Seq::new(
                        cols as nat,
                        |c: int| false,
                    ),
            decreases rows - grid.len(),
        {
            grid.push(dead_row(cols));
        }
        let game = GameOfLife { grid, rows, cols };
        assert(game@ =~= Seq::new(rows as nat, |r: int| Seq::new(cols as nat, |c: int| false)));
        game
    }

    /// The number of rows.
    pub fn rows(&self) -> (n: usize)
        ensures
            n == self.spec_rows(),
    {
        self.rows
    }

    /// The number of columns.
    pub fn cols(&self) -> (n: usize)
        ensures
            n == self.spec_cols(),
    {
        self.cols
    }

    /// The cell at (`row`, `col`), or `None` outside the board.
    pub fn cell(&self, row: usize, col: usize) -> (found: Option<bool>)
        requires
            self.wf(),
        ensures
            found == if row < self.spec_rows() && col < self.spec_cols() {
                Some(self@[row as int][col as int])
            } else {
                None
            },
    {
        if row < self.rows && col < self.cols {
            assert(self@[row as int].len() == self.cols);
            Some(self.grid[row][col])
        } else {
            None
        }
    }

    /// Counts the live cells among the eight neighbours of (`row`, `col`),
    /// the board's edges wrapping round.
    pub fn count_alive_neighbours(&self, row: usize, col: usize) -> (count: usize)
        requires
            self.wf(),
            self.spec_rows() > 0,
            self.spec_cols() > 0,
        ensures
            count == alive_neighbours(self@, row as int, col as int),
            count <= 8,
    {
        let mid = row % self.rows;
        let centre = col % self.cols;
        let up = ring_prev(mid, self.rows);
        let down = ring_next(mid, self.rows);
        let left = ring_prev(centre, self.cols);
        let right = ring_next(centre, self.cols);
        proof {
            let n = self.rows as int;
            let m = self.cols as int;
            lemma_wrap_reduce(row as int, -1, n);
            lemma_wrap_reduce(row as int, 0, n);
            lemma_wrap_reduce(row as int, 1, n);
            lemma_wrap_reduce(col as int, -1, m);
            lemma_wrap_reduce(col as int, 0, m);
            lemma_wrap_reduce(col as int, 1, m);
            lemma_small_mod(mid as nat, n as nat);
            lemma_small_mod(centre as nat, m as nat);
            assert(self@[up as int].len() == m);
            assert(self@[mid as int].len() == m);
            assert(self@[down as int].len() == m);
        }
        let mut count: usize = 0;
        if self.grid[up][left] {
            count += 1;
        }
        if self.grid[up][centre] {
            count += 1;
        }
        if self.grid[up][right] {
            count += 1;
        }
        if self.grid[mid][left] {
            count += 1;
        }
        if self.grid[mid][right] {
            count += 1;
        }
        if self.grid[down][left] {
            count += 1;
        }
        if self.grid[down][centre] {
            count += 1;
        }
        if self.grid[down][right] {
            count += 1;
        }
        count
    }

    /// Replaces the board by its next generation: every cell is judged by
    /// Conway's rule against the board as it was before the call.
    pub fn next_generation(&mut self)
        requires
            old(self).wf(),
        ensures
            final(self).wf(),
            final(self).spec_rows() == old(self).spec_rows(),
            final(self).spec_cols() == old(self).spec_cols(),
            final(self)@ == step(old(self)@),
    {
        let mut new_grid: Vec<Vec<bool>> = Vec::new();
        let mut row: usize = 0;
        while row < self.rows
            invariant
                *self == *old(self),
                self.wf(),
                row <= self.rows,
                new_grid.len() == row,
                forall|r: int| 0 <= r < row ==> (#[trigger] new_grid[r])@ == step(self@)[r],
            decreases self.rows - row,
        {
            let mut line: Vec<bool> = Vec::new();
            let mut col: usize = 0;
            assert(self@[row as int].len() == self.cols);
            while col < self.cols
                invariant
                    *self == *old(self),
                    self.wf(),
                    row < self.rows,
                    col <= self.cols,
                    line.len() == col,
                    self@[row as int].len() == self.cols,
                    forall|c: int|
                        0 <= c < col ==> #[trigger] line[c] == rule(
                            self@[row as int][c],
                            alive_neighbours(self@, row as int, c),
                        ),
                decreases self.cols - col,
            {
                let alive_neighbours = self.count_alive_neighbours(row, col);
                let alive = self.grid[row][col];
                let next = if alive {
                    alive_neighbours == 2 || alive_neighbours == 3
                } else {
                    alive_neighbours == 3
                };
                line.push(next);
                col += 1;
            }
            assert(line@ =~= step(self@)[row as int]);
            new_grid.push(line);
            row += 1;
        }
        self.grid = new_grid;
        assert(self@ =~= step(old(self)@));
    }

    /// Writes the pattern `structure` over the board, its first cell on
    /// (`top_left_row`, `top_left_col`). Cells of the pattern that fall
    /// outside the board are dropped; the rows of the pattern may differ in
    /// length.
    pub fn spawn_structure(
        &mut self,
        top_left_row: usize,
        top_left_col: usize,
        structure: Vec<Vec<bool>>,
    )
        requires
            old(self).wf(),
            addressable(cells_of(structure), top_left_row as int, top_left_col as int),
        ensures
            final(self).wf(),
            final(self).spec_rows() == old(self).spec_rows(),
            final(self).spec_cols() == old(self).spec_cols(),
            final(self)@ == stamp(
                old(self)@,
                top_left_row as int,
                top_left_col as int,
                cells_of(structure),
            ),
    {
        let ghost before = self@;
        let ghost s = cells_of(structure);
        let ghost top = top_left_row as int;
        let ghost left = top_left_col as int;
        let mut i: usize = 0;
        while i < structure.len()
            invariant
                self.wf(),
                self.rows == old(self).rows,
                self.cols == old(self).cols,
                before == old(self)@,
                before.len() == self.rows,
                rectangular(before, self.cols as int),
                s == cells_of(structure),
                top == top_left_row,
                left == top_left_col,
                i <= structure.len(),
                addressable(s, top, left),
                forall|r: int, c: int|
                    0 <= r < self.rows && 0 <= c < self.cols ==> #[trigger] self@[r][c] == if covers(
                        s,
                        top,
                        left,
                        r,
                        c,
                    ) && r - top < i {
                        s[r - top][c - left]
                    } else {
                        before[r][c]
                    },
            decreases structure.len() - i,
        {
            let mut j: usize = 0;
            while j < structure[i].len()
                invariant
                    self.wf(),
                    self.rows == old(self).rows,
                    self.cols == old(self).cols,
                    before.len() == self.rows,
                    rectangular(before, self.cols as int),
                    s == cells_of(structure),
                    top == top_left_row,
                    left == top_left_col,
                    i < structure.len(),
                    j <= structure[i as int].len(),
                    addressable(s, top, left),
                    forall|r: int, c: int|
                        0 <= r < self.rows && 0 <= c < self.cols ==> #[trigger] self@[r][c]
                            == if covers(s, top, left, r, c) && (r - top < i || (r - top == i && c
                            - left < j)) {
                            s[r - top][c - left]
                        } else {
                            before[r][c]
                        },
                decreases structure[i as int].len() - j,
            {
                let cell = structure[i][j];
                assert(place(top, left, i as int, j as int) == (top + i, left + j));
                let row = top_left_row + i;
                let col = top_left_col + j;
                if row < self.rows && col < self.cols {
                    let ghost prior = self@;
                    assert(self@[row as int].len() == self.cols);
                    self.grid[row][col] = cell;
                    assert(self@.len() == prior.len());
                    assert forall|r: int| 0 <= r < self@.len() implies #[trigger] self@[r]
                        == if r == row {
                        prior[r].update(col as int, cell)
                    } else {
                        prior[r]
                    } by {}
                }
                j += 1;
            }
            i += 1;
        }
        assert(self@ =~~= stamp(before, top, left, s));
    }

    /// Writes a glider over the board, its first cell on (`top_left_row`,
    /// `top_left_col`).
    pub fn spawn_glider(&mut self, top_left_row: usize, top_left_col: usize)
        requires
            old(self).wf(),
            top_left_row + 2 <= usize::MAX,
            top_left_col + 2 <= usize::MAX,
        ensures
            final(self).wf(),
            final(self).spec_rows() == old(self).spec_rows(),
            final(self).spec_cols() == old(self).spec_cols(),
            final(self)@ == stamp(
                old(self)@,
                top_left_row as int,
                top_left_col as int,
                glider_pattern(),
            ),
    {
        let glider = vec![
            vec![false, true, false],
            vec![false, false, true],
            vec![true, true, true],
        ];
        assert(cells_of(glider) =~~= glider_pattern());
        self.spawn_structure(top_left_row, top_left_col, glider);
    }

    /// Writes a lightweight spaceship over the board, its first cell on
    /// (`top_left_row`, `top_left_col`).
    pub fn spawn_lightweight_spaceship(&mut self, top_left_row: usize, top_left_col: usize)
        requires
            old(self).wf(),
            top_left_row + 3 <= usize::MAX,
            top_left_col + 4 <= usize::MAX,
        ensures
            final(self).wf(),
            final(self).spec_rows() == old(self).spec_rows(),
            final(self).spec_cols() == old(self).spec_cols(),
            final(self)@ == stamp(
                old(self)@,
                top_left_row as int,
                top_left_col as int,
                lightweight_spaceship_pattern(),
            ),
    {
        let lwss = vec![
            vec![false, true, true, true, true],
            vec![true, false, false, false, true],
            vec![false, false, false, false, true],
            vec![true, false, false, true, false],
        ];
        assert(cells_of(lwss) =~~= lightweight_spaceship_pattern());
        self.spawn_structure(top_left_row, top_left_col, lwss);
    }

    /// The board as characters, row by row: `'o'` for a live cell, a space
    /// for a dead one.
    pub fn frame(&self) -> (lines: Vec<Vec<char>>)
        requires
            self.wf(),
        ensures
            lines.len() == self.spec_rows(),
            forall|r: int|
                0 <= r < lines.len() ==> (#[trigger] lines[r])@ == Seq::new(
                    self.spec_cols(),
                    |c: int| glyph(self@[r][c]),
                ),
    {
        let mut lines: Vec<Vec<char>> = Vec::new();
        let mut row: usize = 0;
        while row < self.rows
            invariant
                self.wf(),
                row <= self.rows,
                lines.len() == row,
                forall|r: int|
                    0 <= r < row ==> (#[trigger] lines[r])@ == Seq::new(
                        self.spec_cols(),
                        |c: int| glyph(self@[r][c]),
                    ),
            decreases self.rows - row,
        {
            let mut line: Vec<char> = Vec::new();
            let mut col: usize = 0;
            assert(self@[row as int].len() == self.cols);
            while col < self.cols
                invariant
                    self.wf(),
                    row < self.rows,
                    col <= self.cols,
                    line.len() == col,
                    self@[row as int].len() == self.cols,
                    forall|c: int|
                        0 <= c < col ==> #[trigger] line[c] == glyph(self@[row as int][c]),
                decreases self.cols - col,
            {
                let shown = if self.grid[row][col] {
                    'o'
                } else {
                    ' '
                };
                line.push(shown);
                col += 1;
            }
            assert(line@ =~= Seq::new(self.spec_cols(), |c: int| glyph(self@[row as int][c])));
            lines.push(line);
            row += 1;
        }
        lines
    }
}

} // verus!
