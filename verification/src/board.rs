//! The grid and what can be said of it: bounds, windows of four, landing
//! cells and the number of pieces.

use vstd::prelude::*;
use crate::game_config::PlayerNb;

verus! {

/// Number of columns.
pub const COL: usize = 7;

/// Number of rows.
pub const ROW: usize = 6;

/// Number of cells, and so the largest number of moves in a match.
pub const NB_TURNS: usize = 42;

/// The grid, row by row; `None` is an empty cell. Pieces fall towards the
/// highest row index.
pub type Grid = [[Option<PlayerNb>; COL]; ROW];

/// `(x, y)` names a cell of the grid.
pub open spec fn in_bounds(x: int, y: int) -> bool {
    0 <= x < COL && 0 <= y < ROW
}

/// What the cell in column `x` and row `y` holds.
pub open spec fn cell(grid: Grid, x: int, y: int) -> Option<PlayerNb>
    recommends
        in_bounds(x, y),
{
    grid[y][x]
}

/// The cell `at` is on the grid and holds a piece of `player`.
pub open spec fn owned(grid: Grid, player: PlayerNb, at: (int, int)) -> bool {
    in_bounds(at.0, at.1) && cell(grid, at.0, at.1) == Some(player)
}

/// The four line directions as steps `(dx, dy)`: horizontal, vertical and
/// the two diagonals.
pub open spec fn direction(d: int) -> (int, int)
    recommends
        0 <= d < 4,
{
    if d == 0 {
        (1, 0)
    } else if d == 1 {
        (0, 1)
    } else if d == 2 {
        (1, 1)
    } else {
        (1, -1)
    }
}

/// Cell number `i` of the window that runs in direction `d` and starts `s`
/// cells before `(x, y)`. Cell number `s` is `(x, y)` itself.
pub open spec fn window_cell(x: int, y: int, d: int, s: int, i: int) -> (int, int) {
    (x + (i - s) * direction(d).0, y + (i - s) * direction(d).1)
}

/// All four cells of the window are on the grid and belong to `player`.
pub open spec fn window_owned(grid: Grid, player: PlayerNb, x: int, y: int, d: int, s: int) -> bool {
    forall|i: int| 0 <= i < 4 ==> owned(grid, player, #[trigger] window_cell(x, y, d, s, i))
}

/// `player` has four in a row through `(x, y)`: one of the sixteen windows
/// (four directions, four alignments) is wholly theirs.
pub open spec fn has_four(grid: Grid, player: PlayerNb, x: int, y: int) -> bool {
    exists|d: int, s: int|
        0 <= d < 4 && 0 <= s < 4 && #[trigger] window_owned(grid, player, x, y, d, s)
}

/// Cell number `k` of the line that starts at `(sx, sy)` and runs in
/// direction `d`.
pub open spec fn line_cell(sx: int, sy: int, d: int, k: int) -> (int, int) {
    (sx + k * direction(d).0, sy + k * direction(d).1)
}

/// Four contiguous cells from `(sx, sy)` in direction `d`, all on the grid
/// and all of `player`.
pub open spec fn line_owned(grid: Grid, player: PlayerNb, sx: int, sy: int, d: int) -> bool {
    forall|k: int| 0 <= k < 4 ==> owned(grid, player, #[trigger] line_cell(sx, sy, d, k))
}

/// Some contiguous line of four cells of `player`, in one of the four
/// directions, passes through `(x, y)`.
pub open spec fn line_through(grid: Grid, player: PlayerNb, x: int, y: int) -> bool {
    exists|sx: int, sy: int, d: int, k: int|
        0 <= d < 4 && 0 <= k < 4 && #[trigger] line_cell(sx, sy, d, k) == (x, y) && line_owned(
            grid,
            player,
            sx,
            sy,
            d,
        )
}

/// A piece dropped into column `x` comes to rest in row `y`: that cell is
/// empty and every cell underneath it is taken.
pub open spec fn lands_at(grid: Grid, x: int, y: int) -> bool {
    &&& in_bounds(x, y)
    &&& cell(grid, x, y) is None
    &&& forall|below: int| y < below < ROW ==> (#[trigger] cell(grid, x, below)) is Some
}

/// Column `x` has no empty cell left.
pub open spec fn column_full(grid: Grid, x: int) -> bool {
    forall|y: int| 0 <= y < ROW ==> (#[trigger] cell(grid, x, y)) is Some
}

/// Pieces rest on the bottom row or on another piece: under a taken cell
/// no cell of its column is empty.
pub open spec fn settled(grid: Grid) -> bool {
    forall|x: int, y: int, below: int|
        #![trigger cell(grid, x, y), cell(grid, x, below)]
        in_bounds(x, y) && y < below < ROW && cell(grid, x, y) is Some ==> cell(grid, x, below)
            is Some
}

/// No cell of the grid holds a piece.
pub open spec fn all_empty(grid: Grid) -> bool {
    forall|x: int, y: int| in_bounds(x, y) ==> (#[trigger] cell(grid, x, y)) is None
}

/// Every cell of the grid holds a piece.
pub open spec fn all_taken(grid: Grid) -> bool {
    forall|x: int, y: int| in_bounds(x, y) ==> (#[trigger] cell(grid, x, y)) is Some
}

/// `after` is `before` with one more mark: the cell `(x, y)` now holds a
/// piece of `player`, and no other cell has changed.
pub open spec fn placed(before: Grid, after: Grid, x: int, y: int, player: PlayerNb) -> bool {
    &&& in_bounds(x, y)
    &&& cell(after, x, y) == Some(player)
    &&& forall|x2: int, y2: int|
        #![trigger cell(after, x2, y2)]
        #![trigger cell(before, x2, y2)]
        in_bounds(x2, y2) && (x2, y2) != (x, y) ==> cell(after, x2, y2) == cell(before, x2, y2)
}

/// Number of pieces among the first `n` cells, counted row by row.
pub open spec fn pieces_before(grid: Grid, n: int) -> int
    decreases n,
{
    if n <= 0 {
        0
    } else {
        pieces_before(grid, n - 1) + if cell(grid, (n - 1) % (COL as int), (n - 1) / (COL as int))
            is Some {
            1int
        } else {
            0int
        }
    }
}

/// Number of pieces on the grid.
pub open spec fn pieces(grid: Grid) -> int {
    pieces_before(grid, NB_TURNS as int)
}

/// A grid without any piece.
pub fn empty_grid() -> (grid: Grid)
    ensures
        all_empty(grid),
{
    [[None; COL]; ROW]
}

/// Marks the cell `(x, y)` for `player`, whatever it held, and touches no
/// other cell.
pub fn mark(grid: &mut Grid, x: usize, y: usize, player: PlayerNb)
    requires
        in_bounds(x as int, y as int),
    ensures
        placed(*old(grid), *final(grid), x as int, y as int, player),
{
    grid[y][x] = Some(player);
}

/// The step of direction `d` along one axis, moved `k` times from `base`.
fn shifted(base: usize, step: i8, k: i8) -> (at: i8)
    requires
        base < 7,
        -1 <= step <= 1,
        -3 <= k <= 3,
    ensures
        at == base + k * step,
{
    let b: i8 = base as i8;
    if step == 0 {
        assert(k * step == 0) by (nonlinear_arith)
            requires
                step == 0,
        ;
        b
    } else if step == 1 {
        assert(k * step == k) by (nonlinear_arith)
            requires
                step == 1,
        ;
        b + k
    } else {
        assert(k * step == -k) by (nonlinear_arith)
            requires
                step == -1,
        ;
        b - k
    }
}

/// The step `(dx, dy)` of direction number `d`.
fn direction_step(d: usize) -> (step: (i8, i8))
    requires
        d < 4,
    ensures
        step.0 == direction(d as int).0,
        step.1 == direction(d as int).1,
{
    if d == 0 {
        (1, 0)
    } else if d == 1 {
        (0, 1)
    } else if d == 2 {
        (1, 1)
    } else {
        (1, -1)
    }
}

/// Whether the cell `(cx, cy)`, which may lie off the grid, holds a piece of
/// `player`.
fn is_owned(grid: &Grid, player: PlayerNb, cx: i8, cy: i8) -> (yes: bool)
    ensures
        yes == owned(*grid, player, (cx as int, cy as int)),
{
    if cx < 0 || cy < 0 || cx >= 7 || cy >= 6 {
        return false;
    }
    let ux: usize = cx as usize;
    let uy: usize = cy as usize;
    match grid[uy][ux] {
        Some(p) => p == player,
        None => false,
    }
}

/// Checks one window: direction `d`, starting `s` cells before `(x, y)`.
pub fn window_is_owned(grid: &Grid, player: PlayerNb, x: usize, y: usize, d: usize, s: usize) -> (yes:
    bool)
    requires
        in_bounds(x as int, y as int),
        d < 4,
        s < 4,
    ensures
        yes == window_owned(*grid, player, x as int, y as int, d as int, s as int),
{
    let step = direction_step(d);
    let mut i: usize = 0;
    while i < 4
        invariant
            i <= 4,
            s < 4,
            d < 4,
            in_bounds(x as int, y as int),
            step.0 == direction(d as int).0,
            step.1 == direction(d as int).1,
            forall|j: int|
                0 <= j < i ==> owned(
                    *grid,
                    player,
                    #[trigger] window_cell(x as int, y as int, d as int, s as int, j),
                ),
        decreases 4 - i,
    {
        let k: i8 = i as i8 - s as i8;
        let cx = shifted(x, step.0, k);
        let cy = shifted(y, step.1, k);
        if !is_owned(grid, player, cx, cy) {
            assert(!owned(
                *grid,
                player,
                window_cell(x as int, y as int, d as int, s as int, i as int),
            ));
            return false;
        }
        i += 1;
    }
    true
}

/// Scans the sixteen windows through `(x, y)` for four pieces of `player`
/// in a row. A position off the grid is in no window that lies on it.
pub fn four_through(grid: &Grid, player: PlayerNb, x: usize, y: usize) -> (won: bool)
    ensures
        won == has_four(*grid, player, x as int, y as int),
{
    if x >= COL || y >= ROW {
        assert forall|d: int, s: int| 0 <= d < 4 && 0 <= s < 4 implies !#[trigger] window_owned(
            *grid,
            player,
            x as int,
            y as int,
            d,
            s,
        ) by {
            lemma_window_holds_position(x as int, y as int, d, s);
        }
        return false;
    }
    let mut d: usize = 0;
    while d < 4
        invariant
            d <= 4,
            in_bounds(x as int, y as int),
            forall|e: int, s: int|
                0 <= e < d && 0 <= s < 4 ==> !#[trigger] window_owned(
                    *grid,
                    player,
                    x as int,
                    y as int,
                    e,
                    s,
                ),
        decreases 4 - d,
    {
        let mut s: usize = 0;
        while s < 4
            invariant
                s <= 4,
                d < 4,
                in_bounds(x as int, y as int),
                forall|t: int|
                    0 <= t < s ==> !#[trigger] window_owned(
                        *grid,
                        player,
                        x as int,
                        y as int,
                        d as int,
                        t,
                    ),
            decreases 4 - s,
        {
            if window_is_owned(grid, player, x, y, d, s) {
                return true;
            }
            s += 1;
        }
        d += 1;
    }
    false
}

/// Every window through `(x, y)` has `(x, y)` as its cell number `s`.
pub proof fn lemma_window_holds_position(x: int, y: int, d: int, s: int)
    ensures
        window_cell(x, y, d, s, s) == (x, y),
{
}

/// Finds the row in which a piece dropped into column `x` comes to rest, the
/// lowest empty cell of the column, or `None` when the column is full.
pub fn landing_row(grid: &Grid, x: usize) -> (row: Option<usize>)
    requires
        x < 7,
    ensures
        row is None <==> column_full(*grid, x as int),
        row matches Some(y) ==> lands_at(*grid, x as int, y as int),
{
    let mut y: usize = ROW;
    while y > 0
        invariant
            y <= 6,
            x < 7,
            forall|below: int| y <= below < 6 ==> (#[trigger] cell(*grid, x as int, below)) is Some,
        decreases y,
    {
        y -= 1;
        if grid[y][x].is_none() {
            assert(cell(*grid, x as int, y as int) is None);
            return Some(y);
        }
    }
    None
}

/// Counts the pieces on the grid.
pub fn count_pieces(grid: &Grid) -> (n: usize)
    ensures
        n == pieces(*grid),
        n <= 42,
{
    let mut n: usize = 0;
    let mut i: usize = 0;
    while i < NB_TURNS
        invariant
            i <= 42,
            n <= i,
            n == pieces_before(*grid, i as int),
        decreases 42 - i,
    {
        let x: usize = i % COL;
        let y: usize = i / COL;
        if grid[y][x].is_some() {
            n += 1;
        }
        i += 1;
    }
    n
}

/// Moving `i - s` steps is moving `i` steps forward and `s` steps back.
proof fn lemma_shift_splits(i: int, s: int, step: int)
    ensures
        (i - s) * step == i * step - s * step,
{
    assert((i - s) * step == i * step - s * step) by (nonlinear_arith);
}

/// Four in a row, said two ways: one of the sixteen windows through
/// `(x, y)` is wholly `player`'s exactly when some line of four contiguous
/// cells of `player`, all on the grid, passes through `(x, y)` in one of the
/// four directions.
pub proof fn lemma_four_is_line_through(grid: Grid, player: PlayerNb, x: int, y: int)
    ensures
        has_four(grid, player, x, y) <==> line_through(grid, player, x, y),
{
    if has_four(grid, player, x, y) {
        let (d, s) = choose|d: int, s: int|
            0 <= d < 4 && 0 <= s < 4 && #[trigger] window_owned(grid, player, x, y, d, s);
        let sx = x - s * direction(d).0;
        let sy = y - s * direction(d).1;
        assert forall|k: int| 0 <= k < 4 implies owned(
            grid,
            player,
            #[trigger] line_cell(sx, sy, d, k),
        ) by {
            lemma_shift_splits(k, s, direction(d).0);
            lemma_shift_splits(k, s, direction(d).1);
            assert(line_cell(sx, sy, d, k) == window_cell(x, y, d, s, k));
        }
        assert(line_cell(sx, sy, d, s) == (x, y));
    }
    if line_through(grid, player, x, y) {
        let (sx, sy, d, k) = choose|sx: int, sy: int, d: int, k: int|
            0 <= d < 4 && 0 <= k < 4 && #[trigger] line_cell(sx, sy, d, k) == (x, y) && line_owned(
                grid,
                player,
                sx,
                sy,
                d,
            );
        assert forall|i: int| 0 <= i < 4 implies owned(
            grid,
            player,
            #[trigger] window_cell(x, y, d, k, i),
        ) by {
            lemma_shift_splits(i, k, direction(d).0);
            lemma_shift_splits(i, k, direction(d).1);
            assert(window_cell(x, y, d, k, i) == line_cell(sx, sy, d, i));
        }
        assert(window_owned(grid, player, x, y, d, k));
    }
}

/// A window with a cell off the grid never counts: four in a row is not
/// found across an edge.
pub proof fn lemma_window_off_grid(grid: Grid, player: PlayerNb, x: int, y: int, d: int, s: int, i: int)
    requires
        0 <= i < 4,
        !in_bounds(window_cell(x, y, d, s, i).0, window_cell(x, y, d, s, i).1),
    ensures
        !window_owned(grid, player, x, y, d, s),
{
    assert(!owned(grid, player, window_cell(x, y, d, s, i)));
}

/// Four in a row through `(x, y)` needs `(x, y)` itself to be on the grid
/// and to hold a piece of `player`; the opponent's pieces never count.
pub proof fn lemma_four_needs_own_piece(grid: Grid, player: PlayerNb, x: int, y: int)
    requires
        has_four(grid, player, x, y),
    ensures
        in_bounds(x, y),
        cell(grid, x, y) == Some(player),
        !has_four(grid, player.opponent(), x, y),
{
    let (d, s) = choose|d: int, s: int|
        0 <= d < 4 && 0 <= s < 4 && #[trigger] window_owned(grid, player, x, y, d, s);
    assert(owned(grid, player, window_cell(x, y, d, s, s)));
    assert forall|e: int, t: int| 0 <= e < 4 && 0 <= t < 4 implies !#[trigger] window_owned(
        grid,
        player.opponent(),
        x,
        y,
        e,
        t,
    ) by {
        assert(!owned(grid, player.opponent(), window_cell(x, y, e, t, t)));
    }
}

/// A column has at most one landing row, and it has one exactly when it is
/// not full.
pub proof fn lemma_landing_unique(grid: Grid, x: int, y1: int, y2: int)
    requires
        lands_at(grid, x, y1),
    ensures
        !column_full(grid, x),
        lands_at(grid, x, y2) ==> y1 == y2,
{
    assert(cell(grid, x, y1) is None);
    if lands_at(grid, x, y2) {
        if y1 < y2 {
            assert(cell(grid, x, y2) is Some);
        }
        if y2 < y1 {
            assert(cell(grid, x, y1) is Some);
        }
    }
}

/// Repeated drops fill a column bottom to top: once the landing cell
/// `(x, y)` of a settled grid is marked, the grid is settled again and the
/// next piece for column `x` lands directly above, or the column is full
/// when `y` was the top row. The landing rows of the other columns do not
/// move.
pub proof fn lemma_next_landing(before: Grid, after: Grid, x: int, y: int, player: PlayerNb)
    requires
        settled(before),
        lands_at(before, x, y),
        placed(before, after, x, y, player),
    ensures
        settled(after),
        y > 0 ==> lands_at(after, x, y - 1),
        y == 0 ==> column_full(after, x),
        forall|x2: int, y2: int|
            0 <= x2 < 7 && x2 != x ==> (lands_at(after, x2, y2) <==> lands_at(before, x2, y2)),
{
    assert forall|r: int| 0 <= r < 6 implies #[trigger] cell(after, x, r) is Some == (r >= y) by {
        if r < y {
            assert(cell(after, x, r) == cell(before, x, r));
            if cell(before, x, r) is Some {
                assert(cell(before, x, y) is Some);
            }
        } else if r > y {
            assert(cell(after, x, r) == cell(before, x, r));
        }
    }
    assert forall|cx: int, cy: int, below: int|
        #![trigger cell(after, cx, cy), cell(after, cx, below)]
        in_bounds(cx, cy) && cy < below < 6 && cell(after, cx, cy) is Some implies cell(
            after,
            cx,
            below,
        ) is Some by {
        if cx != x {
            assert(cell(after, cx, cy) == cell(before, cx, cy));
            assert(cell(after, cx, below) == cell(before, cx, below));
        }
    }
    assert forall|x2: int, y2: int| 0 <= x2 < 7 && x2 != x implies (lands_at(after, x2, y2)
        <==> lands_at(before, x2, y2)) by {
        if in_bounds(x2, y2) {
            assert(cell(after, x2, y2) == cell(before, x2, y2));
            assert forall|below: int| y2 < below < 6 implies (#[trigger] cell(after, x2, below))
                == cell(before, x2, below) by {}
        }
    }
}

/// Whatever the grid, marking the landing cell of a column never leaves
/// that cell as a landing cell: no later drop lands on a piece.
pub proof fn lemma_marked_cell_stays(before: Grid, after: Grid, x: int, y: int, player: PlayerNb)
    requires
        placed(before, after, x, y, player),
    ensures
        !lands_at(after, x, y),
        forall|y2: int| lands_at(before, x, y) && lands_at(after, x, y2) ==> y2 < y,
{
    assert forall|y2: int| lands_at(before, x, y) && lands_at(after, x, y2) implies y2 < y by {
        if y2 > y {
            assert(cell(after, x, y2) == cell(before, x, y2));
            assert(cell(before, x, y2) is Some);
        }
    }
}

/// The count over the first `n` cells lies between 0 and `n`, and reaches
/// `n` only when each of those cells is taken.
pub proof fn lemma_pieces_before_bound(grid: Grid, n: int)
    requires
        0 <= n <= 42,
    ensures
        0 <= pieces_before(grid, n) <= n,
        pieces_before(grid, n) == n <==> forall|i: int|
            0 <= i < n ==> (#[trigger] cell(grid, i % 7, i / 7)) is Some,
    decreases n,
{
    if n > 0 {
        lemma_pieces_before_bound(grid, n - 1);
        if pieces_before(grid, n) == n {
            assert forall|i: int| 0 <= i < n implies (#[trigger] cell(grid, i % 7, i / 7))
                is Some by {}
        } else if pieces_before(grid, n - 1) == n - 1 {
            assert(!(cell(grid, (n - 1) % 7, (n - 1) / 7) is Some));
        }
    }
}

/// The number of pieces is at most 42, and it is 42 exactly when every cell
/// is taken.
pub proof fn lemma_pieces_bound(grid: Grid)
    ensures
        0 <= pieces(grid) <= 42,
        pieces(grid) == 42 <==> all_taken(grid),
{
    lemma_pieces_before_bound(grid, 42);
    if pieces(grid) == 42 {
        assert forall|x: int, y: int| in_bounds(x, y) implies (#[trigger] cell(grid, x, y))
            is Some by {
            let i = y * 7 + x;
            assert(i % 7 == x && i / 7 == y);
            assert(cell(grid, i % 7, i / 7) is Some);
        }
    }
    if all_taken(grid) {
        assert forall|i: int| 0 <= i < 42 implies (#[trigger] cell(grid, i % 7, i / 7))
            is Some by {
            assert(in_bounds(i % 7, i / 7));
        }
    }
}

/// A grid without pieces counts zero.
pub proof fn lemma_pieces_of_empty(grid: Grid, n: int)
    requires
        all_empty(grid),
        0 <= n <= 42,
    ensures
        pieces_before(grid, n) == 0,
    decreases n,
{
    if n > 0 {
        lemma_pieces_of_empty(grid, n - 1);
        assert(in_bounds((n - 1) % 7, (n - 1) / 7));
    }
}

/// Marking a cell changes the count over the first `n` cells only when the
/// cell is among them and was empty: then by exactly one.
pub proof fn lemma_pieces_before_placed(
    before: Grid,
    after: Grid,
    x: int,
    y: int,
    player: PlayerNb,
    n: int,
)
    requires
        placed(before, after, x, y, player),
        cell(before, x, y) is None,
        0 <= n <= 42,
    ensures
        pieces_before(after, n) == pieces_before(before, n) + if n > y * 7 + x {
            1int
        } else {
            0int
        },
    decreases n,
{
    if n > 0 {
        lemma_pieces_before_placed(before, after, x, y, player, n - 1);
        let cx = (n - 1) % 7;
        let cy = (n - 1) / 7;
        assert(in_bounds(cx, cy));
        if n - 1 != y * 7 + x {
            assert((cx, cy) != (x, y));
            assert(cell(after, cx, cy) == cell(before, cx, cy));
        } else {
            assert(cx == x && cy == y);
        }
    }
}

/// Each piece placed on an empty cell raises the number of pieces by one.
pub proof fn lemma_pieces_placed(before: Grid, after: Grid, x: int, y: int, player: PlayerNb)
    requires
        placed(before, after, x, y, player),
        cell(before, x, y) is None,
    ensures
        pieces(after) == pieces(before) + 1,
        pieces(before) < 42,
{
    lemma_pieces_before_placed(before, after, x, y, player, 42);
    lemma_pieces_bound(after);
}

/// Checks that no piece of the grid hangs over an empty cell.
pub fn is_settled(grid: &Grid) -> (yes: bool)
    ensures
        yes == settled(*grid),
{
    let mut x: usize = 0;
    while x < COL
        invariant
            x <= 7,
            forall|cx: int, cy: int, below: int|
                #![trigger cell(*grid, cx, cy), cell(*grid, cx, below)]
                0 <= cx < x && 0 <= cy < below < 6 && cell(*grid, cx, cy) is Some ==> cell(
                    *grid,
                    cx,
                    below,
                ) is Some,
        decreases 7 - x,
    {
        let mut seen: bool = false;
        let ghost mut first: int = 0;
        let mut y: usize = 0;
        while y < ROW
            invariant
                y <= 6,
                x < 7,
                seen ==> 0 <= first < y && cell(*grid, x as int, first) is Some,
                !seen ==> forall|cy: int| 0 <= cy < y ==> (#[trigger] cell(*grid, x as int, cy))
                    is None,
                forall|cy: int, below: int|
                    #![trigger cell(*grid, x as int, cy), cell(*grid, x as int, below)]
                    0 <= cy < below < y && cell(*grid, x as int, cy) is Some ==> cell(
                        *grid,
                        x as int,
                        below,
                    ) is Some,
            decreases 6 - y,
        {
            if grid[y][x].is_some() {
                proof {
                    if !seen {
                        first = y as int;
                    }
                }
                seen = true;
            } else if seen {
                assert(cell(*grid, x as int, first) is Some && cell(*grid, x as int, y as int)
                    is None);
                return false;
            }
            y += 1;
        }
        x += 1;
    }
    true
}

} // verus!
