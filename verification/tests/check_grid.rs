use power4::board::{Grid, COL, ROW};
use power4::game_config::{Player, PlayerKind, PlayerNb};
use power4::game_master::{GameMaster, Position};

const A: Option<PlayerNb> = Some(PlayerNb::P1);
const B: Option<PlayerNb> = Some(PlayerNb::P2);
const O: Option<PlayerNb> = None;

fn assert_success_3_2(grid: Grid) {
    assert_eq!(true, make_grid(grid).check_success(Position { x: 3, y: 2 }));
}

fn assert_no_success_3_2(grid: Grid) {
    assert_eq!(false, make_grid(grid).check_success(Position { x: 3, y: 2 }));
}

fn make_grid(grid: Grid) -> GameMaster {
    assert_eq!(grid.len(), ROW);
    assert_eq!(grid[0].len(), COL);
    GameMaster::from_parts(
        grid,
        Player { nb: PlayerNb::P1, kind: PlayerKind::User },
        Player { nb: PlayerNb::P2, kind: PlayerKind::User },
        PlayerNb::P1,
        0,
    )
}

#[test]
fn test_check_empty_grid() {
    assert_no_success_3_2([
        [O, O, O, O, O, O, O],
        [O, O, O, O, O, O, O],
        [O, O, O, O, O, O, O],
        [O, O, O, O, O, O, O],
        [O, O, O, O, O, O, O],
        [O, O, O, O, O, O, O],
    ]);
}

#[test]
fn test_check_success_vertical() {
    assert_success_3_2([
        [O, O, O, O, O, O, O],
        [O, O, O, O, O, O, O],
        [O, O, O, A, O, O, O],
        [O, O, O, A, O, O, O],
        [O, O, O, A, O, O, O],
        [O, O, O, A, O, O, O],
    ]);
}

#[test]
fn test_check_success_vertical_top() {
    assert_success_3_2([
        [O, O, O, A, O, O, O],
        [O, O, O, A, O, O, O],
        [O, O, O, A, O, O, O],
        [O, O, O, A, O, O, O],
        [O, O, O, B, O, O, O],
        [O, O, O, B, O, O, O],
    ]);
}

#[test]
fn test_check_no_success_vertical_non_continuous() {
    assert_no_success_3_2([
        [O, O, O, O, O, O, O],
        [O, O, O, A, O, O, O],
        [O, O, O, B, O, O, O],
        [O, O, O, A, O, O, O],
        [O, O, O, A, O, O, O],
        [O, O, O, A, O, O, O],
    ]);
}

#[test]
fn test_check_success_horizontal() {
    assert_success_3_2([
        [O, O, O, A, O, O, O],
        [O, O, O, B, O, O, O],
        [O, A, A, A, A, O, O],
        [O, B, B, A, A, O, O],
        [O, A, B, B, B, O, O],
        [O, B, B, B, A, O, O],
    ]);
}

#[test]
fn test_check_no_success_horizontal_missing() {
    assert_no_success_3_2([
        [O, O, O, A, O, O, O],
        [O, O, O, B, O, O, O],
        [O, B, A, A, A, O, O],
        [O, B, B, A, A, O, O],
        [O, A, B, B, B, O, O],
        [O, B, B, B, A, O, O],
    ]);
}

#[test]
fn test_check_success_diagonal1() {
    assert_success_3_2([
        [O, O, O, A, O, O, O],
        [O, O, O, B, O, O, O],
        [O, B, A, A, A, O, O],
        [O, B, B, A, A, O, O],
        [O, A, B, B, B, A, O],
        [O, B, B, B, A, A, A],
    ]);
}

#[test]
fn test_check_success_diagonal2() {
    assert_success_3_2([
        [O, O, O, A, O, O, O],
        [O, O, O, B, A, O, O],
        [O, B, O, A, A, O, O],
        [O, B, A, A, A, O, O],
        [O, A, B, B, B, O, O],
        [O, B, B, B, A, O, O],
    ]);
}

#[test]
fn test_check_column() {
    let grid = make_grid([
        [O, O, O, A, O, O, O],
        [O, O, O, B, A, O, O],
        [O, O, O, A, A, O, O],
        [O, B, A, A, A, O, O],
        [O, A, B, B, B, O, O],
        [O, B, B, B, A, O, O],
    ]);
    assert_eq!(
        Ok(Position { x: 1, y: 2 }),
        grid.check_column("2".into())
    );
}
