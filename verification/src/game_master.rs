//! The match: a grid, two players, whose turn it is and how many moves were
//! made, driven one accepted move at a time to a win or a draw.

use vstd::prelude::*;
use crate::board::{
    all_empty, all_taken, cell, column_full, count_pieces, empty_grid, four_through, has_four,
    in_bounds, is_settled, landing_row, lands_at, lemma_landing_unique, lemma_next_landing,
    lemma_pieces_bound, lemma_pieces_of_empty, lemma_pieces_placed, mark, pieces, placed,
    settled, Grid, COL, NB_TURNS,
};
use crate::decimal::{parse_i64, parse_integer};
use crate::game_config::{Config, Player, PlayerKind, PlayerNb};

verus! {

/// A cell of the grid: column `x`, row `y`.
#[derive(Clone, Copy, Debug, PartialEq, Eq, Structural)]
pub struct Position {
    pub x: usize,
    pub y: usize,
}

/// The state of a match.
pub struct GameMaster {
    grid: Grid,
    p1: Player,
    p2: Player,
    turn: PlayerNb,
    nb_turn: usize,
}

/// Why a column choice was turned down.
#[derive(Debug, PartialEq, Eq)]
pub enum ColError {
    /// The text writes no integer.
    Invalid(String),
    /// The integer, which may be negative, is not one of the columns 1 to 7.
    WrongColNb(i64),
    /// The column, counted from 0, has no empty cell.
    FullCol(usize),
}

/// What an accepted move leads to.
#[derive(Clone, Copy, Debug, PartialEq, Eq, Structural)]
pub enum Outcome {
    /// The match goes on with the other player.
    Continue,
    /// The player who moved has four in a row.
    Won(PlayerNb),
    /// The grid is full and nobody has four in a row.
    Draw,
}

/// The column, counted from 0, that `text` chooses: an integer from 1 to 7.
pub open spec fn chosen_column(text: Seq<char>) -> Option<int> {
    match parse_integer(text) {
        Some(n) => if 1 <= n <= COL {
            Some(n - 1)
        } else {
            None
        },
        None => None,
    }
}

/// `pos` is where a piece lands when `text` is played on `grid`.
pub open spec fn is_drop(grid: Grid, text: Seq<char>, pos: Position) -> bool {
    chosen_column(text) == Some(pos.x as int) && lands_at(grid, pos.x as int, pos.y as int)
}

/// `error` is the reason why `text` cannot be played on `grid`: it writes
/// no integer, it writes an integer (negative ones too) that names no
/// column, or the column is full.
pub open spec fn is_drop_error(grid: Grid, text: Seq<char>, error: ColError) -> bool {
    match parse_integer(text) {
        None => error matches ColError::Invalid(raw) && raw@ == text,
        Some(n) => if n < 1 || n > COL {
            error == ColError::WrongColNb(n)
        } else {
            column_full(grid, n - 1) && error == ColError::FullCol((n - 1) as usize)
        },
    }
}

/// What follows once `player` has put a piece on `(x, y)`, given the grid
/// and the number of moves after that move: a win if it made four in a row,
/// else a draw if it was the last cell, else the match goes on.
pub open spec fn outcome_of(grid: Grid, player: PlayerNb, x: int, y: int, moves: int) -> Outcome {
    if has_four(grid, player, x, y) {
        Outcome::Won(player)
    } else if moves == NB_TURNS {
        Outcome::Draw
    } else {
        Outcome::Continue
    }
}

impl GameMaster {
    /// The grid as it stands.
    pub closed spec fn board(&self) -> Grid {
        self.grid
    }

    /// The player whose turn it is.
    pub closed spec fn acting(&self) -> PlayerNb {
        self.turn
    }

    /// The number of moves made so far.
    pub closed spec fn moves(&self) -> int {
        self.nb_turn as int
    }

    /// The two players, first seat first.
    pub closed spec fn players(&self) -> (Player, Player) {
        (self.p1, self.p2)
    }

    /// The match waits for a move: the counter is the number of pieces on
    /// the grid and less than the number of cells, the pieces rest on one another, and the
    /// first player is to move exactly when the counter is even.
    pub open spec fn awaiting_move(&self) -> bool {
        &&& self.moves() == pieces(self.board())
        &&& self.moves() < NB_TURNS
        &&& settled(self.board())
        &&& (self.acting() == PlayerNb::P1 <==> self.moves() % 2 == 0)
    }

    /// A fresh match: an empty grid, no move made, the first player to move.
    pub fn new(config: Config) -> (game: Self)
        ensures
            all_empty(game.board()),
            game.moves() == 0,
            game.acting() == PlayerNb::P1,
            game.players() == (config.p1, config.p2),
            game.awaiting_move(),
    {
        let game = GameMaster {
            grid: empty_grid(),
            p1: config.p1,
            p2: config.p2,
            turn: PlayerNb::P1,
            nb_turn: 0,
        };
        proof {
            lemma_pieces_of_empty(game.grid, 42);
            assert forall|x: int, y: int, below: int|
                #![trigger cell(game.grid, x, y), cell(game.grid, x, below)]
                in_bounds(x, y) && y < below < 6 && cell(game.grid, x, y) is Some implies cell(
                    game.grid,
                    x,
                    below,
                ) is Some by {}
        }
        game
    }

    /// A match taken up at any position, as given.
    pub fn from_parts(grid: Grid, p1: Player, p2: Player, turn: PlayerNb, nb_turn: usize) -> (game:
        Self)
        ensures
            game.board() == grid,
            game.players() == (p1, p2),
            game.acting() == turn,
            game.moves() == nb_turn,
    {
        GameMaster { grid, p1, p2, turn, nb_turn }
    }

    /// Whether the player whose turn it is has four in a row through `pos`.
    pub fn check_success(&self, pos: Position) -> (won: bool)
        ensures
            won == has_four(self.board(), self.acting(), pos.x as int, pos.y as int),
    {
        four_through(&self.grid, self.turn, pos.x, pos.y)
    }

    /// Resolves a column choice, written as a number from 1 to 7, to the cell
    /// in which the piece would land. Nothing is marked.
    pub fn check_column(&self, input: String) -> (landing: Result<Position, ColError>)
        ensures
            landing is Ok <==> (chosen_column(input@) matches Some(x) && !column_full(
                self.board(),
                x,
            )),
            landing matches Ok(pos) ==> is_drop(self.board(), input@, pos),
            landing matches Err(error) ==> is_drop_error(self.board(), input@, error),
    {
        let x: usize = match parse_i64(input.as_str()) {
            Some(i) => {
                if 1 <= i && i <= COL as i64 {
                    (i - 1) as usize
                } else {
                    return Err(ColError::WrongColNb(i));
                }
            },
            None => {
                return Err(ColError::Invalid(input));
            },
        };
        match landing_row(&self.grid, x) {
            Some(y) => {
                proof {
                    lemma_landing_unique(self.grid, x as int, y as int, y as int);
                }
                Ok(Position { x, y })
            },
            None => Err(ColError::FullCol(x)),
        }
    }

    /// Whether as many moves were made as the grid has cells.
    pub fn check_full(&self) -> (full: bool)
        ensures
            full == (self.moves() == NB_TURNS),
            self.moves() == pieces(self.board()) ==> full == all_taken(self.board()),
    {
        proof {
            lemma_pieces_bound(self.grid);
        }
        self.nb_turn == NB_TURNS
    }

    /// Marks the cell `pos` for `player`. Only that cell changes.
    pub fn fill_grid(&mut self, player: PlayerNb, pos: Position)
        requires
            in_bounds(pos.x as int, pos.y as int),
        ensures
            placed(old(self).board(), final(self).board(), pos.x as int, pos.y as int, player),
            final(self).moves() == old(self).moves(),
            final(self).acting() == old(self).acting(),
            final(self).players() == old(self).players(),
    {
        mark(&mut self.grid, pos.x, pos.y, player);
    }

    /// The kind of the player whose turn it is: who is to be asked for the
    /// next move.
    pub fn acting_kind(&self) -> (kind: PlayerKind)
        ensures
            kind == match self.acting() {
                PlayerNb::P1 => self.players().0.kind,
                PlayerNb::P2 => self.players().1.kind,
            },
    {
        match self.turn {
            PlayerNb::P1 => self.p1.kind,
            PlayerNb::P2 => self.p2.kind,
        }
    }

    /// Commits a move of the player whose turn it is: marks the landing cell
    /// `pos`, counts the move and decides how the match goes on. The turn
    /// passes to the other player only when the match continues.
    pub fn commit_move(&mut self, pos: Position) -> (outcome: Outcome)
        requires
            old(self).awaiting_move(),
            lands_at(old(self).board(), pos.x as int, pos.y as int),
        ensures
            placed(
                old(self).board(),
                final(self).board(),
                pos.x as int,
                pos.y as int,
                old(self).acting(),
            ),
            final(self).moves() == old(self).moves() + 1,
            final(self).moves() == pieces(final(self).board()),
            settled(final(self).board()),
            final(self).players() == old(self).players(),
            outcome == outcome_of(
                final(self).board(),
                old(self).acting(),
                pos.x as int,
                pos.y as int,
                final(self).moves(),
            ),
            outcome == Outcome::Continue ==> final(self).acting() == old(self).acting().opponent()
                && final(self).awaiting_move(),
            outcome != Outcome::Continue ==> final(self).acting() == old(self).acting()
                && !final(self).awaiting_move(),
    {
        let player = self.turn;
        self.fill_grid(player, pos);
        proof {
            lemma_pieces_placed(
                old(self).grid,
                self.grid,
                pos.x as int,
                pos.y as int,
                player,
            );
            lemma_next_landing(old(self).grid, self.grid, pos.x as int, pos.y as int, player);
        }
        self.nb_turn += 1;
        if self.check_success(pos) {
            return Outcome::Won(player);
        }
        if self.check_full() {
            return Outcome::Draw;
        }
        self.turn = player.other();
        Outcome::Continue
    }

    /// Plays a column choice given as text: resolves it and, if it can be
    /// played, commits the move. A choice that is turned down changes
    /// nothing and does not use up the turn.
    pub fn play_column(&mut self, input: String) -> (played: Result<(Position, Outcome), ColError>)
        requires
            old(self).awaiting_move(),
        ensures
            played is Ok <==> (chosen_column(input@) matches Some(x) && !column_full(
                old(self).board(),
                x,
            )),
            played matches Err(error) ==> *final(self) == *old(self) && is_drop_error(
                old(self).board(),
                input@,
                error,
            ),
            played matches Ok((pos, outcome)) ==> {
                &&& is_drop(old(self).board(), input@, pos)
                &&& placed(
                    old(self).board(),
                    final(self).board(),
                    pos.x as int,
                    pos.y as int,
                    old(self).acting(),
                )
                &&& final(self).moves() == old(self).moves() + 1
                &&& final(self).moves() == pieces(final(self).board())
                &&& settled(final(self).board())
                &&& final(self).players() == old(self).players()
                &&& outcome == outcome_of(
                    final(self).board(),
                    old(self).acting(),
                    pos.x as int,
                    pos.y as int,
                    final(self).moves(),
                )
                &&& final(self).acting() == if outcome == Outcome::Continue {
                    old(self).acting().opponent()
                } else {
                    old(self).acting()
                }
                &&& final(self).awaiting_move() == (outcome == Outcome::Continue)
            },
    {
        match self.check_column(input) {
            Ok(pos) => {
                let outcome = self.commit_move(pos);
                Ok((pos, outcome))
            },
            Err(error) => Err(error),
        }
    }

    /// Chooses a move for a computer player: the leftmost column that still
    /// has room. The grid must have an empty cell.
    pub fn process_computer_turn(&self) -> (pos: Position)
        requires
            !all_taken(self.board()),
        ensures
            lands_at(self.board(), pos.x as int, pos.y as int),
            forall|x: int| 0 <= x < pos.x ==> column_full(self.board(), x),
    {
        let mut x: usize = 0;
        loop
            invariant
                x < 7,
                !all_taken(self.grid),
                forall|left: int| 0 <= left < x ==> column_full(self.grid, left),
            decreases 7 - x,
        {
            if let Some(y) = landing_row(&self.grid, x) {
                return Position { x, y };
            }
            proof {
                if x == 6 {
                    assert forall|cx: int, cy: int| in_bounds(cx, cy) implies (#[trigger] cell(
                        self.grid,
                        cx,
                        cy,
                    )) is Some by {
                        assert(column_full(self.grid, cx));
                    }
                }
            }
            x += 1;
        }
    }

    /// Whether the match waits for a move, checked against the grid itself.
    pub fn is_awaiting_move(&self) -> (yes: bool)
        ensures
            yes == self.awaiting_move(),
    {
        let first_to_move = match self.turn {
            PlayerNb::P1 => true,
            PlayerNb::P2 => false,
        };
        self.nb_turn < NB_TURNS && count_pieces(&self.grid) == self.nb_turn && is_settled(
            &self.grid,
        ) && first_to_move == (self.nb_turn % 2 == 0)
    }

    /// The grid as it stands, for display.
    pub fn grid(&self) -> (grid: Grid)
        ensures
            grid == self.board(),
    {
        self.grid
    }

    /// The player whose turn it is.
    pub fn turn(&self) -> (turn: PlayerNb)
        ensures
            turn == self.acting(),
    {
        self.turn
    }

    /// The number of moves made so far.
    pub fn nb_turn(&self) -> (moves: usize)
        ensures
            moves == self.moves(),
    {
        self.nb_turn
    }

    /// While a match waits for a move, the first player is to move after an
    /// even number of moves and the second after an odd number: the turns
    /// alternate, first player first.
    pub proof fn lemma_turns_alternate(&self)
        requires
            self.awaiting_move(),
        ensures
            self.acting() == if self.moves() % 2 == 0 {
                PlayerNb::P1
            } else {
                PlayerNb::P2
            },
            0 <= self.moves() < 42,
            !all_taken(self.board()),
    {
        lemma_pieces_bound(self.board());
    }
}

} // verus!
