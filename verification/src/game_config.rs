//! Who plays: the two seats, the kind of each player and the game mode.

use vstd::prelude::*;
use vstd::string::StrSliceExecFns;

verus! {

/// How many humans sit at the board.
#[derive(Clone, Copy, Debug, PartialEq, Eq, Structural)]
pub enum Mode {
    Solo,
    Multi,
}

/// One of the two seats. `P1` always moves first.
#[derive(Clone, Copy, Debug, PartialEq, Eq, Structural)]
pub enum PlayerNb {
    P1,
    P2,
}

/// Who decides the moves of a seat.
#[derive(Clone, Copy, Debug, PartialEq, Eq, Structural)]
pub enum PlayerKind {
    User,
    Computer,
}

/// A seat together with the kind of player that occupies it.
#[derive(Clone, Copy, Debug, PartialEq, Eq, Structural)]
pub struct Player {
    pub nb: PlayerNb,
    pub kind: PlayerKind,
}

/// Everything a match needs to know before the first move.
#[derive(Clone, Copy, Debug, PartialEq, Eq, Structural)]
pub struct Config {
    pub mode: Mode,
    pub p1: Player,
    pub p2: Player,
}

impl PlayerNb {
    /// The opposite seat.
    pub open spec fn opponent(self) -> PlayerNb {
        match self {
            PlayerNb::P1 => PlayerNb::P2,
            PlayerNb::P2 => PlayerNb::P1,
        }
    }

    /// The seat that moves after this one.
    pub fn other(self) -> (next: PlayerNb)
        ensures
            next == self.opponent(),
    {
        match self {
            PlayerNb::P1 => PlayerNb::P2,
            PlayerNb::P2 => PlayerNb::P1,
        }
    }
}

/// The mode that a one-letter answer stands for, in either case.
pub open spec fn mode_of_answer(answer: Seq<char>) -> Option<Mode> {
    if answer.len() != 1 {
        None
    } else if answer[0] == 's' || answer[0] == 'S' {
        Some(Mode::Solo)
    } else if answer[0] == 'm' || answer[0] == 'M' {
        Some(Mode::Multi)
    } else {
        None
    }
}

/// The two players of a solo game in which the human took the seat named by
/// `answer` ("1" or "2"); the computer gets the other seat.
pub open spec fn solo_players_of_answer(answer: Seq<char>) -> Option<(Player, Player)> {
    if answer.len() != 1 {
        None
    } else if answer[0] == '1' {
        Some(
            (
                Player { nb: PlayerNb::P1, kind: PlayerKind::User },
                Player { nb: PlayerNb::P2, kind: PlayerKind::Computer },
            ),
        )
    } else if answer[0] == '2' {
        Some(
            (
                Player { nb: PlayerNb::P1, kind: PlayerKind::Computer },
                Player { nb: PlayerNb::P2, kind: PlayerKind::User },
            ),
        )
    } else {
        None
    }
}

impl Config {
    /// The seats are numbered correctly and the kinds fit the mode: one human
    /// and one computer in a solo game, two humans otherwise.
    pub open spec fn well_formed(self) -> bool {
        &&& self.p1.nb == PlayerNb::P1
        &&& self.p2.nb == PlayerNb::P2
        &&& match self.mode {
            Mode::Solo => (self.p1.kind == PlayerKind::Computer) != (self.p2.kind
                == PlayerKind::Computer),
            Mode::Multi => self.p1.kind == PlayerKind::User && self.p2.kind == PlayerKind::User,
        }
    }

    /// Reads the answer to the mode question. The answer is expected trimmed;
    /// "s" and "m" are accepted in either case, anything else is `None`.
    pub fn mode(answer: &str) -> (mode: Option<Mode>)
        ensures
            mode == mode_of_answer(answer@),
    {
        if answer.unicode_len() != 1 {
            return None;
        }
        let c = answer.get_char(0);
        if c == 's' || c == 'S' {
            Some(Mode::Solo)
        } else if c == 'm' || c == 'M' {
            Some(Mode::Multi)
        } else {
            None
        }
    }

    /// Reads the answer to the seat question of a solo game. The answer is
    /// expected trimmed; "1" and "2" are accepted, anything else is `None`.
    pub fn players_solo_mode(answer: &str) -> (players: Option<(Player, Player)>)
        ensures
            players == solo_players_of_answer(answer@),
            players matches Some(pair) ==> (Config {
                mode: Mode::Solo,
                p1: pair.0,
                p2: pair.1,
            }).well_formed(),
    {
        if answer.unicode_len() != 1 {
            return None;
        }
        let c = answer.get_char(0);
        let mut p1 = Player { nb: PlayerNb::P1, kind: PlayerKind::User };
        let mut p2 = Player { nb: PlayerNb::P2, kind: PlayerKind::User };
        if c == '1' {
            p2.kind = PlayerKind::Computer;
            Some((p1, p2))
        } else if c == '2' {
            p1.kind = PlayerKind::Computer;
            Some((p1, p2))
        } else {
            None
        }
    }

    /// The two human players of a multi-player game.
    pub fn players_multi_mode() -> (players: (Player, Player))
        ensures
            players.0 == (Player { nb: PlayerNb::P1, kind: PlayerKind::User }),
            players.1 == (Player { nb: PlayerNb::P2, kind: PlayerKind::User }),
            (Config { mode: Mode::Multi, p1: players.0, p2: players.1 }).well_formed(),
    {
        (
            Player { nb: PlayerNb::P1, kind: PlayerKind::User },
            Player { nb: PlayerNb::P2, kind: PlayerKind::User },
        )
    }

    /// Puts a configuration together from a mode and its two players.
    pub fn assemble(mode: Mode, players: (Player, Player)) -> (config: Config)
        ensures
            config == (Config { mode, p1: players.0, p2: players.1 }),
    {
        Config { mode, p1: players.0, p2: players.1 }
    }
}

} // verus!
