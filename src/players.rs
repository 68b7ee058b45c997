use vstd::prelude::*;

use std::collections::VecDeque;

use crate::board::Position;
use crate::inventory::Thing;

verus! {

/// The explorer: the player who gathers items.
#[derive(Clone, PartialEq, Eq, Debug)]
pub struct ExplorerData {
    pub pos: Position,
    pub things: Vec<Thing>,
}

/// A gnome, who shakes explorers down.
#[derive(Clone, PartialEq, Eq, Debug)]
pub struct GnomeData {
    pub pos: Position,
    pub things: Vec<Thing>,
}

/// A leprechaun, who plays trick or treat with explorers.
#[derive(Clone, PartialEq, Eq, Debug)]
pub struct LeprechaunData {
    pub pos: Position,
    pub things: Vec<Thing>,
}

#[derive(Clone, PartialEq, Eq, Debug)]
pub enum Player {
    Explorer(ExplorerData),
    Gnome(GnomeData),
    Leprechaun(LeprechaunData),
}

/// Every player but the active one, front to back.
pub type Players = VecDeque<Player>;

#[derive(Clone, Copy, PartialEq, Eq, Structural, Debug)]
pub enum PlayerKind {
    Explorer,
    Gnome,
    Leprechaun,
}

/// A player as the rules see it: its kind, its cell and its items.
pub struct PlayerView {
    pub kind: PlayerKind,
    pub pos: Position,
    pub things: Seq<Thing>,
}

impl View for Player {
    type V = PlayerView;

    open spec fn view(&self) -> PlayerView {
        match *self {
            Player::Explorer(e) => PlayerView { kind: PlayerKind::Explorer, pos: e.pos, things: e.things@ },
            Player::Gnome(g) => PlayerView { kind: PlayerKind::Gnome, pos: g.pos, things: g.things@ },
            Player::Leprechaun(l) => PlayerView {
                kind: PlayerKind::Leprechaun,
                pos: l.pos,
                things: l.things@,
            },
        }
    }
}

/// The views of a queue of players, front to back.
pub open spec fn views(s: Seq<Player>) -> Seq<PlayerView> {
    s.map_values(|p: Player| p@)
}

/// The cell a player stands on.
pub open spec fn pos_of(p: Player) -> Position {
    p@.pos
}

impl Player {
    pub fn pos(&self) -> (r: Position)
        ensures
            r == pos_of(*self),
    {
        match self {
            Player::Explorer(e) => e.pos,
            Player::Gnome(g) => g.pos,
            Player::Leprechaun(l) => l.pos,
        }
    }
}

/// Whether `p` stands on `pos`.
pub fn is_occupant(p: &Player, pos: &Position) -> (r: bool)
    ensures
        r == (pos_of(*p) == *pos),
{
    p.pos() == *pos
}

} // verus!
