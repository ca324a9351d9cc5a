//! How an order shows on the picture of the map: a square mark around the cell
//! it aims at, its border in the colour of the player, its middle in the colour
//! of what the order does.

use vstd::prelude::*;
use crate::metadata::Color;
use crate::strings::same_text;

verus! {

/// What an order that leaves a mark does.
#[derive(Clone, Copy, Debug, PartialEq, Eq, Structural)]
pub enum MarkerKind {
    Attack,
    Move,
    Build,
}

/// What the order called `name` does, if it leaves a mark.
pub open spec fn marker_kind(name: Seq<char>) -> Option<MarkerKind> {
    if name == "AttackMove"@ || name == "AssaultMove"@ || name == "ForceAttack"@ {
        Some(MarkerKind::Attack)
    } else if name == "Move"@ {
        Some(MarkerKind::Move)
    } else if name == "PlaceBuilding"@ {
        Some(MarkerKind::Build)
    } else {
        None
    }
}

/// What the order called `name` does, if it leaves a mark.
pub fn marker_kind_of(name: &str) -> (kind: Option<MarkerKind>)
    ensures
        kind == marker_kind(name@),
{
    if same_text(name, "AttackMove") || same_text(name, "AssaultMove") || same_text(
        name,
        "ForceAttack",
    ) {
        Some(MarkerKind::Attack)
    } else if same_text(name, "Move") {
        Some(MarkerKind::Move)
    } else if same_text(name, "PlaceBuilding") {
        Some(MarkerKind::Build)
    } else {
        None
    }
}

/// The colour of the middle of a mark: red for an attack, green for a move, blue
/// for a building.
pub open spec fn kind_color(kind: MarkerKind) -> Color {
    match kind {
        MarkerKind::Attack => Color { r: 255, g: 0, b: 0, a: 255 },
        MarkerKind::Move => Color { r: 0, g: 255, b: 0, a: 255 },
        MarkerKind::Build => Color { r: 0, g: 0, b: 255, a: 255 },
    }
}

/// The colour of the middle of a mark.
pub fn color_of_kind(kind: MarkerKind) -> (color: Color)
    ensures
        color == kind_color(kind),
{
    match kind {
        MarkerKind::Attack => Color { r: 255, g: 0, b: 0, a: 255 },
        MarkerKind::Move => Color { r: 0, g: 255, b: 0, a: 255 },
        MarkerKind::Build => Color { r: 0, g: 0, b: 255, a: 255 },
    }
}

/// Whether the place `(xd, yd)` away from the middle of a mark lies on its border:
/// more than two places away along either axis.
pub open spec fn on_border(xd: int, yd: int) -> bool {
    xd < -2 || 2 < xd || yd < -2 || 2 < yd
}

/// The colour that the order called `name`, given by a player of colour `player`,
/// puts `(xd, yd)` away from the cell it aims at; `None` where it leaves the
/// picture as it is.
pub open spec fn marker(name: Seq<char>, xd: int, yd: int, player: Color) -> Option<Color> {
    match marker_kind(name) {
        None => None,
        Some(kind) => if on_border(xd, yd) {
            Some(player)
        } else {
            Some(kind_color(kind))
        },
    }
}

/// The colour that an order puts `(xd, yd)` away from the cell it aims at.
pub fn marker_pixel(name: &str, xd: i16, yd: i16, player: Color) -> (pixel: Option<Color>)
    ensures
        pixel == marker(name@, xd as int, yd as int, player),
{
    match marker_kind_of(name) {
        None => None,
        Some(kind) => {
            if xd < -2 || 2 < xd || yd < -2 || 2 < yd {
                Some(player)
            } else {
                Some(color_of_kind(kind))
            }
        },
    }
}

} // verus!
