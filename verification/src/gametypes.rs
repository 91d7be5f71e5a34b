//! Plain value types shared by every subsystem: entity and connection
//! identifiers, positions, vitals, and the core error type.

use vstd::prelude::*;

verus! {

/// Opaque stable entity identifier, unique for the entity's lifetime.
#[derive(Clone, Copy, Debug, PartialEq, Eq, Structural, Hash)]
pub struct GlobalKey(pub u64);

/// Connection identifier, bound 1:1 to a live socket while a session runs.
#[derive(Clone, Copy, Debug, PartialEq, Eq, Structural, Hash)]
pub struct Token(pub usize);

/// Identifier of a logical world region.
#[derive(Clone, Copy, Debug, PartialEq, Eq, Structural, Hash)]
pub struct MapPosition {
    pub x: i32,
    pub y: i32,
    pub group: i32,
}

/// A tile position inside a region: the region id plus tile coordinates.
#[derive(Clone, Copy, Debug, PartialEq, Eq, Structural)]
pub struct Position {
    pub map: MapPosition,
    pub x: i32,
    pub y: i32,
}

impl Position {
    pub open spec fn spec_default() -> Position {
        Position { map: MapPosition { x: 0, y: 0, group: 0 }, x: 0, y: 0 }
    }

    pub fn default_value() -> (r: Position)
        ensures
            r == Position::spec_default(),
    {
        Position { map: MapPosition { x: 0, y: 0, group: 0 }, x: 0, y: 0 }
    }
}

/// Number of vital slots every combatant carries.
pub const VITALS_MAX: usize = 3;

#[derive(Clone, Copy, Debug, PartialEq, Eq, Structural)]
pub enum VitalTypes {
    Hp,
    Mp,
    Sp,
}

impl VitalTypes {
    pub open spec fn spec_index(self) -> usize {
        match self {
            VitalTypes::Hp => 0,
            VitalTypes::Mp => 1,
            VitalTypes::Sp => 2,
        }
    }

    pub fn index(self) -> (r: usize)
        ensures
            r == self.spec_index(),
            r < VITALS_MAX,
    {
        match self {
            VitalTypes::Hp => 0,
            VitalTypes::Mp => 1,
            VitalTypes::Sp => 2,
        }
    }
}

/// Lifecycle state of a connected client session.
#[derive(Clone, Copy, Debug, PartialEq, Eq, Structural)]
pub enum ClientState {
    Open,
    Closing,
    Closed,
}

/// How far a player's session has progressed.
#[derive(Clone, Copy, Debug, PartialEq, Eq, Structural)]
pub enum OnlineType {
    Offline,
    Accepted,
    Online,
}

/// Category tag for client float-text alerts.
#[derive(Clone, Copy, Debug, PartialEq, Eq, Structural)]
pub enum FtlType {
    Message,
    Error,
    Money,
}

/// Typed failures surfaced by the core.
#[derive(Clone, Copy, Debug, PartialEq, Eq, Structural)]
pub enum AscendingError {
    /// The entity id resolves to no live entity.
    MissingEntity,
    /// A credential check failed or the stored hash was unreadable.
    IncorrectPassword,
}

impl AscendingError {
    pub fn missing_entity() -> (r: AscendingError)
        ensures
            r == AscendingError::MissingEntity,
    {
        AscendingError::MissingEntity
    }
}

} // verus!
