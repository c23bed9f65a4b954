use vstd::prelude::*;

verus! {

/// A point on the playing field. Each coordinate is the IEEE-754 binary32
/// bit pattern of the float it stands for; the registry stores and returns
/// coordinates and never computes on them.
#[derive(Clone, Copy, Debug, PartialEq, Eq, Structural)]
pub struct Position {
    pub x_bits: u32,
    pub y_bits: u32,
}

impl Position {
    /// The origin `(0.0, 0.0)`, where every new player starts.
    pub open spec fn spec_origin() -> Position {
        Position { x_bits: 0, y_bits: 0 }
    }

    pub fn origin() -> (r: Position)
        ensures
            r == Position::spec_origin(),
    {
        Position { x_bits: 0, y_bits: 0 }
    }
}

/// A registered player as handed out by the registry.
#[derive(Clone, Debug)]
pub struct Player {
    pub name: String,
    pub position: Position,
}

/// What a successful registration returns: the new player and its
/// credential. The credential is handed out here and nowhere else.
#[derive(Clone, Debug)]
pub struct Registration {
    pub player: Player,
    pub secret: u64,
}

/// The ways an operation on the registry can fail.
#[derive(Clone, Copy, Debug, PartialEq, Eq, Structural)]
pub enum RegistryError {
    /// The name is already taken by a registered player.
    NameConflict,
    /// No player is registered under the name.
    NotFound,
    /// The credential does not match the one issued for the player.
    Unauthorized,
}

impl RegistryError {
    /// The HTTP status with which the error is reported.
    pub open spec fn spec_status_code(self) -> u16 {
        match self {
            RegistryError::NameConflict => 403,
            RegistryError::NotFound => 404,
            RegistryError::Unauthorized => 401,
        }
    }

    pub fn status_code(&self) -> (r: u16)
        ensures
            r == self.spec_status_code(),
    {
        match self {
            RegistryError::NameConflict => 403,
            RegistryError::NotFound => 404,
            RegistryError::Unauthorized => 401,
        }
    }
}

/// What the registry holds for one player, as a mathematical value.
pub struct Record {
    pub name: Seq<char>,
    pub position: Position,
    pub secret: u64,
}

/// No two records share a name.
pub open spec fn names_unique(s: Seq<Record>) -> bool {
    forall|i: int, j: int|
        0 <= i < s.len() && 0 <= j < s.len() && #[trigger] s[i].name == #[trigger] s[j].name
            ==> i == j
}

/// Some record carries `name`.
pub open spec fn registered(s: Seq<Record>, name: Seq<char>) -> bool {
    exists|i: int| 0 <= i < s.len() && #[trigger] s[i].name == name
}

/// The position of the record that carries `name` (meaningful when
/// `registered(s, name)`; with unique names it is the only one).
pub open spec fn index_of(s: Seq<Record>, name: Seq<char>) -> int {
    choose|i: int| 0 <= i < s.len() && #[trigger] s[i].name == name
}

/// Whether registering `name` succeeds.
pub open spec fn register_outcome(s: Seq<Record>, name: Seq<char>) -> Result<(), RegistryError> {
    if registered(s, name) {
        Err(RegistryError::NameConflict)
    } else {
        Ok(())
    }
}

/// The records after registering `name` with credential `secret`: a
/// new record at the origin, or nothing changed when the name is taken.
pub open spec fn after_register(s: Seq<Record>, name: Seq<char>, secret: u64) -> Seq<Record> {
    if registered(s, name) {
        s
    } else {
        s.push(Record { name, position: Position::spec_origin(), secret })
    }
}

/// Whether moving the player `name` with credential `secret` succeeds.
pub open spec fn update_outcome(s: Seq<Record>, name: Seq<char>, secret: u64) -> Result<
    (),
    RegistryError,
> {
    if !registered(s, name) {
        Err(RegistryError::NotFound)
    } else if s[index_of(s, name)].secret != secret {
        Err(RegistryError::Unauthorized)
    } else {
        Ok(())
    }
}

/// The records after moving the player `name` to `position`: only that
/// record's position changes, and only when the credential matches.
pub open spec fn after_update(s: Seq<Record>, name: Seq<char>, position: Position, secret: u64) -> Seq<
    Record,
> {
    if update_outcome(s, name, secret) is Ok {
        let i = index_of(s, name);
        s.update(i, Record { position, ..s[i] })
    } else {
        s
    }
}

} // verus!
