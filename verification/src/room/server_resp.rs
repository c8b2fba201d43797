use vstd::prelude::*;

verus! {

/// Why a room operation was turned down.
#[derive(Debug, Clone, Copy, PartialEq, Eq, Structural)]
pub enum RoomError {
    RoomNotFound,
    RoomStarted,
    RoomFull,
    UserNotFoundInRoom,
}

/// Why an operation of the game was turned down.
#[derive(Debug, Clone, Copy, PartialEq, Eq, Structural)]
pub enum OpError {
    UserNotFoundInRoom,
    GameNotFound,
    NotUsersTurn,
    InvalidMoveInStage,
    InvalidIndex,
    InvalidClue,
    InvalidSectorType,
    InvalidIndexOfPrime,
    TokenNotEnough,
    SectorAlreadyRevealed,
    TargetTimeExhausted,
    ResearchContiuously,
    EndGameCanNotLocate,
}

/// Why no recommendation was given.
#[derive(Debug, Clone, Copy, PartialEq, Eq, Structural)]
pub enum RecommendError {
    UserNotFoundInRoom,
    GameNotFound,
    NotEnoughData,
}

/// What the server tells a client outside the run of a game.
#[derive(Debug, Clone)]
pub enum ServerResp {
    Version(String),
    RejoinRoom(String),
    RoomErrors(RoomError),
    OpErrors(OpError),
    RecommendErrors(RecommendError),
}

impl ServerResp {
    /// The answer to a client that has signed in: the version of the
    /// protocol, 0.0.6.
    pub fn auth_success_version() -> (r: Self)
        ensures
            r matches ServerResp::Version(v) && v@ == "0.0.6"@,
    {
        Self::Version(String::from_str("0.0.6"))
    }

    /// The call to join a room again.
    pub fn rejoin_room(room_id: String) -> (r: Self)
        ensures
            r == ServerResp::RejoinRoom(room_id),
    {
        Self::RejoinRoom(room_id)
    }
}

} // verus!
