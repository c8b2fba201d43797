pub mod ending;
pub mod game_state;
pub mod lobby;
pub mod meeting;
pub mod opening;
pub mod play;
pub mod score;
pub mod server_resp;
pub mod stages;
pub mod turn;
pub mod verdict;

use vstd::prelude::*;

use crate::map::model::MapType;

pub use game_state::{
    GameStage, GameState, GameStateResp, ServerGameState, UserLocationSequence,
    UserResultSummary, UserState, UserTokens,
};
pub use opening::StartError;
pub use play::{PlayerFilter, Room};
pub use score::{found_first, summary_of};
pub use server_resp::{OpError, RecommendError, RoomError, ServerResp};
pub use stages::Turn;
pub use turn::{find_next_point, move_window, sort_users_points, PointInfo, PointType};

verus! {

/// What a player asks for a room to be changed to.
#[derive(Debug, Clone)]
pub struct EditRoomInfo {
    pub room_id: String,
    pub map_type: MapType,
    pub map_seed: u64,
}

/// What a player may do to the rooms.
#[derive(Debug, Clone)]
pub enum RoomUserOperation {
    Create,
    Edit(EditRoomInfo),
    Join(String),
    Leave(String),
    Prepare(String),
    Unprepare(String),
    SwitchBot(String),
}

} // verus!
