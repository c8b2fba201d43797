pub mod map;
pub mod operation;
pub mod random;
pub mod recommendation;
pub mod room;
pub mod server_state;
