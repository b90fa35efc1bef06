//! Core simulation rules of a grid tower-defense game: the occupancy map with
//! its connectivity-preserving placement rule and A* pathfinding, bounded
//! top-N target selection, turret placement economics, creep rerouting, and
//! the wire format of the debug messages exchanged with a game server.
pub mod client_message;
pub mod components;
pub mod events;
pub mod map;
pub mod messages;
pub mod resources;
pub mod server_message;
pub mod systems;
pub mod targeting;
pub mod top_n;

pub use messages::deserialize_client_message;
pub use messages::deserialize_server_message;
pub use messages::serialize_client_message;
pub use messages::serialize_server_message;
