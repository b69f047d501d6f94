pub mod game;
pub mod player;

pub use game::Game;
pub use player::Player;
pub mod lobby;
pub mod manager;

pub use manager::GameManager;
pub mod proxy;
pub mod turn;
