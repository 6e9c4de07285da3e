//! A single administered game session: players report their results while the session is
//! open, an administrator may hand over control, and a ranking picks the winners.

pub mod account;
pub mod events;
pub mod game;
pub mod laws;
pub mod ranking;
pub mod registry;
pub mod state;
pub mod token;

pub use account::AccountId;
pub use events::Closing;
pub use events::Error;
pub use events::GameCreated;
pub use events::GameEnded;
pub use events::ScoreSubmitted;
pub use game::BaseGame;
pub use game::Game;
pub use state::GameState;
pub use token::TokenHandle;
pub use token::TokenRequest;
