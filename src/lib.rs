//! The Mastermind code-breaking game: scoring of a guess against a secret
//! code, and a game session that records guesses until a win or a loss.

pub mod color;
pub mod game;
pub mod score;

pub use color::{Code, Color, CODE_SIZE, COLORS_NBR};
pub use game::{Finish, Game, Playable, Result, State, Try, GAME_TRY};
pub use score::evaluate;
