//! A No-Limit Texas Hold'em table: seats, betting rounds, side pots and the
//! messages that tell the players what happened.
//!
//! A `Game` is one table. Players join it in the lobby, the game is started,
//! and from then on the player whose turn it is sends a request, which the
//! table turns into the legal move that stands for it. Every command leaves
//! the messages for the players in the outbox of the table. `Tables` holds
//! the tables of a server by name.

pub mod action;
pub mod audit;
pub mod betting;
pub mod card;
pub mod dealing;
pub mod deck;
pub mod event;
pub mod game;
pub mod laws;
pub mod play;
pub mod player;
pub mod pot;
pub mod rank;
pub mod seating;
pub mod server;
pub mod showdown;
pub mod sums;

pub use action::Action;
pub use action::Street;
pub use card::Card;
pub use event::Event;
pub use event::Outbound;
pub use game::Game;
pub use game::Phase;
pub use player::Player;
pub use rank::HandRank;
pub use server::rocket;
pub use server::Tables;
