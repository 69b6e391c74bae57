//! A grid arena in which bots push each other, blocks and themselves around,
//! together with the wire codec, the turn engine that drives a round, and
//! the lobby in which the bots gather between rounds.
//!
//! The arena works on byte streams that it holds in memory: what a bot has
//! sent waits in its [`stream::Input`], and what the arena tells the bot
//! waits in its [`stream::Output`]. Whoever owns the connections feeds the
//! one and drains the other.
//!
//! Contracts speak of the arena through its view, [`world::World`], whose
//! functions say what each operation of the game does. What the operations
//! preserve is proved in [`invariants`], [`recycling`] and [`progress`].

pub mod vector;
pub mod space;
pub mod entity;
pub mod positioned;
pub mod stream;
pub mod appearance;
pub mod pushable;
pub mod cooldown;
pub mod notification;
pub mod command;
pub mod world;
pub mod invariants;
pub mod recycling;
pub mod progress;
pub mod area;
pub mod action;
pub mod session;
pub mod lobby;
pub mod bot;
