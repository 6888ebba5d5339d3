//! Networked Battleship.
//!
//! The library holds what two players and the server between them have to
//! get right: the server's model of a ship, which reports each hit once
//! ([`ship`]); the board that a player keeps of the own fleet ([`board`]);
//! the generator that places a fleet ([`placement`]); the engine that picks
//! the shots ([`belief`], [`targeting`]); the turn protocol ([`protocol`],
//! [`session`]) and the framing of its messages ([`framing`]); and the model
//! behind the server's dashboard ([`view`]).
//! Reading from the network and drawing on the terminal are left to the
//! program that uses the library.

pub mod belief;
pub mod board;
pub mod coord;
pub mod framing;
pub mod placement;
pub mod protocol;
pub mod session;
pub mod setup;
pub mod ship;
pub mod targeting;
pub mod view;
