//! A real-time chat relay, verified, together with the smaller pieces that
//! live beside it.
//!
//! The relay core:
//! - `event`: the three-variant chat event and its JSON wire text;
//! - `registry`: the peer registry that maps each live connection to its
//!   outbound channel, and broadcast over it;
//! - `dispatch`: decoding, validation and broadcast of each inbound payload;
//! - `relay`: the per-connection lifecycle state machine.
//!
//! Beside it: list and number drills (`problem1`, `problem3`, `problem4`),
//! two binary search trees (`first`, `second`), a stack calculator (`rpn`,
//! `parser`), a cave of rooms (`room`), and bulletin-board posts (`message`).
//! `text` holds character helpers that the parsers share.
pub mod problem1;
pub mod text;
pub mod event;
pub mod registry;
pub mod dispatch;
pub mod relay;
pub mod first;
pub mod rpn;
pub mod parser;
pub mod problem3;
pub mod problem4;
pub mod second;
pub mod room;
pub mod message;
