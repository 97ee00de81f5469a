//! Link graph and control propagation for a colony of round creatures.
//!
//! Creatures stick together when they touch, forming a jointed cluster. One
//! creature is the main creature; player input reaches the creatures that are
//! joined to it. This crate holds the rules of that game: which contacts make
//! a link, which creatures are grounded, how control floods through the links
//! one layer per tick, what an explosion severs and whom it pushes, and which
//! creature leads after a switch. Physics, drawing and sound are left to the
//! caller, which reports contacts and carries out what the colony decides.
//!
//! All quantities are integers. Lengths and impulses are in the units of the
//! physics world; where a rule needs a fraction, the unit is named in the
//! function that uses it.
//!
//! - [`species`]: the kinds of creature and their constants.
//! - [`model`]: the state of a colony as a mathematical value, and what each
//!   event does to it.
//! - [`colony`]: the colony itself, whose operations are stated over the
//!   model.
//! - [`ground`], [`links`], [`control`], [`spreading`], [`switching`],
//!   [`history`]: what holds of ground contact, of the link graph, of
//!   control and how fast it spreads, of switching and of whole histories of
//!   play, proved of the model.
//! - [`locomotion`]: rolling and jumping.
//! - [`orders`]: what the colony hands back to its caller.
//! - [`signals`], [`objects`], [`level`]: buttons, pressure plates and doors,
//!   and the sequence of levels.

pub mod colony;
pub mod control;
pub mod ground;
pub mod history;
pub mod level;
pub mod links;
pub mod locomotion;
pub mod model;
pub mod objects;
pub mod orders;
pub mod signals;
pub mod species;
pub mod spreading;
pub mod switching;
