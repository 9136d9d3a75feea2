//! A verified core for a toroidal world of evolving creatures.
//!
//! Creatures carry a small feed-forward brain, eat grass, bite each other,
//! and reproduce with mutation. All continuous quantities are held in fixed
//! point: positions in micro-cells, angles in units of 1/6_283_184 of a full
//! turn (about a micro-radian), efficiencies and network weights in
//! thousandths.

pub mod angle;
pub mod brain;
pub mod creature;
pub mod fixnum;
pub mod gridlookup;
pub mod linalg;
pub mod rng;
pub mod world;
