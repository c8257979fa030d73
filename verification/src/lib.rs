//! Tick-based simulation of a ghost-kitchen delivery network.
//!
//! Customers place orders, kitchens prepare them step by step on shared
//! stations, and couriers carry the finished orders along a street network.
//! Every table of the world state is a vector of plain rows, and every
//! handler is a function from the old tables to the new ones whose contract
//! is stated over the sequence views of those tables.

pub mod chance;
pub mod courier;
pub mod demand;
pub mod error;
pub mod events;
pub mod geo;
pub mod idents;
pub mod kitchen;
pub mod movement;
pub mod objects;
pub mod orders;
pub mod population;
pub mod routing;
pub mod simulation;
pub mod snapshots;
