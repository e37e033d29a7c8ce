//! A limit order book: resting orders, the ways to change them, and matching.

pub mod book;
pub mod error;
pub mod ladder;
pub mod laws;
pub mod level;
pub mod locations;
pub mod model;
pub mod order;
pub mod promises;
pub mod quantity;
pub mod sweep;

