//! The builders: one per column, each a state machine over events.
pub mod chrono;
pub mod dictionary;
pub mod dynamic;
pub mod factory;
pub mod list;
pub mod map;
pub mod primitive;
pub mod sink;
pub mod structs;
pub mod tuple;
pub mod union;
