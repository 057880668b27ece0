//! Conversion between row-oriented event streams and columnar arrays.
//!
//! A traversal of application data is a stream of [`event::Event`]s: scalars
//! and the boundaries of structs, tuples, lists and maps. What a stream
//! means is fixed once, in [`model`]: a column has a shape, its rows are
//! values, and `advance` reads one event at a time. Every executable
//! contract refers to that model, and [`laws`] proves what follows from it:
//! that reading back what was written gives it back.
//!
//! - [`schema`] describes a column; [`tracer`] infers the description from
//!   samples.
//! - [`builder`] holds the builders, one per column, each a state machine
//!   over events; [`interpreter`] reads flat records by a program instead.
//! - [`array`] holds the columnar buffers, [`extract`] checks buffers
//!   against a schema, and [`source`] replays them as events.
//! - [`internal`], [`arrays`] and [`api`] are the conversions themselves.
//! - [`datetime`] reads and prints date/time text; [`display`] writes
//!   schemas out.
pub mod api;
pub mod array;
pub mod arrays;
pub mod builder;
pub mod datetime;
pub mod display;
pub mod error;
pub mod event;
pub mod extract;
pub mod internal;
pub mod interpreter;
pub mod laws;
pub mod model;
pub mod schema;
pub mod source;
pub mod tracer;
