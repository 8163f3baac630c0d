//! Conversion of structured data between its shared and its public representation.
//!
//! A value that takes part in a multi-party computation is either *shared* (its
//! content is spread over the parties) or *public* (its content is known
//! locally). [`Reveal`] is the contract that moves a value between the two, and
//! this crate carries that contract through sequences, ordered maps, optional
//! values, shared-ownership cells, pairs and records, element by element.
//!
//! Every composite conversion is specified relative to the conversions of its
//! parts: the relations [`reveals_to`], [`shares_as`], [`publishes_as`] and
//! [`unwraps_to`] stand for what the four operations of a part may return.
//! A conversion keeps the shape of what it converts: the length of a
//! sequence and the place of each element, the absence of an optional value,
//! the fields of a record, and the pairing of a map's keys and values as long
//! as no two keys are converted to the same key.
//!
//! What is tagged as public can be unwrapped or revealed again and comes back
//! the same: [`round_trip`] proves this of every composite type whose parts
//! have that property.

pub mod cell;
pub mod contract;
pub mod optional;
pub mod ordered_map;
pub mod pair;
pub mod primitive;
pub mod record;
pub mod round_trip;
pub mod sequence;
pub mod shape;

pub use contract::{publishes_as, reveals_to, shares_as, unwraps_to, NotPublic, Reveal};
pub use record::{
    record_from_add_shared, record_from_public, record_revealed, record_unwrap_as_public, Record,
};
