//! A compact, schema-coupled binary format for nested records.
//!
//! Values are laid out field after field in declaration order, with no tags,
//! no type markers and no envelope: fixed-width scalars inline, strings and
//! lists behind a 32-bit length or count, fixed structs as the bare run of
//! their fields. Producer and consumer agree on the schema and on the byte
//! order out of band. Every field is always there: the format has no mark
//! for an absent one, and a record that needs one has to spend a field of
//! its own on it. Reordering, adding or removing a field changes the format.
//!
//! `endian` and `wire` hold the model, `writer` and `reader` the two sides of
//! a buffer, `codec` the trait that ties a type to its model and the calls
//! for whole messages, `world` and `player` two schemas, and `laws` what
//! holds of all of it. `proto` and `flat` describe the world as two other
//! formats see it, `fixture` and `workload` build the data that
//! implementations are compared on.
//!
//! Every executable function in this crate is verified against a
//! mathematical model of the format, and the laws of the format (what is
//! written is read back, a shortened buffer is refused) are proved once for
//! all values.

pub mod endian;
pub mod error;
pub mod wire;
pub mod writer;
pub mod reader;
pub mod codec;
pub mod world;
pub mod player;
pub mod laws;
pub mod proto;
pub mod flat;
pub mod fixture;
pub mod workload;
