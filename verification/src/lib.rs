//! A compact, self-describing binary encoding for a recursive key/value
//! store, with the encoders and decoders proved against one statement of the
//! byte layout.
//!
//! The crate is layered, leaves first:
//!
//! - [`cursor`]: a bounds-checked reader over a byte slice;
//! - [`integer`]: signed integers of up to 128 bits and their variable-width
//!   encoding;
//! - [`values`]: the values a store holds, their tags and their codec;
//! - [`store`] and [`store_codec`]: the container, a keyed store or an
//!   array, and its codec;
//! - [`version`]: the version tag at the head of an encoded store;
//! - [`format`]: the byte layout as specification functions;
//! - [`round_trip`], [`truncation`] and [`laws`]: what is proved of the
//!   layout as a whole;
//! - [`render`], [`json`] and [`client`]: text for people, import of JSON
//!   trees, and the decisions of a client of a server that keeps stores;
//! - [`kv`], [`text`] and [`buf`]: what the rest leans on.
pub mod buf;
pub mod client;
pub mod cursor;
pub mod format;
pub mod integer;
pub mod json;
pub mod kv;
pub mod laws;
pub mod render;
pub mod round_trip;
pub mod store;
pub mod store_codec;
pub mod text;
pub mod truncation;
pub mod values;
pub mod version;
