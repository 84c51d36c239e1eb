//! Conversion of message-bus values into JSON documents, and the
//! decisions of a pipeline that streams one document per bus signal
//! through a query engine.
//!
//! - [`value`]: the values that a signal carries.
//! - [`json`]: JSON documents, with objects kept in the order of their
//!   keys.
//! - [`convert`]: from values to documents; [`convert_lemmas`] states
//!   what holds of the conversion for every value.
//! - [`signature`]: the type signature of a value.
//! - [`record`]: the record that is made of one signal.
//! - [`render`]: documents as JSON text.
//! - [`pipeline`]: what to do next, given what has happened.
//! - [`text`]: decimal numerals and the order of keys.

pub mod convert;
pub mod convert_lemmas;
pub mod json;
pub mod pipeline;
pub mod record;
pub mod render;
pub mod signature;
pub mod text;
pub mod value;
