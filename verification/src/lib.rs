//! A schema-driven positional binary decoder.
//!
//! Messages carry no self-describing metadata: the byte layout is fixed
//! entirely by the shape of the value the caller asks for, as in the
//! Simple Binary Encoding family of wire formats.  Given a byte source
//! and a [`shape::Shape`], the decoder consumes exactly the bytes that
//! the shape implies, in declaration order, and produces a typed
//! [`value::Value`].

pub mod codec;
pub mod decoder;
pub mod laws;
pub mod shape;
pub mod value;

pub use decoder::Error;
pub use decoder::FIRST_TAG;
pub use decoder::SbeDeser;
pub use decoder::tag_index;
pub use shape::PrimKind;
pub use shape::Shape;
pub use value::Value;
