//! The textual command protocol: message values, the decode grammar and the
//! encode (wire) form.
pub mod encoder;
pub mod message;
pub mod parser;
