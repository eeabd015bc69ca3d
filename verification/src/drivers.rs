//! Actuation layer: the motor model driving two duty-cycle output channels.
pub mod motor;
