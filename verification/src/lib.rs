//! Remote-control core for a two-motor ground vehicle: the wire command
//! grammar (decode and encode), the motor actuation model (signed speed to
//! direction plus duty-cycle percentage, with saturation), and the link
//! supervision step that applies commands and fails safe on timeout.
pub mod drivers;
pub mod protocol;
pub mod supervisor;
