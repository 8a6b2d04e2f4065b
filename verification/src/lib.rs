//! Core of a fully-connected feed-forward neural network for classifying
//! handwritten digits.
//!
//! Every numeric parameter of the network (bias, weight, learning rate) is
//! held as the 32-bit IEEE-754 bit pattern of the value, so that the
//! structural logic — layer shapes, persistence, validation, scoring helpers
//! — can be stated and proved exactly, bit for bit.  The floating-point
//! evaluation of the network (sigmoid activation, delta propagation, weight
//! updates) reads and writes these bit patterns from the surrounding
//! application.

pub mod decimal;
pub mod inout;
pub mod nodes_layers;
pub mod unpacking;
