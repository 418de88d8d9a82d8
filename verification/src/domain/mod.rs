//! Deriving what a listener is: its Project and Package, and its Kind. Nothing under
//! this module calls into the operating system; what it needs to know comes in as an
//! argument.
pub mod classify;
pub mod model;
pub mod project;
