//! The rules of Portside, a menu bar application that shows which servers are running on
//! a machine, whose they are, and lets the user stop those that may be stopped.
//!
//! Everything here computes: listing sockets, opening connections, sending signals and
//! drawing the window is the application's. What the application finds out comes in as
//! plain values or through a function it hands over, and what it is to do goes out as a
//! value.
//!
//! - [`platform`]: what a listener is, and what the system's tools print about it.
//! - [`domain`]: which Project a Server belongs to, and which Kind it is.
//! - [`probe`]: the page title in a response, and the cache of titles.
//! - [`scanner`]: one scan, what it changes, and what is shown and told of it.
//! - [`keeplist`]: the marks that keep a Server running.
//! - [`commands`]: stopping, keeping and opening, step by step.
//! - [`ipc`]: the shapes that the user interface is given.
//! - [`guarantees`]: what holds across whole stops and whole displays.
//! - [`laws`]: what each operation is for, stated by what goes in and what comes out.
//! - [`text`], [`numeral`], [`path`], [`time`], [`sorting`], [`find`]: the ground that
//!   the rest stands on.

pub mod text;
pub mod numeral;
pub mod path;
pub mod time;
pub mod sorting;
pub mod find;
pub mod platform;
pub mod domain;
pub mod probe;
pub mod keeplist;
pub mod ipc;
pub mod scanner;
pub mod commands;
pub mod guarantees;
pub mod laws;
