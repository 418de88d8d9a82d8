//! What the library's operations are for, each stated by what goes in and what comes out.
pub mod calls;
pub mod changes;
pub mod kinds;
pub mod pages;
pub mod panel;
pub mod places;
pub mod prints;
pub mod scans;
pub mod stops;
pub mod tools;
pub mod views;
pub mod words;
