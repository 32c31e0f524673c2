//! The decisions of `deemo`: run a command in the background, keep its output
//! in a log, and manage what was started.
//!
//! Everything here computes on plain values. Reading directories, probing
//! processes, delivering signals and printing is left to the program around
//! the library, which hands in what it saw and carries out what comes back.

pub mod cli;
pub mod clock;
pub mod kill;
pub mod laws;
pub mod order;
pub mod port;
pub mod registry;
pub mod run;
pub mod signal;
pub mod sink;
pub mod stop;
pub mod stream;
pub mod terminate;
pub mod text;
