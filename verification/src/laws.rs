//! What the operations are for, stated over their inputs and results.

pub mod cli;
pub mod clock;
pub mod kill;
pub mod order;
pub mod port;
pub mod registry;
pub mod run;
pub mod signal;
pub mod sink;
pub mod stop;
pub mod stream;
pub mod terminate;
pub mod text;
