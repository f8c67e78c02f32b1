//! The tool surface for assistants: typed requests in, self-describing
//! answers out. Raw names resolve in [`names`]; [`output`] holds the
//! shapes of the answers and [`server`] the tools themselves.

pub mod names;
pub mod output;
pub mod server;
