//! A FIFO task scheduler with a cap on concurrency, modelled as a state
//! machine: every operation takes the current state and an event and yields
//! the next state together with the actions the caller has to perform.

pub mod clock;
pub mod entries;
pub mod errors;
pub mod git;
pub mod ids;
pub mod laws;
pub mod listing;
pub mod lookup;
pub mod model;
pub mod oauth;
pub mod paths;
pub mod queue;
pub mod records;
pub mod scan;
pub mod secrets;
pub mod shell;
pub mod slots;
pub mod state;
pub mod status;
pub mod text;
pub mod upkeep;
