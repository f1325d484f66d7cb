//! Tutor allocation for recurring help sessions: the records, the text
//! formats that describe a term, the cost of a candidate allocation and the
//! randomised search over allocations.

pub mod types;
pub mod allocation;
pub mod cost;
pub mod model;
pub mod solver;
pub mod setup;
pub mod random;
pub mod mutation;
pub mod annealer;
pub mod racer;
pub mod text;
pub mod tsv;
pub mod read_sessions;
pub mod read_responses;
