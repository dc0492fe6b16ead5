//! A bounded tabu set: it remembers the most recently admitted distinct
//! elements, answers membership queries through a hash set, and drops the
//! oldest resident element whenever an insertion would exceed its capacity.

pub mod fifo;
pub mod history;
pub mod key;
pub mod tabu;

pub use tabu::TabuStructure;
