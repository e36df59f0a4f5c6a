//! Paystub tracking: the state machine of a paystub analysis, the key
//! normalisation that keeps labels stable from one paystub to the next, the
//! cleaning of the analyser's answers, the dispatching of pending paystubs and
//! the data behind the monthly graph.
pub mod text;
pub mod keys;
pub mod pairs;
pub mod paystub;
pub mod analysis;
pub mod store;
pub mod queue;
pub mod graph;
pub mod claude;
pub mod server;
pub mod laws;
