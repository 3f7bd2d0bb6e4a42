//! An in-memory social graph: users register profiles with interests, form
//! typed directed connections, and query interest matches and connection
//! recommendations.

pub mod errors;
pub mod graph;
pub mod recommend;
