//! Registry endpoints as agent tools: which tools are offered, the schemas
//! they show, and what a call answers.

pub mod glob;
pub mod registry;
pub mod schema;
