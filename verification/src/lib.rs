//! Turning CDS service definitions (CSN) and OData-style request URLs into
//! CQN queries, and CQN queries into SQL text.

pub mod json;
pub mod text;
pub mod csn;
pub mod cqn;
pub mod url_to_cqn;
pub mod entity;
pub mod get_entities;
pub mod add_routes;
