//! Contribution-calendar core: the data model, query construction, response
//! decoding and classification, fetch lifecycle state, and the derived
//! lookups (today's entry, cell colors) behind a contribution-graph client.

pub mod codec;
pub mod color;
pub mod fetch;
pub mod lookup;
pub mod model;
pub mod query;
