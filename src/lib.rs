//! A gazetteer search engine over ports, regions and broad regions, and the
//! voyages between them.
//!
//! - `model`: places, voyages, ports and the errors of reading them.
//! - `search`: lexical place search constrained by the opposite endpoint of a
//!   route, and route resolution at any level of the hierarchy.
//! - `analyze`: route statistics and temporal buckets.
//! - `fuzzy`: port matching by edit distance and bigram similarity.
//! - `session`: the decisions of choosing a route's two endpoints.
//! - `table`: the texts shown for voyages, ports and suggestions.
//! - `rank` and `text`: stable top-k ranking and character-level matching.
pub mod model;
pub mod text;
pub mod rank;
pub mod search;
pub mod analyze;
pub mod fuzzy;
pub mod table;
pub mod session;
