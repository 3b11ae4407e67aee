//! Conversion of OpenStreetMap elements into line-oriented feature records:
//! the element model, the tag filter, geometry resolution, the coordinate
//! stores and the choice of processing strategy.

pub mod codec;
pub mod filter;
pub mod geometry;
pub mod osm;
pub mod pipeline;
pub mod record;
pub mod resolve;
pub mod store;
pub mod strategy;
pub mod tables;
