//! Generates component interface definitions from a parsed model of annotated source modules:
//! naming policy, type mapping, declaration collection,
//! interface rendering and world manifest aggregation.

pub mod text;
pub mod naming;
pub mod model;
pub mod mapper;
pub mod collect;
pub mod interface;
pub mod project;
pub mod world;
