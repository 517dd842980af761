//! Layered ("Sugiyama style") placement of directed graphs: nodes of fixed
//! size are bound to rows, given non-overlapping coordinates, balanced with a
//! Brandes-Koepf style pass, and every edge receives a monotone routed path.

pub mod graph;
pub mod rows;
pub mod simple;
pub mod backend;
pub mod bk;
pub mod edges;
pub mod placer;
