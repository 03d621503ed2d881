//! Constructive solid geometry on polygon meshes: boolean combinations of
//! solids, computed with binary space partitioning trees.

pub mod bsp_node;
pub mod csg;
pub mod cube;
pub mod laws;
pub mod plane;
pub mod polygon;
pub mod refine;
pub mod sphere;
pub mod split;
pub mod transform;
pub mod unit;
pub mod vector;
pub mod vertex;

pub use crate::bsp_node::{BspNode, NodeModel};
pub use crate::csg::{Csg, Triangle};
pub use crate::plane::{Location, Plane};
pub use crate::polygon::{Polygon, PolygonModel};
pub use crate::transform::Motion;
pub use crate::unit::Unit;
pub use crate::vector::Vector;
pub use crate::vertex::Vertex;
