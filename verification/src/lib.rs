//! Core of a streaming globe viewer: a view-dependent tile streaming and
//! culling engine for a 3D-Tiles bounding-volume hierarchy.
//!
//! All geometry is carried in fixed-point integer coordinates. Every predicate
//! the traversal relies on (hemisphere visibility, frustum rejection, the
//! screen-space-error refinement test) is homogeneous in its inputs, so it is
//! computed here exactly, without rounding, whatever unit-per-meter scale the
//! caller picks for its values.

pub mod geom;
pub mod volume;
pub mod matrix;
pub mod frustum;
pub mod view_state;
pub mod tiles;
pub mod client;
pub mod cache;

pub use geom::Vec3i;
pub use volume::BoundingVolume;
pub use matrix::Mat4i;
pub use frustum::{Plane, Frustum, Planes6};
pub use tiles::{Node, Content, GLBInfo};
pub use client::{Client, ClientError};
pub use cache::{Tile, TileContentState, TileCache, ClientState, LoadEvent, Action, ChildRef};
pub use view_state::{ViewState, CullingResult, CullingVolume, OrientedBoundingBox};
