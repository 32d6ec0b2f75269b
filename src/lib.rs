//! The engine of an editor for SADT activity diagrams: boxes joined by typed
//! arrows on a pannable, zoomable canvas.
//!
//! - `geometry`: integer points, vectors and rectangles, squared distances.
//! - `transform`: the world/screen map of the canvas.
//! - `elements`, `model`: the diagram and its invariants.
//! - `ids`: fresh identities.
//! - `spatial`: hit-testing of connection points, nodes and arrows.
//! - `interaction`: the state machine that turns pointer and key events into
//!   edits.
//! - `signature`: the per-activity view the code generator consumes.
pub mod elements;
pub mod geometry;
pub mod ids;
pub mod interaction;
pub mod model;
pub mod signature;
pub mod spatial;
pub mod transform;
