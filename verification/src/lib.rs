//! A content-addressed operation log and the planar splitting of sketches.
//!
//! The log records every action as a commit whose identity is a SHA-256 digest of its
//! operation, its parent and its position; replaying the ancestors of the cursor rebuilds
//! a project. The splitter cuts the lines, circles and arcs of a sketch at their mutual
//! intersections with a worklist of pairs and collisions.
//!
//! The library holds no real arithmetic. A coordinate or a radius travels as a
//! [`geometry::Scalar`], and what a numeric kernel found out about two shapes arrives as
//! an [`intersections::Contact`]; every decision taken on such findings is made, and
//! proved, here. The work of the splitter halts for the kernel whenever a pair is to be
//! tested and is run here in between.

pub mod text;
pub mod digest;
pub mod geometry;
pub mod incrementing_map;
pub mod sketch;
pub mod intersections;
pub mod splitter;
pub mod soundness;
pub mod driver;
pub mod operation;
pub mod oplog;
pub mod project;
pub mod replay;
