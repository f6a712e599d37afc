//! Graph generation and layout bookkeeping for force-directed drawings.
//!
//! Nodes are numbered `0..n`; their starting positions are points of an
//! integer grid inside a window centred at the origin. Three generators build
//! the edge set: independent coin tosses over all pairs, a proximity
//! threshold relative to the closest pair, and coin tosses over the edges of a
//! Delaunay triangulation. The layout module holds the per-tick decisions of
//! the simulation that do not depend on floating-point arithmetic.
pub mod geometry;
pub mod graph;
pub mod pairs;
pub mod random;
pub mod generators;
pub mod delaunay;
pub mod layout;
