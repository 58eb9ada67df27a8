//! Delaunay triangulation support: the combinatorial core of the
//! Bowyer-Watson algorithm over vertex indices, and a rectangular grid.
use vstd::prelude::*;

pub mod delaunay;
pub mod geometry;
pub mod grid;

verus! {

} // verus!
