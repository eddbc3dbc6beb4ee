//! Distances that carry an owner tag.
//!
//! `WrappedDistance` pairs a scalar distance with the identifier of the tree
//! node it came from; boolean composition keeps the winning operand's tag, so
//! evaluating a tagged tape recovers which node owns each point.

use vstd::prelude::*;

verus! {

use crate::math::Point;
use crate::sdf::{Sdf, SignedDistance, DIVERGENT};

/// A scalar distance together with an opaque payload that survives boolean
/// composition by following the winning operand.
#[derive(Clone, Copy, PartialEq, Eq, Structural, Debug)]
pub struct WrappedDistance {
    pub d: i64,
    pub data: u32,
}

impl WrappedDistance {
    pub fn new(d: i64, data: u32) -> (r: WrappedDistance)
        ensures
            r == (WrappedDistance { d, data }),
    {
        WrappedDistance { d, data }
    }
}

impl Default for WrappedDistance {
    fn default() -> (r: WrappedDistance)
        ensures
            r == (WrappedDistance { d: 0i64, data: 0u32 }),
    {
        WrappedDistance { d: 0, data: 0 }
    }
}

impl SignedDistance for WrappedDistance {
    open spec fn sval(&self) -> int {
        self.d as int
    }

    open spec fn rebuilt(&self, d: int) -> WrappedDistance {
        WrappedDistance { d: d as i64, data: self.data }
    }

    open spec fn spec_divergent() -> WrappedDistance {
        WrappedDistance { d: DIVERGENT, data: 0u32 }
    }

    open spec fn spec_default() -> WrappedDistance {
        WrappedDistance { d: 0i64, data: 0u32 }
    }

    proof fn lemma_rebuilt(&self, d: int) {
    }

    proof fn lemma_divergent() {
    }

    proof fn lemma_sval_in_range(&self) {
    }

    fn value(&self) -> (v: i64) {
        self.d
    }

    fn with_new_distance(&self, d: i64) -> (r: WrappedDistance) {
        WrappedDistance { d, data: self.data }
    }

    fn divergent() -> (r: WrappedDistance) {
        WrappedDistance { d: DIVERGENT, data: 0 }
    }

    fn default_value() -> (r: WrappedDistance) {
        WrappedDistance { d: 0, data: 0 }
    }
}

/// Tags every distance a plain source yields with a fixed payload.
pub struct SdfWrapper<S> {
    pub sdf: S,
    pub data: u32,
}

impl<S> SdfWrapper<S> {
    pub fn new(sdf: S, data: u32) -> (r: SdfWrapper<S>)
        ensures
            r.sdf == sdf,
            r.data == data,
    {
        SdfWrapper { sdf, data }
    }
}

impl<S: Sdf<i64>> Sdf<WrappedDistance> for SdfWrapper<S> {
    open spec fn sd_req(&self, p: Point) -> bool {
        self.sdf.sd_req(p)
    }

    /// The wrapped source's distance, tagged with this wrapper's payload.
    open spec fn sd_spec(&self, p: Point) -> WrappedDistance {
        WrappedDistance { d: self.sdf.sd_spec(p), data: self.data }
    }

    open spec fn dist_spec(&self, p: Point) -> WrappedDistance {
        WrappedDistance { d: self.sdf.dist_spec(p), data: self.data }
    }

    fn signed_distance(&self, p: Point) -> (r: WrappedDistance) {
        WrappedDistance { d: self.sdf.signed_distance(p), data: self.data }
    }

    fn distance(&self, p: Point) -> (r: WrappedDistance) {
        WrappedDistance { d: self.sdf.distance(p), data: self.data }
    }
}

} // verus!
