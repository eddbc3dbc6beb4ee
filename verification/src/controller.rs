//! Buffer descriptors handed to the renderer.
//!
//! The engine's outputs travel to the renderer as plain byte slices; these
//! types say how each slice is to be bound.

use vstd::prelude::*;

verus! {

/// A read-write or read-only storage buffer.
pub struct SSBO<'a> {
    pub data: &'a [u8],
    pub read_only: bool,
}

impl<'a> SSBO<'a> {
    /// A read-only storage buffer over the given bytes.
    pub fn read_only(data: &'a [u8]) -> (r: SSBO<'a>)
        ensures
            r.data@ == data@,
            r.read_only,
    {
        SSBO { data, read_only: true }
    }
}

/// A uniform buffer.
pub struct Uniform<'a> {
    pub data: &'a [u8],
}

/// One bound buffer, of either binding kind.
pub enum BindGroupBufferType<'a> {
    Uniform(Uniform<'a>),
    SSBO(SSBO<'a>),
}

impl<'a> BindGroupBufferType<'a> {
    /// The bytes this binding carries.
    pub fn bytes(&self) -> (r: &'a [u8])
        ensures
            r@ == match *self {
                BindGroupBufferType::Uniform(u) => u.data@,
                BindGroupBufferType::SSBO(s) => s.data@,
            },
    {
        match self {
            BindGroupBufferType::Uniform(u) => u.data,
            BindGroupBufferType::SSBO(s) => s.data,
        }
    }
}

} // verus!
