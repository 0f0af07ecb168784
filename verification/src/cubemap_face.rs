//! The six faces of a cubemap and a CPU-side six-face capture.

use vstd::prelude::*;

verus! {

/// The six faces of a cubemap, in the conventional +X,-X,+Y,-Y,+Z,-Z order. The
/// index into [`CubemapCapture::faces`] is [`CubemapFace::index`].
#[derive(Clone, Copy, Debug, PartialEq, Eq, Structural)]
pub enum CubemapFace {
    PosX,
    NegX,
    PosY,
    NegY,
    PosZ,
    NegZ,
}

/// The storage slot of a face: +X,-X,+Y,-Y,+Z,-Z map to 0..6.
pub open spec fn face_slot(face: CubemapFace) -> int {
    match face {
        CubemapFace::PosX => 0,
        CubemapFace::NegX => 1,
        CubemapFace::PosY => 2,
        CubemapFace::NegY => 3,
        CubemapFace::PosZ => 4,
        CubemapFace::NegZ => 5,
    }
}

impl CubemapFace {
    /// All six faces in storage order.
    pub const ALL: [CubemapFace; 6] = [
        CubemapFace::PosX,
        CubemapFace::NegX,
        CubemapFace::PosY,
        CubemapFace::NegY,
        CubemapFace::PosZ,
        CubemapFace::NegZ,
    ];

    /// The face's storage slot (0..6).
    pub fn index(self) -> (i: usize)
        ensures
            i == face_slot(self),
            i < 6,
    {
        match self {
            CubemapFace::PosX => 0,
            CubemapFace::NegX => 1,
            CubemapFace::PosY => 2,
            CubemapFace::NegY => 3,
            CubemapFace::PosZ => 4,
            CubemapFace::NegZ => 5,
        }
    }

    /// The face stored at slot `i`.
    pub fn from_index(i: usize) -> (face: CubemapFace)
        requires
            i < 6,
        ensures
            face_slot(face) == i,
    {
        match i {
            0 => CubemapFace::PosX,
            1 => CubemapFace::NegX,
            2 => CubemapFace::PosY,
            3 => CubemapFace::NegY,
            4 => CubemapFace::PosZ,
            _ => CubemapFace::NegZ,
        }
    }
}

/// Slots and faces are in one-to-one correspondence: distinct faces occupy
/// distinct slots, and the slot of every face lies in 0..6.
pub proof fn lemma_face_slots_distinct(a: CubemapFace, b: CubemapFace)
    ensures
        0 <= face_slot(a) < 6,
        face_slot(a) == face_slot(b) <==> a == b,
{
}

/// Six LDR RGBA8 faces captured from one world point. Each face is `resolution ×
/// resolution`, tightly packed (`resolution * resolution * 4` bytes), row-major top
/// to bottom. Indexed by the face's slot via [`CubemapCapture::face`].
pub struct CubemapCapture {
    /// Edge length in pixels of every face.
    pub resolution: u32,
    /// The six faces in `CubemapFace::ALL` order.
    pub faces: [Vec<u8>; 6],
}

impl CubemapCapture {
    /// The packed RGBA8 bytes of one face.
    pub fn face(&self, face: CubemapFace) -> (bytes: &[u8])
        ensures
            bytes@ == self.faces[face_slot(face)]@,
    {
        self.faces[face.index()].as_slice()
    }
}

} // verus!
