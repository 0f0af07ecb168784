//! How each camera pass of a stacked frame initialises the framebuffer.

use vstd::prelude::*;

verus! {

/// How a camera initialises the framebuffer before drawing.
#[derive(Clone, Copy, Debug, PartialEq, Eq, Structural)]
pub enum ClearFlags {
    /// Clear to the backdrop and draw the skybox.
    Skybox,
    /// Clear to a solid backdrop.
    SolidColor,
    /// Keep the colour below and clear only depth, compositing on top.
    DepthOnly,
}

/// The framebuffer clear behaviour of one camera pass.
#[derive(Clone, Copy, Debug, PartialEq, Eq, Structural)]
pub struct PassClear {
    /// `true` clears colour to the backdrop; `false` loads the existing colour so this
    /// camera composites on top of what is already drawn.
    pub clear_color: bool,
    /// The camera's clear flags, kept so the pass only redraws the skybox for a
    /// `Skybox` camera.
    pub flags: ClearFlags,
}

impl PassClear {
    /// Resolve the clear ops for a pass. The bottom pass always clears colour (nothing
    /// is under it); `DepthOnly` preserves colour so a viewmodel/UI camera layers on top
    /// of the world. Every camera clears depth.
    pub fn for_pass(is_first: bool, flags: ClearFlags) -> (pc: Self)
        ensures
            pc.flags == flags,
            pc.clear_color == (is_first || flags != ClearFlags::DepthOnly),
    {
        let clear_color = match flags {
            ClearFlags::Skybox | ClearFlags::SolidColor => true,
            // A DepthOnly bottom pass has nothing to composite over, so clear anyway.
            ClearFlags::DepthOnly => is_first,
        };
        Self { clear_color, flags }
    }
}

} // verus!
