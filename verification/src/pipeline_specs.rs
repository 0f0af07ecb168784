//! The fixed-function state that tells the four forward-target pipelines apart. They
//! share one shader, vertex layout and depth format; building the GPU pipelines from
//! these specs happens outside.

use vstd::prelude::*;

verus! {

/// How vertices assemble into primitives.
#[derive(Clone, Copy, Debug, PartialEq, Eq, Structural)]
pub enum Topology {
    TriangleList,
    LineList,
}

/// Which faces are culled.
#[derive(Clone, Copy, Debug, PartialEq, Eq, Structural)]
pub enum Cull {
    Nothing,
    FrontFaces,
}

/// How a fragment combines with the colour already in the target.
#[derive(Clone, Copy, Debug, PartialEq, Eq, Structural)]
pub enum Blend {
    Replace,
    AlphaBlending,
}

/// Which depths pass the depth test.
#[derive(Clone, Copy, Debug, PartialEq, Eq, Structural)]
pub enum DepthCompare {
    Less,
    LessEqual,
}

/// The pipelines of the forward target.
#[derive(Clone, Copy, Debug, PartialEq, Eq, Structural)]
pub enum ForwardPipeline {
    /// Opaque and cutout solids.
    Forward,
    /// Alpha-blended translucent solids.
    Transparent,
    /// Line debug overlays.
    Line,
    /// The selection silhouette (inverted hull).
    Outline,
}

/// Fixed-function knobs of one forward-target pipeline.
#[derive(Clone, Copy, Debug, PartialEq, Eq, Structural)]
pub struct PipelineSpec {
    pub topology: Topology,
    pub cull: Cull,
    pub blend: Blend,
    pub depth_write: bool,
    pub depth_compare: DepthCompare,
}

/// The spec of each forward-target pipeline:
/// - forward: triangles, no culling (primitives may render inside-out), replace, depth
///   write on, `Less`;
/// - transparent: like forward but alpha-blended with depth write off, so overlapping
///   translucent surfaces all blend instead of z-culling each other (still depth-tested);
/// - line: lines, alpha-blended, depth write off, `LessEqual`, so overlays show over
///   the grid;
/// - outline: triangles with front faces culled so only the hull's back faces show,
///   replace, depth write on, `LessEqual`.
pub open spec fn spec_of(p: ForwardPipeline) -> PipelineSpec {
    match p {
        ForwardPipeline::Forward => PipelineSpec {
            topology: Topology::TriangleList,
            cull: Cull::Nothing,
            blend: Blend::Replace,
            depth_write: true,
            depth_compare: DepthCompare::Less,
        },
        ForwardPipeline::Transparent => PipelineSpec {
            topology: Topology::TriangleList,
            cull: Cull::Nothing,
            blend: Blend::AlphaBlending,
            depth_write: false,
            depth_compare: DepthCompare::Less,
        },
        ForwardPipeline::Line => PipelineSpec {
            topology: Topology::LineList,
            cull: Cull::Nothing,
            blend: Blend::AlphaBlending,
            depth_write: false,
            depth_compare: DepthCompare::LessEqual,
        },
        ForwardPipeline::Outline => PipelineSpec {
            topology: Topology::TriangleList,
            cull: Cull::FrontFaces,
            blend: Blend::Replace,
            depth_write: true,
            depth_compare: DepthCompare::LessEqual,
        },
    }
}

/// The fixed-function spec of a forward-target pipeline.
pub fn pipeline_spec(p: ForwardPipeline) -> (spec: PipelineSpec)
    ensures
        spec == spec_of(p),
        spec.topology == (if p == ForwardPipeline::Line { Topology::LineList } else { Topology::TriangleList }),
        spec.cull == (if p == ForwardPipeline::Outline { Cull::FrontFaces } else { Cull::Nothing }),
        spec.blend == (if p == ForwardPipeline::Transparent || p == ForwardPipeline::Line {
            Blend::AlphaBlending
        } else {
            Blend::Replace
        }),
        spec.depth_write == (p == ForwardPipeline::Forward || p == ForwardPipeline::Outline),
        spec.depth_compare == (if p == ForwardPipeline::Forward || p == ForwardPipeline::Transparent {
            DepthCompare::Less
        } else {
            DepthCompare::LessEqual
        }),
{
    match p {
        ForwardPipeline::Forward => PipelineSpec {
            topology: Topology::TriangleList,
            cull: Cull::Nothing,
            blend: Blend::Replace,
            depth_write: true,
            depth_compare: DepthCompare::Less,
        },
        ForwardPipeline::Transparent => PipelineSpec {
            topology: Topology::TriangleList,
            cull: Cull::Nothing,
            blend: Blend::AlphaBlending,
            depth_write: false,
            depth_compare: DepthCompare::Less,
        },
        ForwardPipeline::Line => PipelineSpec {
            topology: Topology::LineList,
            cull: Cull::Nothing,
            blend: Blend::AlphaBlending,
            depth_write: false,
            depth_compare: DepthCompare::LessEqual,
        },
        ForwardPipeline::Outline => PipelineSpec {
            topology: Topology::TriangleList,
            cull: Cull::FrontFaces,
            blend: Blend::Replace,
            depth_write: true,
            depth_compare: DepthCompare::LessEqual,
        },
    }
}

/// A pipeline writes depth exactly when it does not blend: translucent solids and line
/// overlays never occlude what is drawn after them.
pub proof fn lemma_blending_pipelines_keep_depth(p: ForwardPipeline)
    ensures
        spec_of(p).depth_write <==> spec_of(p).blend == Blend::Replace,
{
}

/// The transparent pipeline is the forward one with alpha blending and without depth
/// writes: same triangles, no culling (both faces of a translucent surface show), same
/// depth test.
pub proof fn lemma_transparent_is_blended_forward()
    ensures
        spec_of(ForwardPipeline::Transparent).topology == spec_of(ForwardPipeline::Forward).topology,
        spec_of(ForwardPipeline::Transparent).cull == spec_of(ForwardPipeline::Forward).cull,
        spec_of(ForwardPipeline::Transparent).cull == Cull::Nothing,
        spec_of(ForwardPipeline::Transparent).depth_compare == spec_of(ForwardPipeline::Forward).depth_compare,
        spec_of(ForwardPipeline::Transparent).blend == Blend::AlphaBlending,
        spec_of(ForwardPipeline::Forward).blend == Blend::Replace,
        !spec_of(ForwardPipeline::Transparent).depth_write,
        spec_of(ForwardPipeline::Forward).depth_write,
{
}

/// Only the outline pipeline culls, and it culls front faces: the hull shows its back
/// faces around the selection.
pub proof fn lemma_only_outline_culls(p: ForwardPipeline)
    ensures
        spec_of(p).cull != Cull::Nothing <==> p == ForwardPipeline::Outline,
        spec_of(ForwardPipeline::Outline).cull == Cull::FrontFaces,
{
}

} // verus!
