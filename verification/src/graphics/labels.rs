//! A stack of the render resources created in some scope, so that they can be
//! released together.
use vstd::prelude::*;
use super::handles::{
    FrameBufferHandle, IndexBufferHandle, PipelineStateHandle, RenderBufferHandle, TextureHandle,
    VertexBufferHandle, ViewStateHandle,
};

verus! {

/// One created render resource.
#[derive(Debug, Clone, Copy, PartialEq, Eq, Structural)]
pub enum GraphicsResource {
    Texture(TextureHandle),
    VertexBuffer(VertexBufferHandle),
    IndexBuffer(IndexBufferHandle),
    ViewState(ViewStateHandle),
    PipelineState(PipelineStateHandle),
    FrameBuffer(FrameBufferHandle),
    RenderBuffer(RenderBufferHandle),
}

/// The resources created so far, in creation order.
pub struct GraphicsResourceLabel {
    stack: Vec<GraphicsResource>,
}

impl GraphicsResourceLabel {
    /// The recorded resources, oldest first.
    pub closed spec fn resources(&self) -> Seq<GraphicsResource> {
        self.stack@
    }

    pub fn new() -> (r: Self)
        ensures
            r.resources() == Seq::<GraphicsResource>::empty(),
    {
        GraphicsResourceLabel { stack: Vec::new() }
    }

    /// Records `resource` and hands it back.
    pub fn push(&mut self, resource: GraphicsResource) -> (r: GraphicsResource)
        ensures
            r == resource,
            final(self).resources() == old(self).resources().push(resource),
    {
        self.stack.push(resource);
        resource
    }

    /// Removes the recorded resources and returns them, oldest first, for the
    /// caller to release.
    pub fn drain(&mut self) -> (r: Vec<GraphicsResource>)
        ensures
            r@ == old(self).resources(),
            final(self).resources() == Seq::<GraphicsResource>::empty(),
    {
        let mut out = Vec::new();
        std::mem::swap(&mut out, &mut self.stack);
        out
    }
}

} // verus!
