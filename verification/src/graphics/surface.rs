//! Frame buffers of surfaces, and the scissor test of a surface.
use vstd::prelude::*;
use super::handles::{GraphicsError, RenderBufferHandle, RenderTextureHandle};
use super::view::requested_slot;

verus! {

/// The number of attachment slots of a frame buffer.
pub const MAX_FRAMEBUFFER_ATTACHMENTS: usize = 8;

/// What a frame buffer slot holds.
#[derive(Debug, Clone, Copy, PartialEq, Eq, Structural)]
pub enum FrameBufferAttachment {
    Texture(RenderTextureHandle),
    RenderBuffer(RenderBufferHandle),
}

impl RenderTextureHandle {
    /// The attachment that names this render texture.
    pub fn into_attachment(self) -> (r: FrameBufferAttachment)
        ensures
            r == FrameBufferAttachment::Texture(self),
    {
        FrameBufferAttachment::Texture(self)
    }
}

impl RenderBufferHandle {
    /// The attachment that names this render buffer.
    pub fn into_attachment(self) -> (r: FrameBufferAttachment)
        ensures
            r == FrameBufferAttachment::RenderBuffer(self),
    {
        FrameBufferAttachment::RenderBuffer(self)
    }
}

/// `FrameBuffer` is a collection of 2D arrays or storages, including
/// color buffers, depth buffer, stencil buffer.
#[derive(Debug, Copy, Clone)]
pub struct FrameBufferSetup {
    attachments: [Option<FrameBufferAttachment>; MAX_FRAMEBUFFER_ATTACHMENTS],
}

impl Default for FrameBufferSetup {
    fn default() -> (r: Self)
        ensures
            r.slots() == Seq::new(MAX_FRAMEBUFFER_ATTACHMENTS as nat, |i: int| None::<FrameBufferAttachment>),
    {
        let r = FrameBufferSetup { attachments: [None; MAX_FRAMEBUFFER_ATTACHMENTS] };
        assert(r.slots() =~= Seq::new(MAX_FRAMEBUFFER_ATTACHMENTS as nat, |i: int| None::<FrameBufferAttachment>));
        r
    }
}

impl FrameBufferSetup {
    /// What each slot holds.
    pub closed spec fn slots(&self) -> Seq<Option<FrameBufferAttachment>> {
        self.attachments@
    }

    /// Gets the underlying attachments.
    /// Every setup has one slot per possible attachment.
    pub proof fn lemma_slot_count(&self)
        ensures
            self.slots().len() == MAX_FRAMEBUFFER_ATTACHMENTS,
    {
    }

    pub fn attachments(&self) -> (r: &[Option<FrameBufferAttachment>])
        ensures
            r@ == self.slots(),
            r@.len() == MAX_FRAMEBUFFER_ATTACHMENTS,
    {
        self.attachments.as_slice()
    }

    /// Attach a `RenderBufferObject` or `TextureObject` as a logical buffer to the
    /// `FrameBufferObject`; the slot defaults to 0.
    pub fn set_attachment(&mut self, handle: FrameBufferAttachment, slot: Option<usize>) -> (r: Result<(), GraphicsError>)
        ensures
            requested_slot(slot) >= MAX_FRAMEBUFFER_ATTACHMENTS ==> r == Err::<(), GraphicsError>(GraphicsError::OutOfBounds)
                && final(self).slots() == old(self).slots(),
            requested_slot(slot) < MAX_FRAMEBUFFER_ATTACHMENTS ==> r == Ok::<(), GraphicsError>(())
                && final(self).slots() == old(self).slots().update(requested_slot(slot) as int, Some(handle)),
    {
        let slot = match slot {
            Some(s) => s,
            None => 0,
        };
        if slot >= MAX_FRAMEBUFFER_ATTACHMENTS {
            return Err(GraphicsError::OutOfBounds);
        }
        self.attachments[slot] = Some(handle);
        Ok(())
    }
}

/// Defines a rectangle, called the scissor box, in window coordinates. The test is
/// initially disabled. While the test is enabled, only pixels that lie within the
/// scissor box can be modified by drawing commands.
#[derive(Debug, Clone, Copy, PartialEq, Eq)]
pub enum Scissor {
    Enable((u16, u16), (u16, u16)),
    Disable,
}

} // verus!
