//! Frame buffers assembled from textures and render buffers.
use vstd::prelude::*;
use super::handles::{GraphicsError, RenderBufferHandle, TextureHandle};

verus! {

/// The number of attachment slots of a frame buffer.
pub const MAX_ATTACHMENTS: usize = 8;

/// What a frame buffer slot holds.
#[derive(Debug, Clone, Copy, PartialEq, Eq, Structural)]
pub enum FrameBufferAttachment {
    Texture(TextureHandle),
    RenderBuffer(RenderBufferHandle),
}

/// `FrameBuffer` is a collection of 2D arrays or storages, including
/// color buffers, depth buffer, stencil buffer.
#[derive(Debug, Copy, Clone)]
pub struct FrameBufferSetup {
    attachments: [Option<FrameBufferAttachment>; MAX_ATTACHMENTS],
}

/// The slot a request names: the given one, or slot 0.
pub open spec fn requested_slot(slot: Option<usize>) -> usize {
    match slot {
        Some(s) => s,
        None => 0,
    }
}

impl Default for FrameBufferSetup {
    fn default() -> (r: Self)
        ensures
            r.slots() == Seq::new(MAX_ATTACHMENTS as nat, |i: int| None::<FrameBufferAttachment>),
    {
        let r = FrameBufferSetup { attachments: [None; MAX_ATTACHMENTS] };
        assert(r.slots() =~= Seq::new(MAX_ATTACHMENTS as nat, |i: int| None::<FrameBufferAttachment>));
        r
    }
}

impl FrameBufferSetup {
    /// What each slot holds.
    pub closed spec fn slots(&self) -> Seq<Option<FrameBufferAttachment>> {
        self.attachments@
    }

    /// Every setup has one slot per possible attachment.
    pub proof fn lemma_slot_count(&self)
        ensures
            self.slots().len() == MAX_ATTACHMENTS,
    {
    }

    pub fn attachments(&self) -> (r: &[Option<FrameBufferAttachment>])
        ensures
            r@ == self.slots(),
            r@.len() == MAX_ATTACHMENTS,
    {
        self.attachments.as_slice()
    }

    fn attach(&mut self, attachment: FrameBufferAttachment, slot: Option<usize>) -> (r: Result<(), GraphicsError>)
        ensures
            requested_slot(slot) >= MAX_ATTACHMENTS ==> r == Err::<(), GraphicsError>(GraphicsError::OutOfBounds)
                && final(self).slots() == old(self).slots(),
            requested_slot(slot) < MAX_ATTACHMENTS ==> r == Ok::<(), GraphicsError>(())
                && final(self).slots() == old(self).slots().update(requested_slot(slot) as int, Some(attachment)),
    {
        let slot = match slot {
            Some(s) => s,
            None => 0,
        };
        if slot >= MAX_ATTACHMENTS {
            return Err(GraphicsError::OutOfBounds);
        }
        self.attachments[slot] = Some(attachment);
        Ok(())
    }

    /// Attach a `RenderBufferObject` as a logical buffer to the `FrameBufferObject`.
    pub fn set_attachment(&mut self, handle: RenderBufferHandle, slot: Option<usize>) -> (r: Result<(), GraphicsError>)
        ensures
            requested_slot(slot) >= MAX_ATTACHMENTS ==> r == Err::<(), GraphicsError>(GraphicsError::OutOfBounds)
                && final(self).slots() == old(self).slots(),
            requested_slot(slot) < MAX_ATTACHMENTS ==> r == Ok::<(), GraphicsError>(())
                && final(self).slots() == old(self).slots().update(
                requested_slot(slot) as int,
                Some(FrameBufferAttachment::RenderBuffer(handle)),
            ),
    {
        self.attach(FrameBufferAttachment::RenderBuffer(handle), slot)
    }

    /// Attach a `TextureObject` as a logical buffer to the `FrameBufferObject`.
    pub fn set_texture_attachment(&mut self, handle: TextureHandle, slot: Option<usize>) -> (r: Result<(), GraphicsError>)
        ensures
            requested_slot(slot) >= MAX_ATTACHMENTS ==> r == Err::<(), GraphicsError>(GraphicsError::OutOfBounds)
                && final(self).slots() == old(self).slots(),
            requested_slot(slot) < MAX_ATTACHMENTS ==> r == Ok::<(), GraphicsError>(())
                && final(self).slots() == old(self).slots().update(
                requested_slot(slot) as int,
                Some(FrameBufferAttachment::Texture(handle)),
            ),
    {
        self.attach(FrameBufferAttachment::Texture(handle), slot)
    }
}

/// The attachments among the first `n` slots, each with its slot number, in
/// slot order.
pub open spec fn attached(slots: Seq<Option<FrameBufferAttachment>>, n: int) -> Seq<(u32, FrameBufferAttachment)>
    decreases n,
{
    if n <= 0 {
        Seq::empty()
    } else {
        let rest = attached(slots, n - 1);
        match slots[n - 1] {
            Some(a) => rest.push(((n - 1) as u32, a)),
            None => rest,
        }
    }
}

impl FrameBufferSetup {
    /// The updates that bind this setup to a frame buffer: every slot that
    /// holds an attachment, with its slot number, in slot order.
    pub fn attachment_updates(&self) -> (r: Vec<(u32, FrameBufferAttachment)>)
        ensures
            r@ == attached(self.slots(), MAX_ATTACHMENTS as int),
    {
        let mut out: Vec<(u32, FrameBufferAttachment)> = Vec::new();
        let mut i: usize = 0;
        while i < MAX_ATTACHMENTS
            invariant
                i <= MAX_ATTACHMENTS,
                self.slots().len() == MAX_ATTACHMENTS,
                out@ == attached(self.slots(), i as int),
            decreases MAX_ATTACHMENTS - i,
        {
            match self.attachments[i] {
                Some(a) => {
                    out.push((i as u32, a));
                },
                None => {},
            }
            i += 1;
        }
        out
    }
}

/// The slots after a request to attach `a` at `slot`: the requested slot
/// holds `a` when it exists, and nothing changes otherwise.
pub open spec fn after_set<A>(slots: Seq<Option<A>>, slot: Option<usize>, a: A) -> Seq<Option<A>> {
    if requested_slot(slot) < slots.len() {
        slots.update(requested_slot(slot) as int, Some(a))
    } else {
        slots
    }
}

/// What the last of the requests `reqs` that named slot `i` attached there.
pub open spec fn last_set<A>(reqs: Seq<(Option<usize>, A)>, i: int) -> Option<A>
    decreases reqs.len(),
{
    if reqs.len() == 0 {
        None
    } else if requested_slot(reqs.last().0) == i {
        Some(reqs.last().1)
    } else {
        last_set(reqs.drop_last(), i)
    }
}

/// A setup that starts empty and takes the requests `reqs` in order, as the
/// `set_*attachment` calls of both kinds of setup state them, keeps its
/// number of slots, and each slot holds what the last request naming it
/// attached, or nothing when none named it. `states` are its slots before
/// and after each request.
pub proof fn law_slots_hold_last_set<A>(states: Seq<Seq<Option<A>>>, reqs: Seq<(Option<usize>, A)>, i: int)
    requires
        states.len() == reqs.len() + 1,
        forall|k: int| 0 <= k < states[0].len() ==> #[trigger] states[0][k] is None,
        forall|k: int| 0 <= k < reqs.len() ==> states[k + 1] == after_set(#[trigger] states[k], reqs[k].0, reqs[k].1),
        0 <= i < states[0].len(),
    ensures
        states.last().len() == states[0].len(),
        states.last()[i] == last_set(reqs, i),
    decreases reqs.len(),
{
    if reqs.len() > 0 {
        let n = reqs.len() - 1;
        let pre = states.drop_last();
        assert forall|k: int| 0 <= k < reqs.drop_last().len() implies pre[k + 1] == after_set(
            #[trigger] pre[k],
            reqs.drop_last()[k].0,
            reqs.drop_last()[k].1,
        ) by {
            assert(states[k + 1] == after_set(states[k], reqs[k].0, reqs[k].1));
        }
        law_slots_hold_last_set(pre, reqs.drop_last(), i);
        assert(states[n + 1] == after_set(states[n], reqs[n].0, reqs[n].1));
        assert(pre.last() == states[n]);
    }
}

} // verus!
