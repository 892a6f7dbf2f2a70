//! The byte buffer that a frame records its task data into, and the tasks run
//! after a frame.
use vstd::prelude::*;
use std::collections::HashMap;
use vstd::utf8::{decode_utf8, encode_utf8, valid_utf8};
use super::handles::{
    FrameBufferHandle, IndexBufferHandle, PipelineStateHandle, RenderBufferHandle, TextureHandle,
    VertexBufferHandle, ViewStateHandle,
};
use super::vertex::{hash, name_hash};
use super::pipeline::Primitive;

verus! {

broadcast use vstd::std_specs::hash::group_hash_axioms;

/// Resources released once a frame has been drawn.
#[derive(Debug, Clone, Copy, PartialEq, Eq, Structural)]
pub enum PostFrameTask {
    DeleteView(ViewStateHandle),
    DeletePipeline(PipelineStateHandle),
    DeleteVertexBuffer(VertexBufferHandle),
    DeleteIndexBuffer(IndexBufferHandle),
    DeleteTexture(TextureHandle),
    DeleteRenderBuffer(RenderBufferHandle),
    DeleteFrameBuffer(FrameBufferHandle),
}

/// A view into a `TaskBuffer`: where some bytes were stored.
#[derive(Debug, Clone, Copy, PartialEq, Eq, Structural)]
pub struct TaskBufferPtr {
    position: u32,
    size: u32,
}

impl TaskBufferPtr {
    pub closed spec fn start(&self) -> int {
        self.position as int
    }

    pub closed spec fn len(&self) -> int {
        self.size as int
    }
}

/// `std::str::from_utf8`: reads the bytes as a string when they are
/// well-formed UTF-8, and fails otherwise.
#[verifier::external_body]
fn str_from_utf8<'a>(bytes: &'a [u8]) -> (r: Option<&'a str>)
    ensures
        match r {
            Some(s) => valid_utf8(bytes@) && s@ == decode_utf8(bytes@),
            None => !valid_utf8(bytes@),
        },
{
    std::str::from_utf8(bytes).ok()
}

/// `after` is `before` once the string `value` was stored at `r`: the bytes
/// at `r` read back as `value`, the bytes held before stay in front, and the
/// string is appended unless the bytes recorded under its hash are its own,
/// in which case nothing changes and `r` is where they are. A string appended
/// is recorded under its hash unless another string already is: recorded
/// entries are never replaced.
pub open spec fn stores_str(before: TaskBuffer, after: TaskBuffer, value: Seq<char>, r: TaskBufferPtr) -> bool {
    let h = name_hash(value);
    let stored = before.strings().contains_key(h) && before.bytes_at(before.strings()[h]) == encode_utf8(value);
    &&& after.wf()
    &&& after.holds(r)
    &&& after.bytes_at(r) == encode_utf8(value)
    &&& after.str_at(r) == value
    &&& before.bytes().is_prefix_of(after.bytes())
    &&& stored ==> r == before.strings()[h] && after == before
    &&& !stored ==> {
        &&& after.bytes() == before.bytes() + encode_utf8(value)
        &&& after.strings() == if before.strings().contains_key(h) {
            before.strings()
        } else {
            before.strings().insert(h, r)
        }
        &&& r.start() == before.bytes().len()
    }
}

/// Where we store all the intermediate bytes; strings are stored once per
/// hash of their contents.
#[derive(Debug, Clone)]
pub struct TaskBuffer(Vec<u8>, HashMap<u64, TaskBufferPtr>);

impl TaskBuffer {
    /// The bytes stored so far.
    pub closed spec fn bytes(&self) -> Seq<u8> {
        self.0@
    }

    /// The stored strings, by the hash of their contents.
    pub closed spec fn strings(&self) -> Map<u64, TaskBufferPtr> {
        self.1@
    }

    /// Whether `ptr` lies inside the stored bytes.
    pub open spec fn holds(&self, ptr: TaskBufferPtr) -> bool {
        0 <= ptr.start() && ptr.start() + ptr.len() <= self.bytes().len()
    }

    /// The bytes that `ptr` names.
    pub open spec fn bytes_at(&self, ptr: TaskBufferPtr) -> Seq<u8> {
        self.bytes().subrange(ptr.start(), ptr.start() + ptr.len())
    }

    /// The string that `ptr` names.
    pub open spec fn str_at(&self, ptr: TaskBufferPtr) -> Seq<char> {
        decode_utf8(self.bytes_at(ptr))
    }

    /// Every recorded string lies inside the buffer, is well-formed, and is
    /// recorded under the hash of its contents; the buffer fits the 32-bit
    /// offsets of its pointers.
    pub open spec fn wf(&self) -> bool {
        &&& self.bytes().len() <= u32::MAX
        &&& forall|h: u64|
            #[trigger] self.strings().contains_key(h) ==> {
                let p = self.strings()[h];
                &&& self.holds(p)
                &&& valid_utf8(self.bytes_at(p))
                &&& name_hash(self.str_at(p)) == h
            }
    }

    /// Creates a new task buffer with specified capacity.
    pub fn with_capacity(capacity: usize) -> (r: Self)
        ensures
            r.wf(),
            r.bytes() == Seq::<u8>::empty(),
            r.strings() == Map::<u64, TaskBufferPtr>::empty(),
    {
        TaskBuffer(Vec::with_capacity(capacity), HashMap::new())
    }

    pub fn clear(&mut self)
        ensures
            final(self).wf(),
            final(self).bytes() == Seq::<u8>::empty(),
            final(self).strings() == Map::<u64, TaskBufferPtr>::empty(),
    {
        self.0.clear();
        self.1.clear();
    }

    /// Clones and appends all the bytes of a slice to the buffer, and returns
    /// where they are.
    pub fn extend_from_slice(&mut self, data: &[u8]) -> (r: TaskBufferPtr)
        requires
            old(self).bytes().len() + data@.len() <= u32::MAX,
        ensures
            final(self).bytes() == old(self).bytes() + data@,
            final(self).strings() == old(self).strings(),
            r.start() == old(self).bytes().len(),
            r.len() == data@.len(),
            final(self).holds(r),
            final(self).bytes_at(r) == data@,
            old(self).wf() ==> final(self).wf(),
    {
        let start = self.0.len();
        let mut i: usize = 0;
        while i < data.len()
            invariant
                start == old(self).bytes().len(),
                start + data@.len() <= u32::MAX,
                i <= data@.len(),
                self.0@ == old(self).bytes() + data@.subrange(0, i as int),
                self.1@ == old(self).strings(),
            decreases data.len() - i,
        {
            self.0.push(data[i]);
            i += 1;
            assert(self.0@ =~= old(self).bytes() + data@.subrange(0, i as int));
        }
        assert(data@.subrange(0, data@.len() as int) =~= data@);
        let r = TaskBufferPtr { position: start as u32, size: data.len() as u32 };
        proof {
            assert(self.bytes_at(r) =~= data@);
            if old(self).wf() {
                assert forall|h: u64| #[trigger] old(self).strings().contains_key(h) implies self.bytes_at(
                    old(self).strings()[h],
                ) == old(self).bytes_at(old(self).strings()[h]) by {
                    let p = old(self).strings()[h];
                    assert(self.bytes_at(p) =~= old(self).bytes_at(p));
                }
            }
        }
        r
    }

    /// Clones and appends all bytes in a string slice to the buffer and
    /// returns where they are. A string stored before under the hash of its
    /// contents is not stored twice: when the bytes found there are the
    /// string's own, that pointer is returned and nothing is appended. When
    /// they are another string's, the string is appended and the entry kept.
    pub fn extend_from_str(&mut self, value: &str) -> (r: TaskBufferPtr)
        requires
            old(self).wf(),
            old(self).bytes().len() + encode_utf8(value@).len() <= u32::MAX,
        ensures
            stores_str(*old(self), *final(self), value@, r),
    {
        let v = hash(value);
        let bytes = value.as_bytes();
        proof {
            vstd::utf8::encode_utf8_valid_utf8(value@);
            vstd::utf8::encode_utf8_decode_utf8(value@);
        }
        let found: Option<TaskBufferPtr> = match self.1.get(&v) {
            Some(ptr) => Some(*ptr),
            None => None,
        };
        match found {
            Some(ptr) => {
                assert(self.strings().contains_key(v));
                if same_bytes(self.as_bytes(ptr), bytes) {
                    assert(self.bytes().is_prefix_of(self.bytes())) by {
                        assert(self.bytes().subrange(0, self.bytes().len() as int) =~= self.bytes());
                    }
                    return ptr;
                }
                let other = self.extend_from_slice(bytes);
                proof {
                    assert(self.bytes().subrange(0, old(self).bytes().len() as int) =~= old(self).bytes());
                }
                return other;
            },
            None => {},
        }
        let ptr = self.extend_from_slice(bytes);
        proof {
            assert(self.bytes().subrange(0, old(self).bytes().len() as int) =~= old(self).bytes());
        }
        self.1.insert(v, ptr);
        ptr
    }

    /// Returns string slice indicated by `TaskBufferPtr`.
    pub fn as_str(&self, ptr: TaskBufferPtr) -> (r: &str)
        requires
            self.holds(ptr),
            valid_utf8(self.bytes_at(ptr)),
        ensures
            r@ == self.str_at(ptr),
    {
        let bytes = self.as_bytes(ptr);
        match str_from_utf8(bytes) {
            Some(s) => s,
            None => "",
        }
    }

    /// Returns the bytes indicated by `ptr`.
    pub fn as_bytes(&self, ptr: TaskBufferPtr) -> (r: &[u8])
        requires
            self.holds(ptr),
        ensures
            r@ == self.bytes_at(ptr),
    {
        let n = self.0.len();
        let start = ptr.position as usize;
        assert(start + ptr.size <= n);
        let end = start + ptr.size as usize;
        vstd::slice::slice_subrange(self.0.as_slice(), start, end)
    }
}

/// Whether the two byte slices hold the same bytes.
fn same_bytes(a: &[u8], b: &[u8]) -> (r: bool)
    ensures
        r == (a@ == b@),
{
    if a.len() != b.len() {
        return false;
    }
    let mut i: usize = 0;
    while i < a.len()
        invariant
            a@.len() == b@.len(),
            i <= a@.len(),
            forall|k: int| 0 <= k < i ==> a@[k] == b@[k],
        decreases a.len() - i,
    {
        if a[i] != b[i] {
            return false;
        }
        i += 1;
    }
    assert(a@ =~= b@);
    true
}

/// Appending keeps what was stored: a pointer into the bytes of a buffer
/// reads back the same bytes from any buffer whose bytes begin with them.
pub proof fn law_appends_keep_bytes(before: TaskBuffer, after: TaskBuffer, ptr: TaskBufferPtr)
    requires
        before.holds(ptr),
        before.bytes().is_prefix_of(after.bytes()),
    ensures
        after.holds(ptr),
        after.bytes_at(ptr) == before.bytes_at(ptr),
{
    assert(after.bytes_at(ptr) =~= before.bytes_at(ptr));
}


/// A draw call recorded into a frame: the view and pipeline it draws with,
/// the uniform variables and textures it binds by field name, and the range
/// of vertices it draws. `U` is the type of a uniform variable's value.
#[derive(Debug, Clone)]
pub struct DrawCall<U> {
    pub order: u64,
    pub view: ViewStateHandle,
    pub pipeline: PipelineStateHandle,
    pub uniforms: Vec<(TaskBufferPtr, U)>,
    pub textures: Vec<(TaskBufferPtr, TextureHandle)>,
    pub vb: VertexBufferHandle,
    pub ib: Option<IndexBufferHandle>,
    pub primitive: Primitive,
    pub from: u32,
    pub len: u32,
}

/// Why a draw call cannot be submitted.
#[derive(Debug, Clone, Copy, PartialEq, Eq, Structural)]
pub enum DrawCallBuilderError {
    CanNotDrawWithoutView,
    CanNotDrawWithoutPipelineState,
    CanNotDrawWithoutVertexBuffer,
}

/// A draw call builder. Field names are stored in the frame's task buffer.
pub struct DrawCallBuilder<U> {
    order: u64,
    uniforms: Vec<(TaskBufferPtr, U)>,
    textures: Vec<(TaskBufferPtr, TextureHandle)>,
    vb: Option<VertexBufferHandle>,
    ib: Option<IndexBufferHandle>,
    view: Option<ViewStateHandle>,
    pso: Option<PipelineStateHandle>,
}

impl<U: Copy> DrawCallBuilder<U> {
    pub closed spec fn order(&self) -> u64 {
        self.order
    }

    /// The uniform variables bound so far, in order, with where their field
    /// names are stored.
    pub closed spec fn uniforms(&self) -> Seq<(TaskBufferPtr, U)> {
        self.uniforms@
    }

    /// The textures bound so far, in order, with where their field names are stored.
    pub closed spec fn textures(&self) -> Seq<(TaskBufferPtr, TextureHandle)> {
        self.textures@
    }

    pub closed spec fn vertex_buffer(&self) -> Option<VertexBufferHandle> {
        self.vb
    }

    pub closed spec fn index_buffer(&self) -> Option<IndexBufferHandle> {
        self.ib
    }

    pub closed spec fn view(&self) -> Option<ViewStateHandle> {
        self.view
    }

    pub closed spec fn pipeline(&self) -> Option<PipelineStateHandle> {
        self.pso
    }

    /// Create a new and empty draw call builder.
    pub fn new() -> (r: Self)
        ensures
            r.order() == 0,
            r.uniforms() == Seq::<(TaskBufferPtr, U)>::empty(),
            r.textures() == Seq::<(TaskBufferPtr, TextureHandle)>::empty(),
            r.vertex_buffer() is None,
            r.index_buffer() is None,
            r.view() is None,
            r.pipeline() is None,
    {
        DrawCallBuilder {
            order: 0,
            uniforms: Vec::new(),
            textures: Vec::new(),
            vb: None,
            ib: None,
            view: None,
            pso: None,
        }
    }

    /// Set the sorting order.
    pub fn with_order(&mut self, order: u64) -> (r: &mut Self)
        ensures
            *final(self) == *final(r),
            r.order() == order,
            r.uniforms() == old(self).uniforms(),
            r.textures() == old(self).textures(),
            r.vertex_buffer() == old(self).vertex_buffer(),
            r.index_buffer() == old(self).index_buffer(),
            r.view() == old(self).view(),
            r.pipeline() == old(self).pipeline(),
    {
        self.order = order;
        self
    }

    /// Bind the handle of the view state.
    pub fn with_view(&mut self, view: ViewStateHandle) -> (r: &mut Self)
        ensures
            *final(self) == *final(r),
            r.order() == old(self).order(),
            r.uniforms() == old(self).uniforms(),
            r.textures() == old(self).textures(),
            r.vertex_buffer() == old(self).vertex_buffer(),
            r.index_buffer() == old(self).index_buffer(),
            r.view() == Some(view),
            r.pipeline() == old(self).pipeline(),
    {
        self.view = Some(view);
        self
    }

    /// Bind the handle of the pipeline state.
    pub fn with_pipeline(&mut self, pso: PipelineStateHandle) -> (r: &mut Self)
        ensures
            *final(self) == *final(r),
            r.order() == old(self).order(),
            r.uniforms() == old(self).uniforms(),
            r.textures() == old(self).textures(),
            r.vertex_buffer() == old(self).vertex_buffer(),
            r.index_buffer() == old(self).index_buffer(),
            r.view() == old(self).view(),
            r.pipeline() == Some(pso),
    {
        self.pso = Some(pso);
        self
    }

    /// Bind vertex buffer and optional index buffer.
    pub fn with_data(&mut self, vb: VertexBufferHandle, ib: Option<IndexBufferHandle>) -> (r: &mut Self)
        ensures
            *final(self) == *final(r),
            r.order() == old(self).order(),
            r.uniforms() == old(self).uniforms(),
            r.textures() == old(self).textures(),
            r.vertex_buffer() == Some(vb),
            r.index_buffer() == ib,
            r.view() == old(self).view(),
            r.pipeline() == old(self).pipeline(),
    {
        self.vb = Some(vb);
        self.ib = ib;
        self
    }

    /// Bind the named field with a uniform variable; the field's name is
    /// stored in `buf`.
    pub fn with_uniform_variable(&mut self, buf: &mut TaskBuffer, field: &str, variable: U) -> (r: &mut Self)
        requires
            old(buf).wf(),
            old(buf).bytes().len() + encode_utf8(field@).len() <= u32::MAX,
        ensures
            *final(self) == *final(r),
            r.uniforms().len() == old(self).uniforms().len() + 1,
            r.uniforms() == old(self).uniforms().push((r.uniforms().last().0, variable)),
            stores_str(*old(buf), *final(buf), field@, r.uniforms().last().0),
            r.order() == old(self).order(),
            r.textures() == old(self).textures(),
            r.vertex_buffer() == old(self).vertex_buffer(),
            r.index_buffer() == old(self).index_buffer(),
            r.view() == old(self).view(),
            r.pipeline() == old(self).pipeline(),
    {
        let field = buf.extend_from_str(field);
        self.uniforms.push((field, variable));
        self
    }

    /// Bind the field with texture; the field's name is stored in `buf`.
    pub fn with_texture(&mut self, buf: &mut TaskBuffer, field: &str, texture: TextureHandle) -> (r: &mut Self)
        requires
            old(buf).wf(),
            old(buf).bytes().len() + encode_utf8(field@).len() <= u32::MAX,
        ensures
            *final(self) == *final(r),
            r.textures().len() == old(self).textures().len() + 1,
            r.textures() == old(self).textures().push((r.textures().last().0, texture)),
            stores_str(*old(buf), *final(buf), field@, r.textures().last().0),
            r.order() == old(self).order(),
            r.uniforms() == old(self).uniforms(),
            r.vertex_buffer() == old(self).vertex_buffer(),
            r.index_buffer() == old(self).index_buffer(),
            r.view() == old(self).view(),
            r.pipeline() == old(self).pipeline(),
    {
        let field = buf.extend_from_str(field);
        self.textures.push((field, texture));
        self
    }

    /// The draw call that submitting `primitive` over `len` vertices from
    /// `from` records: everything bound so far.
    pub open spec fn draws(&self, dc: DrawCall<U>, primitive: Primitive, from: u32, len: u32) -> bool {
        &&& self.view() == Some(dc.view)
        &&& self.pipeline() == Some(dc.pipeline)
        &&& self.vertex_buffer() == Some(dc.vb)
        &&& dc.order == self.order()
        &&& dc.uniforms@ == self.uniforms()
        &&& dc.textures@ == self.textures()
        &&& dc.ib == self.index_buffer()
        &&& dc.primitive == primitive
        &&& dc.from == from
        &&& dc.len == len
    }

    /// Submit primitive for drawing: records the draw call at the end of
    /// `drawcalls`. A view, a pipeline state and a vertex buffer must have
    /// been bound, checked in that order; otherwise nothing is recorded.
    pub fn submit(&self, drawcalls: &mut Vec<DrawCall<U>>, primitive: Primitive, from: u32, len: u32) -> (r: Result<
        (),
        DrawCallBuilderError,
    >)
        ensures
            self.view() is None ==> r == Err::<(), DrawCallBuilderError>(DrawCallBuilderError::CanNotDrawWithoutView),
            self.view() is Some && self.pipeline() is None ==> r == Err::<(), DrawCallBuilderError>(
                DrawCallBuilderError::CanNotDrawWithoutPipelineState,
            ),
            self.view() is Some && self.pipeline() is Some && self.vertex_buffer() is None ==> r == Err::<
                (),
                DrawCallBuilderError,
            >(DrawCallBuilderError::CanNotDrawWithoutVertexBuffer),
            r is Err ==> final(drawcalls)@ == old(drawcalls)@,
            self.view() is Some && self.pipeline() is Some && self.vertex_buffer() is Some ==> {
                &&& r is Ok
                &&& final(drawcalls)@.len() == old(drawcalls)@.len() + 1
                &&& final(drawcalls)@.drop_last() == old(drawcalls)@
                &&& self.draws(final(drawcalls)@.last(), primitive, from, len)
            },
    {
        let view = match self.view {
            Some(v) => v,
            None => {
                return Err(DrawCallBuilderError::CanNotDrawWithoutView);
            },
        };
        let pipeline = match self.pso {
            Some(p) => p,
            None => {
                return Err(DrawCallBuilderError::CanNotDrawWithoutPipelineState);
            },
        };
        let vb = match self.vb {
            Some(v) => v,
            None => {
                return Err(DrawCallBuilderError::CanNotDrawWithoutVertexBuffer);
            },
        };
        let dc = DrawCall {
            order: self.order,
            view,
            pipeline,
            uniforms: copy_vec(&self.uniforms),
            textures: copy_vec(&self.textures),
            vb,
            ib: self.ib,
            primitive,
            from,
            len,
        };
        drawcalls.push(dc);
        proof {
            assert(drawcalls@.drop_last() =~= old(drawcalls)@);
        }
        Ok(())
    }
}

/// A copy of `v`.
fn copy_vec<T: Copy>(v: &Vec<T>) -> (r: Vec<T>)
    ensures
        r@ == v@,
{
    let mut out: Vec<T> = Vec::new();
    let mut i: usize = 0;
    while i < v.len()
        invariant
            i <= v@.len(),
            out@ == v@.subrange(0, i as int),
        decreases v.len() - i,
    {
        out.push(v[i]);
        i += 1;
        assert(out@ =~= v@.subrange(0, i as int));
    }
    assert(v@.subrange(0, v@.len() as int) =~= v@);
    out
}

/// Storing a string keeps every recorded string where it was: each entry of
/// the table stays, and reads back the same bytes. So a string stored once is
/// found again by every later store of it, until the buffer is cleared.
pub proof fn law_stored_strings_stay(before: TaskBuffer, after: TaskBuffer, value: Seq<char>, r: TaskBufferPtr, h: u64)
    requires
        before.wf(),
        stores_str(before, after, value, r),
        before.strings().contains_key(h),
    ensures
        after.strings().contains_key(h),
        after.strings()[h] == before.strings()[h],
        after.bytes_at(after.strings()[h]) == before.bytes_at(before.strings()[h]),
{
    let p = before.strings()[h];
    assert(after.bytes_at(p) =~= before.bytes_at(p));
}

/// A string recorded under its hash with its own bytes is found again:
/// storing it returns the recorded pointer and changes nothing.
pub proof fn law_stored_string_found_again(before: TaskBuffer, after: TaskBuffer, value: Seq<char>, r: TaskBufferPtr)
    requires
        before.wf(),
        before.strings().contains_key(name_hash(value)),
        before.bytes_at(before.strings()[name_hash(value)]) == encode_utf8(value),
        stores_str(before, after, value, r),
    ensures
        r == before.strings()[name_hash(value)],
        after == before,
{
}

/// After a clear, a store appends the string afresh at the start of the buffer.
pub proof fn law_store_after_clear(before: TaskBuffer, after: TaskBuffer, value: Seq<char>, r: TaskBufferPtr)
    requires
        before.bytes() == Seq::<u8>::empty(),
        before.strings() == Map::<u64, TaskBufferPtr>::empty(),
        stores_str(before, after, value, r),
    ensures
        r.start() == 0,
        after.bytes() == encode_utf8(value),
        after.bytes_at(r) == encode_utf8(value),
        after.strings() == Map::<u64, TaskBufferPtr>::empty().insert(name_hash(value), r),
{
    assert(after.bytes() =~= encode_utf8(value));
}

/// Every string recorded in a well-formed buffer lies inside it, is
/// well-formed UTF-8, and reads back as a string with the hash it is recorded
/// under.
pub proof fn law_stored_strings_read_back(b: TaskBuffer, h: u64)
    requires
        b.wf(),
        b.strings().contains_key(h),
    ensures
        b.holds(b.strings()[h]),
        valid_utf8(b.bytes_at(b.strings()[h])),
        name_hash(b.str_at(b.strings()[h])) == h,
{
}

} // verus!
