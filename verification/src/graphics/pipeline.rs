//! Pipeline state: the attribute layout a shader program reads and the enums
//! of the fixed-function render state.
use vstd::prelude::*;
use super::resource::{first_slot, VertexAttribute, VertexAttributeDesc, VertexFormat, VertexLayout, MAX_ATTRIBUTES};

verus! {

/// AttributeLayout defines an layout of attributes into program.
#[derive(Debug, PartialEq, Eq, Clone, Copy)]
pub struct AttributeLayout {
    len: u8,
    elements: [(VertexAttribute, u8); MAX_ATTRIBUTES],
}

impl AttributeLayout {
    /// The attributes of the layout, with their component counts.
    pub closed spec fn used(&self) -> Seq<(VertexAttribute, u8)> {
        self.elements@.subrange(0, self.len as int)
    }

    /// The layout holds at most `MAX_ATTRIBUTES` entries.
    pub closed spec fn wf(&self) -> bool {
        self.len <= MAX_ATTRIBUTES
    }

    pub fn iter(&self) -> (r: AttributeLayoutIter<'_>)
        requires
            self.wf(),
        ensures
            r.layout == self,
            r.pos == 0,
            r.rest() == self.used(),
    {
        let r = AttributeLayoutIter { pos: 0, layout: self };
        assert(r.rest() =~= self.used());
        r
    }
}

impl Default for AttributeLayout {
    fn default() -> (r: Self)
        ensures
            r.wf(),
            r.used() == Seq::<(VertexAttribute, u8)>::empty(),
    {
        let r = AttributeLayout { len: 0, elements: [(VertexAttribute::Position, 0); MAX_ATTRIBUTES] };
        assert(r.used() =~= Seq::<(VertexAttribute, u8)>::empty());
        r
    }
}

/// Walks the entries of an `AttributeLayout` in order.
pub struct AttributeLayoutIter<'a> {
    pub pos: u8,
    pub layout: &'a AttributeLayout,
}

impl<'a> AttributeLayoutIter<'a> {
    /// The entries not yielded yet.
    pub open spec fn rest(&self) -> Seq<(VertexAttribute, u8)> {
        self.layout.used().subrange(self.pos as int, self.layout.used().len() as int)
    }

    pub fn next(&mut self) -> (r: Option<(VertexAttribute, u8)>)
        requires
            old(self).layout.wf(),
            old(self).pos <= old(self).layout.used().len(),
        ensures
            final(self).layout == old(self).layout,
            final(self).pos <= final(self).layout.used().len(),
            match r {
                Some(e) => {
                    &&& old(self).rest().len() > 0
                    &&& e == old(self).rest()[0]
                    &&& final(self).rest() == old(self).rest().drop_first()
                },
                None => old(self).rest().len() == 0 && final(self).pos == old(self).pos,
            },
    {
        if self.pos >= self.layout.len {
            None
        } else {
            let ghost before = self.rest();
            self.pos += 1;
            proof {
                assert(self.rest() =~= before.drop_first());
            }
            Some(self.layout.elements[self.pos as usize - 1])
        }
    }
}

/// How one attribute of a program reads the vertices of a buffer.
#[derive(Debug, Clone, Copy, PartialEq, Eq, Structural)]
pub struct AttributeBinding {
    pub attribute: VertexAttribute,
    /// The number of components per vertex.
    pub size: u8,
    pub format: VertexFormat,
    pub normalized: bool,
    /// The distance in bytes between two vertices.
    pub stride: u8,
    /// The place in bytes of the attribute within a vertex.
    pub offset: u8,
}

/// Why an attribute of a program cannot read a vertex buffer.
#[derive(Debug, Clone, Copy, PartialEq, Eq, Structural)]
pub enum AttributeBindingError {
    /// The vertex layout does not describe the attribute.
    Missing(VertexAttribute),
    /// The vertex layout describes the attribute with another number of components.
    Incompatible { attribute: VertexAttribute, required: u8, found: u8 },
}

/// The slot of `layout` that describes `name`: the first used one.
pub open spec fn slot_of(layout: VertexLayout, name: VertexAttribute) -> int {
    choose|i: int| first_slot(layout.elements(), name, i) && i < layout.count()
}

/// Whether `layout` describes `name` in one of its used slots.
pub open spec fn in_table(layout: VertexLayout, name: VertexAttribute) -> bool {
    exists|i: int| first_slot(layout.elements(), name, i) && i < layout.count()
}

/// Whether the program attribute `a`, with its component count, can read `layout`.
pub open spec fn bindable(layout: VertexLayout, a: (VertexAttribute, u8)) -> bool {
    in_table(layout, a.0) && layout.elements()[slot_of(layout, a.0)].size == a.1
}

/// How `a` reads `layout`, when it can.
pub open spec fn binding_of(layout: VertexLayout, a: (VertexAttribute, u8)) -> AttributeBinding {
    let d = layout.elements()[slot_of(layout, a.0)];
    AttributeBinding {
        attribute: a.0,
        size: a.1,
        format: d.format,
        normalized: d.normalized,
        stride: layout.stride_spec(),
        offset: layout.offsets()[slot_of(layout, a.0)],
    }
}

/// Why `a` cannot read `layout`, when it cannot.
pub open spec fn binding_error(layout: VertexLayout, a: (VertexAttribute, u8)) -> AttributeBindingError {
    if in_table(layout, a.0) {
        AttributeBindingError::Incompatible {
            attribute: a.0,
            required: a.1,
            found: layout.elements()[slot_of(layout, a.0)].size,
        }
    } else {
        AttributeBindingError::Missing(a.0)
    }
}

/// The first slot of a table that carries a name is unique.
pub proof fn lemma_first_slot_unique(elems: Seq<VertexAttributeDesc>, name: VertexAttribute, i: int, j: int)
    requires
        first_slot(elems, name, i),
        first_slot(elems, name, j),
    ensures
        i == j,
{
}

impl AttributeLayout {
    /// How each attribute of the program reads vertices of `layout`, in the
    /// program's order; the first attribute that `layout` does not describe,
    /// or describes with another number of components, is the error.
    pub fn bindings(&self, layout: &VertexLayout) -> (r: Result<Vec<AttributeBinding>, AttributeBindingError>)
        requires
            self.wf(),
        ensures
            r is Ok <==> forall|k: int| 0 <= k < self.used().len() ==> bindable(*layout, #[trigger] self.used()[k]),
            r matches Ok(v) ==> v@.len() == self.used().len() && forall|k: int|
                0 <= k < v@.len() ==> #[trigger] v@[k] == binding_of(*layout, self.used()[k]),
            r matches Err(e) ==> exists|k: int|
                0 <= k < self.used().len() && !bindable(*layout, #[trigger] self.used()[k])
                    && e == binding_error(*layout, self.used()[k])
                    && forall|j: int| 0 <= j < k ==> bindable(*layout, self.used()[j]),
    {
        let mut out: Vec<AttributeBinding> = Vec::new();
        let mut k: u8 = 0;
        while k < self.len
            invariant
                self.wf(),
                k <= self.len,
                out@.len() == k,
                forall|j: int| 0 <= j < k ==> bindable(*layout, #[trigger] self.used()[j]),
                forall|j: int| 0 <= j < k ==> #[trigger] out@[j] == binding_of(*layout, self.used()[j]),
            decreases self.len - k,
        {
            let (name, size) = self.elements[k as usize];
            assert(self.used()[k as int] == (name, size));
            match layout.element(name) {
                Some(d) => {
                    let ghost i = choose|i: int|
                        first_slot(layout.elements(), name, i) && i < layout.count() && d == layout.elements()[i];
                    proof {
                        lemma_first_slot_unique(layout.elements(), name, i, slot_of(*layout, name));
                    }
                    if d.size != size {
                        return Err(
                            AttributeBindingError::Incompatible { attribute: name, required: size, found: d.size },
                        );
                    }
                    let offset = match layout.offset(name) {
                        Some(o) => {
                            proof {
                                let i2 = choose|i2: int|
                                    #[trigger] first_slot(layout.elements(), name, i2) && i2 < layout.count() && o
                                        == layout.offsets()[i2];
                                lemma_first_slot_unique(layout.elements(), name, i, i2);
                            }
                            o
                        },
                        None => {
                            proof {
                                layout.lemma_sizes();
                                assert(layout.elements()[i].name == name);
                                assert(i < MAX_ATTRIBUTES);
                            }
                            return Err(AttributeBindingError::Missing(name));
                        },
                    };
                    out.push(
                        AttributeBinding {
                            attribute: name,
                            size,
                            format: d.format,
                            normalized: d.normalized,
                            stride: layout.stride(),
                            offset,
                        },
                    );
                },
                None => {
                    proof {
                        layout.lemma_sizes();
                    }
                    return Err(AttributeBindingError::Missing(name));
                },
            }
            k += 1;
        }
        Ok(out)
    }
}

/// Whether `attribute` is among the entries `u`.
pub open spec fn listed(u: Seq<(VertexAttribute, u8)>, attribute: VertexAttribute) -> bool {
    exists|i: int| 0 <= i < u.len() && u[i].0 == attribute
}

/// Builds an `AttributeLayout`.
pub struct AttributeLayoutBuilder(AttributeLayout);

impl AttributeLayoutBuilder {
    pub closed spec fn used(&self) -> Seq<(VertexAttribute, u8)> {
        self.0.used()
    }

    /// The layout being built.
    pub closed spec fn layout(&self) -> AttributeLayout {
        self.0
    }

    /// At most `MAX_ATTRIBUTES` entries, each attribute listed once.
    pub closed spec fn wf(&self) -> bool {
        &&& self.0.len <= MAX_ATTRIBUTES
        &&& forall|i: int, j: int|
            0 <= i < j < self.0.len ==> self.0.elements@[i].0 != self.0.elements@[j].0
    }

    /// A well-formed builder lists at most `MAX_ATTRIBUTES` entries, each
    /// attribute once.
    pub proof fn lemma_unique(&self)
        requires
            self.wf(),
        ensures
            self.used().len() <= MAX_ATTRIBUTES,
            forall|i: int, j: int|
                0 <= i < j < self.used().len() ==> #[trigger] self.used()[i].0 != #[trigger] self.used()[j].0,
    {
        assert forall|i: int, j: int| 0 <= i < j < self.used().len() implies #[trigger] self.used()[i].0
            != #[trigger] self.used()[j].0 by {
            assert(self.used()[i] == self.0.elements@[i] && self.used()[j] == self.0.elements@[j]);
        }
    }

    pub fn new() -> (r: Self)
        ensures
            r.wf(),
            r.used() == Seq::<(VertexAttribute, u8)>::empty(),
    {
        let r = AttributeLayoutBuilder(AttributeLayout::default());
        assert(r.0.used().len() == 0);
        r
    }

    /// Records that `attribute` has `size` components: replaces its entry if it
    /// is listed, and appends an entry otherwise.
    pub fn with(&mut self, attribute: VertexAttribute, size: u8) -> (r: &mut Self)
        requires
            old(self).wf(),
            0 < size <= 4,
            listed(old(self).used(), attribute) || old(self).used().len() < MAX_ATTRIBUTES,
        ensures
            *final(self) == *final(r),
            r.wf(),
            ({
                let u = old(self).used();
                if listed(u, attribute) {
                    exists|i: int|
                        0 <= i < u.len() && u[i].0 == attribute && r.used() == u.update(
                            i,
                            (attribute, size),
                        )
                } else {
                    r.used() == u.push((attribute, size))
                }
            }),
    {
        let mut i: u8 = 0;
        while i < self.0.len
            invariant
                self.0 == old(self).0,
                old(self).wf(),
                self.wf(),
                i <= self.0.len <= MAX_ATTRIBUTES,
                forall|j: int| 0 <= j < i ==> self.0.elements@[j].0 != attribute,
            decreases self.0.len - i,
        {
            if self.0.elements[i as usize].0 == attribute {
                let ghost u = self.used();
                let ghost e0 = self.0.elements@;
                self.0.elements[i as usize] = (attribute, size);
                proof {
                    assert(self.used() =~= u.update(i as int, (attribute, size)));
                    assert(u[i as int].0 == attribute);
                    assert(self.0.elements@ == e0.update(i as int, (attribute, size)));
                    assert forall|a: int, b: int| 0 <= a < b < self.0.len implies self.0.elements@[a].0
                        != self.0.elements@[b].0 by {
                        assert(e0[a].0 != e0[b].0);
                    }
                }
                return self;
            }
            i += 1;
        }
        let ghost u = self.used();
        proof {
            assert(!listed(u, attribute));
        }
        let len = self.0.len;
        self.0.elements[len as usize] = (attribute, size);
        self.0.len = len + 1;
        proof {
            assert(self.used() =~= u.push((attribute, size)));
        }
        self
    }

    pub fn finish(&mut self) -> (r: AttributeLayout)
        requires
            old(self).wf(),
        ensures
            *final(self) == *old(self),
            r == old(self).layout(),
            r.wf(),
            r.used() == old(self).used(),
            forall|i: int, j: int| 0 <= i < j < r.used().len() ==> #[trigger] r.used()[i].0 != #[trigger] r.used()[j].0,
    {
        proof {
            self.lemma_unique();
        }
        self.0
    }
}

/// Defines how the input vertex data is used to assemble primitives.
#[derive(Debug, Clone, Copy, PartialEq, Eq, Structural)]
pub enum Primitive {
    /// Separate points.
    Points,
    /// Separate lines.
    Lines,
    /// Line strips.
    LineStrip,
    /// Separate triangles.
    Triangles,
    /// Triangle strips.
    TriangleStrip,
}

/// Specify whether front- or back-facing polygons can be culled.
#[derive(Debug, PartialEq, Eq, Clone, Copy, Structural)]
pub enum CullFace {
    Nothing,
    Front,
    Back,
}

/// Define front- and back-facing polygons.
#[derive(Debug, PartialEq, Eq, Clone, Copy, Structural)]
pub enum FrontFaceOrder {
    Clockwise,
    CounterClockwise,
}

/// A pixel-wise comparison function.
#[derive(Debug, PartialEq, Eq, Clone, Copy, Structural)]
pub enum Comparison {
    Never,
    Less,
    LessOrEqual,
    Greater,
    GreaterOrEqual,
    Equal,
    NotEqual,
    Always,
}

/// Specifies how incoming RGBA values (source) and the RGBA in framebuffer (destination)
/// are combined.
#[derive(Debug, PartialEq, Eq, Clone, Copy, Structural)]
pub enum Equation {
    /// Adds source and destination. Source and destination are multiplied
    /// by blending parameters before addition.
    Add,
    /// Subtracts destination from source. Source and destination are
    /// multiplied by blending parameters before subtraction.
    Subtract,
    /// Subtracts source from destination. Source and destination are
    /// multiplied by blending parameters before subtraction.
    ReverseSubtract,
}

/// Blend values.
#[derive(Debug, PartialEq, Eq, Clone, Copy, Structural)]
pub enum BlendValue {
    SourceColor,
    SourceAlpha,
    DestinationColor,
    DestinationAlpha,
}

/// Blend factors.
#[derive(Debug, PartialEq, Eq, Clone, Copy, Structural)]
pub enum BlendFactor {
    Zero,
    One,
    Value(BlendValue),
    OneMinusValue(BlendValue),
}

} // verus!
