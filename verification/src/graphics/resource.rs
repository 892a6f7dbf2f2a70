//! Vertex and index buffer descriptions: attribute names, formats and the
//! layout of one vertex in memory.
use vstd::prelude::*;

verus! {

/// Specifies the target to which the buffer object is bound
#[derive(Debug, Clone, Copy, PartialEq, Eq, Structural)]
pub enum Resource {
    /// Vertex attributes.
    Vertex,
    /// Vertex array indices.
    Index,
}

/// Hint abouts how this memory will be used.
#[derive(Debug, PartialEq, Eq, Clone, Copy, Structural)]
pub enum ResourceHint {
    /// Full speed GPU access. Optimal for render targets and resourced memory.
    Static,
    /// CPU to GPU data flow with update commands.
    /// Used for dynamic buffer data, typically constant buffers.
    Dynamic,
}

#[derive(Debug, PartialEq, Eq, Clone, Copy, Structural)]
pub enum IndexFormat {
    UByte,
    UShort,
}

/// The size in bytes of one index.
pub open spec fn index_stride(format: IndexFormat) -> int {
    match format {
        IndexFormat::UByte => 1,
        IndexFormat::UShort => 2,
    }
}

impl IndexFormat {
    /// The size in bytes of one index.
    pub fn stride(self) -> (r: usize)
        ensures
            r == index_stride(self),
    {
        match self {
            IndexFormat::UByte => 1,
            IndexFormat::UShort => 2,
        }
    }
}

#[derive(Debug, PartialEq, Eq, Clone, Copy, Structural)]
pub enum VertexFormat {
    Byte,
    UByte,
    Short,
    UShort,
    Fixed,
    Float,
}

/// The named slots of a vertex; they are numbered in declaration order.
#[derive(Debug, PartialEq, Eq, Clone, Copy, Structural)]
pub enum VertexAttribute {
    Position,
    Normal,
    Tangent,
    Bitangent,
    Color0,
    Color1,
    Indices,
    Weight,
    Texcoord0,
    Texcoord1,
    Texcoord2,
    Texcoord3,
}

pub const MAX_ATTRIBUTES: usize = 12;

/// The display name of an attribute.
pub open spec fn attribute_name(a: VertexAttribute) -> Seq<char> {
    match a {
        VertexAttribute::Position => "Position"@,
        VertexAttribute::Normal => "Normal"@,
        VertexAttribute::Tangent => "Tangent"@,
        VertexAttribute::Bitangent => "Bitangent"@,
        VertexAttribute::Color0 => "Color0"@,
        VertexAttribute::Color1 => "Color1"@,
        VertexAttribute::Indices => "Indices"@,
        VertexAttribute::Weight => "Weight"@,
        VertexAttribute::Texcoord0 => "Texcoord0"@,
        VertexAttribute::Texcoord1 => "Texcoord1"@,
        VertexAttribute::Texcoord2 => "Texcoord2"@,
        VertexAttribute::Texcoord3 => "Texcoord3"@,
    }
}

impl VertexAttribute {
    /// Returns the display name of this attribute.
    pub fn name(self) -> (r: &'static str)
        ensures
            r@ == attribute_name(self),
    {
        match self {
            VertexAttribute::Position => "Position",
            VertexAttribute::Normal => "Normal",
            VertexAttribute::Tangent => "Tangent",
            VertexAttribute::Bitangent => "Bitangent",
            VertexAttribute::Color0 => "Color0",
            VertexAttribute::Color1 => "Color1",
            VertexAttribute::Indices => "Indices",
            VertexAttribute::Weight => "Weight",
            VertexAttribute::Texcoord0 => "Texcoord0",
            VertexAttribute::Texcoord1 => "Texcoord1",
            VertexAttribute::Texcoord2 => "Texcoord2",
            VertexAttribute::Texcoord3 => "Texcoord3",
        }
    }
}

/// VertexAttributeDesc defines an generic vertex element data.
#[derive(Debug, PartialEq, Eq, Clone, Copy, Structural)]
pub struct VertexAttributeDesc {
    /// The name of this description.
    pub name: VertexAttribute,
    /// The data type of each component of this element.
    pub format: VertexFormat,
    /// The number of components per generic vertex element.
    pub size: u8,
    /// Whether fixed-point data values should be normalized.
    pub normalized: bool,
}

/// The description every unused slot of a layout holds.
pub open spec fn default_desc() -> VertexAttributeDesc {
    VertexAttributeDesc {
        name: VertexAttribute::Position,
        format: VertexFormat::Byte,
        size: 0,
        normalized: false,
    }
}

impl Default for VertexAttributeDesc {
    fn default() -> (r: Self)
        ensures
            r == default_desc(),
    {
        VertexAttributeDesc {
            name: VertexAttribute::Position,
            format: VertexFormat::Byte,
            size: 0,
            normalized: false,
        }
    }
}

/// The size in bytes of one component of `format`.
pub open spec fn format_size(format: VertexFormat) -> int {
    match format {
        VertexFormat::Byte | VertexFormat::UByte => 1,
        VertexFormat::Short | VertexFormat::UShort | VertexFormat::Fixed => 2,
        VertexFormat::Float => 4,
    }
}

/// The size in bytes of one element described by `d`.
pub open spec fn desc_bytes(d: VertexAttributeDesc) -> int {
    d.size * format_size(d.format)
}

/// The sum of the byte sizes of the first `n` descriptions.
pub open spec fn prefix_bytes(elems: Seq<VertexAttributeDesc>, n: int) -> int
    decreases n,
{
    if n <= 0 {
        0
    } else {
        prefix_bytes(elems, n - 1) + desc_bytes(elems[n - 1])
    }
}

/// The first slot, in the whole table, whose description carries `name`.
pub open spec fn first_slot(elems: Seq<VertexAttributeDesc>, name: VertexAttribute, i: int) -> bool {
    &&& 0 <= i < elems.len()
    &&& elems[i].name == name
    &&& forall|j: int| 0 <= j < i ==> elems[j].name != name
}

/// Whether `name` is described by one of the first `len` descriptions.
pub open spec fn described(elems: Seq<VertexAttributeDesc>, len: int, name: VertexAttribute) -> bool {
    exists|i: int| 0 <= i < len && elems[i].name == name
}

/// VertexLayout defines an layout of vertex structure.
#[derive(Debug, PartialEq, Eq, Clone, Copy)]
pub struct VertexLayout {
    stride: u8,
    len: u8,
    offset: [u8; MAX_ATTRIBUTES],
    elements: [VertexAttributeDesc; MAX_ATTRIBUTES],
}

impl VertexLayout {
    /// All the slots of the layout, used ones first.
    pub closed spec fn elements(&self) -> Seq<VertexAttributeDesc> {
        self.elements@
    }

    /// The offsets of all the slots.
    pub closed spec fn offsets(&self) -> Seq<u8> {
        self.offset@
    }

    /// The number of used slots.
    pub closed spec fn count(&self) -> nat {
        self.len as nat
    }

    pub closed spec fn stride_spec(&self) -> u8 {
        self.stride
    }

    pub proof fn lemma_sizes(&self)
        ensures
            self.elements().len() == MAX_ATTRIBUTES,
            self.offsets().len() == MAX_ATTRIBUTES,
    {
    }

    /// Two layouts with the same slots, offsets, count and stride are equal.
    pub proof fn lemma_eq(a: VertexLayout, b: VertexLayout)
        requires
            a.elements() == b.elements(),
            a.offsets() == b.offsets(),
            a.count() == b.count(),
            a.stride_spec() == b.stride_spec(),
        ensures
            a == b,
    {
        assert(a.elements =~= b.elements);
        assert(a.offset =~= b.offset);
    }

    /// Creates a new an empty `VertexLayoutBuilder`.
    pub fn build() -> (r: VertexLayoutBuilder)
        ensures
            r.wf(),
            r.used() == Seq::<VertexAttributeDesc>::empty(),
            r.layout().count() == 0,
            r.layout().stride_spec() == 0,
            r.layout().elements() == Seq::new(MAX_ATTRIBUTES as nat, |i: int| default_desc()),
            r.layout().offsets() == Seq::new(MAX_ATTRIBUTES as nat, |i: int| 0u8),
    {
        VertexLayoutBuilder::new()
    }

    /// Stride of single vertex structure.
    pub fn stride(&self) -> (r: u8)
        ensures
            r == self.stride_spec(),
    {
        self.stride
    }

    /// Returns the number of elements in the layout.
    pub fn len(&self) -> (r: u8)
        ensures
            r == self.count(),
    {
        self.len
    }

    /// Relative element offset from the layout: the offset of the first used
    /// slot that carries `name`, or `None` when no used slot does.
    pub fn offset(&self, name: VertexAttribute) -> (r: Option<u8>)
        ensures
            match r {
                Some(o) => exists|i: int|
                    #[trigger] first_slot(self.elements(), name, i) && i < self.count() && o == self.offsets()[i],
                None => forall|i: int| 0 <= i < self.count() && i < MAX_ATTRIBUTES ==> self.elements()[i].name != name,
            },
    {
        let mut i: usize = 0;
        while i < MAX_ATTRIBUTES && i < self.len as usize
            invariant
                i <= MAX_ATTRIBUTES,
                i <= self.len,
                forall|j: int| 0 <= j < i ==> self.elements@[j].name != name,
            decreases MAX_ATTRIBUTES - i,
        {
            if self.elements[i].name == name {
                proof {
                    assert(first_slot(self.elements(), name, i as int));
                }
                return Some(self.offset[i]);
            }
            i += 1;
        }
        None
    }

    /// Returns named `VertexAttribute` from the layout: the description in the
    /// first used slot that carries `name`, or `None` when no used slot does.
    pub fn element(&self, name: VertexAttribute) -> (r: Option<VertexAttributeDesc>)
        ensures
            match r {
                Some(d) => exists|i: int|
                    #[trigger] first_slot(self.elements(), name, i) && i < self.count() && d == self.elements()[i],
                None => forall|i: int| 0 <= i < self.count() && i < MAX_ATTRIBUTES ==> self.elements()[i].name != name,
            },
    {
        let mut i: usize = 0;
        while i < MAX_ATTRIBUTES && i < self.len as usize
            invariant
                i <= MAX_ATTRIBUTES,
                i <= self.len,
                forall|j: int| 0 <= j < i ==> self.elements@[j].name != name,
            decreases MAX_ATTRIBUTES - i,
        {
            if self.elements[i].name == name {
                proof {
                    assert(first_slot(self.elements(), name, i as int));
                }
                return Some(self.elements[i]);
            }
            i += 1;
        }
        None
    }
}

/// Builds a `VertexLayout` one attribute at a time.
pub struct VertexLayoutBuilder(VertexLayout);

impl VertexLayoutBuilder {
    /// The descriptions added so far, in the order their names were first added.
    pub closed spec fn used(&self) -> Seq<VertexAttributeDesc> {
        self.0.elements@.subrange(0, self.0.len as int)
    }

    /// The layout being built.
    pub closed spec fn layout(&self) -> VertexLayout {
        self.0
    }

    /// The used descriptions are valid and carry distinct names, and the unused
    /// slots hold the default description.
    pub closed spec fn wf(&self) -> bool {
        &&& self.0.len <= MAX_ATTRIBUTES
        &&& forall|i: int|
            0 <= i < self.0.len ==> 0 < #[trigger] self.0.elements@[i].size <= 4
        &&& forall|i: int, j: int|
            0 <= i < j < self.0.len ==> self.0.elements@[i].name != self.0.elements@[j].name
        &&& forall|i: int|
            self.0.len <= i < MAX_ATTRIBUTES ==> #[trigger] self.0.elements@[i] == default_desc()
        &&& forall|i: int| self.0.len <= i < MAX_ATTRIBUTES ==> #[trigger] self.0.offset@[i] == 0
    }

    /// A well-formed builder uses at most `MAX_ATTRIBUTES` slots, each with a
    /// valid size, and names each attribute once.
    pub proof fn lemma_unique(&self)
        requires
            self.wf(),
        ensures
            self.used().len() <= MAX_ATTRIBUTES,
            forall|i: int| 0 <= i < self.used().len() ==> 0 < #[trigger] self.used()[i].size <= 4,
            forall|i: int, j: int|
                0 <= i < j < self.used().len() ==> #[trigger] self.used()[i].name != #[trigger] self.used()[j].name,
    {
        assert forall|i: int, j: int| 0 <= i < j < self.used().len() implies #[trigger] self.used()[i].name
            != #[trigger] self.used()[j].name by {
            assert(self.used()[i] == self.0.elements@[i] && self.used()[j] == self.0.elements@[j]);
        }
        assert forall|i: int| 0 <= i < self.used().len() implies 0 < #[trigger] self.used()[i].size <= 4 by {
            assert(self.used()[i] == self.0.elements@[i]);
        }
    }

    /// An empty builder: no slot is used, every slot holds the default
    /// description at offset 0, and the stride is 0.
    pub fn new() -> (r: Self)
        ensures
            r.wf(),
            r.used() == Seq::<VertexAttributeDesc>::empty(),
            r.layout().count() == 0,
            r.layout().stride_spec() == 0,
            r.layout().elements() == Seq::new(MAX_ATTRIBUTES as nat, |i: int| default_desc()),
            r.layout().offsets() == Seq::new(MAX_ATTRIBUTES as nat, |i: int| 0u8),
    {
        let d = VertexAttributeDesc::default();
        let r = VertexLayoutBuilder(
            VertexLayout { stride: 0, len: 0, offset: [0; MAX_ATTRIBUTES], elements: [d; MAX_ATTRIBUTES] },
        );
        assert(r.used() =~= Seq::<VertexAttributeDesc>::empty());
        assert(r.layout().elements() =~= Seq::new(MAX_ATTRIBUTES as nat, |i: int| default_desc()));
        assert(r.layout().offsets() =~= Seq::new(MAX_ATTRIBUTES as nat, |i: int| 0u8));
        r
    }

    /// Describes `attribute`: replaces its description if it was added before,
    /// and appends it otherwise.
    pub fn with(
        &mut self,
        attribute: VertexAttribute,
        format: VertexFormat,
        size: u8,
        normalized: bool,
    ) -> (r: &mut Self)
        requires
            old(self).wf(),
            0 < size <= 4,
            described(old(self).used(), old(self).used().len() as int, attribute) || old(
                self,
            ).used().len() < MAX_ATTRIBUTES,
        ensures
            ({
                let desc = VertexAttributeDesc { name: attribute, format, size, normalized };
                let u = old(self).used();
                *final(self) == *final(r) && r.wf() && with_step(u, desc, r.used())
            }),
    {
        let desc = VertexAttributeDesc { name: attribute, format: format, size: size, normalized: normalized };
        let mut i: u8 = 0;
        while i < self.0.len
            invariant
                self.0 == old(self).0,
                0 < size <= 4,
                desc == (VertexAttributeDesc { name: attribute, format, size, normalized }),
                old(self).wf(),
                self.wf(),
                i <= self.0.len <= MAX_ATTRIBUTES,
                forall|j: int| 0 <= j < i ==> self.0.elements@[j].name != attribute,
            decreases self.0.len - i,
        {
            if self.0.elements[i as usize].name == attribute {
                let ghost u = self.used();
                self.0.elements[i as usize] = desc;
                proof {
                    assert(self.used() =~= u.update(i as int, desc));
                    assert(u[i as int].name == attribute);
                    assert(described(u, u.len() as int, attribute));
                    let e0 = old(self).0.elements@;
                    assert(self.0.elements@ == e0.update(i as int, desc));
                    assert forall|a: int, b: int| 0 <= a < b < self.0.len implies self.0.elements@[a].name
                        != self.0.elements@[b].name by {
                        assert(e0[a].name != e0[b].name);
                    }
                    assert forall|a: int| 0 <= a < self.0.len implies 0 < #[trigger] self.0.elements@[a].size <= 4 by {
                        assert(0 < e0[a].size <= 4);
                    }
                    assert forall|a: int| self.0.len <= a < MAX_ATTRIBUTES implies #[trigger] self.0.elements@[a] == default_desc() by {
                        assert(e0[a] == default_desc());
                    }
                }
                return self;
            }
            i += 1;
        }
        proof {
            assert(!described(old(self).used(), old(self).used().len() as int, attribute));
        }
        let ghost u = self.used();
        let len = self.0.len;
        self.0.elements[len as usize] = desc;
        self.0.len = len + 1;
        proof {
            assert(self.used() =~= u.push(desc));
        }
        self
    }

    /// Computes the offset of every element and the stride, and returns the layout.
    pub fn finish(&mut self) -> (r: VertexLayout)
        requires
            old(self).wf(),
        ensures
            final(self).wf(),
            final(self).used() == old(self).used(),
            final(self).layout() == r,
            r.count() == old(self).used().len(),
            r.elements().subrange(0, r.count() as int) == old(self).used(),
            forall|i: int| r.count() <= i < MAX_ATTRIBUTES ==> r.elements()[i] == default_desc(),
            r.stride_spec() == prefix_bytes(old(self).used(), old(self).used().len() as int),
            forall|i: int|
                0 <= i < r.count() ==> r.offsets()[i] == prefix_bytes(old(self).used(), i),
            forall|i: int| r.count() <= i < MAX_ATTRIBUTES ==> r.offsets()[i] == 0,
    {
        let ghost u = self.used();
        self.0.stride = 0;
        let mut i: u8 = 0;
        while i < self.0.len
            invariant
                self.used() == u,
                self.wf(),
                self.0.len == old(self).0.len,
                self.0.elements == old(self).0.elements,
                i <= self.0.len <= MAX_ATTRIBUTES,
                forall|k: int| 0 <= k < self.0.len ==> 0 < #[trigger] self.0.elements@[k].size <= 4,
                self.0.stride == prefix_bytes(u, i as int),
                prefix_bytes(u, i as int) <= 16 * i,
                forall|k: int| 0 <= k < i ==> self.0.offset@[k] == prefix_bytes(u, k),
                forall|k: int| self.0.len <= k < MAX_ATTRIBUTES ==> self.0.offset@[k] == old(self).0.offset@[k],
            decreases self.0.len - i,
        {
            let e = self.0.elements[i as usize];
            let fs = size(e.format);
            assert(u[i as int] == e);
            assert(e.size * fs <= 16) by (nonlinear_arith)
                requires
                    e.size <= 4,
                    fs <= 4,
            ;
            let len = e.size * fs;
            let stride = self.0.stride;
            self.0.offset[i as usize] = stride;
            self.0.stride = stride + len;
            i += 1;
        }
        proof {
            assert(u.subrange(0, self.0.len as int) =~= u);
        }
        self.0
    }
}

/// Builds a `VertexLayout` whose offsets and stride are given by the caller,
/// as the memory layout of a vertex structure dictates.
pub struct CustomVertexLayoutBuilder(VertexLayout);

impl CustomVertexLayoutBuilder {
    /// The descriptions added so far, in the order their names were first added.
    pub closed spec fn used(&self) -> Seq<VertexAttributeDesc> {
        self.0.elements@.subrange(0, self.0.len as int)
    }

    /// The offsets given with the used descriptions.
    pub closed spec fn used_offsets(&self) -> Seq<u8> {
        self.0.offset@.subrange(0, self.0.len as int)
    }

    /// The used descriptions are valid and carry distinct names, and the unused
    /// slots hold the default description at offset zero.
    pub closed spec fn wf(&self) -> bool {
        &&& self.0.len <= MAX_ATTRIBUTES
        &&& forall|i: int|
            0 <= i < self.0.len ==> 0 < #[trigger] self.0.elements@[i].size <= 4
        &&& forall|i: int, j: int|
            0 <= i < j < self.0.len ==> self.0.elements@[i].name != self.0.elements@[j].name
        &&& forall|i: int|
            self.0.len <= i < MAX_ATTRIBUTES ==> #[trigger] self.0.elements@[i] == default_desc()
                && self.0.offset@[i] == 0
    }

    pub fn new() -> (r: Self)
        ensures
            r.wf(),
            r.used() == Seq::<VertexAttributeDesc>::empty(),
            r.used_offsets() == Seq::<u8>::empty(),
    {
        let d = VertexAttributeDesc::default();
        let r = CustomVertexLayoutBuilder(
            VertexLayout { stride: 0, len: 0, offset: [0; MAX_ATTRIBUTES], elements: [d; MAX_ATTRIBUTES] },
        );
        assert(r.used() =~= Seq::<VertexAttributeDesc>::empty());
        assert(r.used_offsets() =~= Seq::<u8>::empty());
        r
    }

    /// Describes `attribute`, found `offset` bytes into a vertex: replaces its
    /// description if it was added before, and appends it otherwise.
    pub fn with(
        &mut self,
        attribute: VertexAttribute,
        format: VertexFormat,
        size: u8,
        normalized: bool,
        offset: u8,
    ) -> (r: &mut Self)
        requires
            old(self).wf(),
            0 < size <= 4,
            described(old(self).used(), old(self).used().len() as int, attribute) || old(
                self,
            ).used().len() < MAX_ATTRIBUTES,
        ensures
            ({
                let desc = VertexAttributeDesc { name: attribute, format, size, normalized };
                let u = old(self).used();
                let o = old(self).used_offsets();
                *final(self) == *final(r) && r.wf() && if described(u, u.len() as int, attribute) {
                    exists|i: int|
                        0 <= i < u.len() && u[i].name == attribute && r.used() == u.update(i, desc)
                            && r.used_offsets() == o.update(i, offset)
                } else {
                    r.used() == u.push(desc) && r.used_offsets() == o.push(offset)
                }
            }),
    {
        let desc = VertexAttributeDesc { name: attribute, format: format, size: size, normalized: normalized };
        let mut i: u8 = 0;
        while i < self.0.len
            invariant
                self.0 == old(self).0,
                0 < size <= 4,
                desc == (VertexAttributeDesc { name: attribute, format, size, normalized }),
                old(self).wf(),
                self.wf(),
                i <= self.0.len <= MAX_ATTRIBUTES,
                forall|j: int| 0 <= j < i ==> self.0.elements@[j].name != attribute,
            decreases self.0.len - i,
        {
            if self.0.elements[i as usize].name == attribute {
                let ghost u = self.used();
                let ghost o = self.used_offsets();
                let ghost e0 = old(self).0.elements@;
                let ghost f0 = old(self).0.offset@;
                self.0.elements[i as usize] = desc;
                self.0.offset[i as usize] = offset;
                proof {
                    assert(self.used() =~= u.update(i as int, desc));
                    assert(self.used_offsets() =~= o.update(i as int, offset));
                    assert(u[i as int].name == attribute);
                    assert(described(u, u.len() as int, attribute));
                    assert(self.0.elements@ == e0.update(i as int, desc));
                    assert(self.0.offset@ == f0.update(i as int, offset));
                    assert forall|a: int, b: int| 0 <= a < b < self.0.len implies self.0.elements@[a].name
                        != self.0.elements@[b].name by {
                        assert(e0[a].name != e0[b].name);
                    }
                    assert forall|a: int| 0 <= a < self.0.len implies 0 < #[trigger] self.0.elements@[a].size <= 4 by {
                        assert(0 < e0[a].size <= 4);
                    }
                    assert forall|a: int| self.0.len <= a < MAX_ATTRIBUTES implies #[trigger] self.0.elements@[a]
                        == default_desc() && self.0.offset@[a] == 0 by {
                        assert(e0[a] == default_desc() && f0[a] == 0);
                    }
                }
                return self;
            }
            i += 1;
        }
        proof {
            assert(!described(old(self).used(), old(self).used().len() as int, attribute));
        }
        let ghost u = self.used();
        let ghost o = self.used_offsets();
        let len = self.0.len;
        self.0.elements[len as usize] = desc;
        self.0.offset[len as usize] = offset;
        self.0.len = len + 1;
        proof {
            assert(self.used() =~= u.push(desc));
            assert(self.used_offsets() =~= o.push(offset));
        }
        self
    }

    /// Returns the layout, whose vertices are `stride` bytes apart.
    pub fn finish(&mut self, stride: u8) -> (r: VertexLayout)
        requires
            old(self).wf(),
        ensures
            final(self).wf(),
            final(self).used() == old(self).used(),
            final(self).used_offsets() == old(self).used_offsets(),
            r.count() == old(self).used().len(),
            r.elements().subrange(0, r.count() as int) == old(self).used(),
            r.offsets().subrange(0, r.count() as int) == old(self).used_offsets(),
            forall|i: int|
                r.count() <= i < MAX_ATTRIBUTES ==> r.elements()[i] == default_desc() && r.offsets()[i] == 0,
            r.stride_spec() == stride,
    {
        self.0.stride = stride;
        self.0
    }
}

/// The size in bytes of one component of `format`.
pub fn size(format: VertexFormat) -> (r: u8)
    ensures
        r == format_size(format),
{
    match format {
        VertexFormat::Byte | VertexFormat::UByte => 1,
        VertexFormat::Short | VertexFormat::UShort | VertexFormat::Fixed => 2,
        VertexFormat::Float => 4,
    }
}

/// Every element that `finish` laid out lies inside the stride, after the
/// elements laid out before it.
pub proof fn law_finished_elements_fit(u: Seq<VertexAttributeDesc>, i: int)
    requires
        0 <= i < u.len(),
        forall|k: int| 0 <= k < u.len() ==> 0 <= #[trigger] u[k].size,
    ensures
        prefix_bytes(u, i) + desc_bytes(u[i]) <= prefix_bytes(u, u.len() as int),
        forall|j: int| 0 <= j < i ==> prefix_bytes(u, j) + desc_bytes(u[j]) <= prefix_bytes(u, i),
    decreases u.len() - i,
{
    lemma_prefix_monotone(u, i + 1, u.len() as int);
    assert forall|j: int| 0 <= j < i implies prefix_bytes(u, j) + desc_bytes(u[j]) <= prefix_bytes(u, i) by {
        lemma_prefix_monotone(u, j + 1, i);
    }
}

proof fn lemma_prefix_monotone(u: Seq<VertexAttributeDesc>, a: int, b: int)
    requires
        0 <= a <= b <= u.len(),
        forall|k: int| 0 <= k < u.len() ==> 0 <= #[trigger] u[k].size,
    ensures
        prefix_bytes(u, a) <= prefix_bytes(u, b),
    decreases b - a,
{
    if a < b {
        lemma_prefix_monotone(u, a, b - 1);
        assert(desc_bytes(u[b - 1]) >= 0) by (nonlinear_arith)
            requires u[b - 1].size >= 0, format_size(u[b - 1].format) >= 0;
    }
}

/// After `finish`, every added attribute is found at its own slot: the first
/// slot of the whole table that carries its name, holding its description at
/// the offset that the sizes of the attributes before it add up to.
pub proof fn law_finished_lookup(b: &VertexLayoutBuilder, r: VertexLayout, k: int)
    requires
        b.wf(),
        r.count() == b.used().len(),
        r.elements().subrange(0, r.count() as int) == b.used(),
        forall|i: int| 0 <= i < r.count() ==> r.offsets()[i] == prefix_bytes(b.used(), i),
        0 <= k < b.used().len(),
    ensures
        first_slot(r.elements(), b.used()[k].name, k),
        r.elements()[k] == b.used()[k],
        r.offsets()[k] == prefix_bytes(b.used(), k),
{
    r.lemma_sizes();
    assert(r.elements()[k] == r.elements().subrange(0, r.count() as int)[k]);
    assert forall|j: int| 0 <= j < k implies r.elements()[j].name != b.used()[k].name by {
        assert(r.elements()[j] == r.elements().subrange(0, r.count() as int)[j]);
    }
}

/// The number of distinct attributes among `attrs`.
pub open spec fn distinct_count(attrs: Seq<VertexAttribute>) -> nat
    decreases attrs.len(),
{
    if attrs.len() == 0 {
        0
    } else {
        distinct_count(attrs.drop_last()) + if attrs.drop_last().contains(attrs.last()) {
            0nat
        } else {
            1nat
        }
    }
}

/// How `with` changes the used descriptions `u` into `u2` when it describes
/// `d.name` by `d`: it replaces the description of a name already used, in
/// its place, and appends one otherwise.
pub open spec fn with_step(u: Seq<VertexAttributeDesc>, d: VertexAttributeDesc, u2: Seq<VertexAttributeDesc>) -> bool {
    if described(u, u.len() as int, d.name) {
        exists|i: int| 0 <= i < u.len() && u[i].name == d.name && u2 == u.update(i, d)
    } else {
        u2 == u.push(d)
    }
}

/// The names that the descriptions `descs` describe, in order.
pub open spec fn names_of(descs: Seq<VertexAttributeDesc>) -> Seq<VertexAttribute> {
    Seq::new(descs.len(), |i: int| descs[i].name)
}

proof fn lemma_with_step_names(u: Seq<VertexAttributeDesc>, d: VertexAttributeDesc, u2: Seq<VertexAttributeDesc>, pnames: Seq<VertexAttribute>)
    requires
        with_step(u, d, u2),
        forall|a: VertexAttribute| described(u, u.len() as int, a) <==> pnames.contains(a),
        u.len() == distinct_count(pnames),
    ensures
        forall|a: VertexAttribute| described(u2, u2.len() as int, a) <==> pnames.push(d.name).contains(a),
        u2.len() == distinct_count(pnames.push(d.name)),
{
    let names = pnames.push(d.name);
    assert(names.drop_last() =~= pnames);
    assert forall|a: VertexAttribute| names.contains(a) <==> (pnames.contains(a) || a == d.name) by {
        if names.contains(a) {
            let m = choose|m: int| 0 <= m < names.len() && names[m] == a;
            if m < pnames.len() {
                assert(pnames[m] == a);
            }
        }
        if pnames.contains(a) {
            let m = choose|m: int| 0 <= m < pnames.len() && pnames[m] == a;
            assert(names[m] == a);
        }
        if a == d.name {
            assert(names[pnames.len() as int] == a);
        }
    }
    if described(u, u.len() as int, d.name) {
        let i = choose|i: int| 0 <= i < u.len() && u[i].name == d.name && u2 == u.update(i, d);
        assert forall|a: VertexAttribute| described(u2, u2.len() as int, a) <==> described(u, u.len() as int, a) by {
            if described(u2, u2.len() as int, a) {
                let j = choose|j: int| 0 <= j < u2.len() && u2[j].name == a;
                assert(u[j].name == a);
            }
            if described(u, u.len() as int, a) {
                let j = choose|j: int| 0 <= j < u.len() && u[j].name == a;
                assert(u2[j].name == a);
            }
        }
    } else {
        assert forall|a: VertexAttribute| described(u2, u2.len() as int, a) <==> (described(u, u.len() as int, a)
            || a == d.name) by {
            if described(u2, u2.len() as int, a) {
                let j = choose|j: int| 0 <= j < u2.len() && u2[j].name == a;
                if j < u.len() {
                    assert(u[j].name == a);
                }
            }
            if described(u, u.len() as int, a) {
                let j = choose|j: int| 0 <= j < u.len() && u[j].name == a;
                assert(u2[j].name == a);
            }
            if a == d.name {
                assert(u2[u.len() as int].name == a);
            }
        }
    }
}

/// A builder made by `new` and given the descriptions `descs` by `with`, in
/// order, uses one slot per distinct attribute among them, and describes
/// exactly those attributes: `states` are its used descriptions before and
/// after each call, and `finish` lays out the last of them.
pub proof fn law_one_slot_per_distinct_attribute(states: Seq<Seq<VertexAttributeDesc>>, descs: Seq<VertexAttributeDesc>)
    requires
        states.len() == descs.len() + 1,
        states[0] == Seq::<VertexAttributeDesc>::empty(),
        forall|k: int| 0 <= k < descs.len() ==> with_step(#[trigger] states[k], descs[k], states[k + 1]),
    ensures
        states.last().len() == distinct_count(names_of(descs)),
        forall|a: VertexAttribute|
            described(states.last(), states.last().len() as int, a) <==> names_of(descs).contains(a),
    decreases descs.len(),
{
    if descs.len() == 0 {
        assert forall|a: VertexAttribute| !described(states.last(), states.last().len() as int, a) by {}
        assert forall|a: VertexAttribute| !names_of(descs).contains(a) by {}
    } else {
        let n = descs.len() - 1;
        let pre = states.drop_last();
        let pd = descs.drop_last();
        assert forall|k: int| 0 <= k < pd.len() implies with_step(#[trigger] pre[k], pd[k], pre[k + 1]) by {
            assert(with_step(states[k], descs[k], states[k + 1]));
        }
        law_one_slot_per_distinct_attribute(pre, pd);
        assert(pre.last() == states[n]);
        assert(with_step(states[n], descs[n], states[n + 1]));
        lemma_with_step_names(states[n], descs[n], states[n + 1], names_of(pd));
        assert(names_of(pd).push(descs[n].name) =~= names_of(descs));
    }
}

/// One component takes the size of the number it is stored as: one byte for
/// `Byte` and `UByte` (`i8`, `u8`), two for `Short` and `UShort` (`i16`,
/// `u16`) and for `Fixed`, four for `Float`.
pub proof fn law_component_sizes()
    ensures
        format_size(VertexFormat::Byte) == vstd::layout::size_of::<i8>(),
        format_size(VertexFormat::UByte) == vstd::layout::size_of::<u8>(),
        format_size(VertexFormat::Short) == vstd::layout::size_of::<i16>(),
        format_size(VertexFormat::UShort) == vstd::layout::size_of::<u16>(),
        format_size(VertexFormat::Fixed) == 2,
        format_size(VertexFormat::Float) == 4,
{
    broadcast use vstd::layout::layout_of_primitives;
}

/// An element laid out after others starts where they end: its offset grows
/// from the one before by the bytes of the element before, and the first one
/// starts at 0.
pub proof fn law_offsets_follow_sizes(u: Seq<VertexAttributeDesc>, i: int)
    requires
        0 <= i < u.len(),
    ensures
        prefix_bytes(u, 0) == 0,
        prefix_bytes(u, i + 1) == prefix_bytes(u, i) + u[i].size * format_size(u[i].format),
{
}

} // verus!
