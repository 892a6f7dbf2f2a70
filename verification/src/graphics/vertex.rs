//! Vertex layouts whose attributes are named by the hash of a string.
use vstd::prelude::*;

verus! {

/// The number of attribute slots of a `VertexLayout`.
pub const MAX_VERTEX_ATTRIBUTES: usize = 12;

#[derive(Debug, PartialEq, Eq, Clone, Copy, Structural)]
pub enum VertexAttributeFormat {
    Byte,
    UByte,
    Short,
    UShort,
    Fixed,
    Float,
}

/// VertexAttribute defines an generic vertex element data.
#[derive(Debug, PartialEq, Eq, Clone, Copy, Structural)]
pub struct VertexAttribute {
    /// Hash value of the element name; zero marks an unused slot.
    pub name: u64,
    /// The data type of each component of this element.
    pub format: VertexAttributeFormat,
    /// The number of components per generic vertex element.
    pub size: u8,
    /// Whether fixed-point data values should be normalized.
    pub normalized: bool,
}

pub open spec fn empty_attribute() -> VertexAttribute {
    VertexAttribute { name: 0, format: VertexAttributeFormat::Byte, size: 0, normalized: false }
}

impl Default for VertexAttribute {
    fn default() -> (r: Self)
        ensures
            r == empty_attribute(),
    {
        VertexAttribute { name: 0, format: VertexAttributeFormat::Byte, size: 0, normalized: false }
    }
}

/// The hash of a name, as computed by SipHash-2-4 with zero keys over the
/// bytes of the string.
pub uninterp spec fn name_hash(s: Seq<char>) -> u64;

/// Hashes `name` with SipHash-2-4 under zero keys, as `std::hash::SipHasher`
/// does; the result depends on the string alone.
#[verifier::external_body]
pub fn hash(name: &str) -> (r: u64)
    ensures
        r == name_hash(name@),
{
    #[allow(deprecated)]
    let r = std::hash::BuildHasher::hash_one(
        &std::hash::BuildHasherDefault::<std::hash::SipHasher>::default(),
        name,
    );
    r
}

/// The size in bytes of one component of `format`.
pub open spec fn format_bytes(format: VertexAttributeFormat) -> int {
    match format {
        VertexAttributeFormat::Byte | VertexAttributeFormat::UByte => 1,
        VertexAttributeFormat::Short | VertexAttributeFormat::UShort
        | VertexAttributeFormat::Fixed => 2,
        VertexAttributeFormat::Float => 4,
    }
}

/// The size in bytes of one component of `format`.
pub fn size(format: VertexAttributeFormat) -> (r: u32)
    ensures
        r == format_bytes(format),
{
    match format {
        VertexAttributeFormat::Byte | VertexAttributeFormat::UByte => 1,
        VertexAttributeFormat::Short | VertexAttributeFormat::UShort
        | VertexAttributeFormat::Fixed => 2,
        VertexAttributeFormat::Float => 4,
    }
}

/// The byte size of one element.
pub open spec fn attribute_bytes(a: VertexAttribute) -> int {
    a.size * format_bytes(a.format)
}

/// The number of leading slots, from `i` on, that carry a name; the count
/// stops at the first unused slot.
pub open spec fn named_until(elems: Seq<VertexAttribute>, i: int) -> int
    decreases elems.len() - i,
{
    if i >= elems.len() || i < 0 || elems[i].name == 0 {
        i
    } else {
        named_until(elems, i + 1)
    }
}

/// The sum of the byte sizes of the first `n` elements.
pub open spec fn bytes_before(elems: Seq<VertexAttribute>, n: int) -> int
    decreases n,
{
    if n <= 0 {
        0
    } else {
        bytes_before(elems, n - 1) + attribute_bytes(elems[n - 1])
    }
}

/// The slot, at or after `i`, where looking `h` up stops on it: the first
/// slot that carries `h`, unless an unused slot or the end comes first.
pub open spec fn scan_slot(elems: Seq<VertexAttribute>, h: u64, i: int) -> Option<int>
    decreases elems.len() - i,
{
    if i < 0 || i >= elems.len() || elems[i].name == 0 {
        None
    } else if elems[i].name == h {
        Some(i)
    } else {
        scan_slot(elems, h, i + 1)
    }
}

/// Slot `i` is the first one that carries `h`, with no unused slot before it.
pub open spec fn found_at(elems: Seq<VertexAttribute>, h: u64, i: int) -> bool {
    &&& 0 <= i < elems.len()
    &&& elems[i].name == h
    &&& h != 0
    &&& forall|j: int| 0 <= j < i ==> elems[j].name != h && elems[j].name != 0
}

/// Looking `h` up fails: it stops at the first unused slot, or at the end,
/// without meeting `h` (a zero hash is never found).
pub open spec fn not_found(elems: Seq<VertexAttribute>, h: u64) -> bool {
    h == 0 || forall|j: int| 0 <= j < named_until(elems, 0) ==> #[trigger] elems[j].name != h
}

/// Slot `i` is the first one that either carries `h` or is unused.
pub open spec fn slot_for(elems: Seq<VertexAttribute>, h: u64, i: int) -> bool {
    &&& 0 <= i < elems.len()
    &&& (elems[i].name == h || elems[i].name == 0)
    &&& forall|j: int| 0 <= j < i ==> elems[j].name != h && elems[j].name != 0
}

/// VertexLayout defines an layout of vertex structure.
#[derive(Debug, PartialEq, Eq, Clone, Copy)]
pub struct VertexLayout {
    stride: u32,
    offset: [u32; MAX_VERTEX_ATTRIBUTES],
    elements: [VertexAttribute; MAX_VERTEX_ATTRIBUTES],
}

impl VertexLayout {
    pub closed spec fn elements(&self) -> Seq<VertexAttribute> {
        self.elements@
    }

    pub closed spec fn offsets(&self) -> Seq<u32> {
        self.offset@
    }

    pub closed spec fn stride_spec(&self) -> u32 {
        self.stride
    }

    /// Creates a new an empty `VertexLayoutBuilder`.
    pub fn build() -> (r: VertexLayoutBuilder)
        ensures
            r.elements() == Seq::new(MAX_VERTEX_ATTRIBUTES as nat, |i: int| empty_attribute()),
    {
        VertexLayoutBuilder::new()
    }

    /// Stride of single vertex structure.
    pub fn stride(&self) -> (r: u32)
        ensures
            r == self.stride_spec(),
    {
        self.stride
    }

    fn lookup(&self, h: u64) -> (r: Option<usize>)
        ensures
            match r {
                Some(i) => found_at(self.elements(), h, i as int),
                None => not_found(self.elements(), h),
            },
            match r {
                Some(i) => scan_slot(self.elements(), h, 0) == Some(i as int),
                None => scan_slot(self.elements(), h, 0) is None,
            },
    {
        let mut i: usize = 0;
        while i < MAX_VERTEX_ATTRIBUTES
            invariant
                i <= MAX_VERTEX_ATTRIBUTES,
                self.elements@.len() == MAX_VERTEX_ATTRIBUTES,
                forall|j: int| 0 <= j < i ==> self.elements@[j].name != h && self.elements@[j].name != 0,
                scan_slot(self.elements(), h, 0) == scan_slot(self.elements(), h, i as int),
            decreases MAX_VERTEX_ATTRIBUTES - i,
        {
            let n = self.elements[i].name;
            if n == 0 {
                proof {
                    lemma_named_until_at(self.elements(), 0, i as int);
                }
                return None;
            }
            if n == h {
                return Some(i);
            }
            i += 1;
        }
        proof {
            lemma_named_until_at(self.elements(), 0, i as int);
        }
        None
    }

    /// Relative element offset from the layout.
    pub fn offset(&self, name: &str) -> (r: Option<u32>)
        ensures
            match r {
                Some(o) => exists|i: int|
                    #[trigger] found_at(self.elements(), name_hash(name@), i) && o
                        == self.offsets()[i],
                None => not_found(self.elements(), name_hash(name@)),
            },
    {
        let h = hash(name);
        match self.lookup(h) {
            Some(i) => Some(self.offset[i]),
            None => None,
        }
    }

    /// Returns named `VertexAttribute` from the layout.
    pub fn element(&self, name: &str) -> (r: Option<VertexAttribute>)
        ensures
            match r {
                Some(e) => exists|i: int|
                    #[trigger] found_at(self.elements(), name_hash(name@), i) && e
                        == self.elements()[i],
                None => not_found(self.elements(), name_hash(name@)),
            },
    {
        let h = hash(name);
        match self.lookup(h) {
            Some(i) => Some(self.elements[i]),
            None => None,
        }
    }
}

/// Builds a `VertexLayout` one named attribute at a time.
pub struct VertexLayoutBuilder {
    layout: VertexLayout,
}

impl VertexLayoutBuilder {
    pub closed spec fn elements(&self) -> Seq<VertexAttribute> {
        self.layout.elements@
    }

    pub closed spec fn layout(&self) -> VertexLayout {
        self.layout
    }

    pub fn new() -> (r: Self)
        ensures
            r.elements() == Seq::new(MAX_VERTEX_ATTRIBUTES as nat, |i: int| empty_attribute()),
    {
        let e = VertexAttribute::default();
        let r = VertexLayoutBuilder {
            layout: VertexLayout {
                stride: 0,
                offset: [0; MAX_VERTEX_ATTRIBUTES],
                elements: [e; MAX_VERTEX_ATTRIBUTES],
            },
        };
        assert(r.elements() =~= Seq::new(MAX_VERTEX_ATTRIBUTES as nat, |i: int| empty_attribute()));
        r
    }

    /// Describes the attribute named `name`: the first slot that already
    /// carries its hash, or else the first unused slot, takes the description.
    /// There must be such a slot.
    pub fn set(
        &mut self,
        name: &str,
        format: VertexAttributeFormat,
        size: u8,
        normalized: bool,
    ) -> (r: &mut Self)
        requires
            exists|i: int| #[trigger] slot_for(old(self).elements(), name_hash(name@), i),
        ensures
            *final(self) == *final(r),
            exists|i: int|
                #[trigger] slot_for(old(self).elements(), name_hash(name@), i) && r.elements()
                    == old(self).elements().update(
                    i,
                    VertexAttribute { name: name_hash(name@), format, size, normalized },
                ),
            r.layout().offsets() == old(self).layout().offsets(),
            r.layout().stride_spec() == old(self).layout().stride_spec(),
    {
        let h = hash(name);
        let mut i: usize = 0;
        while i < MAX_VERTEX_ATTRIBUTES
            invariant
                i <= MAX_VERTEX_ATTRIBUTES,
                h == name_hash(name@),
                self.layout == old(self).layout,
                exists|k: int| #[trigger] slot_for(old(self).elements(), h, k),
                forall|j: int|
                    0 <= j < i ==> self.layout.elements@[j].name != h && self.layout.elements@[j].name != 0,
            decreases MAX_VERTEX_ATTRIBUTES - i,
        {
            let n = self.layout.elements[i].name;
            if n == h || n == 0 {
                let v = VertexAttribute { name: h, format: format, size: size, normalized: normalized };
                self.layout.elements[i] = v;
                proof {
                    assert(slot_for(old(self).elements(), h, i as int));
                }
                return self;
            }
            i += 1;
        }
        proof {
            let k = choose|k: int| #[trigger] slot_for(old(self).elements(), h, k);
            assert(old(self).elements()[k].name == h || old(self).elements()[k].name == 0);
        }
        self
    }

    /// Describes the attribute named `name` as `set` does when there is a slot
    /// for it; otherwise leaves the builder as it is and says so.
    pub fn try_set(&mut self, name: &str, format: VertexAttributeFormat, size: u8, normalized: bool) -> (r: bool)
        ensures
            r == exists|i: int| #[trigger] slot_for(old(self).elements(), name_hash(name@), i),
            r ==> exists|i: int|
                #[trigger] slot_for(old(self).elements(), name_hash(name@), i) && final(self).elements()
                    == old(self).elements().update(
                    i,
                    VertexAttribute { name: name_hash(name@), format, size, normalized },
                ),
            !r ==> *final(self) == *old(self),
            final(self).layout().offsets() == old(self).layout().offsets(),
            final(self).layout().stride_spec() == old(self).layout().stride_spec(),
    {
        let h = hash(name);
        let mut i: usize = 0;
        while i < MAX_VERTEX_ATTRIBUTES
            invariant
                i <= MAX_VERTEX_ATTRIBUTES,
                h == name_hash(name@),
                self.layout == old(self).layout,
                forall|j: int|
                    0 <= j < i ==> self.layout.elements@[j].name != h && self.layout.elements@[j].name != 0,
            decreases MAX_VERTEX_ATTRIBUTES - i,
        {
            let n = self.layout.elements[i].name;
            if n == h || n == 0 {
                proof {
                    assert(slot_for(old(self).elements(), h, i as int));
                }
                self.set(name, format, size, normalized);
                return true;
            }
            i += 1;
        }
        proof {
            assert forall|k: int| !#[trigger] slot_for(old(self).elements(), h, k) by {
                if slot_for(old(self).elements(), h, k) {
                    assert(old(self).elements()[k].name == h || old(self).elements()[k].name == 0);
                }
            }
        }
        false
    }

    /// Computes the offsets of the named slots, up to the first unused one, and
    /// the stride, and returns the layout.
    pub fn finish(&mut self) -> (r: VertexLayout)
        ensures
            final(self).layout() == r,
            r.elements() == old(self).elements(),
            ({
                let n = named_until(old(self).elements(), 0);
                &&& r.stride_spec() == bytes_before(old(self).elements(), n)
                &&& forall|i: int| 0 <= i < n ==> r.offsets()[i] == bytes_before(old(self).elements(), i)
                &&& forall|i: int|
                    n <= i < MAX_VERTEX_ATTRIBUTES ==> r.offsets()[i] == old(self).layout().offsets()[i]
            }),
    {
        let ghost e = self.elements();
        proof {
            lemma_named_until_bounds(e, 0);
        }
        self.layout.stride = 0;
        let mut i: usize = 0;
        while i < MAX_VERTEX_ATTRIBUTES
            invariant
                e == self.elements(),
                e == old(self).elements(),
                e.len() == MAX_VERTEX_ATTRIBUTES,
                i <= named_until(e, 0) <= MAX_VERTEX_ATTRIBUTES,
                named_until(e, i as int) == named_until(e, 0),
                self.layout.stride == bytes_before(e, i as int),
                bytes_before(e, i as int) <= 1020 * i,
                forall|k: int| 0 <= k < i ==> self.layout.offset@[k] == bytes_before(e, k),
                forall|k: int|
                    named_until(e, 0) <= k < MAX_VERTEX_ATTRIBUTES ==> self.layout.offset@[k]
                        == old(self).layout.offset@[k],
            ensures
                i == named_until(e, 0),
                self.layout.stride == bytes_before(e, i as int),
                forall|k: int| 0 <= k < i ==> self.layout.offset@[k] == bytes_before(e, k),
                forall|k: int|
                    named_until(e, 0) <= k < MAX_VERTEX_ATTRIBUTES ==> self.layout.offset@[k]
                        == old(self).layout.offset@[k],
                e == self.elements(),
            decreases MAX_VERTEX_ATTRIBUTES - i,
        {
            let v = self.layout.elements[i];
            if v.name == 0 {
                break;
            }
            proof {
                lemma_named_until_bounds(e, i as int + 1);
            }
            let fs = size(v.format);
            assert(v.size * fs <= 1020) by (nonlinear_arith)
                requires
                    v.size <= 255,
                    fs <= 4,
            ;
            let len = v.size as u32 * fs;
            let stride = self.layout.stride;
            self.layout.offset[i] = stride;
            self.layout.stride = stride + len;
            i += 1;
        }
        self.layout
    }
}

proof fn lemma_named_until_at(e: Seq<VertexAttribute>, k: int, i: int)
    requires
        0 <= k <= i <= e.len(),
        i == e.len() || e[i].name == 0,
        forall|j: int| k <= j < i ==> #[trigger] e[j].name != 0,
    ensures
        named_until(e, k) == i,
    decreases i - k,
{
    if k < i {
        lemma_named_until_at(e, k + 1, i);
    }
}

proof fn lemma_named_until_bounds(e: Seq<VertexAttribute>, i: int)
    requires
        0 <= i <= e.len(),
    ensures
        i <= named_until(e, i) <= e.len(),
    decreases e.len() - i,
{
    if i < e.len() && e[i].name != 0 {
        lemma_named_until_bounds(e, i + 1);
    }
}

/// A name that was set is found again, at the slot it was set in, as long as
/// its hash is not zero (zero marks an unused slot and is never found).
pub proof fn law_set_then_found(
    elems: Seq<VertexAttribute>,
    h: u64,
    i: int,
    format: VertexAttributeFormat,
    size: u8,
    normalized: bool,
)
    requires
        slot_for(elems, h, i),
        h != 0,
    ensures
        found_at(elems.update(i, VertexAttribute { name: h, format, size, normalized }), h, i),
{
}

/// How a pipeline attribute reads a vertex buffer: at its location, with the
/// description the buffer's layout gives for its name, the layout's stride
/// and the description's offset.
#[derive(Debug, Clone, Copy, PartialEq, Eq, Structural)]
pub struct VertexBinding {
    pub location: u32,
    pub element: VertexAttribute,
    pub stride: u32,
    pub offset: u32,
}

/// Why a pipeline attribute cannot read a vertex buffer.
#[derive(Debug, Clone, Copy, PartialEq, Eq, Structural)]
pub enum VertexBindingError {
    /// The buffer's layout describes no attribute of this name (by hash).
    Missing(u64),
    /// The buffer's layout describes the attribute `required.name` otherwise
    /// than the pipeline requires: `found` has another format or size.
    Mismatch { required: VertexAttribute, found: VertexAttribute },
}

/// Why the pipeline attribute `a` cannot read vertices laid out by `layout`,
/// if it cannot.
pub open spec fn binding_error(layout: VertexLayout, a: (u32, VertexAttribute)) -> Option<VertexBindingError> {
    match scan_slot(layout.elements(), a.1.name, 0) {
        None => Some(VertexBindingError::Missing(a.1.name)),
        Some(i) => {
            let e = layout.elements()[i];
            if e.format != a.1.format || e.size != a.1.size {
                Some(VertexBindingError::Mismatch { required: a.1, found: e })
            } else {
                None
            }
        },
    }
}

/// How the pipeline attribute `a` reads vertices laid out by `layout`.
pub open spec fn binding_for(layout: VertexLayout, a: (u32, VertexAttribute)) -> VertexBinding {
    let i = scan_slot(layout.elements(), a.1.name, 0)->0;
    VertexBinding {
        location: a.0,
        element: layout.elements()[i],
        stride: layout.stride_spec(),
        offset: layout.offsets()[i],
    }
}

impl VertexLayout {
    /// Binds the attributes of a pipeline, by location, to vertices laid out
    /// by this layout: each must be described here, under its name, with its
    /// format and size; the first that is not is the error.
    pub fn bind_attributes(&self, attrs: &[(u32, VertexAttribute)]) -> (r: Result<Vec<VertexBinding>, VertexBindingError>)
        ensures
            r is Ok <==> forall|k: int| 0 <= k < attrs@.len() ==> binding_error(*self, #[trigger] attrs@[k]) is None,
            r matches Ok(v) ==> v@.len() == attrs@.len() && forall|k: int|
                0 <= k < v@.len() ==> #[trigger] v@[k] == binding_for(*self, attrs@[k]),
            r matches Err(e) ==> exists|k: int|
                0 <= k < attrs@.len() && binding_error(*self, #[trigger] attrs@[k]) == Some(e) && forall|j: int|
                    0 <= j < k ==> binding_error(*self, attrs@[j]) is None,
    {
        let mut out: Vec<VertexBinding> = Vec::new();
        let mut k: usize = 0;
        while k < attrs.len()
            invariant
                k <= attrs@.len(),
                out@.len() == k,
                self.elements().len() == MAX_VERTEX_ATTRIBUTES,
                forall|j: int| 0 <= j < k ==> binding_error(*self, #[trigger] attrs@[j]) is None,
                forall|j: int| 0 <= j < k ==> #[trigger] out@[j] == binding_for(*self, attrs@[j]),
            decreases attrs.len() - k,
        {
            let (location, required) = attrs[k];
            match self.lookup(required.name) {
                None => {
                    return Err(VertexBindingError::Missing(required.name));
                },
                Some(i) => {
                    let found = self.elements[i];
                    if found.format != required.format || found.size != required.size {
                        return Err(VertexBindingError::Mismatch { required, found });
                    }
                    out.push(VertexBinding { location, element: found, stride: self.stride, offset: self.offset[i] });
                },
            }
            k += 1;
        }
        Ok(out)
    }
}

/// One component takes the size of the number it is stored as: one byte for
/// `Byte` and `UByte` (`i8`, `u8`), two for `Short` and `UShort` (`i16`,
/// `u16`) and for `Fixed`, four for `Float`.
pub proof fn law_component_sizes()
    ensures
        format_bytes(VertexAttributeFormat::Byte) == vstd::layout::size_of::<i8>(),
        format_bytes(VertexAttributeFormat::UByte) == vstd::layout::size_of::<u8>(),
        format_bytes(VertexAttributeFormat::Short) == vstd::layout::size_of::<i16>(),
        format_bytes(VertexAttributeFormat::UShort) == vstd::layout::size_of::<u16>(),
        format_bytes(VertexAttributeFormat::Fixed) == 2,
        format_bytes(VertexAttributeFormat::Float) == 4,
{
    broadcast use vstd::layout::layout_of_primitives;
}

} // verus!
