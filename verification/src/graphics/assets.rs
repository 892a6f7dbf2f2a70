//! The loading state of an asset.
use vstd::prelude::*;
use std::sync::Arc;
use super::pipeline::Primitive;
use super::resource::{index_stride, IndexFormat, VertexLayout};

verus! {

/// Whether an asset has been loaded.
pub enum AssetState<T> {
    NotReady,
    Ready(Arc<T>),
    Error(String),
}

impl<T> AssetState<T> {
    /// The state of a loaded asset.
    pub fn ready(v: T) -> (r: Self)
        ensures
            (r matches AssetState::Ready(a) && *a == v),
    {
        AssetState::Ready(Arc::new(v))
    }

    pub fn is_ready(&self) -> (r: bool)
        ensures
            r == (self is Ready),
    {
        match *self {
            AssetState::Ready(_) => true,
            _ => false,
        }
    }
}

/// A mesh as a parser reads it from bytes.
pub struct MeshData {
    pub layout: VertexLayout,
    pub index_format: IndexFormat,
    pub primitive: Primitive,
    pub num_verts: usize,
    pub num_idxes: usize,
    /// Where each sub-mesh starts, in indices.
    pub sub_mesh_offsets: Vec<usize>,
    pub verts: Vec<u8>,
    pub idxes: Vec<u8>,
}

/// Which indices of a mesh a draw call draws.
#[derive(Debug, Clone, Copy, PartialEq, Eq, Structural)]
pub enum MeshIndex {
    /// `len` indices from index `from`.
    Ptr(usize, usize),
    /// The indices of one sub-mesh.
    SubMesh(usize),
    /// All the indices.
    All,
}

/// Why the indices asked for cannot be drawn.
#[derive(Debug, Clone, Copy, PartialEq, Eq, Structural)]
pub enum MeshIndexError {
    /// The range lies past the indices, or there is no such sub-mesh.
    InvalidSubMesh,
}

/// Where sub-mesh `k` ends: where the next one starts, or at the end of the
/// indices for the last one.
pub open spec fn sub_mesh_end(offsets: Seq<usize>, num_idxes: usize, k: int) -> int {
    if k == offsets.len() - 1 {
        num_idxes as int
    } else {
        offsets[k + 1] as int
    }
}

/// A sub-mesh asked for that exists starts within the indices and ends no
/// earlier than it starts.
pub open spec fn sub_mesh_in_order(index: MeshIndex, num_idxes: usize, offsets: Seq<usize>) -> bool {
    match index {
        MeshIndex::SubMesh(k) => k < offsets.len() ==> offsets[k as int] <= sub_mesh_end(offsets, num_idxes, k as int)
            && offsets[k as int] <= num_idxes,
        _ => true,
    }
}

/// The byte offset of the first index drawn and the number of indices drawn,
/// for a mesh of `num_idxes` indices of `format` whose sub-meshes start at
/// `offsets`.
pub open spec fn index_range_of(index: MeshIndex, num_idxes: usize, offsets: Seq<usize>, format: IndexFormat) -> Result<
    (int, int),
    MeshIndexError,
> {
    match index {
        MeshIndex::Ptr(from, len) => if from + len > num_idxes {
            Err(MeshIndexError::InvalidSubMesh)
        } else {
            Ok((from * index_stride(format), len as int))
        },
        MeshIndex::SubMesh(k) => if k >= offsets.len() {
            Err(MeshIndexError::InvalidSubMesh)
        } else {
            Ok((offsets[k as int] * index_stride(format), sub_mesh_end(offsets, num_idxes, k as int) - offsets[k as int]))
        },
        MeshIndex::All => Ok((0, num_idxes as int)),
    }
}

/// The indices a draw call draws, as `index_range_of` says: the byte offset
/// of the first one in the index buffer, and how many there are. A range
/// past the indices, or a sub-mesh that does not exist, is refused.
pub fn index_range(index: MeshIndex, num_idxes: usize, sub_mesh_offsets: &[usize], format: IndexFormat) -> (r: Result<
    (usize, usize),
    MeshIndexError,
>)
    requires
        num_idxes * 2 <= usize::MAX,
        sub_mesh_in_order(index, num_idxes, sub_mesh_offsets@),
    ensures
        match (r, index_range_of(index, num_idxes, sub_mesh_offsets@, format)) {
            (Ok(got), Ok(want)) => got.0 == want.0 && got.1 == want.1,
            (Err(e), Err(f)) => e == f,
            _ => false,
        },
{
    let stride = format.stride();
    match index {
        MeshIndex::Ptr(from, len) => {
            if len > num_idxes || from > num_idxes - len {
                return Err(MeshIndexError::InvalidSubMesh);
            }
            assert(from * stride <= num_idxes * 2) by (nonlinear_arith)
                requires
                    from <= num_idxes,
                    stride <= 2,
            ;
            Ok((from * stride, len))
        },
        MeshIndex::SubMesh(k) => {
            let num = sub_mesh_offsets.len();
            if k >= num {
                return Err(MeshIndexError::InvalidSubMesh);
            }
            let from = sub_mesh_offsets[k];
            let to = if k == num - 1 {
                num_idxes
            } else {
                sub_mesh_offsets[k + 1]
            };
            assert(from * stride <= num_idxes * 2) by (nonlinear_arith)
                requires
                    from <= num_idxes,
                    stride <= 2,
            ;
            Ok((from * stride, to - from))
        },
        MeshIndex::All => Ok((0, num_idxes)),
    }
}

/// One index takes the size of the unsigned integer it is read as: one byte
/// for `UByte` (`u8`), two for `UShort` (`u16`).
pub proof fn law_index_stride_is_index_size()
    ensures
        index_stride(IndexFormat::UByte) == vstd::layout::size_of::<u8>(),
        index_stride(IndexFormat::UShort) == vstd::layout::size_of::<u16>(),
{
    broadcast use vstd::layout::layout_of_primitives;
}

/// The range drawn starts at the byte where its first index lies: the index
/// itself for one-byte indices, twice it for two-byte ones; its first index
/// is `from` for a range, the start of the sub-mesh for a sub-mesh, 0 for all
/// the indices, and a sub-mesh runs up to the next one or the end.
pub proof fn law_index_range_starts_at_first_index(index: MeshIndex, num_idxes: usize, offsets: Seq<usize>, format: IndexFormat)
    ensures
        index_range_of(index, num_idxes, offsets, format) matches Ok(r) ==> {
            let first: int = match index {
                MeshIndex::Ptr(from, _) => from as int,
                MeshIndex::SubMesh(k) => offsets[k as int] as int,
                MeshIndex::All => 0,
            };
            &&& format == IndexFormat::UByte ==> r.0 == first
            &&& format == IndexFormat::UShort ==> r.0 == 2 * first
            &&& index matches MeshIndex::Ptr(from, len) ==> r.1 == len && from + len <= num_idxes
            &&& index matches MeshIndex::SubMesh(k) ==> r.1 == (if k + 1 < offsets.len() {
                offsets[k + 1] as int
            } else {
                num_idxes as int
            }) - first
            &&& index is All ==> r.1 == num_idxes
        },
        index_range_of(index, num_idxes, offsets, format) is Err <==> match index {
            MeshIndex::Ptr(from, len) => from + len > num_idxes,
            MeshIndex::SubMesh(k) => k >= offsets.len(),
            MeshIndex::All => false,
        },
{
}

} // verus!
