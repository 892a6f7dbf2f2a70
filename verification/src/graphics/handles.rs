//! Typed handles of the render resources.
use vstd::prelude::*;
use crate::handle::Handle;

verus! {

/// The handle of a texture.
#[derive(Debug, Clone, Copy, PartialEq, Eq, Hash, Structural)]
pub struct TextureHandle(pub Handle);

/// The handle of a texture that can be rendered into.
#[derive(Debug, Clone, Copy, PartialEq, Eq, Hash, Structural)]
pub struct RenderTextureHandle(pub Handle);

/// The handle of a render buffer.
#[derive(Debug, Clone, Copy, PartialEq, Eq, Hash, Structural)]
pub struct RenderBufferHandle(pub Handle);

/// The handle of a vertex buffer.
#[derive(Debug, Clone, Copy, PartialEq, Eq, Hash, Structural)]
pub struct VertexBufferHandle(pub Handle);

/// The handle of an index buffer.
#[derive(Debug, Clone, Copy, PartialEq, Eq, Hash, Structural)]
pub struct IndexBufferHandle(pub Handle);

/// The handle of a view state.
#[derive(Debug, Clone, Copy, PartialEq, Eq, Hash, Structural)]
pub struct ViewStateHandle(pub Handle);

/// The handle of a pipeline state.
#[derive(Debug, Clone, Copy, PartialEq, Eq, Hash, Structural)]
pub struct PipelineStateHandle(pub Handle);

/// The handle of a frame buffer.
#[derive(Debug, Clone, Copy, PartialEq, Eq, Hash, Structural)]
pub struct FrameBufferHandle(pub Handle);

/// The handle of a surface.
#[derive(Debug, Clone, Copy, PartialEq, Eq, Hash, Structural)]
pub struct SurfaceHandle(pub Handle);

/// The handle of a shader.
#[derive(Debug, Clone, Copy, PartialEq, Eq, Hash, Structural)]
pub struct ShaderHandle(pub Handle);

/// The handle of a mesh.
#[derive(Debug, Clone, Copy, PartialEq, Eq, Hash, Structural)]
pub struct MeshHandle(pub Handle);

/// The errors of the render resource descriptions.
#[derive(Debug, Clone, Copy, PartialEq, Eq, Structural)]
pub enum GraphicsError {
    /// A handle names no live object.
    InvalidHandle,
    /// An attachment slot lies past the last one.
    OutOfBounds,
}

} // verus!
