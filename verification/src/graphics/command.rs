//! Updates of render resources recorded by a draw command list.
use vstd::prelude::*;
use std::time::Duration;
use super::handles::{MeshHandle, TextureHandle};
use super::rect::Rect;
use super::surface::Scissor;

verus! {

/// Vertex buffer object update.
#[derive(Debug, Clone, Copy)]
pub struct VertexBufferUpdate<'a> {
    pub mesh: MeshHandle,
    /// Where in the buffer, in bytes, the data goes.
    pub offset: usize,
    pub data: &'a [u8],
}

/// Index buffer object update.
#[derive(Debug, Clone, Copy)]
pub struct IndexBufferUpdate<'a> {
    pub mesh: MeshHandle,
    /// Where in the buffer, in bytes, the data goes.
    pub offset: usize,
    pub data: &'a [u8],
}

/// Texture object update.
#[derive(Debug, Clone, Copy)]
pub struct TextureUpdate<'a> {
    pub texture: TextureHandle,
    /// The part of the texture that is written.
    pub rect: Rect,
    pub data: &'a [u8],
}

/// Scissor update.
#[derive(Debug, Clone, Copy)]
pub struct ScissorUpdate {
    pub scissor: Scissor,
}

/// The information of graphics module during last frame.
#[derive(Debug, Copy, Clone, Default)]
pub struct GraphicsFrameInfo {
    pub duration: Duration,
    pub drawcall: usize,
    pub vertices: usize,
    pub alive_surfaces: usize,
    pub alive_shaders: usize,
    pub alive_frame_buffers: usize,
    pub alive_vertex_buffers: usize,
    pub alive_index_buffers: usize,
    pub alive_textures: usize,
    pub alive_render_buffers: usize,
}

} // verus!
