use crayon::graphics::assets::AssetState;
use crayon::graphics::frame::TaskBuffer;
use crayon::graphics::handled::HandledObjects;
use crayon::graphics::handles::{GraphicsError, RenderBufferHandle, RenderTextureHandle, TextureHandle};
use crayon::graphics::labels::{GraphicsResource, GraphicsResourceLabel};
use crayon::graphics::rect::{Point2, Rect};
use crayon::graphics::surface;
use crayon::graphics::view::{FrameBufferAttachment, FrameBufferSetup, MAX_ATTACHMENTS};
use crayon::handle::Handle;
use crayon::time::elapsed_ms;

#[test]
fn rect_measures_and_overlaps() {
    let a = Rect::new(Point2::new(0, 0), Point2::new(10, 20));
    let b = Rect::new(Point2::new(5, -5), Point2::new(30, 15));
    assert_eq!(a.width(), 10);
    assert_eq!(a.height(), 20);
    assert_eq!(a.size(), 200);
    let o = a.overlap(b);
    assert_eq!(o, Rect::new(Point2::new(5, 0), Point2::new(10, 15)));
    assert_eq!(b.overlap(a), o);
    assert_eq!(a.overlap(a), a);
    // Disjoint rectangles overlap into an inverted one.
    let c = Rect::new(Point2::new(50, 50), Point2::new(60, 60));
    assert_eq!(a.overlap(c).width(), -40);
}

#[test]
fn framebuffer_slots() {
    let mut setup = FrameBufferSetup::default();
    assert!(setup.attachments().iter().all(|v| v.is_none()));
    let rb = RenderBufferHandle(Handle::new(1, 1));
    let tex = TextureHandle(Handle::new(2, 1));
    assert_eq!(setup.set_attachment(rb, None), Ok(()));
    assert_eq!(setup.set_texture_attachment(tex, Some(3)), Ok(()));
    assert_eq!(setup.set_attachment(rb, Some(MAX_ATTACHMENTS)), Err(GraphicsError::OutOfBounds));
    assert_eq!(setup.attachments()[0], Some(FrameBufferAttachment::RenderBuffer(rb)));
    assert_eq!(setup.attachments()[3], Some(FrameBufferAttachment::Texture(tex)));
    assert_eq!(setup.attachments().len(), MAX_ATTACHMENTS);
    assert_eq!(
        setup.attachment_updates(),
        vec![(0, FrameBufferAttachment::RenderBuffer(rb)), (3, FrameBufferAttachment::Texture(tex))]
    );
    assert_eq!(FrameBufferSetup::default().attachment_updates(), vec![]);

    let mut s2 = surface::FrameBufferSetup::default();
    let rt = RenderTextureHandle(Handle::new(4, 2));
    assert_eq!(s2.set_attachment(rt.into_attachment(), Some(7)), Ok(()));
    assert_eq!(s2.set_attachment(rb.into_attachment(), Some(8)), Err(GraphicsError::OutOfBounds));
    assert_eq!(s2.attachments()[7], Some(surface::FrameBufferAttachment::Texture(rt)));
}

#[test]
fn task_buffer_reads_back_strings() {
    let mut buf = TaskBuffer::with_capacity(128);
    let a = buf.extend_from_str("string serialization");
    let b = buf.extend_from_str("another");
    assert_eq!(buf.as_str(a), "string serialization");
    assert_eq!(buf.as_str(b), "another");
    assert_eq!(buf.as_bytes(b), "another".as_bytes());
    // The same string is stored once.
    let a2 = buf.extend_from_str("string serialization");
    assert_eq!(a, a2);
    buf.clear();
    let c = buf.extend_from_str("x");
    assert_eq!(buf.as_str(c), "x");
}

#[test]
fn handled_objects_by_index() {
    let mut objects: HandledObjects<&'static str> = HandledObjects::new();
    let h = Handle::new(3, 1);
    assert_eq!(objects.get(h), None);
    objects.insert(h, "three");
    assert_eq!(objects.get(h), Some(&"three"));
    assert_eq!(objects.get(Handle::new(2, 1)), None);
    objects.insert(Handle::new(3, 2), "again");
    assert_eq!(objects.get(h), Some(&"again"));
    objects.remove(h);
    assert_eq!(objects.get(h), None);
}

#[test]
fn labels_drain_in_creation_order() {
    let mut label = GraphicsResourceLabel::new();
    let t = GraphicsResource::Texture(TextureHandle(Handle::new(0, 0)));
    let r = GraphicsResource::RenderBuffer(RenderBufferHandle(Handle::new(1, 0)));
    assert_eq!(label.push(t), t);
    label.push(r);
    assert_eq!(label.drain(), vec![t, r]);
    assert_eq!(label.drain(), vec![]);
}

#[test]
fn asset_states() {
    let s: AssetState<u32> = AssetState::ready(5);
    assert!(s.is_ready());
    let n: AssetState<u32> = AssetState::NotReady;
    assert!(!n.is_ready());
    let e: AssetState<u32> = AssetState::Error("missing".to_string());
    assert!(!e.is_ready());
}

#[test]
fn elapsed_saturates() {
    assert_eq!(elapsed_ms(100, 40), 60);
    assert_eq!(elapsed_ms(40, 100), 0);
}

#[test]
fn task_buffer_appends_distinct_strings_and_keeps_earlier_bytes() {
    let mut buf = TaskBuffer::with_capacity(16);
    let a = buf.extend_from_str("ab");
    let b = buf.extend_from_str("cde");
    assert_eq!(buf.as_bytes(a), "ab".as_bytes());
    assert_eq!(buf.as_bytes(b), "cde".as_bytes());
    let again = buf.extend_from_str("cde");
    assert_eq!(again, b);
    let e = buf.extend_from_str("");
    assert_eq!(buf.as_str(e), "");
    assert_eq!(buf.as_str(a), "ab");
    buf.clear();
    let c = buf.extend_from_str("cde");
    assert_eq!(buf.as_str(c), "cde");
}

#[test]
fn frame_buffer_setups_have_eight_slots() {
    let s = FrameBufferSetup::default();
    assert_eq!(s.attachments().len(), MAX_ATTACHMENTS);
    assert_eq!(MAX_ATTACHMENTS, 8);
    let s2 = surface::FrameBufferSetup::default();
    assert_eq!(s2.attachments().len(), 8);
}

use crayon::graphics::handles::{MeshHandle, ShaderHandle, SurfaceHandle};
use crayon::graphics::submit::{check_drawcall, DrawCallError, DrawCallOutcome};
use crayon::graphics::uniform_variable::UniformVariableType;

#[test]
fn drawcall_checks_surface_mesh_shader_and_uniforms() {
    let surface = SurfaceHandle(Handle::new(1, 1));
    let mesh = MeshHandle(Handle::new(2, 1));
    let shader = ShaderHandle(Handle::new(3, 1));
    let loaded: AssetState<u32> = AssetState::ready(7);
    let loading: AssetState<u32> = AssetState::NotReady;
    let vars: AssetState<Vec<(u64, UniformVariableType)>> =
        AssetState::ready(vec![(10, UniformVariableType::F32), (11, UniformVariableType::Texture)]);
    let shader_loading: AssetState<Vec<(u64, UniformVariableType)>> = AssetState::NotReady;
    let good = [(11, UniformVariableType::Texture), (10, UniformVariableType::F32)];

    assert_eq!(
        check_drawcall(surface, false, mesh, Some(&loaded), shader, Some(&vars), &good),
        Err(DrawCallError::SurfaceHandleInvalid(surface))
    );
    assert_eq!(
        check_drawcall(surface, true, mesh, None::<&AssetState<u32>>, shader, Some(&vars), &good),
        Err(DrawCallError::MeshHandleInvalid(mesh))
    );
    assert_eq!(
        check_drawcall(surface, true, mesh, Some(&loading), shader, None, &good),
        Ok(DrawCallOutcome::Skipped)
    );
    assert_eq!(
        check_drawcall(surface, true, mesh, Some(&loaded), shader, None, &good),
        Err(DrawCallError::ShaderHandleInvalid(shader))
    );
    assert_eq!(
        check_drawcall(surface, true, mesh, Some(&loaded), shader, Some(&shader_loading), &good),
        Ok(DrawCallOutcome::Skipped)
    );
    assert_eq!(
        check_drawcall(surface, true, mesh, Some(&loaded), shader, Some(&vars), &good),
        Ok(DrawCallOutcome::Submitted)
    );
    assert_eq!(
        check_drawcall(surface, true, mesh, Some(&loaded), shader, Some(&vars), &[(12, UniformVariableType::I32)]),
        Err(DrawCallError::UndefinedUniform(12))
    );
    assert_eq!(
        check_drawcall(
            surface,
            true,
            mesh,
            Some(&loaded),
            shader,
            Some(&vars),
            &[(10, UniformVariableType::F32), (11, UniformVariableType::I32)]
        ),
        Err(DrawCallError::UnmatchedUniform {
            name: 11,
            given: UniformVariableType::I32,
            required: UniformVariableType::Texture
        })
    );
}

use crayon::graphics::frame::{DrawCall, DrawCallBuilder, DrawCallBuilderError};
use crayon::graphics::handles::{PipelineStateHandle, VertexBufferHandle, ViewStateHandle};
use crayon::graphics::pipeline::Primitive;

#[test]
fn draw_call_builder_needs_view_pipeline_and_vertex_buffer() {
    let mut buf = TaskBuffer::with_capacity(64);
    let mut calls: Vec<DrawCall<f32>> = Vec::new();
    let mut b: DrawCallBuilder<f32> = DrawCallBuilder::new();
    assert_eq!(
        b.submit(&mut calls, Primitive::Triangles, 0, 3),
        Err(DrawCallBuilderError::CanNotDrawWithoutView)
    );
    b.with_view(ViewStateHandle(Handle::new(1, 1)));
    assert_eq!(
        b.submit(&mut calls, Primitive::Triangles, 0, 3),
        Err(DrawCallBuilderError::CanNotDrawWithoutPipelineState)
    );
    b.with_pipeline(PipelineStateHandle(Handle::new(2, 1)));
    assert_eq!(
        b.submit(&mut calls, Primitive::Triangles, 0, 3),
        Err(DrawCallBuilderError::CanNotDrawWithoutVertexBuffer)
    );
    assert!(calls.is_empty());
    b.with_data(VertexBufferHandle(Handle::new(3, 1)), None)
        .with_order(9)
        .with_uniform_variable(&mut buf, "u_Scale", 2.5)
        .with_texture(&mut buf, "u_Texture", TextureHandle(Handle::new(4, 1)));
    assert_eq!(b.submit(&mut calls, Primitive::Lines, 2, 6), Ok(()));
    assert_eq!(calls.len(), 1);
    let dc = &calls[0];
    assert_eq!(dc.order, 9);
    assert_eq!(dc.view, ViewStateHandle(Handle::new(1, 1)));
    assert_eq!(dc.pipeline, PipelineStateHandle(Handle::new(2, 1)));
    assert_eq!(dc.vb, VertexBufferHandle(Handle::new(3, 1)));
    assert_eq!(dc.ib, None);
    assert_eq!(dc.primitive, Primitive::Lines);
    assert_eq!((dc.from, dc.len), (2, 6));
    assert_eq!(dc.uniforms.len(), 1);
    assert_eq!(buf.as_str(dc.uniforms[0].0), "u_Scale");
    assert_eq!(dc.uniforms[0].1, 2.5);
    assert_eq!(buf.as_str(dc.textures[0].0), "u_Texture");
    assert_eq!(dc.textures[0].1, TextureHandle(Handle::new(4, 1)));
}

#[test]
fn task_buffer_reads_back_slices_after_later_appends() {
    let mut buf = TaskBuffer::with_capacity(8);
    let a = buf.extend_from_slice(&[1, 2, 3]);
    let b = buf.extend_from_slice(&[1, 2]);
    let s = buf.extend_from_str("string serialization");
    assert_eq!(buf.as_bytes(a), &[1, 2, 3]);
    assert_eq!(buf.as_bytes(b), &[1, 2]);
    assert_eq!(buf.as_str(s), "string serialization");
}

use crayon::graphics::shader::{check_shader_setup, uniform_table, ShaderSetupError};
use crayon::graphics::vertex::hash;

#[test]
fn shader_setup_checks_uniform_count_and_sources() {
    assert_eq!(check_shader_setup(33, 0, 0, 32), Err(ShaderSetupError::TooManyUniformVariables));
    assert_eq!(check_shader_setup(32, 0, 5, 32), Err(ShaderSetupError::VertexShaderRequired));
    assert_eq!(check_shader_setup(2, 5, 0, 32), Err(ShaderSetupError::FragmentShaderRequired));
    assert_eq!(check_shader_setup(2, 5, 5, 32), Ok(()));
}

#[test]
fn uniform_table_keeps_the_last_type_per_name() {
    let table = uniform_table(
        &["u_Color", "u_Texture", "u_Color"],
        &[UniformVariableType::F32, UniformVariableType::Texture, UniformVariableType::Vector4f],
    );
    assert_eq!(table, vec![(hash("u_Color"), UniformVariableType::Vector4f), (hash("u_Texture"), UniformVariableType::Texture)]);
    let surface = SurfaceHandle(Handle::new(1, 1));
    let mesh = MeshHandle(Handle::new(2, 1));
    let shader = ShaderHandle(Handle::new(3, 1));
    let loaded: AssetState<u32> = AssetState::ready(7);
    let state = AssetState::ready(table);
    assert_eq!(
        check_drawcall(surface, true, mesh, Some(&loaded), shader, Some(&state), &[(hash("u_Color"), UniformVariableType::Vector4f)]),
        Ok(DrawCallOutcome::Submitted)
    );
    assert_eq!(
        check_drawcall(surface, true, mesh, Some(&loaded), shader, Some(&state), &[(hash("u_Color"), UniformVariableType::F32)]),
        Err(DrawCallError::UnmatchedUniform {
            name: hash("u_Color"),
            given: UniformVariableType::F32,
            required: UniformVariableType::Vector4f
        })
    );
}

use crayon::graphics::assets::{index_range, MeshIndex, MeshIndexError};
use crayon::graphics::order::{order_tasks, TaskOrder};
use crayon::graphics::resource::IndexFormat;

#[test]
fn mesh_index_ranges_in_bytes() {
    let offsets = [0, 6, 9];
    assert_eq!(index_range(MeshIndex::All, 12, &offsets, IndexFormat::UShort), Ok((0, 12)));
    assert_eq!(index_range(MeshIndex::Ptr(3, 4), 12, &offsets, IndexFormat::UShort), Ok((6, 4)));
    assert_eq!(index_range(MeshIndex::Ptr(9, 4), 12, &offsets, IndexFormat::UShort), Err(MeshIndexError::InvalidSubMesh));
    assert_eq!(index_range(MeshIndex::SubMesh(0), 12, &offsets, IndexFormat::UByte), Ok((0, 6)));
    assert_eq!(index_range(MeshIndex::SubMesh(1), 12, &offsets, IndexFormat::UShort), Ok((12, 3)));
    assert_eq!(index_range(MeshIndex::SubMesh(2), 12, &offsets, IndexFormat::UShort), Ok((18, 3)));
    assert_eq!(index_range(MeshIndex::SubMesh(3), 12, &offsets, IndexFormat::UShort), Err(MeshIndexError::InvalidSubMesh));
    assert_eq!(index_range(MeshIndex::SubMesh(0), 12, &[], IndexFormat::UShort), Err(MeshIndexError::InvalidSubMesh));
}

#[test]
fn frame_tasks_go_by_surface_then_order() {
    let at = |surface_order: u64, sequence: bool, order: u64| TaskOrder { surface_order, sequence, order };
    let tasks = vec![
        (at(2, false, 5), 'a'),
        (at(1, true, 9), 'b'),
        (at(2, false, 1), 'c'),
        (at(1, true, 3), 'd'),
        (at(2, false, 5), 'e'),
    ];
    let ordered: Vec<char> = order_tasks(&tasks).iter().map(|t| t.1).collect();
    // Surface 1 keeps submission order; surface 2 goes by the tasks' order,
    // equal ones keeping submission order.
    assert_eq!(ordered, vec!['b', 'd', 'c', 'a', 'e']);
}
