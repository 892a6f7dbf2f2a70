use crayon::graphics::pipeline::{AttributeBinding, AttributeBindingError, AttributeLayoutBuilder};
use crayon::graphics::resource::{
    CustomVertexLayoutBuilder, VertexAttribute, VertexFormat, VertexLayout,
};
use crayon::graphics::frame::TaskBuffer;
use crayon::graphics::vertex;
use crayon::graphics::vertex::VertexAttributeFormat;
use crayon::graphics::vertex::{hash, VertexBinding, VertexBindingError};

/// A vertex of a position and a texture coordinate, laid out in declaration
/// order: the position at byte 0, the coordinate at byte 12.
#[derive(Debug, Copy, Clone)]
struct Vertex {
    position: [f32; 3],
    texcoord: [f32; 2],
}

impl Vertex {
    fn new(position: [f32; 3], texcoord: [f32; 2]) -> Self {
        Vertex { position, texcoord }
    }

    fn layout() -> VertexLayout {
        let mut builder = CustomVertexLayoutBuilder::new();
        builder.with(VertexAttribute::Position, VertexFormat::Float, 3, false, 0);
        builder.with(VertexAttribute::Texcoord0, VertexFormat::Float, 2, false, 12);
        builder.finish(std::mem::size_of::<Vertex>() as u8)
    }

    fn as_bytes(values: &[Self]) -> Vec<u8> {
        let mut out = Vec::new();
        for v in values {
            for c in v.position.iter().chain(v.texcoord.iter()) {
                out.extend_from_slice(&c.to_ne_bytes());
            }
        }
        out
    }
}

/// A vertex of a position, a color and a texture coordinate: the position at
/// byte 0, the color at byte 8, the coordinate at byte 12.
#[derive(Debug, Copy, Clone)]
struct Vertex2 {
    position: [f32; 2],
    color: [u8; 4],
    texcoord: [i8; 2],
}

impl Vertex2 {
    fn new(position: [f32; 2], color: [u8; 4], texcoord: [i8; 2]) -> Self {
        Vertex2 { position, color, texcoord }
    }

    fn layout() -> VertexLayout {
        let mut builder = CustomVertexLayoutBuilder::new();
        builder.with(VertexAttribute::Position, VertexFormat::Float, 2, false, 0);
        builder.with(VertexAttribute::Color0, VertexFormat::UByte, 4, true, 8);
        builder.with(VertexAttribute::Texcoord0, VertexFormat::Byte, 2, false, 12);
        builder.finish(std::mem::size_of::<Vertex2>() as u8)
    }

    fn as_bytes(values: &[Self]) -> Vec<u8> {
        let mut out = Vec::new();
        for v in values {
            for c in v.position.iter() {
                out.extend_from_slice(&c.to_ne_bytes());
            }
            out.extend_from_slice(&v.color);
            for c in v.texcoord.iter() {
                out.extend_from_slice(&c.to_ne_bytes());
            }
            out.extend_from_slice(&[0, 0]);
        }
        out
    }
}

fn floats_as_bytes(values: &[f32]) -> Vec<u8> {
    let mut out = Vec::new();
    for v in values {
        out.extend_from_slice(&v.to_ne_bytes());
    }
    out
}

#[test]
fn macros_basic() {
    let layout = Vertex::layout();
    assert_eq!(layout.stride(), 20);
    assert_eq!(layout.offset(VertexAttribute::Position), Some(0));
    assert_eq!(layout.offset(VertexAttribute::Texcoord0), Some(12));
    assert_eq!(layout.offset(VertexAttribute::Normal), None);

    // The vertices are recorded into a task buffer and read back there, laid
    // out as the layout says.
    let mut buf = TaskBuffer::with_capacity(64);
    let bytes: [f32; 5] = [1.0, 1.0, 1.0, 0.0, 0.0];
    let bytes = floats_as_bytes(&bytes);
    let p = buf.extend_from_slice(&Vertex::as_bytes(&[Vertex::new([1.0, 1.0, 1.0], [0.0, 0.0])]));
    assert_eq!(buf.as_bytes(p), &bytes[..]);
    assert_eq!(buf.as_bytes(p).len(), layout.stride() as usize);

    let bytes: [f32; 10] = [1.0, 1.0, 1.0, 0.0, 0.0, 2.0, 2.0, 2.0, 3.0, 3.0];
    let bytes = floats_as_bytes(&bytes);
    let q = buf.extend_from_slice(&Vertex::as_bytes(&[
        Vertex::new([1.0, 1.0, 1.0], [0.0, 0.0]),
        Vertex::new([2.0, 2.0, 2.0], [3.0, 3.0]),
    ]));
    assert_eq!(buf.as_bytes(q), &bytes[..]);
    let stride = layout.stride() as usize;
    let tex = layout.offset(VertexAttribute::Texcoord0).unwrap() as usize;
    assert_eq!(&buf.as_bytes(q)[stride + tex..stride + tex + 4], &3.0f32.to_ne_bytes());
    assert_eq!(buf.as_bytes(p), &floats_as_bytes(&[1.0, 1.0, 1.0, 0.0, 0.0])[..]);
}

#[test]
fn representation() {
    let layout = Vertex::layout();
    assert_eq!(layout.stride() as usize, std::mem::size_of::<Vertex>());

    let layout = Vertex2::layout();
    let v = Vertex2::new([1.0, 1.0], [0, 0, 0, 0], [0, 0]);
    let b = Vertex2::as_bytes(&[v]);
    assert_eq!(layout.stride() as usize, std::mem::size_of::<Vertex2>());
    assert_eq!(b.len(), layout.stride() as usize);
    assert_eq!(layout.offset(VertexAttribute::Color0), Some(8));
    let mut buf = TaskBuffer::with_capacity(16);
    let p = buf.extend_from_slice(&b);
    assert_eq!(buf.as_bytes(p).len(), std::mem::size_of::<Vertex2>());
    assert!(Vertex2::as_bytes(&[]).is_empty());
}

#[test]
fn resource_basic() {
    let layout = VertexLayout::build()
        .with(VertexAttribute::Position, VertexFormat::Float, 3, true)
        .with(VertexAttribute::Texcoord0, VertexFormat::Float, 2, true)
        .finish();

    assert_eq!(layout.stride(), 20);
    assert_eq!(layout.offset(VertexAttribute::Position), Some(0));
    assert_eq!(layout.offset(VertexAttribute::Texcoord0), Some(12));
    assert_eq!(layout.offset(VertexAttribute::Normal), None);

    let element = layout.element(VertexAttribute::Position).unwrap();
    assert_eq!(element.format, VertexFormat::Float);
    assert_eq!(element.size, 3);
    assert_eq!(element.normalized, true);
    assert_eq!(layout.element(VertexAttribute::Normal), None);
}

#[test]
fn resource_rewrite() {
    let layout = VertexLayout::build()
        .with(VertexAttribute::Position, VertexFormat::Fixed, 1, false)
        .with(VertexAttribute::Texcoord0, VertexFormat::Float, 2, true)
        .with(VertexAttribute::Position, VertexFormat::Float, 3, true)
        .finish();

    assert_eq!(layout.stride(), 20);
    assert_eq!(layout.offset(VertexAttribute::Position), Some(0));
    assert_eq!(layout.offset(VertexAttribute::Texcoord0), Some(12));
    assert_eq!(layout.offset(VertexAttribute::Normal), None);

    let element = layout.element(VertexAttribute::Position).unwrap();
    assert_eq!(element.format, VertexFormat::Float);
    assert_eq!(element.size, 3);
    assert_eq!(element.normalized, true);
    assert_eq!(layout.element(VertexAttribute::Normal), None);
}

#[test]
fn vertex_basic() {
    let layout = vertex::VertexLayout::build()
        .set("Position", VertexAttributeFormat::Float, 3, true)
        .set("Texcoord", VertexAttributeFormat::Float, 2, true)
        .finish();

    assert_eq!(layout.stride(), 20);
    assert_eq!(layout.offset("Position"), Some(0));
    assert_eq!(layout.offset("Texcoord"), Some(12));
    assert_eq!(layout.offset("Normal"), None);

    let element = layout.element("Position").unwrap();
    assert_eq!(element.format, VertexAttributeFormat::Float);
    assert_eq!(element.size, 3);
    assert_eq!(element.normalized, true);
    assert_eq!(layout.element("Normal"), None);
}

#[test]
fn vertex_rewrite() {
    let layout = vertex::VertexLayout::build()
        .set("Position", VertexAttributeFormat::Fixed, 1, false)
        .set("Texcoord", VertexAttributeFormat::Float, 2, true)
        .set("Position", VertexAttributeFormat::Float, 3, true)
        .finish();

    assert_eq!(layout.stride(), 20);
    assert_eq!(layout.offset("Position"), Some(0));
    assert_eq!(layout.offset("Texcoord"), Some(12));
    assert_eq!(layout.offset("Normal"), None);

    let element = layout.element("Position").unwrap();
    assert_eq!(element.format, VertexAttributeFormat::Float);
    assert_eq!(element.size, 3);
    assert_eq!(element.normalized, true);
    assert_eq!(layout.element("Normal"), None);
}

#[test]
fn vertex_names_are_hashed() {
    // The hash depends on the name alone and tells names apart.
    assert_eq!(vertex::hash("Position"), vertex::hash("Position"));
    assert_ne!(vertex::hash("Position"), vertex::hash("Texcoord"));
    let layout = vertex::VertexLayout::build()
        .set("Normal", VertexAttributeFormat::Short, 4, false)
        .finish();
    assert_eq!(layout.element("Normal").unwrap().name, vertex::hash("Normal"));
    assert_eq!(layout.stride(), 8);
}

#[test]
fn custom_layout_rewrite_keeps_slot() {
    let mut builder = CustomVertexLayoutBuilder::new();
    builder.with(VertexAttribute::Normal, VertexFormat::Float, 3, false, 4);
    builder.with(VertexAttribute::Color0, VertexFormat::UByte, 4, true, 16);
    builder.with(VertexAttribute::Normal, VertexFormat::Short, 2, false, 0);
    let layout = builder.finish(24);
    assert_eq!(layout.len(), 2);
    assert_eq!(layout.stride(), 24);
    assert_eq!(layout.offset(VertexAttribute::Normal), Some(0));
    assert_eq!(layout.offset(VertexAttribute::Color0), Some(16));
    assert_eq!(layout.element(VertexAttribute::Normal).unwrap().format, VertexFormat::Short);
}

#[test]
fn attribute_bindings_follow_the_program() {
    let layout = VertexLayout::build()
        .with(VertexAttribute::Position, VertexFormat::Float, 3, false)
        .with(VertexAttribute::Texcoord0, VertexFormat::UShort, 2, true)
        .finish();
    let attributes = AttributeLayoutBuilder::new()
        .with(VertexAttribute::Texcoord0, 2)
        .with(VertexAttribute::Position, 3)
        .finish();
    let bindings = attributes.bindings(&layout).unwrap();
    assert_eq!(
        bindings,
        vec![
            AttributeBinding {
                attribute: VertexAttribute::Texcoord0,
                size: 2,
                format: VertexFormat::UShort,
                normalized: true,
                stride: 16,
                offset: 12,
            },
            AttributeBinding {
                attribute: VertexAttribute::Position,
                size: 3,
                format: VertexFormat::Float,
                normalized: false,
                stride: 16,
                offset: 0,
            },
        ]
    );
}

#[test]
fn attribute_bindings_report_the_first_failure() {
    let layout = VertexLayout::build()
        .with(VertexAttribute::Position, VertexFormat::Float, 3, false)
        .finish();

    let missing = AttributeLayoutBuilder::new()
        .with(VertexAttribute::Position, 3)
        .with(VertexAttribute::Normal, 3)
        .finish();
    assert_eq!(missing.bindings(&layout), Err(AttributeBindingError::Missing(VertexAttribute::Normal)));

    let wrong = AttributeLayoutBuilder::new()
        .with(VertexAttribute::Position, 4)
        .with(VertexAttribute::Normal, 3)
        .finish();
    assert_eq!(
        wrong.bindings(&layout),
        Err(AttributeBindingError::Incompatible { attribute: VertexAttribute::Position, required: 4, found: 3 })
    );
}

#[test]
fn vertex_layout_refuses_one_element_too_many() {
    let mut builder = vertex::VertexLayout::build();
    for i in 0..vertex::MAX_VERTEX_ATTRIBUTES {
        assert!(builder.try_set(&format!("Element_{}", i), VertexAttributeFormat::Byte, 1, true));
    }
    let last = format!("Element_{}", vertex::MAX_VERTEX_ATTRIBUTES);
    assert!(!builder.try_set(&last, VertexAttributeFormat::Byte, 1, true));
    // Setting a name already present still succeeds when the table is full.
    assert!(builder.try_set("Element_0", VertexAttributeFormat::Float, 2, false));
    let layout = builder.finish();
    assert_eq!(layout.stride(), 8 + (vertex::MAX_VERTEX_ATTRIBUTES as u32 - 1));
    assert_eq!(layout.offset(&last), None);
}

#[test]
fn empty_layout_has_zero_offsets_and_stride() {
    let layout = VertexLayout::build().finish();
    assert_eq!(layout.stride(), 0);
    assert_eq!(layout.len(), 0);
    // No slot is used, so no attribute is found.
    assert_eq!(layout.offset(VertexAttribute::Position), None);
    assert_eq!(layout.element(VertexAttribute::Position), None);
    assert_eq!(layout.offset(VertexAttribute::Normal), None);
    assert_eq!(layout, VertexLayout::build().finish());
}

#[test]
fn pipeline_attributes_bind_by_name_format_and_size() {
    let layout = vertex::VertexLayout::build()
        .set("Position", VertexAttributeFormat::Float, 3, true)
        .set("Texcoord", VertexAttributeFormat::Float, 2, true)
        .finish();
    let attr = |name: &str, format, size| vertex::VertexAttribute { name: hash(name), format, size, normalized: false };
    let texcoord = layout.element("Texcoord").unwrap();
    assert_eq!(
        layout.bind_attributes(&[(1, attr("Texcoord", VertexAttributeFormat::Float, 2))]),
        Ok(vec![VertexBinding { location: 1, element: texcoord, stride: 20, offset: 12 }])
    );
    assert_eq!(
        layout.bind_attributes(&[(0, attr("Normal", VertexAttributeFormat::Float, 3))]),
        Err(VertexBindingError::Missing(hash("Normal")))
    );
    let position = layout.element("Position").unwrap();
    assert_eq!(
        layout.bind_attributes(&[
            (1, attr("Texcoord", VertexAttributeFormat::Float, 2)),
            (0, attr("Position", VertexAttributeFormat::Float, 2)),
        ]),
        Err(VertexBindingError::Mismatch { required: attr("Position", VertexAttributeFormat::Float, 2), found: position })
    );
}
