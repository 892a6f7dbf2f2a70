//! Descriptions of render resources: vertex layouts, pipeline states, surfaces
//! and the byte buffer that frame tasks are recorded into.
pub mod resource;
pub mod vertex;
pub mod pipeline;
pub mod handles;
pub mod view;
pub mod surface;
pub mod rect;
pub mod labels;
pub mod handled;
pub mod assets;
pub mod uniform_variable;
pub mod frame;
pub mod command;
pub mod submit;
pub mod shader;
pub mod order;
