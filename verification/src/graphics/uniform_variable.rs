//! The types of the uniform variables of a shader program.
use vstd::prelude::*;

verus! {

/// Uniform variable type.
#[derive(Debug, Copy, Clone, PartialEq, Eq, Structural)]
pub enum UniformVariableType {
    Texture,
    I32,
    F32,
    Vector2f,
    Vector3f,
    Vector4f,
    Matrix2f,
    Matrix3f,
    Matrix4f,
}

} // verus!
