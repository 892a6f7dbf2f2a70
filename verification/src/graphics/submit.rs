//! The checks a draw call passes before it is recorded into a frame: its
//! surface is alive, its mesh and shader are known and loaded, and every
//! uniform variable it sets is one the shader declares, with the declared type.
use vstd::prelude::*;
use super::assets::AssetState;
use super::handles::{MeshHandle, ShaderHandle, SurfaceHandle};
use super::uniform_variable::UniformVariableType;

verus! {

/// Why a draw call was refused.
#[derive(Debug, Clone, Copy, PartialEq, Eq, Structural)]
pub enum DrawCallError {
    SurfaceHandleInvalid(SurfaceHandle),
    MeshHandleInvalid(MeshHandle),
    ShaderHandleInvalid(ShaderHandle),
    /// The shader declares no uniform variable of this name (by hash).
    UndefinedUniform(u64),
    /// The value set for the uniform variable `name` has type `given`, where
    /// the shader declares `required`.
    UnmatchedUniform { name: u64, given: UniformVariableType, required: UniformVariableType },
}

/// What becomes of a draw call that passed the checks.
#[derive(Debug, Clone, Copy, PartialEq, Eq, Structural)]
pub enum DrawCallOutcome {
    /// It is recorded into the frame.
    Submitted,
    /// It is dropped: its mesh or its shader is not loaded yet.
    Skipped,
}

/// The type the shader declares for the uniform variable `name`: that of its
/// first declaration of the name.
pub open spec fn declared_type(vars: Seq<(u64, UniformVariableType)>, name: u64) -> Option<UniformVariableType>
    decreases vars.len(),
{
    if vars.len() == 0 {
        None
    } else if vars[0].0 == name {
        Some(vars[0].1)
    } else {
        declared_type(vars.drop_first(), name)
    }
}

/// The error of the first uniform variable of `uniforms` that the shader
/// declaring `vars` does not accept.
pub open spec fn uniform_error(vars: Seq<(u64, UniformVariableType)>, uniforms: Seq<(u64, UniformVariableType)>) -> Option<
    DrawCallError,
>
    decreases uniforms.len(),
{
    if uniforms.len() == 0 {
        None
    } else {
        let name = uniforms[0].0;
        let given = uniforms[0].1;
        match declared_type(vars, name) {
            None => Some(DrawCallError::UndefinedUniform(name)),
            Some(required) => if required != given {
                Some(DrawCallError::UnmatchedUniform { name, given, required })
            } else {
                uniform_error(vars, uniforms.drop_first())
            },
        }
    }
}

/// The outcome of a draw call on `surface` with `mesh` and `shader`, given
/// whether the surface is alive and the states that the mesh and shader
/// handles name (`None` for a handle that names nothing), and the uniform
/// variables it sets, by name hash and type.
pub open spec fn drawcall_outcome<M>(
    surface: SurfaceHandle,
    surface_alive: bool,
    mesh: MeshHandle,
    mesh_state: Option<AssetState<M>>,
    shader: ShaderHandle,
    shader_state: Option<AssetState<Vec<(u64, UniformVariableType)>>>,
    uniforms: Seq<(u64, UniformVariableType)>,
) -> Result<DrawCallOutcome, DrawCallError> {
    if !surface_alive {
        Err(DrawCallError::SurfaceHandleInvalid(surface))
    } else {
        match mesh_state {
            None => Err(DrawCallError::MeshHandleInvalid(mesh)),
            Some(m) => if !(m is Ready) {
                Ok(DrawCallOutcome::Skipped)
            } else {
                match shader_state {
                    None => Err(DrawCallError::ShaderHandleInvalid(shader)),
                    Some(AssetState::Ready(vars)) => match uniform_error((*vars)@, uniforms) {
                        Some(e) => Err(e),
                        None => Ok(DrawCallOutcome::Submitted),
                    },
                    Some(_) => Ok(DrawCallOutcome::Skipped),
                }
            },
        }
    }
}

/// The type the shader declares for the uniform variable `name`.
fn lookup_declared(vars: &Vec<(u64, UniformVariableType)>, name: u64) -> (r: Option<UniformVariableType>)
    ensures
        r == declared_type(vars@, name),
{
    let mut i: usize = 0;
    assert(vars@.subrange(0, vars@.len() as int) =~= vars@);
    while i < vars.len()
        invariant
            i <= vars@.len(),
            declared_type(vars@, name) == declared_type(vars@.subrange(i as int, vars@.len() as int), name),
        decreases vars.len() - i,
    {
        let ghost rest = vars@.subrange(i as int, vars@.len() as int);
        assert(rest[0] == vars@[i as int]);
        assert(rest.drop_first() =~= vars@.subrange(i + 1, vars@.len() as int));
        if vars[i].0 == name {
            return Some(vars[i].1);
        }
        i += 1;
    }
    None
}

/// The error of the first uniform variable of `uniforms` that the shader
/// declaring `vars` does not accept, if any.
fn first_uniform_error(vars: &Vec<(u64, UniformVariableType)>, uniforms: &[(u64, UniformVariableType)]) -> (r: Option<
    DrawCallError,
>)
    ensures
        r == uniform_error(vars@, uniforms@),
{
    let mut k: usize = 0;
    assert(uniforms@.subrange(0, uniforms@.len() as int) =~= uniforms@);
    while k < uniforms.len()
        invariant
            k <= uniforms@.len(),
            uniform_error(vars@, uniforms@) == uniform_error(vars@, uniforms@.subrange(k as int, uniforms@.len() as int)),
        decreases uniforms.len() - k,
    {
        let ghost rest = uniforms@.subrange(k as int, uniforms@.len() as int);
        assert(rest[0] == uniforms@[k as int]);
        assert(rest.drop_first() =~= uniforms@.subrange(k + 1, uniforms@.len() as int));
        let (name, given) = uniforms[k];
        match lookup_declared(vars, name) {
            None => {
                return Some(DrawCallError::UndefinedUniform(name));
            },
            Some(required) => {
                if required != given {
                    return Some(DrawCallError::UnmatchedUniform { name, given, required });
                }
            },
        }
        k += 1;
    }
    None
}

/// Checks a draw call as `drawcall_outcome` says: the surface must be alive
/// and the mesh and shader handles must name something; a mesh or shader not
/// loaded yet drops the call; otherwise every uniform variable set must be
/// declared by the shader with the type given, the first one that is not
/// being the error.
pub fn check_drawcall<M>(
    surface: SurfaceHandle,
    surface_alive: bool,
    mesh: MeshHandle,
    mesh_state: Option<&AssetState<M>>,
    shader: ShaderHandle,
    shader_state: Option<&AssetState<Vec<(u64, UniformVariableType)>>>,
    uniforms: &[(u64, UniformVariableType)],
) -> (r: Result<DrawCallOutcome, DrawCallError>)
    ensures
        r == drawcall_outcome(
            surface,
            surface_alive,
            mesh,
            match mesh_state {
                Some(m) => Some(*m),
                None => None,
            },
            shader,
            match shader_state {
                Some(s) => Some(*s),
                None => None,
            },
            uniforms@,
        ),
{
    if !surface_alive {
        return Err(DrawCallError::SurfaceHandleInvalid(surface));
    }
    match mesh_state {
        None => {
            return Err(DrawCallError::MeshHandleInvalid(mesh));
        },
        Some(m) => {
            if !m.is_ready() {
                return Ok(DrawCallOutcome::Skipped);
            }
        },
    }
    let vars: &Vec<(u64, UniformVariableType)> = match shader_state {
        None => {
            return Err(DrawCallError::ShaderHandleInvalid(shader));
        },
        Some(AssetState::Ready(a)) => &**a,
        Some(_) => {
            return Ok(DrawCallOutcome::Skipped);
        },
    };
    match first_uniform_error(vars, uniforms) {
        Some(e) => Err(e),
        None => Ok(DrawCallOutcome::Submitted),
    }
}

/// The first declaration of a name gives its type.
proof fn lemma_declared_first(vars: Seq<(u64, UniformVariableType)>, name: u64)
    ensures
        declared_type(vars, name) matches Some(t) ==> exists|i: int|
            0 <= i < vars.len() && vars[i] == (name, t) && forall|j: int| 0 <= j < i ==> vars[j].0 != name,
        declared_type(vars, name) is None ==> forall|i: int| 0 <= i < vars.len() ==> vars[i].0 != name,
    decreases vars.len(),
{
    if vars.len() > 0 {
        let rest = vars.drop_first();
        lemma_declared_first(rest, name);
        if vars[0].0 != name {
            if let Some(t) = declared_type(vars, name) {
                let i = choose|i: int|
                    0 <= i < rest.len() && rest[i] == (name, t) && forall|j: int| 0 <= j < i ==> rest[j].0 != name;
                assert(vars[i + 1] == (name, t));
                assert forall|j: int| 0 <= j < i + 1 implies vars[j].0 != name by {
                    if j > 0 {
                        assert(vars[j] == rest[j - 1]);
                    }
                }
            } else {
                assert forall|i: int| 0 <= i < vars.len() implies vars[i].0 != name by {
                    if i > 0 {
                        assert(vars[i] == rest[i - 1]);
                    }
                }
            }
        }
    }
}

/// With no uniform error, every uniform variable set is declared by the
/// shader with the type it is given.
proof fn lemma_no_uniform_error(vars: Seq<(u64, UniformVariableType)>, uniforms: Seq<(u64, UniformVariableType)>)
    requires
        uniform_error(vars, uniforms) is None,
    ensures
        forall|k: int| 0 <= k < uniforms.len() ==> declared_type(vars, (#[trigger] uniforms[k]).0) == Some(uniforms[k].1),
    decreases uniforms.len(),
{
    if uniforms.len() > 0 {
        lemma_no_uniform_error(vars, uniforms.drop_first());
        assert forall|k: int| 0 <= k < uniforms.len() implies declared_type(vars, (#[trigger] uniforms[k]).0) == Some(
            uniforms[k].1,
        ) by {
            if k > 0 {
                assert(uniforms[k] == uniforms.drop_first()[k - 1]);
            }
        }
    }
}

/// A draw call on a surface that is not alive is refused, whatever else it
/// names; one whose mesh is known but not loaded is dropped, whatever its
/// shader; and one that is recorded has a loaded mesh and shader, and sets
/// only uniform variables that the shader declares, each with the declared
/// type, the first declaration of a name being the one that counts.
pub proof fn law_drawcall_checks<M>(
    surface: SurfaceHandle,
    surface_alive: bool,
    mesh: MeshHandle,
    mesh_state: Option<AssetState<M>>,
    shader: ShaderHandle,
    shader_state: Option<AssetState<Vec<(u64, UniformVariableType)>>>,
    uniforms: Seq<(u64, UniformVariableType)>,
)
    ensures
        !surface_alive ==> drawcall_outcome(surface, surface_alive, mesh, mesh_state, shader, shader_state, uniforms)
            == Err::<DrawCallOutcome, DrawCallError>(DrawCallError::SurfaceHandleInvalid(surface)),
        surface_alive && mesh_state is None ==> drawcall_outcome(
            surface,
            surface_alive,
            mesh,
            mesh_state,
            shader,
            shader_state,
            uniforms,
        ) == Err::<DrawCallOutcome, DrawCallError>(DrawCallError::MeshHandleInvalid(mesh)),
        surface_alive && (mesh_state matches Some(m) && !(m is Ready)) ==> drawcall_outcome(
            surface,
            surface_alive,
            mesh,
            mesh_state,
            shader,
            shader_state,
            uniforms,
        ) == Ok::<DrawCallOutcome, DrawCallError>(DrawCallOutcome::Skipped),
        drawcall_outcome(surface, surface_alive, mesh, mesh_state, shader, shader_state, uniforms) == Ok::<
            DrawCallOutcome,
            DrawCallError,
        >(DrawCallOutcome::Submitted) ==> {
            &&& surface_alive
            &&& mesh_state matches Some(m) && m is Ready
            &&& shader_state matches Some(AssetState::Ready(vars)) && forall|k: int|
                0 <= k < uniforms.len() ==> exists|i: int|
                    0 <= i < (*vars)@.len() && (*vars)@[i] == (#[trigger] uniforms[k]) && forall|j: int|
                        0 <= j < i ==> (*vars)@[j].0 != uniforms[k].0
        },
{
    if drawcall_outcome(surface, surface_alive, mesh, mesh_state, shader, shader_state, uniforms) == Ok::<
        DrawCallOutcome,
        DrawCallError,
    >(DrawCallOutcome::Submitted) {
        if let Some(AssetState::Ready(vars)) = shader_state {
            lemma_no_uniform_error((*vars)@, uniforms);
            assert forall|k: int| 0 <= k < uniforms.len() implies exists|i: int|
                0 <= i < (*vars)@.len() && (*vars)@[i] == (#[trigger] uniforms[k]) && forall|j: int|
                    0 <= j < i ==> (*vars)@[j].0 != uniforms[k].0 by {
                lemma_declared_first((*vars)@, uniforms[k].0);
            }
        }
    }
}

} // verus!
