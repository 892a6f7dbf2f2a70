//! The checks a shader setup passes before a shader is created, and the table
//! of its uniform variables by name hash, which draw calls are checked against.
use vstd::prelude::*;
use super::submit::declared_type;
use super::uniform_variable::UniformVariableType;
use super::vertex::{hash, name_hash};

verus! {

/// Why a shader cannot be created.
#[derive(Debug, Clone, Copy, PartialEq, Eq, Structural)]
pub enum ShaderSetupError {
    /// More uniform variables than a shader may have.
    TooManyUniformVariables,
    /// A vertex shader is required to describe a proper render pipeline.
    VertexShaderRequired,
    /// A fragment shader is required to describe a proper render pipeline.
    FragmentShaderRequired,
}

/// The outcome of the checks on a setup with `n_uniforms` uniform variables
/// and vertex and fragment shader sources of `vs_len` and `fs_len` bytes, a
/// shader having at most `max_uniforms` uniform variables.
pub open spec fn shader_setup_outcome(n_uniforms: usize, vs_len: usize, fs_len: usize, max_uniforms: usize) -> Result<
    (),
    ShaderSetupError,
> {
    if n_uniforms > max_uniforms {
        Err(ShaderSetupError::TooManyUniformVariables)
    } else if vs_len == 0 {
        Err(ShaderSetupError::VertexShaderRequired)
    } else if fs_len == 0 {
        Err(ShaderSetupError::FragmentShaderRequired)
    } else {
        Ok(())
    }
}

/// Checks a shader setup: not too many uniform variables, and both a vertex
/// and a fragment shader, in that order.
pub fn check_shader_setup(n_uniforms: usize, vs_len: usize, fs_len: usize, max_uniforms: usize) -> (r: Result<
    (),
    ShaderSetupError,
>)
    ensures
        r == shader_setup_outcome(n_uniforms, vs_len, fs_len, max_uniforms),
{
    if n_uniforms > max_uniforms {
        Err(ShaderSetupError::TooManyUniformVariables)
    } else if vs_len == 0 {
        Err(ShaderSetupError::VertexShaderRequired)
    } else if fs_len == 0 {
        Err(ShaderSetupError::FragmentShaderRequired)
    } else {
        Ok(())
    }
}

/// The type given last, among the first entries of `hashes` and `types`, to
/// a name with hash `h`.
pub open spec fn last_given(hashes: Seq<u64>, types: Seq<UniformVariableType>, h: u64) -> Option<UniformVariableType>
    decreases hashes.len(),
{
    if hashes.len() == 0 || types.len() == 0 {
        None
    } else if hashes.last() == h {
        Some(types.last())
    } else {
        last_given(hashes.drop_last(), types.drop_last(), h)
    }
}

/// No two entries of the table share a name hash.
pub open spec fn distinct_hashes(t: Seq<(u64, UniformVariableType)>) -> bool {
    forall|a: int, b: int| 0 <= a < b < t.len() ==> #[trigger] t[a].0 != #[trigger] t[b].0
}

/// The hashes of the names.
pub open spec fn name_hashes(names: Seq<&str>) -> Seq<u64> {
    Seq::new(names.len(), |i: int| name_hash(names[i]@))
}

/// In a table with distinct hashes, the type declared for `h` is that of the
/// one entry with hash `h`.
proof fn lemma_declared_distinct(t: Seq<(u64, UniformVariableType)>, h: u64)
    requires
        distinct_hashes(t),
    ensures
        forall|k: int| 0 <= k < t.len() && t[k].0 == h ==> declared_type(t, h) == Some(t[k].1),
        (forall|k: int| 0 <= k < t.len() ==> t[k].0 != h) ==> declared_type(t, h) is None,
    decreases t.len(),
{
    if t.len() > 0 {
        let rest = t.drop_first();
        assert(distinct_hashes(rest)) by {
            assert forall|a: int, b: int| 0 <= a < b < rest.len() implies #[trigger] rest[a].0 != #[trigger] rest[b].0 by {
                assert(rest[a] == t[a + 1] && rest[b] == t[b + 1]);
            }
        }
        lemma_declared_distinct(rest, h);
        assert forall|k: int| 0 <= k < t.len() && t[k].0 == h implies declared_type(t, h) == Some(t[k].1) by {
            if k > 0 {
                assert(rest[k - 1] == t[k]);
                assert(t[0].0 != t[k].0);
            }
        }
        if forall|k: int| 0 <= k < t.len() ==> t[k].0 != h {
            assert forall|k: int| 0 <= k < rest.len() implies rest[k].0 != h by {
                assert(rest[k] == t[k + 1]);
            }
        }
    }
}

/// The table of a shader's uniform variables, by the hash of their names:
/// one entry per name hash, with the type given last for it, as a map keyed
/// by the name hash keeps it.
pub fn uniform_table(names: &[&str], types: &[UniformVariableType]) -> (r: Vec<(u64, UniformVariableType)>)
    requires
        names@.len() == types@.len(),
    ensures
        distinct_hashes(r@),
        r@.len() <= names@.len(),
        forall|h: u64| #[trigger] declared_type(r@, h) == last_given(name_hashes(names@), types@, h),
{
    let mut out: Vec<(u64, UniformVariableType)> = Vec::new();
    let mut i: usize = 0;
    while i < names.len()
        invariant
            names@.len() == types@.len(),
            i <= names@.len(),
            out@.len() <= i,
            distinct_hashes(out@),
            forall|h: u64|
                #[trigger] declared_type(out@, h) == last_given(
                    name_hashes(names@).subrange(0, i as int),
                    types@.subrange(0, i as int),
                    h,
                ),
        decreases names.len() - i,
    {
        let k = hash(names[i]);
        let t = types[i];
        let ghost before = out@;
        let mut j: usize = 0;
        while j < out.len() && out[j].0 != k
            invariant
                j <= out@.len(),
                forall|a: int| 0 <= a < j ==> out@[a].0 != k,
            decreases out.len() - j,
        {
            j += 1;
        }
        if j < out.len() {
            out.set(j, (k, t));
        } else {
            out.push((k, t));
        }
        proof {
            let hs = name_hashes(names@);
            assert(hs.subrange(0, i + 1).drop_last() =~= hs.subrange(0, i as int));
            assert(types@.subrange(0, i + 1).drop_last() =~= types@.subrange(0, i as int));
            assert(hs.subrange(0, i + 1).last() == k);
            assert(types@.subrange(0, i + 1).last() == t);
            assert(distinct_hashes(out@)) by {
                assert forall|a: int, b: int| 0 <= a < b < out@.len() implies #[trigger] out@[a].0 != #[trigger] out@[b].0 by {
                    if j < before.len() {
                        if a != j && b != j {
                            assert(out@[a] == before[a] && out@[b] == before[b]);
                        } else if a == j {
                            assert(out@[b] == before[b]);
                        } else {
                            assert(out@[a] == before[a]);
                        }
                    } else {
                        if b == before.len() {
                            assert(out@[a] == before[a]);
                        } else {
                            assert(out@[a] == before[a] && out@[b] == before[b]);
                        }
                    }
                }
            }
            assert forall|h: u64| #[trigger] declared_type(out@, h) == last_given(
                hs.subrange(0, i + 1),
                types@.subrange(0, i + 1),
                h,
            ) by {
                lemma_declared_distinct(out@, h);
                lemma_declared_distinct(before, h);
                if h == k {
                    if j < before.len() {
                        assert(out@[j as int] == (k, t));
                    } else {
                        assert(out@[before.len() as int] == (k, t));
                    }
                } else {
                    assert(declared_type(before, h) == last_given(hs.subrange(0, i as int), types@.subrange(0, i as int), h));
                    if exists|a: int| 0 <= a < before.len() && before[a].0 == h {
                        let a = choose|a: int| 0 <= a < before.len() && before[a].0 == h;
                        assert(out@[a] == before[a]);
                    } else {
                        assert forall|a: int| 0 <= a < out@.len() implies out@[a].0 != h by {
                            if a < before.len() && a != j {
                                assert(out@[a] == before[a]);
                            }
                        }
                    }
                }
            }
        }
        i += 1;
    }
    proof {
        assert(name_hashes(names@).subrange(0, names@.len() as int) =~= name_hashes(names@));
        assert(types@.subrange(0, types@.len() as int) =~= types@);
    }
    out
}

/// A setup passes exactly when it has no more uniform variables than a
/// shader may have and both a vertex and a fragment shader.
pub proof fn law_shader_setup_passes(n_uniforms: usize, vs_len: usize, fs_len: usize, max_uniforms: usize)
    ensures
        shader_setup_outcome(n_uniforms, vs_len, fs_len, max_uniforms) is Ok <==> n_uniforms <= max_uniforms && vs_len
            > 0 && fs_len > 0,
        n_uniforms > max_uniforms ==> shader_setup_outcome(n_uniforms, vs_len, fs_len, max_uniforms) == Err::<
            (),
            ShaderSetupError,
        >(ShaderSetupError::TooManyUniformVariables),
{
}

/// The type a table keeps for a name is the type given to it last: it was
/// given at some place, and no later place gives the name again; a name never
/// given has no type.
pub proof fn law_last_given_wins(hashes: Seq<u64>, types: Seq<UniformVariableType>, h: u64)
    requires
        hashes.len() == types.len(),
    ensures
        last_given(hashes, types, h) matches Some(t) ==> exists|i: int|
            0 <= i < hashes.len() && hashes[i] == h && types[i] == t && forall|j: int|
                i < j < hashes.len() ==> hashes[j] != h,
        last_given(hashes, types, h) is None ==> forall|i: int| 0 <= i < hashes.len() ==> hashes[i] != h,
    decreases hashes.len(),
{
    if hashes.len() > 0 {
        let n = hashes.len() - 1;
        law_last_given_wins(hashes.drop_last(), types.drop_last(), h);
        if hashes.last() == h {
            assert(hashes[n] == h && types[n] == types.last());
        } else {
            if let Some(t) = last_given(hashes, types, h) {
                let i = choose|i: int|
                    0 <= i < hashes.drop_last().len() && hashes.drop_last()[i] == h && types.drop_last()[i] == t
                        && forall|j: int| i < j < hashes.drop_last().len() ==> hashes.drop_last()[j] != h;
                assert(hashes[i] == h && types[i] == t);
                assert forall|j: int| i < j < hashes.len() implies hashes[j] != h by {
                    if j < n {
                        assert(hashes.drop_last()[j] == hashes[j]);
                    }
                }
            } else {
                assert forall|i: int| 0 <= i < hashes.len() implies hashes[i] != h by {
                    if i < n {
                        assert(hashes.drop_last()[i] == hashes[i]);
                    }
                }
            }
        }
    }
}

} // verus!
