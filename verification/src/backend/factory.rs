//! Which backend is used.

use crate::backend::cpu::{cpu_ops, CpuBackend, CpuFeatures};
use crate::backend::kind::{estimated_memory, BackendCapabilities, BackendType, CapabilitiesView};
use crate::backend::metal::MetalBackend;
use vstd::prelude::*;

verus! {

/// Chooses among the backends.
pub struct BackendFactory;

/// The backend that runs where one is asked for, and what is said where it is another:
/// only the processor is always there, and Metal in a build that has it.
pub open spec fn chosen(wanted: BackendType, metal_built: bool) -> (BackendType, Option<Seq<char>>) {
    match wanted {
        BackendType::CpuSimd => (BackendType::CpuSimd, None),
        BackendType::Metal => if metal_built {
            (BackendType::Metal, None)
        } else {
            (
                BackendType::CpuSimd,
                Some("Metal backend not compiled in. Use --features metal"@),
            )
        },
        BackendType::Cuda | BackendType::Vulkan | BackendType::WebGpu => (
            BackendType::CpuSimd,
            Some(
                wanted.spec_name()
                    + " backend is not implemented in this build; falling back to CPU"@,
            ),
        ),
    }
}

/// What a backend that no build has can do.
pub open spec fn no_capabilities(backend: BackendType) -> CapabilitiesView {
    CapabilitiesView { backend, available: false, features: seq![], supported_ops: seq![] }
}

/// The capabilities in a list, as values.
pub open spec fn capability_views(v: Seq<BackendCapabilities>) -> Seq<CapabilitiesView> {
    Seq::new(v.len(), |i: int| v[i]@)
}

impl BackendFactory {
    /// The backend that runs where one is asked for, or the one that suits the
    /// platform, and what is to be said where it is another.
    pub fn create(
        backend_type: Option<BackendType>,
        apple_silicon: bool,
        metal_built: bool,
    ) -> (r: (BackendType, Option<String>))
        ensures
            ({
                let wanted = match backend_type {
                    Some(b) => b,
                    None => BackendType::detected(apple_silicon),
                };
                let (backend, said) = chosen(wanted, metal_built);
                &&& r.0 == backend
                &&& match r.1 {
                    Some(m) => said == Some(m@),
                    None => said is None,
                }
            }),
    {
        let wanted = match backend_type {
            Some(b) => b,
            None => BackendType::detect(apple_silicon),
        };
        match wanted {
            BackendType::CpuSimd => (BackendType::CpuSimd, None),
            BackendType::Metal => {
                if metal_built {
                    (BackendType::Metal, None)
                } else {
                    (
                        BackendType::CpuSimd,
                        Some("Metal backend not compiled in. Use --features metal".to_string()),
                    )
                }
            },
            BackendType::Cuda | BackendType::Vulkan | BackendType::WebGpu => {
                let mut said = wanted.name().to_string();
                said.append(" backend is not implemented in this build; falling back to CPU");
                (BackendType::CpuSimd, Some(said))
            },
        }
    }

    /// The backend that suits the platform.
    pub fn auto(apple_silicon: bool, metal_built: bool) -> (r: (BackendType, Option<String>))
        ensures
            ({
                let (backend, said) = chosen(BackendType::detected(apple_silicon), metal_built);
                &&& r.0 == backend
                &&& match r.1 {
                    Some(m) => said == Some(m@),
                    None => said is None,
                }
            }),
    {
        Self::create(None, apple_silicon, metal_built)
    }

    /// What each backend can do.
    pub fn available_backends(features: &CpuFeatures) -> (r: Vec<BackendCapabilities>)
        ensures
            capability_views(r@) == seq![
                CapabilitiesView {
                    backend: BackendType::CpuSimd,
                    available: true,
                    features: features.spec_names(),
                    supported_ops: cpu_ops(),
                },
                MetalBackend::spec_capabilities(false),
                no_capabilities(BackendType::Cuda),
                no_capabilities(BackendType::Vulkan),
                no_capabilities(BackendType::WebGpu),
            ],
    {
        let mut out: Vec<BackendCapabilities> = Vec::new();
        out.push(CpuBackend::new().capabilities(features));
        out.push(MetalBackend::new().capabilities());
        out.push(Self::unavailable_capability(BackendType::Cuda));
        out.push(Self::unavailable_capability(BackendType::Vulkan));
        out.push(Self::unavailable_capability(BackendType::WebGpu));
        assert(capability_views(out@) =~= seq![
            CapabilitiesView {
                backend: BackendType::CpuSimd,
                available: true,
                features: features.spec_names(),
                supported_ops: cpu_ops(),
            },
            MetalBackend::spec_capabilities(false),
            no_capabilities(BackendType::Cuda),
            no_capabilities(BackendType::Vulkan),
            no_capabilities(BackendType::WebGpu),
        ]);
        out
    }

    fn unavailable_capability(backend: BackendType) -> (r: BackendCapabilities)
        ensures
            r@ == no_capabilities(backend),
    {
        let r = BackendCapabilities {
            backend,
            available: false,
            features: Vec::new(),
            supported_ops: Vec::new(),
        };
        assert(r@ =~= no_capabilities(backend));
        r
    }
}

/// What runs is what was asked for, wherever that can run, and the processor otherwise.
/// Something is said exactly where it is not what was asked for.
pub proof fn wanted_backends_run(wanted: BackendType, metal_built: bool)
    ensures
        ({
            let (backend, said) = chosen(wanted, metal_built);
            &&& backend == wanted || backend == BackendType::CpuSimd
            &&& wanted is CpuSimd || (wanted is Metal && metal_built) <==> backend == wanted
            &&& said is Some <==> backend != wanted
            &&& wanted is Cuda || wanted is Vulkan || wanted is WebGpu ==> (said matches Some(t)
                && t.len() > wanted.spec_name().len() && t.take(wanted.spec_name().len() as int)
                == wanted.spec_name())
        }),
{
    reveal_strlit(" backend is not implemented in this build; falling back to CPU");
    match chosen(wanted, metal_built).1 {
        Some(t) => {
            if !(wanted is Metal) {
                assert(t.take(wanted.spec_name().len() as int) =~= wanted.spec_name());
            }
        },
        None => {},
    }
}

/// Of the memory that is taken for granted a half is free, and a quarter is in use.
pub proof fn half_of_the_memory_is_free()
    ensures
        estimated_memory().free_memory == estimated_memory().total_memory / 2,
        estimated_memory().used_memory == estimated_memory().free_memory / 2,
{
}

/// A backend that cannot run says so, and does nothing.
pub proof fn missing_backends_do_nothing(b: BackendType)
    ensures
        no_capabilities(b).backend == b,
        !no_capabilities(b).available,
        no_capabilities(b).supported_ops.len() == 0,
        !MetalBackend::spec_capabilities(false).available,
        MetalBackend::spec_capabilities(false).supported_ops.len() == 0,
        MetalBackend::spec_capabilities(true).available,
        MetalBackend::spec_capabilities(true).supported_ops.len() > 0,
{
}

} // verus!
