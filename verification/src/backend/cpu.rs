//! The processor as a backend.

use crate::backend::kind::{
    estimate_memory, estimated_memory, labels, BackendCapabilities, BackendType, CapabilitiesView,
    MemoryInfo,
};
use vstd::prelude::*;

verus! {

/// `num_cpus::get` tells how many logical processors there are: one at least. The
/// number depends on the machine.
pub assume_specification[ num_cpus::get ]() -> (r: usize)
    ensures
        r >= 1,
;

/// The vector instructions of the processor that the program runs on.
#[derive(Debug, Clone, Copy, PartialEq, Eq, Structural)]
pub struct CpuFeatures {
    pub avx2: bool,
    pub avx512f: bool,
    pub fma: bool,
    pub neon: bool,
}

impl CpuFeatures {
    /// The names of the features, behind that of the thread pool.
    pub open spec fn spec_names(self) -> Seq<Seq<char>> {
        seq!["rayon"@] + (if self.avx2 {
            seq!["avx2"@]
        } else {
            seq![]
        }) + (if self.avx512f {
            seq!["avx512f"@]
        } else {
            seq![]
        }) + (if self.fma {
            seq!["fma"@]
        } else {
            seq![]
        }) + (if self.neon {
            seq!["neon"@]
        } else {
            seq![]
        })
    }

    /// The names of the features.
    pub fn names(&self) -> (r: Vec<&'static str>)
        ensures
            labels(r@) == self.spec_names(),
    {
        let mut features: Vec<&'static str> = Vec::new();
        features.push("rayon");
        if self.avx2 {
            features.push("avx2");
        }
        if self.avx512f {
            features.push("avx512f");
        }
        if self.fma {
            features.push("fma");
        }
        if self.neon {
            features.push("neon");
        }
        assert(labels(features@) =~= self.spec_names());
        features
    }
}

/// The operations that the processor runs.
pub open spec fn cpu_ops() -> Seq<Seq<char>> {
    seq![
        "matmul"@,
        "attention"@,
        "rms_norm"@,
        "layer_norm"@,
        "softmax"@,
        "quantize"@,
        "dequantize"@,
    ]
}

/// The processor as a backend.
#[derive(Debug)]
pub struct CpuBackend {
    available: bool,
    num_threads: usize,
}

impl CpuBackend {
    pub closed spec fn spec_available(&self) -> bool {
        self.available
    }

    pub closed spec fn threads(&self) -> usize {
        self.num_threads
    }

    pub fn new() -> (r: Self)
        ensures
            r.spec_available(),
            r.threads() >= 1,
    {
        let num_threads: usize = num_cpus::get();
        CpuBackend { available: true, num_threads }
    }

    pub fn name(&self) -> (r: &'static str)
        ensures
            r@ == "cpu-simd"@,
    {
        "cpu-simd"
    }

    pub fn backend_type(&self) -> (r: BackendType)
        ensures
            r == BackendType::CpuSimd,
    {
        BackendType::CpuSimd
    }

    pub fn is_available(&self) -> (r: bool)
        ensures
            r == self.spec_available(),
    {
        self.available
    }

    pub fn num_threads(&self) -> (r: usize)
        ensures
            r == self.threads(),
    {
        self.num_threads
    }

    pub fn memory_info(&self) -> (r: MemoryInfo)
        ensures
            r == estimated_memory(),
    {
        estimate_memory()
    }

    pub fn capabilities(&self, features: &CpuFeatures) -> (r: BackendCapabilities)
        ensures
            r@ == (CapabilitiesView {
                backend: BackendType::CpuSimd,
                available: self.spec_available(),
                features: features.spec_names(),
                supported_ops: cpu_ops(),
            }),
    {
        let mut supported_ops: Vec<&'static str> = Vec::new();
        supported_ops.push("matmul");
        supported_ops.push("attention");
        supported_ops.push("rms_norm");
        supported_ops.push("layer_norm");
        supported_ops.push("softmax");
        supported_ops.push("quantize");
        supported_ops.push("dequantize");
        assert(labels(supported_ops@) =~= cpu_ops());
        BackendCapabilities {
            backend: BackendType::CpuSimd,
            available: self.available,
            features: features.names(),
            supported_ops,
        }
    }
}

impl Default for CpuBackend {
    fn default() -> (r: Self)
        ensures
            r.spec_available(),
            r.threads() >= 1,
    {
        Self::new()
    }
}

/// A feature is named exactly where the processor has it; the thread pool always is.
pub proof fn features_are_named(f: CpuFeatures)
    ensures
        f.spec_names().contains("rayon"@),
        f.spec_names().contains("avx2"@) <==> f.avx2,
        f.spec_names().contains("avx512f"@) <==> f.avx512f,
        f.spec_names().contains("fma"@) <==> f.fma,
        f.spec_names().contains("neon"@) <==> f.neon,
{
    reveal_strlit("rayon");
    reveal_strlit("avx2");
    reveal_strlit("avx512f");
    reveal_strlit("fma");
    reveal_strlit("neon");
    assert("rayon"@.len() == 5 && "avx2"@.len() == 4 && "avx512f"@.len() == 7 && "fma"@.len() == 3);
    assert("neon"@.len() == 4 && "neon"@[0] == 'n' && "avx2"@[0] == 'a');
    let names = f.spec_names();
    let a: int = 1;
    let b: int = a + if f.avx2 {
        1int
    } else {
        0
    };
    let c: int = b + if f.avx512f {
        1int
    } else {
        0
    };
    let d: int = c + if f.fma {
        1int
    } else {
        0
    };
    assert(names[0] == "rayon"@);
    assert(f.avx2 ==> names[a] == "avx2"@);
    assert(f.avx512f ==> names[b] == "avx512f"@);
    assert(f.fma ==> names[c] == "fma"@);
    assert(f.neon ==> names[d] == "neon"@);
}

} // verus!
