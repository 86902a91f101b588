//! Kinds of hardware and what is known of a device.

use vstd::prelude::*;

verus! {

/// A kind of hardware.
#[derive(Debug, Clone, Copy, PartialEq, Eq, Structural)]
pub enum BackendType {
    /// The processor, with vector instructions.
    CpuSimd,
    /// Apple's Metal.
    Metal,
    /// NVIDIA's CUDA.
    Cuda,
    Vulkan,
    /// WebGPU, in a browser.
    WebGpu,
}

impl BackendType {
    pub open spec fn spec_name(self) -> Seq<char> {
        match self {
            BackendType::CpuSimd => "cpu-simd"@,
            BackendType::Metal => "metal"@,
            BackendType::Cuda => "cuda"@,
            BackendType::Vulkan => "vulkan"@,
            BackendType::WebGpu => "webgpu"@,
        }
    }

    pub fn name(&self) -> (r: &'static str)
        ensures
            r@ == self.spec_name(),
    {
        match self {
            BackendType::CpuSimd => "cpu-simd",
            BackendType::Metal => "metal",
            BackendType::Cuda => "cuda",
            BackendType::Vulkan => "vulkan",
            BackendType::WebGpu => "webgpu",
        }
    }

    /// Whether this is a graphics processor.
    pub fn is_gpu(&self) -> (r: bool)
        ensures
            r == (self !is CpuSimd),
    {
        match self {
            BackendType::CpuSimd => false,
            BackendType::Metal | BackendType::Cuda | BackendType::Vulkan | BackendType::WebGpu =>
                true,
        }
    }

    /// The kind that suits a platform best: Metal on Apple's own processors.
    pub open spec fn detected(apple_silicon: bool) -> BackendType {
        if apple_silicon {
            BackendType::Metal
        } else {
            BackendType::CpuSimd
        }
    }

    /// The kind that suits the platform best. The caller says whether the program runs
    /// on one of Apple's own processors.
    pub fn detect(apple_silicon: bool) -> (r: Self)
        ensures
            r == Self::detected(apple_silicon),
    {
        if apple_silicon {
            BackendType::Metal
        } else {
            BackendType::CpuSimd
        }
    }
}

/// What a kind of hardware can do.
#[derive(Debug)]
pub struct BackendCapabilities {
    pub backend: BackendType,
    pub available: bool,
    pub features: Vec<&'static str>,
    pub supported_ops: Vec<&'static str>,
}

/// What a kind of hardware can do, with its lists as sequences.
#[verifier::ext_equal]
pub struct CapabilitiesView {
    pub backend: BackendType,
    pub available: bool,
    pub features: Seq<Seq<char>>,
    pub supported_ops: Seq<Seq<char>>,
}

/// A list of labels as sequences of characters.
pub open spec fn labels(v: Seq<&'static str>) -> Seq<Seq<char>> {
    Seq::new(v.len(), |i: int| v[i]@)
}

impl View for BackendCapabilities {
    type V = CapabilitiesView;

    open spec fn view(&self) -> CapabilitiesView {
        CapabilitiesView {
            backend: self.backend,
            available: self.available,
            features: labels(self.features@),
            supported_ops: labels(self.supported_ops@),
        }
    }
}

/// The memory of a device, in bytes.
#[derive(Debug, Clone, Copy, PartialEq, Eq, Structural)]
pub struct MemoryInfo {
    pub total_memory: usize,
    pub free_memory: usize,
    pub used_memory: usize,
}

/// The memory that is taken for granted of a device that does not say: eight
/// gigabytes, of which a half is free and a quarter is in use.
pub open spec fn estimated_memory() -> MemoryInfo {
    MemoryInfo {
        total_memory: 0x2_0000_0000u64 as usize,
        free_memory: ((0x2_0000_0000u64 as usize) / 2) as usize,
        used_memory: ((0x2_0000_0000u64 as usize) / 4) as usize,
    }
}

pub(crate) fn estimate_memory() -> (r: MemoryInfo)
    ensures
        r == estimated_memory(),
{
    let total: usize = 0x2_0000_0000u64 as usize;
    MemoryInfo { total_memory: total, free_memory: total / 2, used_memory: total / 4 }
}

impl MemoryInfo {
    /// The share of the memory that is in use, as a fraction: zero of a device without
    /// memory.
    pub fn utilization(&self) -> (r: (usize, usize))
        ensures
            r == (if self.total_memory == 0 {
                (0usize, 1usize)
            } else {
                (self.used_memory, self.total_memory)
            }),
            r.1 != 0,
    {
        if self.total_memory == 0 {
            (0, 1)
        } else {
            (self.used_memory, self.total_memory)
        }
    }
}

} // verus!
