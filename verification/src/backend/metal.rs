//! Apple's graphics processor as a backend.

use crate::backend::kind::{
    estimate_memory, estimated_memory, BackendCapabilities, BackendType, CapabilitiesView,
    MemoryInfo,
};
use vstd::prelude::*;

verus! {

/// Apple's graphics processor as a backend. No build has it, so it is not available
/// unless it is said to be.
#[derive(Debug)]
pub struct MetalBackend {
    pub available: bool,
    pub device_name: String,
}

/// The name of the device.
pub open spec fn metal_device(available: bool) -> Seq<char> {
    if available {
        "Apple Silicon GPU (Metal)"@
    } else {
        "Metal unavailable"@
    }
}

impl MetalBackend {
    pub fn new() -> (r: Self)
        ensures
            !r.available,
            r.device_name@ == metal_device(false),
    {
        Self::with_availability(false)
    }

    /// The backend where a device was looked for.
    pub fn with_availability(available: bool) -> (r: Self)
        ensures
            r.available == available,
            r.device_name@ == metal_device(available),
    {
        let device_name = if available {
            "Apple Silicon GPU (Metal)".to_string()
        } else {
            "Metal unavailable".to_string()
        };
        MetalBackend { available, device_name }
    }

    pub fn name(&self) -> (r: &'static str)
        ensures
            r@ == "metal"@,
    {
        "metal"
    }

    pub fn backend_type(&self) -> (r: BackendType)
        ensures
            r == BackendType::Metal,
    {
        BackendType::Metal
    }

    pub fn is_available(&self) -> (r: bool)
        ensures
            r == self.available,
    {
        self.available
    }

    pub fn memory_info(&self) -> (r: MemoryInfo)
        ensures
            r == (if self.available {
                estimated_memory()
            } else {
                MemoryInfo { total_memory: 0, free_memory: 0, used_memory: 0 }
            }),
    {
        if !self.available {
            return MemoryInfo { total_memory: 0, free_memory: 0, used_memory: 0 };
        }
        estimate_memory()
    }

    pub open spec fn spec_capabilities(available: bool) -> CapabilitiesView {
        CapabilitiesView {
            backend: BackendType::Metal,
            available,
            features: if available {
                seq!["unified-memory"@, "metal"@]
            } else {
                seq![]
            },
            supported_ops: if available {
                seq!["rms_norm"@]
            } else {
                seq![]
            },
        }
    }

    pub fn capabilities(&self) -> (r: BackendCapabilities)
        ensures
            r@ == Self::spec_capabilities(self.available),
    {
        let mut features: Vec<&'static str> = Vec::new();
        let mut supported_ops: Vec<&'static str> = Vec::new();
        if self.available {
            features.push("unified-memory");
            features.push("metal");
            supported_ops.push("rms_norm");
        }
        let r = BackendCapabilities {
            backend: BackendType::Metal,
            available: self.available,
            features,
            supported_ops,
        };
        assert(r@ =~= Self::spec_capabilities(self.available));
        r
    }
}

impl Default for MetalBackend {
    fn default() -> (r: Self)
        ensures
            !r.available,
            r.device_name@ == metal_device(false),
    {
        Self::new()
    }
}

} // verus!
