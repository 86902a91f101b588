use nexus::backend::{
    BackendFactory, BackendType, CpuBackend, CpuFeatures, MemoryInfo, MetalBackend,
};

fn no_features() -> CpuFeatures {
    CpuFeatures { avx2: false, avx512f: false, fma: false, neon: false }
}

#[test]
fn test_cpu_backend_creation() {
    let backend = CpuBackend::new();
    assert!(backend.is_available());
    assert_eq!(backend.name(), "cpu-simd");
}

#[test]
fn test_capabilities() {
    let backend = CpuBackend::new();
    let caps = backend.capabilities(&no_features());
    assert!(caps.available);
    assert!(caps.supported_ops.contains(&"matmul"));
}

#[test]
fn cpu_test_memory_info() {
    let backend = CpuBackend::new();
    let info = backend.memory_info();
    assert!(info.total_memory > 0);
    let (used, total) = info.utilization();
    let utilization = used as f64 / total as f64;
    assert!(utilization >= 0.0 && utilization <= 1.0);
}

#[test]
fn test_metal_backend_creation() {
    let backend = MetalBackend::new();
    assert_eq!(backend.name(), "metal");
    if backend.is_available() {
        assert!(!backend.device_name.contains("unavailable"));
    }
}

#[test]
fn test_memory_info_unavailable() {
    let mut backend = MetalBackend::new();
    backend.available = false;

    let info = backend.memory_info();
    assert_eq!(info.total_memory, 0);
}

#[test]
fn test_backend_type_names() {
    assert_eq!(BackendType::CpuSimd.name(), "cpu-simd");
    assert_eq!(BackendType::Metal.name(), "metal");
    assert_eq!(BackendType::Cuda.name(), "cuda");
    assert!(BackendType::WebGpu.is_gpu());
}

#[test]
fn test_backend_detection() {
    for apple_silicon in [false, true] {
        let detected = BackendType::detect(apple_silicon);
        assert!(matches!(detected, BackendType::CpuSimd | BackendType::Metal));
    }
}

#[test]
fn mod_test_memory_info() {
    let info = MemoryInfo {
        total_memory: 8 * 1024 * 1024 * 1024,
        free_memory: 6 * 1024 * 1024 * 1024,
        used_memory: 2 * 1024 * 1024 * 1024,
    };
    let (used, total) = info.utilization();
    assert_eq!(used as f32 / total as f32, 0.25);
}

#[test]
fn test_backend_capabilities() {
    let capabilities = BackendFactory::available_backends(&no_features());
    assert!(capabilities.iter().any(|cap| cap.backend == BackendType::CpuSimd));
    assert!(capabilities.iter().any(|cap| cap.backend == BackendType::Cuda && !cap.available));
    assert!(capabilities.iter().any(|cap| cap.supported_ops.contains(&"rms_norm")));
}

#[test]
fn detection_follows_the_platform() {
    assert_eq!(BackendType::detect(true), BackendType::Metal);
    assert_eq!(BackendType::detect(false), BackendType::CpuSimd);
    assert!(!BackendType::CpuSimd.is_gpu());
    assert_eq!(BackendType::Vulkan.name(), "vulkan");
    assert_eq!(BackendType::WebGpu.name(), "webgpu");
}

#[test]
fn one_thread_at_least() {
    let backend = CpuBackend::new();
    assert!(backend.num_threads() >= 1);
    assert_eq!(backend.num_threads(), num_cpus::get());
}

#[test]
fn a_device_without_memory_is_unused() {
    let info = MemoryInfo { total_memory: 0, free_memory: 0, used_memory: 0 };
    assert_eq!(info.utilization(), (0, 1));
}

#[test]
fn features_are_named_in_order() {
    assert_eq!(no_features().names(), vec!["rayon"]);
    let all = CpuFeatures { avx2: true, avx512f: true, fma: true, neon: true };
    assert_eq!(all.names(), vec!["rayon", "avx2", "avx512f", "fma", "neon"]);
}

#[test]
fn operations_of_the_processor() {
    let caps = CpuBackend::new().capabilities(&no_features());
    assert_eq!(
        caps.supported_ops,
        vec![
            "matmul",
            "attention",
            "rms_norm",
            "layer_norm",
            "softmax",
            "quantize",
            "dequantize"
        ]
    );
    assert_eq!(caps.features, vec!["rayon"]);
    assert_eq!(caps.backend, BackendType::CpuSimd);
}

#[test]
fn a_backend_that_is_missing_falls_back_to_the_processor() {
    assert_eq!(
        BackendFactory::create(Some(BackendType::CpuSimd), true, true),
        (BackendType::CpuSimd, None)
    );
    assert_eq!(
        BackendFactory::create(Some(BackendType::Cuda), false, false),
        (
            BackendType::CpuSimd,
            Some("cuda backend is not implemented in this build; falling back to CPU".to_string())
        )
    );
    assert_eq!(
        BackendFactory::create(Some(BackendType::Metal), false, false),
        (
            BackendType::CpuSimd,
            Some("Metal backend not compiled in. Use --features metal".to_string())
        )
    );
    assert_eq!(BackendFactory::create(None, true, true), (BackendType::Metal, None));
    assert_eq!(BackendFactory::auto(false, true), (BackendType::CpuSimd, None));
}

#[test]
fn metal_has_memory_where_it_is_available() {
    let backend = MetalBackend::with_availability(true);
    assert!(backend.is_available());
    assert_eq!(backend.backend_type(), BackendType::Metal);
    assert!(backend.memory_info().total_memory > 0);
    assert!(backend.capabilities().available);
    assert!(!MetalBackend::default().capabilities().available);
}
