use nexus::backend::BackendType;
use nexus::cli::{
    bench_tokens, converter_quant, describe_metadata, kv_quant_or_default, more_tensors,
    run_backend, safetensor_line, server_backend, shape_text, tensor_line, top_logits,
    weight_format_or_default,
};
use nexus::download::{
    available_models, choose_model, download_url, matches_filters, model_lines, models_dir,
    parse_number, select_models, DownloadChoice,
};
use nexus::gguf::{GgufByteOrder, GgufDataType, GgufValue, ModelMetadata, TensorInfo};
use nexus::names::NameMap;
use nexus::quant::{KvQuantType, QuantFormat};

#[test]
fn options_by_name() {
    assert_eq!(kv_quant_or_default("tq_4b4b"), KvQuantType::TurboQuant4b4b);
    assert_eq!(kv_quant_or_default("other"), KvQuantType::TurboQuant3b2b);
    assert_eq!(weight_format_or_default("q8_0"), QuantFormat::Q8_0);
    assert_eq!(weight_format_or_default("other"), QuantFormat::Q4_K);
    assert_eq!(server_backend("cpu", true), BackendType::CpuSimd);
    assert_eq!(server_backend("metal", false), BackendType::Metal);
    assert_eq!(server_backend("auto", true), BackendType::Metal);
    assert_eq!(run_backend("cpu-simd", false), Ok(BackendType::CpuSimd));
    assert_eq!(
        run_backend("cuda", false),
        Err("Backend 'cuda' is listed in capabilities but not implemented yet; use cpu-simd or metal"
            .to_string())
    );
    assert_eq!(converter_quant("Q4_K"), "q4-k");
}

#[test]
fn the_greatest_logits_first() {
    let logits: Vec<u32> = [0.5f32, 3.0, -1.0, 2.0].iter().map(|v| v.to_bits()).collect();
    assert_eq!(top_logits(&logits, 2), vec![1, 3]);
    assert_eq!(top_logits(&logits, 9).len(), 4);
}

#[test]
fn tokens_of_a_benchmark() {
    assert_eq!(bench_tokens(3).len(), 3);
    assert!(bench_tokens(0).len() <= 1);
}

fn metadata() -> ModelMetadata {
    let mut metadata = ModelMetadata {
        version: 3,
        tensor_count: 0,
        kv_count: 0,
        byte_order: GgufByteOrder::LittleEndian,
        alignment: 32,
        tensor_data_offset: 0,
        metadata: NameMap::new(),
        tensors: Vec::new(),
    };
    metadata
        .metadata
        .insert("general.name".to_string(), GgufValue::String("tiny".to_string()));
    metadata.metadata.insert("llama.block_count".to_string(), GgufValue::U32(2));
    metadata
}

#[test]
fn a_model_is_described() {
    let lines = describe_metadata(&metadata(), Some("10000"));
    assert!(lines.contains(&"Name: tiny".to_string()));
    assert!(lines.contains(&"Layers: 2".to_string()));
    assert!(lines.contains(&"Rope freq base: 10000".to_string()));
    assert!(!describe_metadata(&metadata(), None).iter().any(|l| l.starts_with("Rope")));
    let tensor = TensorInfo {
        name: "w".to_string(),
        n_dims: 1,
        shape: vec![1024],
        data_type: GgufDataType::F32,
        offset: 0,
        stride: Vec::new(),
    };
    assert_eq!(tensor_line(&tensor), format!("  {:<50} 4.00 KB [F32]", "w"));
    assert_eq!(shape_text(&vec![2, 3, 4]), "2 x 3 x 4");
    assert!(safetensor_line("w", &vec![2, 3], "F16").contains("2 x 3"));
    assert_eq!(more_tensors(20), None);
    assert!(more_tensors(25).unwrap().contains('5'));
}

#[test]
fn numbers_are_parsed_as_std_parses_them() {
    for text in [
        "", "0", "7", "+7", "-7", "++7", "+", "007", "1_000", " 1", "1 ", "12a", "٣",
        "18446744073709551615", "18446744073709551616", "99999999999999999999999",
    ] {
        assert_eq!(parse_number(text), text.parse::<usize>().ok(), "{:?}", text);
    }
}

#[test]
fn models_are_chosen_by_place_file_or_name() {
    let models = available_models();
    assert!(matches!(choose_model(&models, "1"), DownloadChoice::Listed(0)));
    assert!(matches!(choose_model(&models, "9999999"), DownloadChoice::NotFound));
    assert!(matches!(choose_model(&models, "no such file"), DownloadChoice::NotFound));
    match choose_model(&models, "org/repo/file.gguf") {
        DownloadChoice::File { repo_id, filename } => {
            assert_eq!(repo_id, "org/repo");
            assert_eq!(filename, "file.gguf");
            assert_eq!(
                download_url(&repo_id, &filename),
                "https://huggingface.co/org/repo/resolve/main/file.gguf"
            );
        }
        other => panic!("{:?}", other),
    }
    match choose_model(&models, "repo/file.gguf") {
        DownloadChoice::File { repo_id, filename } => {
            assert_eq!((repo_id.as_str(), filename.as_str()), ("repo", "file.gguf"));
        }
        other => panic!("{:?}", other),
    }
    match choose_model(&models, &models[2].filename) {
        DownloadChoice::Listed(place) => assert!(models[place].filename == models[2].filename),
        other => panic!("{:?}", other),
    }
}

#[test]
fn models_are_filtered() {
    let models = available_models();
    assert_eq!(select_models(&models, &Vec::new()).len(), models.len());
    let filters = vec!["q8_0".to_string()];
    let selected = select_models(&models, &filters);
    assert!(!selected.is_empty());
    for place in &selected {
        assert!(matches_filters(&models[*place], &filters));
        assert!(models[*place].filename.contains("q8_0") || models[*place].repo_id.contains("q8_0"));
    }
    assert_eq!(
        model_lines(1, &models[0]),
        format!(
            "  1. {}\n     {} -> {}\n",
            models[0].description, models[0].repo_id, models[0].filename
        )
    );
    assert_eq!(models_dir("/home/x"), "/home/x/models");
    assert_eq!(models_dir(""), "models");
}
