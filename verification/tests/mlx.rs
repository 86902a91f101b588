use nexus::memory::format_size;
use nexus::mlx::{
    list_tensors, parse_safetensors_header, weight_files, HeaderFault, MlxDtype, MlxError, MlxModelConfig,
    MlxModelLoader, MlxTerm, SafeTensorsHeader, TensorMeta,
};

fn file_of(header: &str, data: &[u8]) -> Vec<u8> {
    let mut file = (header.len() as u64).to_le_bytes().to_vec();
    file.extend_from_slice(header.as_bytes());
    file.extend_from_slice(data);
    file
}

fn f32_safetensors(name: &str, shape: &[usize], values: &[f32]) -> Vec<u8> {
    let data: Vec<u8> = values.iter().flat_map(|v| v.to_le_bytes()).collect();
    let dims: Vec<String> = shape.iter().map(|d| d.to_string()).collect();
    let header = format!(
        "{{\"{}\":{{\"dtype\":\"F32\",\"shape\":[{}],\"data_offsets\":[0,{}]}}}}",
        name,
        dims.join(","),
        data.len()
    );
    file_of(&header, &data)
}

fn read_f32(file: &[u8], meta: &TensorMeta) -> Vec<f32> {
    let start = meta.data_offset as usize;
    let payload = &file[start..start + meta.data_size];
    MlxDtype::from_name(&meta.dtype)
        .unwrap()
        .decode(payload)
        .iter()
        .map(|term| match *term {
            MlxTerm::Value(bits) => f32::from_bits(bits),
            MlxTerm::Half(bits) => half::f16::from_bits(bits).to_f32(),
            MlxTerm::Whole(n) => n as f32,
        })
        .collect()
}

fn refusal(file: &[u8]) -> String {
    match parse_safetensors_header(file) {
        Ok(_) => panic!("accepted"),
        Err(HeaderFault::Refused(error)) => error.message(),
        Err(HeaderFault::Overrun) => "overrun".to_string(),
    }
}

#[test]
fn test_tensor_meta_calculation() {
    let meta = TensorMeta {
        dtype: "F32".to_string(),
        shape: vec![100, 200],
        data_offset: 1024,
        data_size: 80000,
    };
    assert_eq!(meta.num_elements(), 20000);
    assert_eq!(meta.elem_size(), 4);
    assert_eq!(meta.data_size(), 80000);
}

#[test]
fn test_tensor_meta_f16() {
    let meta = TensorMeta {
        dtype: "F16".to_string(),
        shape: vec![100, 200],
        data_offset: 0,
        data_size: 40000,
    };
    assert_eq!(meta.elem_size(), 2);
    assert_eq!(meta.data_size(), 40000);
}

fn headers_of(files: &[Vec<u8>]) -> Vec<SafeTensorsHeader> {
    files.iter().map(|f| parse_safetensors_header(f).unwrap()).collect()
}

#[test]
fn test_loader_reads_multiple_safetensors_shards() {
    let files = vec![
        f32_safetensors("a.weight", &[2], &[1.0, 2.0]),
        f32_safetensors("b.weight", &[2], &[3.0, 4.0]),
    ];
    let paths = vec!["a.safetensors".to_string(), "b.safetensors".to_string()];

    let loader = MlxModelLoader::new(paths, &headers_of(&files), None).unwrap();
    assert_eq!(loader.tensor_names().len(), 2);
    let load = |name: &str| {
        read_f32(&files[loader.tensor_file(name).unwrap()], loader.tensor_meta(name).unwrap())
    };
    assert_eq!(load("a.weight"), vec![1.0, 2.0]);
    assert_eq!(load("b.weight"), vec![3.0, 4.0]);
}

#[test]
fn a_name_in_two_files_is_refused() {
    let file = f32_safetensors("same", &[1], &[1.0]);
    let files = vec![file.clone(), file];
    let paths = vec!["x".to_string(), "y".to_string()];
    let refused = MlxModelLoader::new(paths, &headers_of(&files), None).unwrap_err();
    assert!(matches!(&refused, MlxError::Duplicate(name) if name == "same"));
    assert!(refused.message().starts_with("Duplicate tensor same"));
}

#[test]
fn an_unknown_tensor_is_not_found() {
    let files = vec![f32_safetensors("w", &[2, 3], &[0.0; 6])];
    let config = MlxModelConfig {
        model_type: Some("llama".to_string()),
        hidden_size: Some(4),
        num_hidden_layers: None,
        num_attention_heads: None,
        num_key_value_heads: None,
        intermediate_size: None,
        vocab_size: None,
        max_position_embeddings: None,
        rms_norm_eps: None,
        rope_theta: None,
    };
    let loader =
        MlxModelLoader::new(vec!["w.safetensors".to_string()], &headers_of(&files), Some(config))
            .unwrap();
    assert_eq!(loader.tensor_file("v").unwrap_err().message(), "Tensor 'v' not found");
    assert!(loader.tensor_meta("v").is_none());
    assert_eq!(loader.info(), "MLX Model: 1 tensors, 24 B\nPath: w.safetensors");
    assert_eq!(loader.weight_path, "w.safetensors");
}

#[test]
fn headers_that_are_broken_are_refused() {
    assert_eq!(refusal(&[1, 2]), "Failed to read header size");
    assert!(refusal(&200_000_000u64.to_le_bytes()).starts_with("Invalid header size: 200000000"));
    assert_eq!(refusal(&10u64.to_le_bytes()), "Failed to read header bytes");
    let mut bad = 2u64.to_le_bytes().to_vec();
    bad.extend_from_slice(&[0xff, 0xfe]);
    assert_eq!(refusal(&bad), "Header is not valid UTF-8");
    assert_eq!(refusal(&file_of("{", &[])), "Failed to parse safetensors JSON");
    let named = |body: &str| refusal(&file_of(&format!("{{\"t\":{}}}", body), &[]));
    assert_eq!(named("{}"), "Missing dtype for tensor t");
    assert_eq!(named("{\"dtype\":\"F32\"}"), "Missing shape for tensor t");
    assert_eq!(
        named("{\"dtype\":\"F32\",\"shape\":[-1]}"),
        "Invalid shape for tensor t"
    );
    assert_eq!(
        named("{\"dtype\":\"F32\",\"shape\":[1]}"),
        "Missing data_offsets for tensor t"
    );
    assert_eq!(
        named("{\"dtype\":\"F32\",\"shape\":[1],\"data_offsets\":[0]}"),
        "Invalid data_offsets for tensor t"
    );
    assert_eq!(
        named("{\"dtype\":\"F32\",\"shape\":[1],\"data_offsets\":[\"a\",4]}"),
        "Invalid start offset for tensor t"
    );
    assert_eq!(
        named("{\"dtype\":\"F32\",\"shape\":[1],\"data_offsets\":[0,null]}"),
        "Invalid end offset for tensor t"
    );
}

#[test]
fn tensors_are_listed_by_name() {
    let header = "{\"__metadata__\":{\"format\":\"mlx\"},\
        \"z\":{\"dtype\":\"F16\",\"shape\":[2,3],\"data_offsets\":[0,12]},\
        \"a\":{\"dtype\":\"I64\",\"shape\":[],\"data_offsets\":[12,20]}}";
    let parsed = parse_safetensors_header(&file_of(header, &[0; 20])).unwrap();
    let listed = list_tensors(&parsed);
    assert_eq!(listed.len(), 2);
    let z = listed.iter().find(|t| t.0 == "z").unwrap();
    assert_eq!(z.1, vec![2, 3]);
    assert_eq!(z.2, "F16");
    let meta = parsed.tensors.get("a").unwrap();
    assert_eq!(meta.data_offset, 8 + header.len() as u64 + 12);
    assert_eq!(meta.data_size, 8);
    assert_eq!(meta.num_elements(), 1);
}

#[test]
fn payloads_of_every_type() {
    assert_eq!(MlxDtype::from_name("F8"), None);
    let half = MlxDtype::from_name("F16").unwrap();
    assert_eq!(half.size(), 2);
    assert_eq!(half.decode(&[0x00, 0x3c]), vec![MlxTerm::Half(0x3c00)]);
    let brain = MlxDtype::from_name("BF16").unwrap();
    assert_eq!(brain.decode(&[0x80, 0x3f]), vec![MlxTerm::Value(1.0f32.to_bits())]);
    let whole = MlxDtype::from_name("I32").unwrap();
    assert_eq!(whole.decode(&(-5i32).to_le_bytes()), vec![MlxTerm::Whole(-5)]);
    let long = MlxDtype::from_name("I64").unwrap();
    assert_eq!(long.decode(&(-5i64).to_le_bytes()), vec![MlxTerm::Whole(-5)]);
    let full = MlxDtype::from_name("F32").unwrap();
    assert_eq!(full.decode(&2.5f32.to_le_bytes()), vec![MlxTerm::Value(2.5f32.to_bits())]);
}

#[test]
fn weight_files_are_sorted_by_name() {
    let names = |list: &[&str]| list.iter().map(|s| s.to_string()).collect::<Vec<String>>();
    assert_eq!(
        weight_files(names(&[
            "model-2.safetensors",
            "config.json",
            ".safetensors",
            "model-1.safetensors",
            "x.safetensors.bak",
            "safetensors",
        ])),
        Some(names(&["model-1.safetensors", "model-2.safetensors"]))
    );
    assert_eq!(weight_files(names(&["config.json"])), None);
}

#[test]
fn test_format_size() {
    assert_eq!(format_size(512), "512 B");
    assert_eq!(format_size(1024 * 5), "5.00 KB");
    assert_eq!(format_size(1024 * 1024 * 10), "10.00 MB");
    assert_eq!(format_size(1024 * 1024 * 1024 * 2), "2.00 GB");
}

#[test]
fn tensors_are_listed_once_in_the_order_of_their_names() {
    let entry = "{\"dtype\":\"F32\",\"shape\":[1],\"data_offsets\":[0,4]}";
    let text = format!(
        "{{\"b\":{e},\"a\":{e},\"__metadata__\":{{}},\"b\":{e},\"B\":{e}}}",
        e = entry
    );
    let header = parse_safetensors_header(&file_of(&text, &[0; 4])).unwrap();
    let listed = list_tensors(&header);
    let names: Vec<&str> = listed.iter().map(|(name, _, _)| name.as_str()).collect();
    assert_eq!(names, ["B", "a", "b"]);
    assert!(listed.iter().all(|(_, shape, dtype)| shape == &[1] && dtype == "F32"));
}
