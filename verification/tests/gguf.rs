use nexus::bytes::{ByteReader, Utf8Flaw};
use nexus::gguf::error::{ErrorClass, FilePart};
use nexus::gguf::payload::PayloadError;
use nexus::gguf::scan::{read_value_from_bytes, Fault};
use nexus::gguf::types::{GGUF_MAGIC, GGUF_VERSION_1, GGUF_VERSION_2, GGUF_VERSION_3};
use nexus::gguf::{
    GgufByteOrder, GgufDataType, GgufError, GgufReader, GgufValue, GgufValueType, ModelMetadata,
    TensorInfo,
};
use nexus::quant::blocks::WeightTerm;
use nexus::quant::encode::{put_q2_k_block, put_q4_k_block};

fn push_u32(out: &mut Vec<u8>, value: u32) {
    out.extend_from_slice(&value.to_le_bytes());
}

fn push_u64(out: &mut Vec<u8>, value: u64) {
    out.extend_from_slice(&value.to_le_bytes());
}

fn push_string(out: &mut Vec<u8>, value: &str) {
    push_u64(out, value.len() as u64);
    out.extend_from_slice(value.as_bytes());
}

fn push_kv_u32(out: &mut Vec<u8>, key: &str, value: u32) {
    push_string(out, key);
    push_u32(out, GgufValueType::U32.id());
    push_u32(out, value);
}

fn push_kv_string(out: &mut Vec<u8>, key: &str, value: &str) {
    push_string(out, key);
    push_u32(out, GgufValueType::String.id());
    push_string(out, value);
}

fn parse(bytes: &[u8]) -> Result<ModelMetadata, GgufError> {
    match GgufReader::new().scan_bytes(bytes) {
        Ok(metadata) => Ok(metadata),
        Err(Fault::Refused(error)) => Err(error),
        Err(Fault::Overrun) => panic!("a size that no file has"),
    }
}

fn half_value(bits: u16) -> f32 {
    half::f16::from_bits(bits).to_f32()
}

fn term_value(term: &WeightTerm) -> f32 {
    match *term {
        WeightTerm::Value(bits) => f32::from_bits(bits),
        WeightTerm::Half(bits) => half_value(bits),
        WeightTerm::Product { signed, d } => signed as f32 * half_value(d),
        WeightTerm::Offset { d, scale, code, dmin, min } => {
            half_value(d) * scale as f32 * code as f32 - half_value(dmin) * min as f32
        }
        WeightTerm::Affine { low, level, step } => {
            half_value(low) + level as f32 * half_value(step)
        }
    }
}

fn values_of(terms: &[WeightTerm]) -> Vec<f32> {
    terms.iter().map(term_value).collect()
}

#[test]
fn test_gguf_data_type_ids() {
    assert_eq!(GgufDataType::F32.id(), 0);
    assert_eq!(GgufDataType::F16.id(), 1);
    assert_eq!(GgufDataType::Q4_0.id(), 2);
    assert_eq!(GgufDataType::Q8_0.id(), 8);
}

#[test]
fn test_gguf_data_type_from_id() {
    assert_eq!(GgufDataType::from_id(0), Some(GgufDataType::F32));
    assert_eq!(GgufDataType::from_id(1), Some(GgufDataType::F16));
    assert_eq!(GgufDataType::from_id(2), Some(GgufDataType::Q4_0));
    assert_eq!(GgufDataType::from_id(99), None);
}

#[test]
fn test_gguf_value_type_ids() {
    assert_eq!(GgufValueType::U8.id(), 0);
    assert_eq!(GgufValueType::F32.id(), 6);
    assert_eq!(GgufValueType::Bool.id(), 7);
    assert_eq!(GgufValueType::String.id(), 8);
    assert_eq!(GgufValueType::Array.id(), 9);
    assert_eq!(GgufValueType::U64.id(), 10);
}

#[test]
fn test_data_type_bytes_per_element() {
    assert_eq!(GgufDataType::F32.bytes_per_element(10), 40);
    assert_eq!(GgufDataType::F16.bytes_per_element(10), 20);
    assert!(GgufDataType::Q4_0.bytes_per_element(256) > 0);
    assert!(GgufDataType::Q8_0.bytes_per_element(256) > 0);
}

#[test]
fn test_tensor_info() {
    let info = TensorInfo {
        name: "test".to_string(),
        n_dims: 2,
        shape: vec![128, 256],
        data_type: GgufDataType::F32,
        offset: 0,
        stride: vec![1, 128],
    };
    assert_eq!(info.num_elements(), 32768);
    assert_eq!(info.data_size(), 131072);
}

#[test]
fn test_parse_file_reads_real_tensor_data() {
    let mut bytes = Vec::new();
    bytes.extend_from_slice(b"GGUF");
    push_u32(&mut bytes, GGUF_VERSION_3);
    push_u64(&mut bytes, 1);
    push_u64(&mut bytes, 4);

    push_kv_u32(&mut bytes, "general.alignment", 32);
    push_kv_string(&mut bytes, "general.architecture", "llama");
    push_kv_u32(&mut bytes, "llama.embedding_length", 4);
    push_kv_u32(&mut bytes, "llama.block_count", 1);

    push_string(&mut bytes, "token_embd.weight");
    push_u32(&mut bytes, 1);
    push_u64(&mut bytes, 4);
    push_u32(&mut bytes, GgufDataType::F32.id());
    push_u64(&mut bytes, 0);

    while bytes.len() % 32 != 0 {
        bytes.push(0);
    }
    let expected = [1.0f32, -2.0, 3.5, 4.25];
    for value in expected {
        bytes.extend_from_slice(&value.to_le_bytes());
    }

    let metadata = parse(&bytes).unwrap();
    assert_eq!(metadata.alignment, 32);
    assert_eq!(metadata.tensor_data_offset as usize, bytes.len() - expected.len() * 4);
    assert_eq!(metadata.hidden_size(), Some(4));
    assert_eq!(metadata.num_layers(), Some(1));

    let tensor = metadata.get_tensor("token_embd.weight").unwrap();
    let start = metadata.absolute_tensor_offset(tensor) as usize;
    let payload = &bytes[start..start + tensor.data_size()];
    let terms =
        GgufReader::tensor_bytes_to_f32(tensor.data_type, tensor.num_elements(), payload).unwrap();
    assert_eq!(values_of(&terms), expected);
}

#[test]
fn test_q8_0_dequantization() {
    let scale = half::f16::from_f32(0.5).to_bits().to_le_bytes();
    let mut block = Vec::new();
    block.extend_from_slice(&scale);
    for i in 0..32 {
        block.push((i as i8 - 16) as u8);
    }

    let terms = GgufReader::tensor_bytes_to_f32(GgufDataType::Q8_0, 32, &block).unwrap();
    let values = values_of(&terms);
    assert_eq!(values.len(), 32);
    assert_eq!(values[0], -8.0);
    assert_eq!(values[16], 0.0);
    assert_eq!(values[31], 7.5);
}

fn scale_bits(value: f32) -> u16 {
    half::f16::from_f32(value).to_bits()
}

fn k_blocks(data: &[f32], subs: usize, top_code: f32, top_scale: f32) -> Vec<u8> {
    let mut out = Vec::new();
    for chunk in data.chunks(256) {
        let mut block = [0.0f32; 256];
        block[..chunk.len()].copy_from_slice(chunk);
        let size = 256 / subs;
        let mut tops = Vec::new();
        let mut offsets = Vec::new();
        for sub in block.chunks(size) {
            let min = sub.iter().copied().fold(f32::INFINITY, f32::min);
            let max = sub.iter().copied().fold(f32::NEG_INFINITY, f32::max);
            let offset = if min < 0.0 { -min } else { 0.0 };
            tops.push(((max + offset) / top_code).max(0.0));
            offsets.push(offset);
        }
        let d = tops.iter().copied().fold(0.0f32, f32::max) / top_scale;
        let dmin = offsets.iter().copied().fold(0.0f32, f32::max) / top_scale;
        let part = |value: f32, unit: f32| -> u8 {
            if unit > 0.0 && value > 0.0 {
                (value / unit).round().clamp(1.0, top_scale) as u8
            } else {
                0
            }
        };
        let scales: Vec<u8> = tops.iter().map(|v| part(*v, d)).collect();
        let mins: Vec<u8> = offsets.iter().map(|v| part(*v, dmin)).collect();
        let codes: Vec<u8> = (0..256)
            .map(|i| {
                let scale = d * scales[i / size] as f32;
                let offset = dmin * mins[i / size] as f32;
                if scale > 0.0 {
                    ((block[i] + offset) / scale).round().clamp(0.0, top_code) as u8
                } else {
                    0
                }
            })
            .collect();
        if subs == 8 {
            put_q4_k_block(&mut out, scale_bits(d), scale_bits(dmin), &scales, &mins, &codes);
        } else {
            put_q2_k_block(&mut out, scale_bits(d), scale_bits(dmin), &scales, &mins, &codes);
        }
    }
    out
}

#[test]
fn test_k_quant_dequantization() {
    let data: Vec<f32> = (0..300).map(|i| i as f32 / 31.0 - 4.0).collect();

    let q4 = k_blocks(&data, 8, 15.0, 63.0);
    let q4_values = GgufReader::tensor_bytes_to_f32(GgufDataType::Q4_K, data.len(), &q4).unwrap();
    assert_eq!(q4.len(), data.len().div_ceil(256) * 144);
    assert_eq!(q4_values.len(), data.len());
    for (actual, expected) in values_of(&q4_values).iter().zip(data.iter()) {
        assert!((actual - expected).abs() < 0.4);
    }

    let q2 = k_blocks(&data, 16, 3.0, 15.0);
    let q2_values = GgufReader::tensor_bytes_to_f32(GgufDataType::Q2_K, data.len(), &q2).unwrap();
    assert_eq!(q2.len(), data.len().div_ceil(256) * 84);
    assert_eq!(q2_values.len(), data.len());
    for (actual, expected) in values_of(&q2_values).iter().zip(data.iter()) {
        assert!((actual - expected).abs() < 1.6);
    }
}

#[test]
fn test_truncated_tensor_table_returns_error() {
    let mut bytes = Vec::new();
    bytes.extend_from_slice(b"GGUF");
    push_u32(&mut bytes, GGUF_VERSION_3);
    push_u64(&mut bytes, 1);
    push_u64(&mut bytes, 0);

    let result = GgufReader::new().scan_bytes(&bytes);
    assert!(result.is_err());
    assert!(parse(&bytes).is_err());
}

#[test]
fn test_gguf_magic() {
    assert_eq!(GGUF_MAGIC, 0x46554747);
    assert_eq!(&GGUF_MAGIC.to_le_bytes(), b"GGUF");
}

#[test]
fn ids_name_their_types() {
    for id in 0..200u32 {
        if let Some(t) = GgufDataType::from_id(id) {
            assert_eq!(t.id(), id);
        }
        if let Some(t) = GgufValueType::from_id(id) {
            assert_eq!(t.id(), id);
        }
    }
    assert_eq!(GgufValueType::from_id(13), None);
    assert_eq!(GgufDataType::Q4_K.name(), "Q4_K");
    assert_eq!(GgufDataType::Q4_K.bytes_per_element(257), 288);
    assert_eq!(GgufDataType::Q8_0.bytes_per_element(33), 68);
    assert_eq!(GgufDataType::F32.checked_bytes(usize::MAX), None);
    assert_eq!(GgufDataType::F32.checked_bytes(3), Some(12));
}

fn header(version: u32, tensors: u64, pairs: u64) -> Vec<u8> {
    let mut bytes = b"GGUF".to_vec();
    push_u32(&mut bytes, version);
    push_u64(&mut bytes, tensors);
    push_u64(&mut bytes, pairs);
    bytes
}

#[test]
fn broken_headers_are_refused() {
    assert_eq!(parse(b"GG").unwrap_err(), GgufError::InvalidMagic);
    assert_eq!(parse(b"NOPE\x03\x00\x00\x00").unwrap_err(), GgufError::InvalidMagic);
    let wrong = header(7, 0, 0);
    assert_eq!(parse(&wrong).unwrap_err(), GgufError::UnsupportedVersion(7));
    let whole = header(GGUF_VERSION_3, 0, 0);
    for cut in 8..whole.len() {
        assert!(matches!(parse(&whole[..cut]), Err(GgufError::Truncated(_))), "cut at {}", cut);
    }
    assert!(parse(&whole).is_ok());
    assert!(parse(&header(GGUF_VERSION_2, 0, 0)).is_ok());
    assert!(parse(&header(GGUF_VERSION_1, 0, 0)).is_ok());
    assert_eq!(parse(&header(0, 0, 0)).unwrap_err(), GgufError::UnsupportedVersion(0));
}

#[test]
fn broken_pairs_are_refused() {
    let mut bytes = header(GGUF_VERSION_3, 0, 1);
    assert_eq!(parse(&bytes).unwrap_err(), GgufError::Truncated(FilePart::KeyLength));
    push_u64(&mut bytes, 3);
    assert_eq!(parse(&bytes).unwrap_err(), GgufError::Truncated(FilePart::Key));
    bytes.extend_from_slice(b"abc");
    assert_eq!(parse(&bytes).unwrap_err(), GgufError::Truncated(FilePart::ValueType));
    let mut unknown = bytes.clone();
    push_u32(&mut unknown, 99);
    assert_eq!(parse(&unknown).unwrap_err(), GgufError::UnknownValueType(99));
    let mut text = header(GGUF_VERSION_3, 0, 1);
    push_u64(&mut text, 2);
    text.extend_from_slice(&[0xff, 0xfe]);
    push_u32(&mut text, 0);
    text.push(1);
    let flaw = Utf8Flaw { valid_up_to: 0, error_len: Some(1) };
    assert_eq!(parse(&text).unwrap_err(), GgufError::InvalidUtf8(flaw));
}

#[test]
fn broken_tensors_are_refused() {
    let mut bytes = header(GGUF_VERSION_3, 1, 0);
    assert_eq!(parse(&bytes).unwrap_err(), GgufError::Truncated(FilePart::TensorNameLength));
    push_string(&mut bytes, "t");
    assert_eq!(parse(&bytes).unwrap_err(), GgufError::Truncated(FilePart::Dims));
    push_u32(&mut bytes, 1);
    assert_eq!(parse(&bytes).unwrap_err(), GgufError::Truncated(FilePart::Shape));
    push_u64(&mut bytes, 8);
    assert_eq!(parse(&bytes).unwrap_err(), GgufError::Truncated(FilePart::DataType));
    let mut unknown = bytes.clone();
    push_u32(&mut unknown, 999);
    push_u64(&mut unknown, 0);
    assert_eq!(parse(&unknown).unwrap_err(), GgufError::UnknownDataType(999));
    push_u32(&mut bytes, 0);
    assert_eq!(parse(&bytes).unwrap_err(), GgufError::Truncated(FilePart::TensorOffset));
    push_u64(&mut bytes, 64);
    let metadata = parse(&bytes).unwrap();
    assert_eq!(metadata.tensors[0].offset, 64);
    assert_eq!(metadata.tensors[0].shape, vec![8]);
}

#[test]
fn values_of_every_type_are_read() {
    let mut bytes = header(GGUF_VERSION_3, 0, 8);
    push_string(&mut bytes, "u8");
    push_u32(&mut bytes, 0);
    bytes.push(200);
    push_string(&mut bytes, "i8");
    push_u32(&mut bytes, 1);
    bytes.push(0xff);
    push_string(&mut bytes, "i32");
    push_u32(&mut bytes, 5);
    push_u32(&mut bytes, (-7i32) as u32);
    push_string(&mut bytes, "real");
    push_u32(&mut bytes, 6);
    push_u32(&mut bytes, 2.5f32.to_bits());
    push_string(&mut bytes, "flag");
    push_u32(&mut bytes, 7);
    bytes.push(1);
    push_kv_string(&mut bytes, "text", "größe");
    push_string(&mut bytes, "list");
    push_u32(&mut bytes, 9);
    push_u32(&mut bytes, 8);
    push_u64(&mut bytes, 2);
    push_string(&mut bytes, "a");
    push_string(&mut bytes, "bc");
    push_string(&mut bytes, "big");
    push_u32(&mut bytes, 10);
    push_u64(&mut bytes, 1 << 40);

    let metadata = parse(&bytes).unwrap();
    assert_eq!(metadata.metadata.len(), 8);
    assert!(matches!(metadata.metadata.get("u8"), Some(GgufValue::U8(200))));
    assert!(matches!(metadata.metadata.get("i8"), Some(GgufValue::I8(-1))));
    assert_eq!(metadata.get_i32("i32"), Some(-7));
    assert_eq!(metadata.get_f32("real").map(f32::from_bits), Some(2.5));
    assert_eq!(metadata.metadata.get("flag").unwrap().as_bool(), Some(true));
    assert_eq!(metadata.get_str("text"), Some("größe"));
    assert_eq!(
        metadata.metadata.get("list").unwrap().as_string_vec(),
        Some(&vec!["a".to_string(), "bc".to_string()])
    );
    assert_eq!(metadata.get_usize("big"), Some(1 << 40));
    assert_eq!(metadata.get_usize("missing"), None);
}

#[test]
fn a_stream_reads_as_the_bytes_do() {
    let mut bytes = header(GGUF_VERSION_3, 1, 2);
    push_kv_u32(&mut bytes, "llama.block_count", 12);
    push_kv_string(&mut bytes, "general.architecture", "llama");
    push_string(&mut bytes, "w");
    push_u32(&mut bytes, 2);
    push_u64(&mut bytes, 4);
    push_u64(&mut bytes, 8);
    push_u32(&mut bytes, 1);
    push_u64(&mut bytes, 0);
    let scanned = parse(&bytes).unwrap();
    let mut reader = ByteReader::new(bytes.clone());
    let mut parser = GgufReader::new();
    let streamed = parser.parse(&mut reader).unwrap();
    assert_eq!(streamed.num_layers(), Some(12));
    assert_eq!(streamed.num_layers(), scanned.num_layers());
    assert_eq!(streamed.architecture(), Some("llama"));
    assert_eq!(streamed.tensors.len(), scanned.tensors.len());
    assert_eq!(streamed.tensors[0].shape, scanned.tensors[0].shape);
    assert_eq!(parser.tensor_count(), 1);
    assert_eq!(parser.metadata().len(), 2);
    assert_eq!(parser.tensors().len(), 1);

    let mut short = ByteReader::new(bytes[..30].to_vec());
    assert_eq!(GgufReader::new().parse(&mut short).unwrap_err(), GgufError::ShortRead);
}

#[test]
fn numbers_are_written_as_they_are_read() {
    let order = GgufByteOrder::LittleEndian;
    let mut out = Vec::new();
    order.write_u32(&mut out, 0xdead_beef);
    order.write_u64(&mut out, 0x0123_4567_89ab_cdef);
    assert_eq!(&out[..4], &0xdead_beefu32.to_le_bytes());
    let mut reader = ByteReader::new(out);
    assert_eq!(order.read_u32(&mut reader).unwrap(), 0xdead_beef);
    assert_eq!(order.read_u64(&mut reader).unwrap(), 0x0123_4567_89ab_cdef);
    assert!(order.read_u32(&mut reader).is_err());
}

#[test]
fn payloads_that_are_short_or_unknown_are_refused() {
    assert_eq!(
        GgufReader::tensor_bytes_to_f32(GgufDataType::F32, 2, &[0, 0, 0, 0]).unwrap_err(),
        PayloadError::Truncated(GgufDataType::F32)
    );
    let refused = GgufReader::tensor_bytes_to_f32(GgufDataType::Q5_K, 256, &[0; 1000]).unwrap_err();
    assert_eq!(refused, PayloadError::Unsupported(GgufDataType::Q5_K));
    assert_eq!(refused.class(), ErrorClass::Unsupported);
    assert!(refused.message().contains("Q5_K"));
    let brain = GgufReader::tensor_bytes_to_f32(GgufDataType::BF16, 1, &[0x80, 0x3f]).unwrap();
    assert_eq!(values_of(&brain), vec![1.0]);
    let halves =
        GgufReader::tensor_bytes_to_f32(GgufDataType::F16, 1, &scale_bits(1.5).to_le_bytes())
            .unwrap();
    assert_eq!(values_of(&halves), vec![1.5]);
}

#[test]
fn errors_say_what_is_wrong() {
    assert!(GgufError::UnsupportedVersion(9).message().contains('9'));
    assert_eq!(GgufError::ShortRead.class(), ErrorClass::UnexpectedEof);
    assert_eq!(GgufError::UnknownDataType(77).class(), ErrorClass::InvalidData);
    assert!(GgufError::UnknownDataType(77).message().contains("77"));
}

#[test]
fn a_million_is_the_default_base() {
    let metadata = parse(&header(GGUF_VERSION_3, 0, 0)).unwrap();
    assert_eq!(f32::from_bits(metadata.rope_freq_base()), 1_000_000.0);
    assert_eq!(metadata.alignment, 32);
    assert_eq!(metadata.vocab_size(), None);
}

#[test]
fn values_are_read_as_what_they_are() {
    assert_eq!(GgufValue::U32(7).as_u32(), Some(7));
    assert_eq!(GgufValue::I32(7).as_u32(), None);
    assert_eq!(GgufValue::I32Vec(vec![1, -2]).as_i32_vec(), Some(&vec![1, -2]));
    assert_eq!(GgufValue::U32(7).as_i32_vec(), None);
    let bits = vec![1.5f32.to_bits()];
    assert_eq!(GgufValue::F32Vec(bits.clone()).as_f32_vec(), Some(&bits));
    assert_eq!(GgufValue::I32Vec(vec![1]).as_f32_vec(), None);

    let mut bytes = header(GGUF_VERSION_3, 0, 2);
    push_kv_u32(&mut bytes, "llama.rope.dimension_count", 64);
    push_kv_string(&mut bytes, "llama.quantization_version", "2");
    let metadata = parse(&bytes).unwrap();
    assert_eq!(metadata.rope_dim(), Some(64));
    assert_eq!(metadata.quant_format(), Some("2"));
    assert_eq!(metadata.vocab_size(), None);
    assert_eq!(f32::from_bits(metadata.rope_freq_base()), 1_000_000.0);
}

#[test]
fn texts_that_are_not_utf8_are_refused_in_the_words_of_std() {
    for bad in [&b"ab\xffcd"[..], &b"\xe2\x82"[..], &b"a\xf0\x9f\x92"[..], &b"\xed\xa0\x80"[..]] {
        let mut bytes = header(GGUF_VERSION_3, 0, 1);
        push_u64(&mut bytes, bad.len() as u64);
        bytes.extend_from_slice(bad);
        push_u32(&mut bytes, 0);
        bytes.push(1);
        let words = std::str::from_utf8(bad).unwrap_err().to_string();
        assert_eq!(parse(&bytes).unwrap_err().message(), words);
        let mut reader = ByteReader::new(bytes);
        assert_eq!(GgufReader::new().parse(&mut reader).unwrap_err().message(), words);
    }
}

#[test]
fn every_version_is_read() {
    for version in [GGUF_VERSION_1, GGUF_VERSION_2, GGUF_VERSION_3] {
        let mut bytes = header(version, 0, 1);
        push_kv_u32(&mut bytes, "llama.block_count", 5);
        let metadata = parse(&bytes).unwrap();
        assert_eq!((metadata.version, metadata.num_layers()), (version, Some(5)));
        let mut parser = GgufReader::new();
        assert!(parser.read_header(&mut ByteReader::new(bytes.clone())).is_ok());
        let streamed = GgufReader::new().parse(&mut ByteReader::new(bytes)).unwrap();
        assert_eq!(streamed.num_layers(), Some(5));
    }
    let mut bytes = b"GGUF".to_vec();
    push_u32(&mut bytes, 1);
    bytes.extend_from_slice(&[0u8; 16]);
    assert_eq!(GgufReader::new().read_header(&mut ByteReader::new(bytes)), Ok(()));
    let newer = header(4, 0, 0);
    let error = GgufReader::new().parse(&mut ByteReader::new(newer)).unwrap_err();
    assert_eq!(error.message(), "Unsupported GGUF version: 4. Only v1, v2 and v3 supported.");
}

#[test]
fn data_types_have_the_numbers_of_ggml() {
    let known = [
        (GgufDataType::IQ2_XXS, 16),
        (GgufDataType::IQ2_XS, 17),
        (GgufDataType::IQ3_XXS, 18),
        (GgufDataType::IQ1_S, 19),
        (GgufDataType::IQ4_NL, 20),
        (GgufDataType::IQ3_S, 21),
        (GgufDataType::IQ2_S, 22),
        (GgufDataType::IQ4_XS, 23),
        (GgufDataType::I8, 24),
        (GgufDataType::I16, 25),
        (GgufDataType::I32, 26),
        (GgufDataType::I64, 27),
        (GgufDataType::F64, 28),
        (GgufDataType::BF16, 30),
    ];
    for (data_type, id) in known {
        assert_eq!(data_type.id(), id);
        assert_eq!(GgufDataType::from_id(id), Some(data_type));
    }
}

#[test]
fn arrays_that_are_not_kept_are_passed_over_whole() {
    let mut one = Vec::new();
    push_u32(&mut one, GgufValueType::U64.id());
    push_u64(&mut one, 1);
    push_u64(&mut one, 7);
    let (_, taken) = read_value_from_bytes(&one, 0, GgufValueType::Array).unwrap();
    assert_eq!(taken, 20);

    let sizes = [
        (GgufValueType::U8, 1),
        (GgufValueType::I8, 1),
        (GgufValueType::Bool, 1),
        (GgufValueType::U16, 2),
        (GgufValueType::I16, 2),
        (GgufValueType::U32, 4),
        (GgufValueType::U64, 8),
        (GgufValueType::I64, 8),
        (GgufValueType::F64, 8),
    ];
    for (element, size) in sizes {
        let mut bytes = header(GGUF_VERSION_3, 0, 2);
        push_string(&mut bytes, "list");
        push_u32(&mut bytes, GgufValueType::Array.id());
        push_u32(&mut bytes, element.id());
        push_u64(&mut bytes, 3);
        bytes.extend_from_slice(&vec![1u8; 3 * size]);
        push_kv_u32(&mut bytes, "llama.block_count", 9);
        assert_eq!(parse(&bytes).unwrap().num_layers(), Some(9), "{:?}", element);
        if matches!(element, GgufValueType::Bool | GgufValueType::U64) {
            let streamed = GgufReader::new().parse(&mut ByteReader::new(bytes)).unwrap();
            assert_eq!(streamed.num_layers(), Some(9));
        }
    }
}

#[test]
fn elements_that_are_passed_over_are_not_looked_at() {
    let mut cut = Vec::new();
    push_u32(&mut cut, GgufValueType::U16.id());
    push_u64(&mut cut, 3);
    let (value, taken) = read_value_from_bytes(&cut, 0, GgufValueType::Array).unwrap();
    assert!(matches!(value, GgufValue::I32Vec(list) if list.is_empty()));
    assert_eq!(taken, 18);
    let mut kept = Vec::new();
    push_u32(&mut kept, GgufValueType::I32.id());
    push_u64(&mut kept, 3);
    assert_eq!(
        read_value_from_bytes(&kept, 0, GgufValueType::Array).unwrap_err(),
        Fault::Overrun
    );

    let mut file = header(GGUF_VERSION_3, 0, 1);
    push_string(&mut file, "list");
    push_u32(&mut file, GgufValueType::Array.id());
    file.extend_from_slice(&cut);
    assert!(GgufReader::new().scan_bytes(&file).is_ok());

    let mut endless = Vec::new();
    push_u32(&mut endless, GgufValueType::U64.id());
    push_u64(&mut endless, u64::MAX);
    assert_eq!(
        read_value_from_bytes(&endless, 0, GgufValueType::Array).unwrap_err(),
        Fault::Overrun
    );
}

#[test]
fn arrays_of_arrays_are_passed_over_whole() {
    let mut nested = Vec::new();
    push_u32(&mut nested, GgufValueType::Array.id());
    push_u64(&mut nested, 4);
    push_u32(&mut nested, GgufValueType::U64.id());
    push_u64(&mut nested, 2);
    nested.extend_from_slice(&[1; 16]);
    push_u32(&mut nested, GgufValueType::String.id());
    push_u64(&mut nested, 2);
    push_string(&mut nested, "ab");
    push_string(&mut nested, "");
    push_u32(&mut nested, GgufValueType::Array.id());
    push_u64(&mut nested, 2);
    for _ in 0..2 {
        push_u32(&mut nested, GgufValueType::Bool.id());
        push_u64(&mut nested, 1);
        nested.push(1);
    }
    push_u32(&mut nested, GgufValueType::I32.id());
    push_u64(&mut nested, 1);
    push_u32(&mut nested, 5);

    let (value, taken) = read_value_from_bytes(&nested, 0, GgufValueType::Array).unwrap();
    assert!(matches!(value, GgufValue::I32Vec(list) if list.is_empty()));
    assert_eq!(taken, nested.len());

    let mut file = header(GGUF_VERSION_3, 0, 2);
    push_string(&mut file, "lists");
    push_u32(&mut file, GgufValueType::Array.id());
    file.extend_from_slice(&nested);
    push_kv_u32(&mut file, "llama.block_count", 9);
    assert_eq!(parse(&file).unwrap().num_layers(), Some(9));
    let streamed = GgufReader::new().parse(&mut ByteReader::new(file));
    assert_eq!(streamed.unwrap_err(), GgufError::UnsupportedArrayType);

    let mut none = nested[..4].to_vec();
    push_u64(&mut none, 0);
    assert_eq!(read_value_from_bytes(&none, 0, GgufValueType::Array).unwrap().1, 12);
    let header_cut = &nested[..20];
    assert_eq!(
        read_value_from_bytes(header_cut, 0, GgufValueType::Array).unwrap_err(),
        Fault::Overrun
    );
    let mut unknown = nested.clone();
    unknown[12] = 77;
    assert_eq!(
        read_value_from_bytes(&unknown, 0, GgufValueType::Array).unwrap_err(),
        Fault::Refused(GgufError::UnknownArrayType)
    );
}

#[test]
fn as_many_weights_are_decoded_as_are_asked_for() {
    for (data_type, size, held) in [(GgufDataType::Q8_0, 34, 32), (GgufDataType::Q4_K, 144, 256)] {
        let block = vec![1u8; size];
        for n in [1, 31, 32] {
            let terms = GgufReader::tensor_bytes_to_f32(data_type, n, &block).unwrap();
            assert_eq!(terms.len(), n);
        }
        // Blocks are decoded whole where no weights are asked for.
        let terms = GgufReader::tensor_bytes_to_f32(data_type, 0, &block).unwrap();
        assert_eq!(terms.len(), held);
    }
    let floats = GgufReader::tensor_bytes_to_f32(GgufDataType::F32, 0, &[0; 8]).unwrap();
    assert_eq!(floats.len(), 0);
}
