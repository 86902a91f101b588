use nexus::quant::blocks::{pack_q4_k_scales, unpack_q4_k_scales, WeightCoding, WeightTerm};
use nexus::quant::codebook::find_closest;
use nexus::quant::encode::{
    put_affine_block, put_q2_k_block, put_q4_0_block, put_q4_k_block, put_q8_0_block,
};
use nexus::quant::packing::{pack_codes, read_packed_bits, write_packed_bits, zero_bytes};
use nexus::quant::{
    Codebook, GroupSize, KvQuantType, QuantEngine, QuantFormat, QuantParams, QuantType,
    RotationMatrix,
};
use rand::rngs::StdRng;
use rand::{Rng, SeedableRng};

#[test]
fn lib_test_quant_format_names() {
    assert_eq!(QuantFormat::Q2_K.name(), "Q2_K");
    assert_eq!(QuantFormat::Q4_0.name(), "Q4_0");
    assert_eq!(QuantFormat::Q4_K.name(), "Q4_K");
    assert_eq!(QuantFormat::Q6_K.name(), "Q6_K");
    assert_eq!(QuantFormat::Q8_0.name(), "Q8_0");
    assert_eq!(QuantFormat::MXFP4.name(), "MXFP4");
}

#[test]
fn test_quant_type_bits() {
    assert_eq!(QuantType::Q2_K.bits(), 2);
    assert_eq!(QuantType::Q4_0.bits(), 4);
    assert_eq!(QuantType::Q4_K.bits(), 4);
    assert_eq!(QuantType::Q6_K.bits(), 6);
    assert_eq!(QuantType::Q8_0.bits(), 8);
    assert_eq!(QuantType::FP16.bits(), 16);
    assert_eq!(QuantType::FP32.bits(), 32);
}

#[test]
fn test_kv_quant_type() {
    assert_eq!(KvQuantType::Unquantized.bits(), 16);
    assert_eq!(KvQuantType::TurboQuant3b2b.key_bits(), 3);
    assert_eq!(KvQuantType::TurboQuant3b2b.val_bits(), 2);
    assert_eq!(KvQuantType::TurboQuant4b4b.key_bits(), 4);
    assert_eq!(KvQuantType::TurboQuant4b4b.val_bits(), 4);
}

#[test]
fn mod_test_quant_format_names() {
    assert_eq!(QuantFormat::Q2_K.name(), "Q2_K");
    assert_eq!(QuantFormat::Q4_K.name(), "Q4_K");
    assert_eq!(QuantFormat::MXFP4.name(), "MXFP4");
}

#[test]
fn test_quant_format_bits() {
    assert_eq!(QuantFormat::Q2_K.bits(), 2);
    assert_eq!(QuantFormat::Q4_0.bits(), 4);
    assert_eq!(QuantFormat::Q6_K.bits(), 6);
    assert_eq!(QuantFormat::Q8_0.bits(), 8);
}

#[test]
fn test_quant_format_compression() {
    assert_eq!(f32::from_bits(QuantFormat::Q2_K.compression_ratio()), 0.125);
    assert_eq!(f32::from_bits(QuantFormat::Q4_K.compression_ratio()), 0.25);
    assert_eq!(f32::from_bits(QuantFormat::Q8_0.compression_ratio()), 0.5);
}

#[test]
fn test_quant_format_from_str() {
    assert_eq!(QuantFormat::from_str("q4_0"), Some(QuantFormat::Q4_0));
    assert_eq!(QuantFormat::from_str("Q8_K"), Some(QuantFormat::Q8_K));
    assert_eq!(QuantFormat::from_str("invalid"), None);
}

#[test]
fn test_kv_quant_types() {
    assert_eq!(KvQuantType::Unquantized.bits(), 16);
    assert_eq!(KvQuantType::TurboQuant3b2b.key_bits(), 3);
    assert_eq!(KvQuantType::TurboQuant3b2b.val_bits(), 2);
    assert_eq!(f32::from_bits(KvQuantType::TurboQuant4b4b.compression_ratio()), 2.0);
}

fn level_value(codebook: &Codebook, level: i64) -> f32 {
    level as f32 / (1u64 << codebook.bits) as f32
}

fn code_of(codebook: &Codebook, value: f32) -> u32 {
    let distances: Vec<u32> = codebook
        .levels
        .iter()
        .map(|l| (level_value(codebook, *l) - value).abs().to_bits())
        .collect();
    find_closest(&distances) as u32
}

fn codes_of(codebook: &Codebook, values: &[f32]) -> Vec<u32> {
    values.iter().map(|v| code_of(codebook, *v)).collect()
}

#[test]
fn test_codebook() {
    let cb = Codebook::new(4, 128);
    assert_eq!(cb.bits, 4);
    assert_eq!(cb.levels.len(), 16);

    let q = level_value(&cb, cb.levels[code_of(&cb, 0.5) as usize]);
    assert!((-1.0..=1.0).contains(&q));

    let test_vals: Vec<f32> = (0..16).map(|i| i as f32 * 0.1 - 0.75).collect();
    let encoded = cb.encode(&codes_of(&cb, &test_vals));
    let decoded = cb.decode(&encoded);
    assert_eq!(decoded.len(), test_vals.len());
    for (level, value) in decoded.iter().zip(test_vals.iter()) {
        assert!((level_value(&cb, *level) - value).abs() <= 0.0626);
    }
}

#[test]
fn test_codebook_3bit_is_bit_packed() {
    let cb = Codebook::new(3, 16);
    let values: Vec<f32> = (0..16).map(|i| i as f32 / 8.0 - 1.0).collect();
    let encoded = cb.encode(&codes_of(&cb, &values));
    assert_eq!(encoded.len(), 6);
    let decoded = cb.decode_exact(&encoded, values.len());
    assert_eq!(decoded.len(), values.len());
}

#[test]
fn as_many_levels_are_decoded_as_are_asked_for() {
    for bits in [2, 3, 4, 6] {
        let cb = Codebook::new(bits, 4);
        let encoded = cb.encode(&vec![1, 0, 3, 2]);
        let all: Vec<i64> = [1usize, 0, 3, 2].iter().map(|code| cb.levels[*code]).collect();
        for n in 0..5 {
            assert_eq!(cb.decode_exact(&encoded, n), all[..n]);
        }
    }
}

#[test]
fn levels_are_those_of_the_midpoints() {
    for bits in 1..8u32 {
        let cb = Codebook::new(bits, 1);
        let n = 1usize << bits;
        assert_eq!(cb.levels.len(), n);
        for i in 0..n {
            let t = (i as f32 + 0.5) / n as f32;
            assert_eq!(level_value(&cb, cb.levels[i]), 2.0 * t - 1.0);
        }
    }
}

#[test]
fn the_closest_level_is_the_first_of_the_least() {
    let distances: Vec<u32> =
        [3.0f32, 1.0, f32::NAN, 1.0, 0.5, 0.5].iter().map(|d| d.to_bits()).collect();
    assert_eq!(find_closest(&distances), 4);
    assert_eq!(find_closest(&vec![f32::NAN.to_bits(), f32::INFINITY.to_bits()]), 0);
    assert_eq!(find_closest(&Vec::new()), 0);
}

fn half_bits(value: f32) -> u16 {
    half::f16::from_f32(value).to_bits()
}

fn half_value(bits: u16) -> f32 {
    half::f16::from_bits(bits).to_f32()
}

fn term_value(term: &WeightTerm) -> f32 {
    match *term {
        WeightTerm::Value(bits) => f32::from_bits(bits),
        WeightTerm::Half(bits) => half_value(bits),
        WeightTerm::Product { signed, d } => signed as f32 * half_value(d),
        WeightTerm::Offset { d, scale, code, dmin, min } => {
            half_value(d) * scale as f32 * code as f32 - half_value(dmin) * min as f32
        }
        WeightTerm::Affine { low, level, step } => {
            half_value(low) + level as f32 * half_value(step)
        }
    }
}

fn decoded(engine: &QuantEngine, data: &[u8], len: usize) -> Vec<f32> {
    engine.dequantize(data, len).iter().map(term_value).collect()
}

fn largest(chunk: &[f32]) -> f32 {
    chunk.iter().copied().map(f32::abs).fold(0.0f32, f32::max)
}

fn q8_0(data: &[f32]) -> Vec<u8> {
    let mut out = Vec::new();
    for chunk in data.chunks(32) {
        let scale = largest(chunk) / 127.0;
        let codes: Vec<i8> = (0..32)
            .map(|i| {
                let value = chunk.get(i).copied().unwrap_or(0.0);
                if scale > 0.0 {
                    (value / scale).round().clamp(-128.0, 127.0) as i8
                } else {
                    0
                }
            })
            .collect();
        put_q8_0_block(&mut out, half_bits(scale), &codes);
    }
    out
}

fn q4_0(data: &[f32]) -> Vec<u8> {
    let mut out = Vec::new();
    for chunk in data.chunks(32) {
        let scale = largest(chunk) / 7.0;
        let codes: Vec<u8> = (0..32)
            .map(|i| {
                let value = chunk.get(i).copied().unwrap_or(0.0);
                if scale > 0.0 {
                    ((value / scale).round().clamp(-8.0, 7.0) as i32 + 8) as u8
                } else {
                    8
                }
            })
            .collect();
        put_q4_0_block(&mut out, half_bits(scale), &codes);
    }
    out
}

fn k_blocks(data: &[f32], subs: usize, top_code: f32, top_scale: f32) -> Vec<u8> {
    let mut out = Vec::new();
    for chunk in data.chunks(256) {
        let mut block = [0.0f32; 256];
        block[..chunk.len()].copy_from_slice(chunk);
        let size = 256 / subs;
        let mut tops = Vec::new();
        let mut offsets = Vec::new();
        for sub in block.chunks(size) {
            let min = sub.iter().copied().fold(f32::INFINITY, f32::min);
            let max = sub.iter().copied().fold(f32::NEG_INFINITY, f32::max);
            let offset = if min < 0.0 { -min } else { 0.0 };
            tops.push(((max + offset) / top_code).max(0.0));
            offsets.push(offset);
        }
        let d = tops.iter().copied().fold(0.0f32, f32::max) / top_scale;
        let dmin = offsets.iter().copied().fold(0.0f32, f32::max) / top_scale;
        let part = |value: f32, unit: f32| -> u8 {
            if unit > 0.0 && value > 0.0 {
                (value / unit).round().clamp(1.0, top_scale) as u8
            } else {
                0
            }
        };
        let scales: Vec<u8> = tops.iter().map(|v| part(*v, d)).collect();
        let mins: Vec<u8> = offsets.iter().map(|v| part(*v, dmin)).collect();
        let codes: Vec<u8> = (0..256)
            .map(|i| {
                let scale = d * scales[i / size] as f32;
                let offset = dmin * mins[i / size] as f32;
                if scale > 0.0 {
                    ((block[i] + offset) / scale).round().clamp(0.0, top_code) as u8
                } else {
                    0
                }
            })
            .collect();
        if subs == 8 {
            put_q4_k_block(&mut out, half_bits(d), half_bits(dmin), &scales, &mins, &codes);
        } else {
            put_q2_k_block(&mut out, half_bits(d), half_bits(dmin), &scales, &mins, &codes);
        }
    }
    out
}

fn affine(data: &[f32], coding: WeightCoding, bits: u32) -> Vec<u8> {
    let mut out = Vec::new();
    let levels = ((1u32 << bits) - 1) as f32;
    for chunk in data.chunks(32) {
        let min = chunk.iter().copied().fold(f32::INFINITY, f32::min);
        let max = chunk.iter().copied().fold(f32::NEG_INFINITY, f32::max);
        let scale = if (max - min).abs() > 1e-8 { (max - min) / levels } else { 1.0 };
        let codes: Vec<u32> = (0..32)
            .map(|i| {
                let value = chunk.get(i).copied().unwrap_or(min);
                ((value - min) / scale).round().clamp(0.0, levels) as u32
            })
            .collect();
        put_affine_block(&mut out, coding, half_bits(min), half_bits(scale), &codes);
    }
    out
}

#[test]
fn test_quant_engine() {
    let engine = QuantEngine::new(QuantFormat::Q4_K, KvQuantType::TurboQuant3b2b);
    assert_eq!(engine.weight_format, QuantFormat::Q4_K);
    assert_eq!(engine.kv_quant, KvQuantType::TurboQuant3b2b);

    let data: Vec<f32> = (0..64).map(|i| i as f32 * 0.1 - 3.2).collect();
    let quantized = k_blocks(&data, 8, 15.0, 63.0);
    assert!(!quantized.is_empty());
    assert_eq!(engine.dequantize(&quantized, data.len()).len(), data.len());

    let mem = engine.kv_cache_memory(4, 64, 1024);
    assert_eq!(mem, (4usize * 64 * 1024 * (3 + 2)).div_ceil(8));
}

#[test]
fn test_q8_weight_quant_roundtrip() {
    let engine = QuantEngine::new(QuantFormat::Q8_0, KvQuantType::Unquantized);
    let data: Vec<f32> = (0..64).map(|i| i as f32 / 16.0 - 2.0).collect();
    let quantized = q8_0(&data);
    let decoded = decoded(&engine, &quantized, data.len());

    assert_eq!(decoded.len(), data.len());
    for (actual, expected) in decoded.iter().zip(data.iter()) {
        assert!((actual - expected).abs() < 0.03);
    }
}

#[test]
fn test_q4_weight_quant_roundtrip() {
    let engine = QuantEngine::new(QuantFormat::Q4_0, KvQuantType::Unquantized);
    let data: Vec<f32> = (0..64).map(|i| i as f32 / 16.0 - 2.0).collect();
    let quantized = q4_0(&data);
    let decoded = decoded(&engine, &quantized, data.len());

    assert_eq!(decoded.len(), data.len());
    for (actual, expected) in decoded.iter().zip(data.iter()) {
        assert!((actual - expected).abs() < 0.3);
    }
}

#[test]
fn test_q4_k_weight_quant_roundtrip() {
    let engine = QuantEngine::new(QuantFormat::Q4_K, KvQuantType::Unquantized);
    let data: Vec<f32> = (0..300).map(|i| i as f32 / 31.0 - 4.0).collect();
    let quantized = k_blocks(&data, 8, 15.0, 63.0);
    assert_eq!(quantized.len(), data.len().div_ceil(256) * 144);
    let decoded = decoded(&engine, &quantized, data.len());

    assert_eq!(decoded.len(), data.len());
    for (actual, expected) in decoded.iter().zip(data.iter()) {
        assert!((actual - expected).abs() < 0.4);
    }
}

#[test]
fn test_q2_k_weight_quant_roundtrip() {
    let engine = QuantEngine::new(QuantFormat::Q2_K, KvQuantType::Unquantized);
    let data: Vec<f32> = (0..300).map(|i| i as f32 / 31.0 - 4.0).collect();
    let quantized = k_blocks(&data, 16, 3.0, 15.0);
    assert_eq!(quantized.len(), data.len().div_ceil(256) * 84);
    let decoded = decoded(&engine, &quantized, data.len());

    assert_eq!(decoded.len(), data.len());
    for (actual, expected) in decoded.iter().zip(data.iter()) {
        assert!((actual - expected).abs() < 1.6);
    }
}

#[test]
fn test_affine_nbit_weight_quant_roundtrip() {
    let engine = QuantEngine::new(QuantFormat::Q3_K, KvQuantType::Unquantized);
    let data: Vec<f32> = (0..64).map(|i| i as f32 / 16.0 - 2.0).collect();
    let quantized = affine(&data, WeightCoding::Affine3, 3);
    let decoded = decoded(&engine, &quantized, data.len());

    assert_eq!(decoded.len(), data.len());
    for (actual, expected) in decoded.iter().zip(data.iter()) {
        assert!((actual - expected).abs() < 0.6);
    }
}

fn rotation(dim: usize) -> Vec<f32> {
    let mut rng = StdRng::seed_from_u64(42);
    let mut rows: Vec<Vec<f32>> = Vec::new();
    for _ in 0..dim {
        let mut row: Vec<f32> = (0..dim).map(|_| rng.gen_range(-1.0..1.0)).collect();
        for _ in 0..2 {
            for other in &rows {
                let dot: f32 = row.iter().zip(other.iter()).map(|(a, b)| a * b).sum();
                for (x, y) in row.iter_mut().zip(other.iter()) {
                    *x -= dot * y;
                }
            }
            let norm = row.iter().map(|x| x * x).sum::<f32>().sqrt();
            for x in row.iter_mut() {
                *x /= norm;
            }
        }
        rows.push(row);
    }
    rows.concat()
}

#[test]
fn test_turboquant_roundtrip() {
    let mut engine = QuantEngine::new(QuantFormat::FP16, KvQuantType::TurboQuant3b2b);
    let turn = rotation(64);
    let mut matrix = RotationMatrix::new(64);
    matrix.data = turn.iter().map(|x| x.to_bits()).collect();
    engine.add_rotation(0, matrix);

    let keys: Vec<f32> = (0..64).map(|_| rand::random::<f32>() * 2.0 - 1.0).collect();
    let values: Vec<f32> = (0..64).map(|_| rand::random::<f32>() * 2.0 - 1.0).collect();
    let rotated: Vec<f32> = (0..64)
        .map(|i| (0..64).map(|j| turn[i * 64 + j] * keys[j]).sum())
        .collect();

    let key_book = engine.get_codebook(3, 64);
    let value_book = engine.get_codebook(2, 64);
    let key_codes = codes_of(&engine.codebooks[key_book], &rotated);
    let value_codes = codes_of(&engine.codebooks[value_book], &values);
    let (qk, qv) = engine.turboquant_kv(&key_codes, &value_codes);
    assert_eq!(qk.len(), 24);
    assert_eq!(qv.len(), 16);
    let (key_levels, value_levels) = engine.turboquant_dequant_kv(&qk, &qv);
    let flat: Vec<f32> =
        key_levels.iter().map(|l| level_value(&engine.codebooks[key_book], *l)).collect();
    let dk: Vec<f32> = (0..64)
        .map(|i| (0..64).map(|j| turn[j * 64 + i] * flat[j]).sum())
        .collect();

    assert_eq!(dk.len(), keys.len());
    assert_eq!(value_levels.len(), values.len());

    let dot: f32 = keys.iter().zip(dk.iter()).map(|(a, b)| a * b).sum();
    let norm_k: f32 = keys.iter().map(|x| x * x).sum::<f32>().sqrt();
    let norm_d: f32 = dk.iter().map(|x| x * x).sum::<f32>().sqrt();

    if norm_k > 1e-8 && norm_d > 1e-8 {
        let cos_sim = dot / (norm_k * norm_d);
        assert!(cos_sim > 0.9, "Key cosine similarity too low: {}", cos_sim);
    }
}

#[test]
fn test_group_size() {
    assert_eq!(GroupSize::N32.value(), 32);
    assert_eq!(GroupSize::N64.value(), 64);
    assert_eq!(GroupSize::from_str("128"), Some(GroupSize::N128));
}

#[test]
fn test_quant_params() {
    let p = QuantParams::new(0.5f32.to_bits(), (-0.1f32).to_bits());
    assert_eq!(f32::from_bits(p.scale), 0.5);
    assert_eq!(f32::from_bits(p.delta), -0.1);

    let identity = QuantParams::identity();
    assert_eq!(f32::from_bits(identity.scale), 1.0);
    assert_eq!(f32::from_bits(identity.delta), 0.0);
}

#[test]
fn ratios_are_the_bits_of_their_values() {
    let formats = [
        (QuantFormat::Q2_K, 0.125f32),
        (QuantFormat::Q3_K, 0.1875),
        (QuantFormat::Q4_0, 0.25),
        (QuantFormat::Q4_1, 0.25),
        (QuantFormat::Q4_K, 0.25),
        (QuantFormat::Q5_0, 0.3125),
        (QuantFormat::Q5_1, 0.3125),
        (QuantFormat::Q5_K, 0.3125),
        (QuantFormat::Q6_K, 0.375),
        (QuantFormat::Q8_0, 0.5),
        (QuantFormat::Q8_K, 0.5),
        (QuantFormat::MXFP4, 0.25),
        (QuantFormat::FP16, 0.5),
        (QuantFormat::FP32, 1.0),
    ];
    for (format, ratio) in formats {
        assert_eq!(format.compression_ratio(), ratio.to_bits());
        assert_eq!(QuantFormat::from_str(format.name()), Some(format));
        assert_eq!(QuantFormat::from_str(&format.name().to_lowercase()), Some(format));
    }
    let caches = [
        (KvQuantType::Unquantized, 1.0f32),
        (KvQuantType::TurboQuant3b2b, 4.41),
        (KvQuantType::TurboQuant3b4b, 2.75),
        (KvQuantType::TurboQuant4b4b, 2.0),
        (KvQuantType::BlockQ4, 4.0),
        (KvQuantType::BlockQ6, 2.67),
    ];
    for (cache, ratio) in caches {
        assert_eq!(cache.compression_ratio(), ratio.to_bits());
        assert_eq!(KvQuantType::from_str(cache.name()), Some(cache));
    }
    assert_eq!(QuantFormat::from_str("mxfp4_4x4"), Some(QuantFormat::MXFP4));
    assert_eq!(KvQuantType::from_str("bf16"), Some(KvQuantType::Unquantized));
    assert_eq!(KvQuantType::from_str("TQ_3B2B"), None);
    assert_eq!(GroupSize::from_str("96"), None);
    assert_eq!(GroupSize::from_str("256").map(|g| g.value()), Some(256));
}

#[test]
fn packed_codes_are_read_back() {
    for bits in 1..=9u32 {
        let codes: Vec<u32> = (0..100u32).map(|i| (i * 37 + 5) % (1 << bits)).collect();
        let packed = pack_codes(&codes, bits);
        assert_eq!(packed.len(), (100 * bits as usize).div_ceil(8));
        for (i, code) in codes.iter().enumerate() {
            assert_eq!(read_packed_bits(&packed, i, bits), *code);
        }
        assert_eq!(read_packed_bits(&packed, 5000, bits), 0);
    }
    let mut data = zero_bytes(3);
    write_packed_bits(&mut data, 2, 5, 0b10110);
    assert_eq!(data, vec![0, 0b0101_1000, 0]);
}

#[test]
fn packed_scales_are_read_back() {
    let scales: Vec<u8> = vec![0, 63, 17, 32, 1, 62, 48, 15];
    let mins: Vec<u8> = vec![5, 40, 63, 0, 16, 33, 47, 61];
    let packed = pack_q4_k_scales(&scales, &mins);
    assert_eq!(packed.len(), 12);
    assert_eq!(unpack_q4_k_scales(&packed), (scales, mins));
}

#[test]
fn blocks_are_decoded_to_their_codes() {
    let engine = QuantEngine::new(QuantFormat::Q8_0, KvQuantType::Unquantized);
    let codes: Vec<i8> = (0..32).map(|i| i as i8 * 7 - 100).collect();
    let mut out = Vec::new();
    put_q8_0_block(&mut out, 0x3800, &codes);
    assert_eq!(out.len(), 34);
    for (term, code) in engine.dequantize(&out, 32).iter().zip(codes.iter()) {
        assert_eq!(*term, WeightTerm::Product { signed: *code, d: 0x3800 });
    }
    let nibbles = QuantEngine::new(QuantFormat::MXFP4, KvQuantType::Unquantized);
    let codes: Vec<u8> = (0..32).map(|i| (i * 5 % 16) as u8).collect();
    let mut out = Vec::new();
    put_q4_0_block(&mut out, 0x3c00, &codes);
    for (term, code) in nibbles.dequantize(&out, 32).iter().zip(codes.iter()) {
        assert_eq!(*term, WeightTerm::Product { signed: *code as i8 - 8, d: 0x3c00 });
    }
    let plain = QuantEngine::new(QuantFormat::FP32, KvQuantType::Unquantized);
    let bytes: Vec<u8> = [1.5f32, -3.25].iter().flat_map(|v| v.to_le_bytes()).collect();
    assert_eq!(decoded(&plain, &bytes, 2), vec![1.5, -3.25]);
    let short = QuantEngine::new(QuantFormat::FP16, KvQuantType::Unquantized);
    let bytes: Vec<u8> = half_bits(0.75).to_le_bytes().to_vec();
    assert_eq!(decoded(&short, &bytes, 1), vec![0.75]);
}

#[test]
fn common_codebooks_are_there_from_the_start() {
    let mut engine = QuantEngine::default();
    assert_eq!(engine.weight_format, QuantFormat::Q4_K);
    assert_eq!(engine.codebooks.len(), 6);
    assert!(engine.has_codebooks());
    let place = engine.get_codebook(3, 128);
    assert!(place < 6);
    assert_eq!(engine.get_codebook(5, 10), 6);
    assert_eq!(engine.get_codebook(5, 10), 6);
    assert_eq!(engine.codebooks[6].levels.len(), 32);
    engine.add_rotation(2, RotationMatrix::new(4));
    assert_eq!(engine.rotations.len(), 3);
    assert_eq!(engine.rotations[0].data, vec![0; 16]);
}
