//! Bit patterns, text and memory.

use herbert_backend::arith::{
    clamp_usize, div_ceil_usize, max_usize, min_usize, saturating_product, saturating_product_u128,
};
use herbert_backend::bf16_convert::{
    bf16_to_f32_bits, convert_f32_to_bf16, convert_f32_to_bf16_scalar, f32_bits_to_bf16,
};
use herbert_backend::bf16_weight::{
    load_model, sizes_fit, Bf16Avx512Config, Bf16Weight, LoadStep, CACHE_VERSION,
};
use herbert_backend::float_order::{is_greater, is_nan, order_key};
use herbert_backend::hugepages::{align_to_page, hint_range, hugepage_region_len, HugeVec};
use herbert_backend::kernels::{
    check_rope_single, divides_matmul, divides_matvec, group_bounds, group_col_sums, has_avx2_fma,
    has_avx512bf16, has_avx512f, norm_kernel, tile_count, tile_rows, validate_rope_batch_window,
    CpuFeatures, NormKernel, PreQuantizedInput, RopeError,
};
use herbert_backend::text::{
    chars_of, find_word, parse_bool, parse_usize, same_text, setting_bool, setting_usize,
};

fn bits(values: &[f32]) -> Vec<u32> {
    values.iter().map(|v| v.to_bits()).collect()
}

#[test]
fn test_scalar_conversion() {
    let src = bits(&[1.0f32, -2.5, 0.0, 3.14159, f32::INFINITY, f32::NEG_INFINITY]);
    let mut dst = vec![0u16; src.len()];
    convert_f32_to_bf16_scalar(&src, &mut dst);

    // BF16 of 1.0 = 0x3F80
    assert_eq!(dst[0], 0x3F80);
    // BF16 of 0.0 = 0x0000
    assert_eq!(dst[2], 0x0000);
    assert_eq!(dst[4], 0x7F80);
    assert_eq!(dst[5], 0xFF80);
}

#[test]
fn test_roundtrip_precision() {
    let values: Vec<f32> = (0..128).map(|i| (i as f32 - 64.0) * 0.1).collect();
    let mut bf16 = vec![0u16; values.len()];
    convert_f32_to_bf16(&bits(&values), &mut bf16);

    // Verify each value round-trips within BF16 precision (~0.8% relative error)
    for (i, &v) in values.iter().enumerate() {
        let bits = (bf16[i] as u32) << 16;
        let back = f32::from_bits(bits);
        if v.abs() > 0.01 {
            let rel_err = ((back - v) / v).abs();
            assert!(rel_err < 0.01, "value {} roundtrip error {}", v, rel_err);
        }
    }
}

#[test]
fn conversion_stops_at_the_shorter_slice() {
    let mut dst = vec![7u16; 3];
    convert_f32_to_bf16_scalar(&bits(&[1.0]), &mut dst);
    assert_eq!(dst, vec![0x3F80, 7, 7]);
    let mut short = vec![0u16; 1];
    convert_f32_to_bf16_scalar(&bits(&[2.0, 1.0]), &mut short);
    assert_eq!(short, vec![0x4000]);
}

#[test]
fn rounding_undoes_widening_for_every_half() {
    for half in 0..=u16::MAX {
        assert_eq!(f32_bits_to_bf16(bf16_to_f32_bits(half)), half);
    }
}

#[test]
fn ties_round_to_even_and_keep_order() {
    assert_eq!(f32_bits_to_bf16(0x3F80_8000), 0x3F80);
    assert_eq!(f32_bits_to_bf16(0x3F81_8000), 0x3F82);
    assert_eq!(f32_bits_to_bf16(0x3F80_8001), 0x3F81);
    assert!(f32_bits_to_bf16(0x3F80_7FFF) <= f32_bits_to_bf16(0x3F80_8001));
}

#[test]
fn patterns_are_ordered_as_numbers() {
    let values = [f32::NEG_INFINITY, -2.5, -1.0e-30, 0.0, 1.0e-30, 1.0, 3.5, f32::INFINITY];
    for pair in values.windows(2) {
        assert!(order_key(pair[0].to_bits()) < order_key(pair[1].to_bits()));
        assert!(is_greater(pair[1].to_bits(), pair[0].to_bits()));
    }
    assert_eq!(order_key((-0.0f32).to_bits()), order_key(0));
    assert_eq!(order_key((-2.5f32).to_bits()), -order_key(2.5f32.to_bits()));
    assert!(is_nan(f32::NAN.to_bits()) && !is_nan(f32::INFINITY.to_bits()));
    assert!(!is_greater(f32::NAN.to_bits(), 0) && !is_greater(0, f32::NAN.to_bits()));
}

#[test]
fn small_arithmetic() {
    assert_eq!((min_usize(3, 5), max_usize(3, 5)), (3, 5));
    assert_eq!((clamp_usize(1, 3, 5), clamp_usize(4, 3, 5), clamp_usize(9, 3, 5)), (3, 4, 5));
    assert_eq!((div_ceil_usize(8, 4), div_ceil_usize(9, 4), div_ceil_usize(0, 4)), (2, 3, 0));
    assert_eq!(saturating_product(3, 5), 15);
    assert_eq!(saturating_product(usize::MAX, 2), usize::MAX);
    assert_eq!(saturating_product_u128(u128::MAX, 2), u128::MAX);
}

#[test]
fn texts_are_read() {
    assert_eq!(parse_usize("42"), Some(42));
    assert_eq!(parse_usize("+42"), Some(42));
    assert_eq!(parse_usize("-1"), None);
    assert_eq!(parse_usize(" 42"), None);
    assert_eq!(parse_usize(""), None);
    assert_eq!(parse_usize("+"), None);
    assert_eq!(parse_usize("99999999999999999999999"), None);
    assert_eq!(setting_usize(Some(" 42\n")), Some(42));
    assert_eq!(setting_usize(Some("\u{3000}8\u{a0}\u{2009}")), Some(8));
    assert_eq!(setting_usize(Some("\u{200b}8")), None);
    assert_eq!(setting_usize(None), None);
    assert_eq!(parse_bool("TRUE"), Some(true));
    assert_eq!(parse_bool("oFf"), Some(false));
    assert_eq!(parse_bool("maybe"), None);
    assert_eq!(setting_bool(Some("\t on ")), Some(true));
    assert_eq!(setting_bool(None), None);
    assert!(same_text("q4", "q4") && !same_text("q4", "q8"));
}

#[test]
fn words_are_found_at_their_first_place() {
    let text = chars_of("one two two");
    assert_eq!(find_word(&text, "two", 0), Some(4));
    assert_eq!(find_word(&text, "two", 5), Some(8));
    assert_eq!(find_word(&text, "two", 9), None);
    assert_eq!(find_word(&text, "three", 0), None);
    assert_eq!(find_word(&text, "", 11), Some(11));
}

#[test]
fn weights_come_back_from_the_cache() {
    let weight = Bf16Weight { data: vec![1, 0x0203, 0xffff, 0, 5, 6], n: 2, k: 3 };
    let mut bytes = vec![9u8];
    weight.cache_write(&mut bytes);
    assert_eq!(bytes.len(), 1 + 16 + 12);
    assert_eq!(bytes[1], 2);
    assert_eq!(bytes[9], 3);
    assert_eq!(&bytes[17..21], &[1, 0, 3, 2]);
    let (back, used) = match Bf16Weight::cache_read(&bytes[1..]) {
        Ok(read) => read,
        Err(_) => panic!("the cache is whole"),
    };
    assert_eq!((back.n, back.k, back.data, used), (2, 3, weight.data, 28));
    assert!(Bf16Weight::cache_read(&bytes[1..28]).is_err());
    assert!(Bf16Weight::cache_read(&bytes[1..12]).is_err());
    assert_eq!(CACHE_VERSION, 2);
    assert_eq!(Bf16Avx512Config.name(), "bf16-avx512");
}

#[test]
fn loading_uses_the_cache_unless_told_not_to() {
    assert_eq!(load_model(None, false, false), LoadStep::TryCache);
    assert_eq!(load_model(Some(LoadStep::TryCache), false, true), LoadStep::Done);
    assert_eq!(load_model(Some(LoadStep::TryCache), false, false), LoadStep::Stream);
    assert_eq!(load_model(Some(LoadStep::Stream), false, false), LoadStep::SaveCache);
    assert_eq!(load_model(Some(LoadStep::SaveCache), false, false), LoadStep::Done);
    assert_eq!(load_model(None, true, false), LoadStep::Stream);
    assert_eq!(load_model(Some(LoadStep::Stream), true, false), LoadStep::Done);
}

#[test]
fn buffers_grow_and_shrink() {
    let mut buf: HugeVec<u16> = HugeVec::with_capacity(10);
    assert_eq!(buf.capacity(), 10);
    assert!(buf.is_empty() && !buf.is_hugepage_backed());
    buf.push(1);
    buf.extend_from_slice(&[2, 3, 4, 5]);
    assert_eq!(buf.as_slice(), &[1, 2, 3, 4, 5]);
    buf.copy_within(3, 2, 0);
    assert_eq!(buf.as_slice(), &[4, 5, 3, 4, 5]);
    buf.set(2, 9);
    assert_eq!((buf.get(2), buf.len()), (9, 5));
    buf.truncate(3);
    buf.resize(5, 7);
    assert_eq!(buf.as_slice(), &[4, 5, 9, 7, 7]);
    assert_eq!(buf.iter().copied().sum::<u16>(), 32);
    let copy = buf.clone();
    assert_eq!((buf.capacity(), copy.capacity()), (10, 5));
    buf.clear();
    assert!(buf.is_empty());
    assert_eq!(buf.capacity(), 10);
    buf.resize(12, 1);
    buf.truncate(2);
    assert_eq!((buf.len(), buf.capacity()), (2, 12));
    for x in buf.as_mut_slice().iter_mut() {
        *x += 4;
    }
    assert_eq!(buf.as_slice(), &[5, 5]);
    assert_eq!(copy.as_slice(), HugeVec::from_vec(vec![4, 5, 9, 7, 7]).as_slice());
    assert_eq!(HugeVec::from_vec_no_huge(vec![1u8]).len(), 1);
}

#[test]
fn taken_over_vectors_have_no_spare_room() {
    let mut v: Vec<u8> = Vec::with_capacity(16);
    v.push(7);
    let mut buf = HugeVec::from_vec(v);
    assert_eq!((buf.as_slice(), buf.capacity()), (&[7u8][..], 1));
    buf.push(8);
    assert_eq!((buf.len(), buf.capacity()), (2, 2));
}

#[test]
fn sizes_of_stored_weights_must_fit() {
    let sizes = |n: u64, k: u64| {
        let mut bytes = n.to_le_bytes().to_vec();
        bytes.extend_from_slice(&k.to_le_bytes());
        bytes
    };
    assert!(sizes_fit(&[1, 2, 3]));
    assert!(sizes_fit(&sizes(1 << 20, 1 << 10)));
    assert!(sizes_fit(&sizes(0, u64::MAX)) == (usize::MAX as u64 == u64::MAX));
    assert!(!sizes_fit(&sizes(1 << 33, 1 << 33)));
}

#[test]
fn regions_hold_what_was_asked_for() {
    let page = 2 * 1024 * 1024;
    match hugepage_region_len(page, 2) {
        Some(len) => assert!(len >= 2 * page && len % page == 0),
        None => panic!("the region is large enough"),
    }
    assert_eq!(hugepage_region_len(1, 4), None);
    let (start, len) = align_to_page(4097, 10);
    assert_eq!(start % 4096, 0);
    assert!(start <= 4097 && start + len >= 4107);
    assert_eq!(hint_range(4096, 1, 4), None);
}

#[test]
fn first_answer_of_the_processor_stays() {
    let mut features = CpuFeatures::new();
    assert!(has_avx512f(&mut features, true));
    assert!(has_avx512f(&mut features, false));
    assert!(!has_avx512bf16(&mut features, false));
    assert!(!has_avx512bf16(&mut features, true));
    assert!(has_avx2_fma(&mut features, true));
}

#[test]
fn norms_use_the_widest_vectors() {
    assert_eq!(norm_kernel(true, true, 64), NormKernel::Avx512);
    assert_eq!(norm_kernel(true, true, 63), NormKernel::Avx2);
    assert_eq!(norm_kernel(false, true, 31), NormKernel::Scalar);
    assert_eq!(norm_kernel(false, false, 4096), NormKernel::Scalar);
}

#[test]
fn rotation_windows_are_checked() {
    let table = vec![0.0f32; 12];
    assert_eq!(validate_rope_batch_window(&table, &table, 4, 4, 2), Ok(2));
    assert_eq!(
        validate_rope_batch_window(&table, &table[..11], 4, 4, 2),
        Err(RopeError::CacheTooSmall { need: 12, cos: 12, sin: 11 })
    );
    assert_eq!(
        validate_rope_batch_window(&table, &table, usize::MAX, 4, 2),
        Err(RopeError::SizeOverflow)
    );
    let qk = vec![0.0f32; 8];
    assert_eq!(check_rope_single(&qk, &table, &table, 2, 4, 4), Ok(2));
    assert_eq!(
        check_rope_single(&qk, &table, &table, 3, 4, 4),
        Err(RopeError::BufferTooSmall { need: 12, got: 8 })
    );
    assert_eq!(
        check_rope_single(&qk, &table[..1], &table, 2, 4, 4),
        Err(RopeError::SliceTooSmall { need: 2, cos: 1, sin: 12 })
    );
}

#[test]
fn codes_are_summed_in_groups() {
    assert_eq!(group_bounds(5, 2, 2), (4, 5));
    assert_eq!(group_col_sums(&[1, -2, 127, 127, -5], 2), vec![-1, 254, -5]);
    let input = PreQuantizedInput::from_codes(vec![1, 2, 3], vec![0.5f32, 0.25], 2);
    assert_eq!((input.i8_data, input.col_sums), (vec![1, 2, 3], vec![3, 3]));
    assert_eq!(input.group_scales, vec![0.5, 0.25]);
}

#[test]
fn tiles_cover_each_row_once() {
    let n = 150;
    let mut seen = vec![0; n];
    for tile in 0..tile_count(n) {
        let (start, end) = tile_rows(tile, n);
        for row in start..end {
            seen[row] += 1;
        }
    }
    assert!(seen.iter().all(|&count| count == 1));
    assert_eq!(tile_count(n), 3);
    assert!(divides_matvec(256, 256) && !divides_matvec(255, 256));
    assert!(divides_matmul(2, 256, 128) && !divides_matmul(1, 255, 256));
}
