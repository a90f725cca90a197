use numcrab::{array, Dtype, DtypeKind, Generic, HostValue, NdArray, NdError, Scalar};

/// Reads one host scalar the way the host adapter does: the IEEE-754
/// encoding, the tolerance test on the remainder modulo one, and the
/// truncation to the signed 32-bit range.
fn scalar(x: f64) -> HostValue {
    HostValue::Num(Scalar { bits: x.to_bits(), integral: !(x % 1.0 > 1e-16), trunc: x as i32 })
}

fn list(items: Vec<HostValue>) -> HostValue {
    HostValue::List(items)
}

fn nums(xs: &[f64]) -> HostValue {
    list(xs.iter().map(|x| scalar(*x)).collect())
}

#[test]
fn dtype_display_int8() {
    assert_eq!(Dtype::new(Generic::Int8, None, None).pretty_print(), "dtype('i1')");
}

#[test]
fn dtype_display_int16() {
    assert_eq!(Dtype::new(Generic::Int16, None, None).pretty_print(), "dtype('i2')");
}

#[test]
fn dtype_display_int32() {
    assert_eq!(Dtype::new(Generic::Int32, None, None).pretty_print(), "dtype('i4')");
}

#[test]
fn dtype_display_float64() {
    assert_eq!(Dtype::new(Generic::Float64, None, None).pretty_print(), "dtype('f8')");
}

#[test]
fn dtype_fields() {
    let d = Dtype::new(Generic::Int16, None, None);
    assert!(d.kind == DtypeKind::Integer);
    assert_eq!(d.item_size, 2);
    assert_eq!(d.alignment, 2);
}

#[test]
fn shape_of_nested() {
    let v = list(vec![nums(&[1.0, 2.0, 3.0]), nums(&[4.0, 5.0, 6.0])]);
    assert_eq!(numcrab::get_shape(&v), vec![2, 3]);
}

#[test]
fn shape_of_flat() {
    assert_eq!(numcrab::get_shape(&nums(&[1.0, 2.0, 3.0])), vec![3]);
}

#[test]
fn shape_of_empty() {
    assert_eq!(numcrab::get_shape(&list(vec![])), vec![0]);
}

#[test]
fn shape_of_scalar() {
    assert_eq!(numcrab::get_shape(&scalar(7.0)), Vec::<u32>::new());
}

#[test]
fn infer_all_integral_chooses_int32() {
    let a = array(&nums(&[1.0, 2.0, 3.0]), None).unwrap();
    assert_eq!(a.dtype().pretty_print(), "dtype('i4')");
}

#[test]
fn infer_one_fractional_chooses_float64() {
    let a = array(&nums(&[1.0, 2.5, 3.0]), None).unwrap();
    assert_eq!(a.dtype().pretty_print(), "dtype('f8')");
}

#[test]
fn int32_round_trip() {
    let a = array(&nums(&[1.0, 2.0, 3.0]), Some(Dtype::new(Generic::Int32, None, None))).unwrap();
    assert_eq!(a.pretty_print().unwrap(), "[1, 2, 3]");
}

#[test]
fn int32_round_trip_negative() {
    let a = array(&nums(&[-1.0, 2147483647.0, -2147483648.0]), None).unwrap();
    assert_eq!(a.pretty_print().unwrap(), "[-1, 2147483647, -2147483648]");
}

#[test]
fn float64_round_trip_bits() {
    let xs = [1.5f64, -2.5, 0.1, 1e300];
    let a = array(&nums(&xs), None).unwrap();
    // The packed buffer holds each value's exact little-endian encoding.
    let mut expected: Vec<u8> = Vec::new();
    for x in xs {
        expected.extend_from_slice(&x.to_bits().to_le_bytes());
    }
    assert_eq!(a.buffer_len(), expected.len());
    let rebuilt = NdArray::new(vec![4], Some(Dtype::new(Generic::Float64, None, None)), Some(expected));
    assert_eq!(rebuilt.pretty_print().unwrap(), a.pretty_print().unwrap());
}

#[test]
fn float64_fractional_rendering() {
    let a = array(&nums(&[1.5, 2.5, 0.5]), None).unwrap();
    assert_eq!(a.pretty_print().unwrap(), "[0x1.8p+0, 0x1.4p+1, 0x1p-1]");
}

#[test]
fn float64_special_rendering() {
    let xs = [f64::NAN, f64::INFINITY, f64::NEG_INFINITY, -0.0, 0.0];
    let mut buffer: Vec<u8> = Vec::new();
    for x in xs {
        buffer.extend_from_slice(&x.to_bits().to_le_bytes());
    }
    let a = NdArray::new(vec![5], Some(Dtype::new(Generic::Float64, None, None)), Some(buffer));
    assert_eq!(a.pretty_print().unwrap(), "[NaN, inf, -inf, -0, 0]");
}

#[test]
fn float64_subnormal_rendering() {
    let x = f64::from_bits(1);
    let a = array(&nums(&[x]), Some(Dtype::new(Generic::Float64, None, None))).unwrap();
    assert_eq!(a.pretty_print().unwrap(), "[0x0.0000000000001p-1022]");
}

#[test]
fn float64_large_integral_rendering() {
    let a = array(&nums(&[9007199254740992.0, -3.0]), Some(Dtype::new(Generic::Float64, None, None)))
        .unwrap();
    assert_eq!(a.pretty_print().unwrap(), "[9007199254740992, -3]");
}

#[test]
fn buffer_length_matches_shape() {
    let v = list(vec![nums(&[1.0, 2.0]), nums(&[3.0, 4.0])]);
    let a = array(&v, None).unwrap();
    let d = a.dtype();
    assert_eq!(a.buffer_len() as u32, 2 * 2 * d.item_size);
}

#[test]
fn non_numeric_scalar_fails() {
    let v = list(vec![scalar(1.0), HostValue::NonNumeric, scalar(3.0)]);
    assert_eq!(array(&v, None).unwrap_err(), NdError::NonNumericData);
}

#[test]
fn int8_pack_truncates_and_saturates() {
    // Truncation toward zero at 8 bits, saturating: matches `x as i8`.
    let xs = [1.0f64, -1.0, 300.7, -1000.2];
    let a = array(&nums(&xs), Some(Dtype::new(Generic::Int8, None, None))).unwrap();
    assert_eq!(a.buffer_len() as u32, 4 * a.dtype().item_size);
    assert_eq!(a.data, vec![1u8, 255, 127, 128]);
    for (i, x) in xs.iter().enumerate() {
        assert_eq!(a.data[i], (*x as i8) as u8);
    }
    // Reading back an 8-bit buffer is not a supported decode shape.
    assert_eq!(a.pretty_print().unwrap_err(), NdError::UnsupportedDtype);
}

#[test]
fn int16_pack_truncates_and_saturates() {
    let xs = [1.0f64, -2.0, 70000.9];
    let a = array(&nums(&xs), Some(Dtype::new(Generic::Int16, None, None))).unwrap();
    assert_eq!(a.buffer_len(), 6);
    let mut expected: Vec<u8> = Vec::new();
    for x in xs {
        expected.extend_from_slice(&(x as i16).to_le_bytes());
    }
    assert_eq!(a.data, expected);
    assert_eq!(&a.data[4..6], &[255, 127]);
}

#[test]
fn unsupported_pack_dtype_fails() {
    // A (kind, item_size) pair outside the four supported variants.
    let bad = numcrab::Dtype { kind: DtypeKind::Integer, item_size: 3, alignment: 3 };
    let r = array(&nums(&[1.0, 2.0]), Some(bad));
    assert_eq!(r.unwrap_err(), NdError::UnsupportedDtype);
}

#[test]
fn unsupported_print_dtype_fails() {
    let a = NdArray::new(vec![2], Some(Dtype::new(Generic::Int16, None, None)), Some(vec![1, 0, 2, 0]));
    assert_eq!(a.pretty_print().unwrap_err(), NdError::UnsupportedDtype);
}

#[test]
fn malformed_buffer_fails() {
    let a = NdArray::new(vec![1], Some(Dtype::new(Generic::Int32, None, None)), Some(vec![0, 1, 2]));
    assert_eq!(a.pretty_print().unwrap_err(), NdError::MalformedBuffer);
}

#[test]
fn end_to_end_default_dtype() {
    let v = list(vec![nums(&[1.0, 2.0]), nums(&[3.0, 4.0])]);
    let a = array(&v, None).unwrap();
    assert_eq!(a.pretty_print().unwrap(), "[1, 2, 3, 4]");
    assert_eq!(a.shape(), "[2, 2]");
    assert_eq!(a.dtype().pretty_print(), "dtype('i4')");
}

#[test]
fn end_to_end_explicit_float64() {
    let v = list(vec![nums(&[1.0, 2.0]), nums(&[3.0, 4.0])]);
    let a = array(&v, Some(Dtype::new(Generic::Float64, None, None))).unwrap();
    assert_eq!(a.pretty_print().unwrap(), "[1, 2, 3, 4]");
    assert_eq!(a.buffer_len(), 32);
}

#[test]
fn empty_input_packs_empty_buffer() {
    let a = array(&list(vec![]), None).unwrap();
    assert_eq!(a.pretty_print().unwrap(), "[]");
    assert_eq!(a.shape(), "[0]");
    assert_eq!(a.buffer_len(), 0);
}

#[test]
fn new_defaults() {
    let a = NdArray::new(vec![3, 4], None, None);
    assert_eq!(a.dtype().pretty_print(), "dtype('f8')");
    assert_eq!(a.buffer_len(), 0);
    assert_eq!(a.shape(), "[3, 4]");
}

#[test]
fn truncation_toward_zero_under_int32() {
    // An explicit integer dtype truncates fractional values, it does not round.
    let a = array(&nums(&[1.9, -1.9]), Some(Dtype::new(Generic::Int32, None, None))).unwrap();
    assert_eq!(a.pretty_print().unwrap(), "[1, -1]");
}

#[test]
fn deep_nesting_shape_and_order() {
    let v = list(vec![
        list(vec![nums(&[1.0, 2.0]), nums(&[3.0, 4.0])]),
        list(vec![nums(&[5.0, 6.0]), nums(&[7.0, 8.0])]),
    ]);
    let a = array(&v, None).unwrap();
    assert_eq!(a.shape(), "[2, 2, 2]");
    assert_eq!(a.pretty_print().unwrap(), "[1, 2, 3, 4, 5, 6, 7, 8]");
}

#[test]
fn tiny_fraction_within_tolerance_counts_as_integral() {
    // 1e-17 % 1.0 does not exceed the 1e-16 tolerance, so the stream stays
    // integral and truncates to zero under the inferred Int32.
    let a = array(&nums(&[1e-17, 2.0]), None).unwrap();
    assert_eq!(a.dtype().pretty_print(), "dtype('i4')");
    assert_eq!(a.pretty_print().unwrap(), "[0, 2]");
}
