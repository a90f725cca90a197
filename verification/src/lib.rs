//! A minimal n-dimensional array core: dtype modeling, shape inference over
//! nested host sequences, dtype inference over the flattened scalar stream,
//! and little-endian pack/unpack between scalars and a flat byte buffer.
//!
//! The host-interop boundary stays outside this crate: the core works on
//! plain values that an adapter derives from the host's own representation.

pub mod binary64;
pub mod codec;
pub mod dtype;
pub mod error;
pub mod host;
pub mod ndarray;
pub mod text;

pub use binary64::{f64_bits_text, spec_f64_display};
pub use codec::{
    clamp, decodable, elem_bytes, i32_of_bits, is_decodable, is_packable,
    lemma_float64_pack_round_trip, lemma_int32_pack_round_trip, pack, packable, spec_bits_of_i16,
    spec_bits_of_i32, spec_bits_of_i8, spec_i32_of_bits, spec_pack,
};
pub use dtype::{Dtype, DtypeKind, Generic, dtype_of, kind_char};
pub use error::NdError;
pub use host::{
    HostValue, Scalar, all_dims_fit, all_numeric, dims_fit, flatten, get_shape, infer_dtype,
    lemma_scalars_count, rectangular, shape_product, spec_infer, spec_scalars, spec_scalars_seq,
    spec_shape,
};
pub use ndarray::{
    NdArray, array, items_of, lemma_float64_display_round_trip, lemma_int32_display_round_trip,
    lemma_packed_buffer_len, rendered_item, spec_dims_display, spec_pretty,
};
pub use text::{dec_digits, digit_char, int_dec, join_comma, u64_dec, i32_dec};
