//! The array container: one byte buffer, one dtype, one shape, and the
//! operations that build and print it.

use vstd::prelude::*;
use vstd::arithmetic::div_mod::lemma_fundamental_div_mod;
use vstd::bytes::{spec_u32_from_le_bytes, spec_u64_from_le_bytes, u32_from_le_bytes, u64_from_le_bytes};
use vstd::slice::slice_subrange;
use vstd::string::StringExecFns;

use crate::binary64::{f64_bits_text, spec_f64_display};
use crate::codec::{decodable, is_decodable, i32_of_bits, pack, packable, spec_i32_of_bits, spec_pack};
use crate::dtype::{Dtype, DtypeKind, Generic, dtype_of};
use crate::error::NdError;
use crate::host::{
    all_dims_fit, all_numeric, dims_fit, flatten, get_shape, infer_dtype, lemma_scalars_count,
    rectangular, shape_product, spec_infer, spec_scalars, spec_shape, HostValue, Scalar,
};
use crate::text::{dec_digits, int_dec, join_comma, lemma_join_comma_push, i32_dec, u64_dec};

verus! {

/// An n-dimensional array: a contiguous little-endian byte buffer, the
/// dtype of its elements, and the shape that arranges them. The buffer
/// belongs to this array alone.
#[derive(Debug)]
pub struct NdArray {
    pub data: Vec<u8>,
    pub dtype: Dtype,
    pub shape: Vec<u32>,
}

/// `a * b`, saturated to the addressable range.
fn sat_mul(a: usize, b: usize) -> (r: usize)
    ensures
        r as int == if a as int * b as int <= usize::MAX as int {
            a as int * b as int
        } else {
            usize::MAX as int
        },
{
    if b == 0 {
        0
    } else if a > usize::MAX / b {
        proof {
            lemma_fundamental_div_mod(usize::MAX as int, b as int);
            assert((a as int) * (b as int) > usize::MAX as int) by (nonlinear_arith)
                requires
                    b > 0,
                    (a as int) > (usize::MAX as int) / (b as int),
                    usize::MAX as int == (b as int) * ((usize::MAX as int) / (b as int)) + (
                    usize::MAX as int) % (b as int),
                    ((usize::MAX as int) % (b as int)) < (b as int),
            ;
        }
        usize::MAX
    } else {
        proof {
            lemma_fundamental_div_mod(usize::MAX as int, b as int);
            assert((a as int) * (b as int) <= usize::MAX as int) by (nonlinear_arith)
                requires
                    b > 0,
                    (a as int) <= (usize::MAX as int) / (b as int),
                    usize::MAX as int == (b as int) * ((usize::MAX as int) / (b as int)) + (
                    usize::MAX as int) % (b as int),
                    ((usize::MAX as int) % (b as int)) >= 0,
            ;
        }
        a * b
    }
}

/// The rendering of one `item_size`-byte stride: a 4-byte stride decodes as
/// a little-endian signed 32-bit integer, an 8-byte stride as a
/// little-endian binary64 value.
pub open spec fn rendered_item(chunk: Seq<u8>, d: Dtype) -> Seq<char>
    recommends
        decodable(d),
{
    if d.kind == DtypeKind::Integer {
        int_dec(spec_i32_of_bits(spec_u32_from_le_bytes(chunk)))
    } else {
        spec_f64_display(spec_u64_from_le_bytes(chunk))
    }
}

/// The renderings of every stride of `data`, in buffer order.
pub open spec fn items_of(data: Seq<u8>, d: Dtype) -> Seq<Seq<char>>
    recommends
        decodable(d),
{
    let sz = d.item_size as int;
    Seq::new(
        (data.len() as int / sz) as nat,
        |i: int| rendered_item(data.subrange(i * sz, (i + 1) * sz), d),
    )
}

/// The pretty-printed form of a buffer: the rendered strides joined by
/// `", "`, wrapped in square brackets.
pub open spec fn spec_pretty(data: Seq<u8>, d: Dtype) -> Seq<char>
    recommends
        decodable(d),
{
    seq!['['] + join_comma(items_of(data, d)) + seq![']']
}

/// The textual form of a dimension sequence, e.g. `[2, 3]`.
pub open spec fn spec_dims_display(dims: Seq<u32>) -> Seq<char> {
    seq!['['] + join_comma(Seq::new(dims.len(), |i: int| dec_digits(dims[i] as nat))) + seq![']']
}

impl NdArray {
    /// Builds an array from a shape, an optional dtype (`Float64` when
    /// omitted) and an optional pre-filled buffer. A supplied buffer is
    /// taken as-is, with no validation against shape and dtype: a mismatch
    /// surfaces later, when printing reads the buffer. When no buffer is
    /// supplied the array starts empty, with capacity reserved for
    /// `product(shape) * item_size` bytes; the caller populates it before
    /// reading.
    pub fn new(shape: Vec<u32>, dtype: Option<Dtype>, buffer: Option<Vec<u8>>) -> (a: NdArray)
        ensures
            a.shape@ == shape@,
            a.dtype == match dtype {
                Some(d) => d,
                None => dtype_of(Generic::Float64),
            },
            a.data@ == match buffer {
                Some(b) => b@,
                None => Seq::<u8>::empty(),
            },
    {
        let dtype = match dtype {
            Some(d) => d,
            None => Dtype::new(Generic::Float64, None, None),
        };
        let data = match buffer {
            Some(v) => v,
            None => {
                let mut num_els: usize = 1;
                let mut i: usize = 0;
                while i < shape.len()
                    invariant
                        i <= shape@.len(),
                    decreases shape@.len() - i,
                {
                    num_els = sat_mul(num_els, shape[i] as usize);
                    i += 1;
                }
                Vec::<u8>::with_capacity(sat_mul(num_els, dtype.item_size as usize))
            },
        };
        NdArray { data, dtype, shape }
    }

    /// Returns a copy of the stored dtype.
    pub fn dtype(&self) -> (d: Dtype)
        ensures
            d == self.dtype,
    {
        self.dtype
    }

    /// The number of bytes the buffer holds.
    pub fn buffer_len(&self) -> (n: usize)
        ensures
            n == self.data@.len(),
    {
        self.data.len()
    }

    /// Renders the dimension sequence, e.g. `[2, 3]`.
    pub fn shape(&self) -> (s: String)
        ensures
            s@ == spec_dims_display(self.shape@),
    {
        let ghost items = Seq::new(self.shape@.len(), |i: int| dec_digits(self.shape@[i] as nat));
        let mut s = String::from_str("[");
        proof {
            reveal_strlit("[");
            assert(items.take(0) =~= Seq::<Seq<char>>::empty());
        }
        let n = self.shape.len();
        let mut i: usize = 0;
        while i < n
            invariant
                0 <= i <= n,
                n == self.shape@.len(),
                items == Seq::new(self.shape@.len(), |k: int| dec_digits(self.shape@[k] as nat)),
                s@ == seq!['['] + join_comma(items.take(i as int)),
            decreases n - i,
        {
            if i != 0 {
                proof {
                    reveal_strlit(", ");
                }
                s.append(", ");
            }
            let digits = u64_dec(self.shape[i] as u64);
            s.append(digits.as_str());
            proof {
                lemma_join_comma_push(items.take(i as int), items[i as int]);
                assert(items.take(i as int).push(items[i as int]) =~= items.take(i + 1));
                assert(s@ =~= seq!['['] + join_comma(items.take(i + 1)));
            }
            i += 1;
        }
        proof {
            reveal_strlit("]");
            assert(items.take(n as int) =~= items);
        }
        s.append("]");
        proof {
            assert(s@ =~= spec_dims_display(self.shape@));
        }
        s
    }

    /// Pretty-prints the stored buffer under the stored dtype: every stride
    /// decoded and rendered, joined by `", "`, in square brackets. Refused
    /// with [`NdError::UnsupportedDtype`] when the dtype is not one of the
    /// two decodable formats, and with [`NdError::MalformedBuffer`] when the
    /// buffer length is not a multiple of the item size; both are checked
    /// before any stride is read.
    pub fn pretty_print(&self) -> (r: Result<String, NdError>)
        ensures
            match r {
                Ok(s) => decodable(self.dtype) && (self.data@.len() as int) % (
                self.dtype.item_size as int) == 0 && s@ == spec_pretty(self.data@, self.dtype),
                Err(e) => (e == NdError::UnsupportedDtype && !decodable(self.dtype)) || (e
                    == NdError::MalformedBuffer && decodable(self.dtype) && (self.data@.len() as int)
                    % (self.dtype.item_size as int) != 0),
            },
    {
        if !is_decodable(&self.dtype) {
            return Err(NdError::UnsupportedDtype);
        }
        let sz: usize = self.dtype.item_size as usize;
        let len: usize = self.data.len();
        if len % sz != 0 {
            return Err(NdError::MalformedBuffer);
        }
        let integer = match self.dtype.kind {
            DtypeKind::Integer => true,
            DtypeKind::Float => false,
        };
        let n: usize = len / sz;
        proof {
            lemma_fundamental_div_mod(len as int, sz as int);
        }
        let ghost items = items_of(self.data@, self.dtype);
        let mut s = String::from_str("[");
        proof {
            reveal_strlit("[");
            assert(items.take(0) =~= Seq::<Seq<char>>::empty());
        }
        let mut i: usize = 0;
        while i < n
            invariant
                0 <= i <= n,
                sz == self.dtype.item_size,
                decodable(self.dtype),
                integer == (self.dtype.kind == DtypeKind::Integer),
                len == self.data@.len(),
                n * sz == len,
                n == items.len(),
                items == items_of(self.data@, self.dtype),
                s@ == seq!['['] + join_comma(items.take(i as int)),
            decreases n - i,
        {
            proof {
                assert((i + 1) * sz <= n * sz && i * sz + sz == (i + 1) * sz && 0 <= i * sz)
                    by (nonlinear_arith)
                    requires
                        0 <= i < n,
                        sz > 0,
                ;
            }
            let lo: usize = i * sz;
            let chunk = slice_subrange(self.data.as_slice(), lo, lo + sz);
            let piece: String = if integer {
                let decoded = i32_of_bits(u32_from_le_bytes(chunk));
                i32_dec(decoded)
            } else {
                f64_bits_text(u64_from_le_bytes(chunk))
            };
            if i != 0 {
                proof {
                    reveal_strlit(", ");
                }
                s.append(", ");
            }
            s.append(piece.as_str());
            proof {
                assert(chunk@ == self.data@.subrange(
                    i as int * sz as int,
                    (i + 1) * (sz as int),
                ));
                assert(items[i as int] == rendered_item(chunk@, self.dtype));
                lemma_join_comma_push(items.take(i as int), items[i as int]);
                assert(items.take(i as int).push(items[i as int]) =~= items.take(i + 1));
                assert(s@ =~= seq!['['] + join_comma(items.take(i + 1)));
            }
            i += 1;
        }
        proof {
            reveal_strlit("]");
            assert(items.take(n as int) =~= items);
        }
        s.append("]");
        proof {
            assert(s@ =~= spec_pretty(self.data@, self.dtype));
        }
        Ok(s)
    }
}

/// Builds an array from a host sequence: the shape is inferred from the
/// nesting, the dtype is the caller's or, when omitted, the inferred one,
/// and the buffer is the flattened scalar stream packed under that dtype.
/// Fails with [`NdError::NonNumericData`] when any scalar is not numeric,
/// and with [`NdError::UnsupportedDtype`] when the chosen dtype is not
/// packable; on failure no array is produced.
pub fn array(values: &HostValue, dtype: Option<Dtype>) -> (r: Result<NdArray, NdError>)
    requires
        dims_fit(*values),
    ensures
        ({
            let chosen = match dtype {
                Some(d) => d,
                None => spec_infer(spec_scalars(*values)),
            };
            match r {
                Ok(a) => all_numeric(*values) && packable(chosen) && a.dtype == chosen && a.shape@
                    == spec_shape(*values) && a.data@ == spec_pack(spec_scalars(*values), chosen),
                Err(e) => (e == NdError::NonNumericData && !all_numeric(*values)) || (e
                    == NdError::UnsupportedDtype && all_numeric(*values) && !packable(chosen)),
            }
        }),
{
    let scalars = match flatten(values) {
        Ok(s) => s,
        Err(e) => {
            return Err(e);
        },
    };
    let chosen = match dtype {
        Some(d) => d,
        None => infer_dtype(&scalars),
    };
    let buffer = match pack(&scalars, chosen) {
        Ok(b) => b,
        Err(e) => {
            return Err(e);
        },
    };
    let shape = get_shape(values);
    Ok(NdArray::new(shape, Some(chosen), Some(buffer)))
}

/// Packing a scalar stream under the 4-byte integer format and
/// pretty-printing the buffer renders exactly the streamed values' 32-bit
/// truncations, in flattening order.
pub proof fn lemma_int32_display_round_trip(s: Seq<Scalar>, d: Dtype)
    requires
        d.kind == DtypeKind::Integer,
        d.item_size == 4,
    ensures
        items_of(spec_pack(s, d), d) == Seq::new(s.len(), |i: int| int_dec(s[i].trunc as int)),
{
    crate::codec::lemma_int32_pack_round_trip(s, d);
    let packed = spec_pack(s, d);
    assert(items_of(packed, d) =~= Seq::new(s.len(), |i: int| int_dec(s[i].trunc as int))) by {
        assert(packed.len() as int / 4 == s.len());
        assert forall|i: int| 0 <= i < s.len() implies items_of(packed, d)[i] == int_dec(
            s[i].trunc as int,
        ) by {
            assert(items_of(packed, d)[i] == rendered_item(
                packed.subrange(i * 4, (i + 1) * 4),
                d,
            ));
            assert(packed.subrange(i * 4, (i + 1) * 4) == packed.subrange(4 * i, 4 * i + 4));
        }
    }
}

/// Packing a scalar stream under the 8-byte floating format and
/// pretty-printing the buffer renders exactly the streamed values, each
/// recovered to double precision, in flattening order.
pub proof fn lemma_float64_display_round_trip(s: Seq<Scalar>, d: Dtype)
    requires
        d.kind == DtypeKind::Float,
        d.item_size == 8,
    ensures
        items_of(spec_pack(s, d), d) == Seq::new(s.len(), |i: int| spec_f64_display(s[i].bits)),
{
    crate::codec::lemma_float64_pack_round_trip(s, d);
    let packed = spec_pack(s, d);
    assert(items_of(packed, d) =~= Seq::new(s.len(), |i: int| spec_f64_display(s[i].bits))) by {
        assert(packed.len() as int / 8 == s.len());
        assert forall|i: int| 0 <= i < s.len() implies items_of(packed, d)[i] == spec_f64_display(
            s[i].bits,
        ) by {
            assert(items_of(packed, d)[i] == rendered_item(
                packed.subrange(i * 8, (i + 1) * 8),
                d,
            ));
            assert(packed.subrange(i * 8, (i + 1) * 8) == packed.subrange(8 * i, 8 * i + 8));
        }
    }
}

/// The buffer-length invariant: an array built from a rectangular,
/// all-numeric host sequence whose dimensions fit carries exactly
/// `product(shape) * item_size` bytes.
pub proof fn lemma_packed_buffer_len(v: HostValue, d: Dtype)
    requires
        rectangular(v),
        all_numeric(v),
        all_dims_fit(v),
        packable(d),
    ensures
        spec_pack(spec_scalars(v), d).len() == shape_product(spec_shape(v)) * d.item_size,
{
    lemma_scalars_count(v);
    crate::codec::lemma_spec_pack_len(spec_scalars(v), d);
}

} // verus!
