//! The nested host sequence as the core sees it, and the two walks over it:
//! shape inference and flattening.
//!
//! The host-interop adapter answers four questions about a host value: is it
//! a sequence, how long is it, what is element `i`, and what is a scalar as
//! a 64-bit floating value. [`HostValue`] records the answers, with each
//! numeric scalar reduced to the plain facts the core consumes.

use vstd::prelude::*;

use crate::dtype::{Dtype, DtypeKind, Generic, dtype_of};
use crate::error::NdError;

verus! {

/// One numeric value read across the host boundary. The adapter reads the
/// scalar once as a 64-bit floating value and hands the core three facts
/// about it:
/// - `bits`: the value's IEEE-754 binary64 encoding;
/// - `integral`: whether the value's remainder modulo one stays within the
///   fixed tolerance of `1e-16` (the test that drives dtype inference);
/// - `trunc`: the value truncated toward zero and saturated to the signed
///   32-bit range.
#[derive(Clone, Copy, PartialEq, Eq, Structural)]
pub struct Scalar {
    pub bits: u64,
    pub integral: bool,
    pub trunc: i32,
}

/// A host value: a numeric scalar, a non-numeric scalar, or a sequence.
pub enum HostValue {
    Num(Scalar),
    NonNumeric,
    List(Vec<HostValue>),
}

/// The inferred shape of a host value: one dimension per nesting level,
/// each taken from the length of the first element at that level. A scalar
/// contributes no dimension; an empty sequence yields the single dimension
/// zero.
pub open spec fn spec_shape(v: HostValue) -> Seq<u32>
    decreases v,
{
    match v {
        HostValue::List(es) => if es@.len() == 0 {
            seq![0u32]
        } else {
            seq![es@.len() as u32] + spec_shape(es@[0])
        },
        _ => Seq::empty(),
    }
}

/// Every sequence length along the first-element chain fits a 32-bit
/// dimension.
pub open spec fn dims_fit(v: HostValue) -> bool
    decreases v,
{
    match v {
        HostValue::List(es) => es@.len() <= u32::MAX && (es@.len() > 0 ==> dims_fit(es@[0])),
        _ => true,
    }
}

/// Every sequence length anywhere under `v` fits a 32-bit dimension.
pub open spec fn all_dims_fit(v: HostValue) -> bool
    decreases v,
{
    match v {
        HostValue::List(es) => es@.len() <= u32::MAX && (forall|i: int|
            0 <= i < es@.len() ==> all_dims_fit(#[trigger] es@[i])),
        _ => true,
    }
}

/// Whether every scalar under `v` is numeric.
pub open spec fn all_numeric(v: HostValue) -> bool
    decreases v,
{
    match v {
        HostValue::Num(_) => true,
        HostValue::NonNumeric => false,
        HostValue::List(es) => forall|i: int|
            0 <= i < es@.len() ==> all_numeric(#[trigger] es@[i]),
    }
}

/// The scalars under `v` in flattening order: a deterministic left-to-right,
/// depth-first, first-dimension-major walk. Shape inference, dtype inference
/// and packing all follow this one order.
pub open spec fn spec_scalars(v: HostValue) -> Seq<Scalar>
    decreases v,
{
    match v {
        HostValue::Num(sc) => seq![sc],
        HostValue::NonNumeric => Seq::empty(),
        HostValue::List(es) => spec_scalars_seq(es@),
    }
}

/// The concatenation of the scalars under each element of `es`, in order.
pub open spec fn spec_scalars_seq(es: Seq<HostValue>) -> Seq<Scalar>
    decreases es,
{
    if es.len() == 0 {
        Seq::empty()
    } else {
        spec_scalars_seq(es.drop_last()) + spec_scalars(es.last())
    }
}

/// A host value is rectangular when, at every nesting level, the sibling
/// sub-sequences all share the shape of the first one. Shape inference reads
/// only the first element at each level, so only rectangular inputs give a
/// shape that accounts for every scalar.
pub open spec fn rectangular(v: HostValue) -> bool
    decreases v,
{
    match v {
        HostValue::List(es) => forall|i: int|
            0 <= i < es@.len() ==> spec_shape(#[trigger] es@[i]) == spec_shape(es@[0])
                && rectangular(es@[i]),
        _ => true,
    }
}

/// The number of scalar elements a shape accounts for: the product of its
/// dimensions (one, for the empty shape of a scalar).
pub open spec fn shape_product(dims: Seq<u32>) -> int
    decreases dims.len(),
{
    if dims.len() == 0 {
        1
    } else {
        dims[0] * shape_product(dims.drop_first())
    }
}

/// Over a rectangular, all-numeric host value the inferred shape accounts
/// for every scalar: the flattened stream has exactly `product(shape)`
/// elements.
pub proof fn lemma_scalars_count(v: HostValue)
    requires
        rectangular(v),
        all_numeric(v),
        all_dims_fit(v),
    ensures
        spec_scalars(v).len() == shape_product(spec_shape(v)),
    decreases v,
{
    assert(shape_product(Seq::<u32>::empty()) == 1);
    match v {
        HostValue::Num(_) => {
            assert(spec_shape(v) =~= Seq::<u32>::empty());
        },
        HostValue::NonNumeric => {},
        HostValue::List(es) => {
            if es@.len() == 0 {
                assert(spec_shape(v) == seq![0u32]);
                assert(spec_shape(v).drop_first() =~= Seq::<u32>::empty());
            } else {
                assert(decreases_to!(v => v->List_0)) by {
                    broadcast use vstd::std_specs::vec::axiom_vec_decreases_to_view;

                };
                lemma_scalars_seq_count(es@, spec_shape(es@[0]));
                assert(spec_shape(v).drop_first() =~= spec_shape(es@[0]));
                assert(spec_shape(v)[0] == es@.len() as u32);
            }
        },
    }
}

/// Each element of `es` shares the shape `shape0`, so the concatenated
/// scalar streams count `es.len()` times the product of `shape0`.
proof fn lemma_scalars_seq_count(es: Seq<HostValue>, shape0: Seq<u32>)
    requires
        forall|i: int|
            0 <= i < es.len() ==> spec_shape(#[trigger] es[i]) == shape0 && rectangular(es[i])
                && all_numeric(es[i]) && all_dims_fit(es[i]),
    ensures
        spec_scalars_seq(es).len() == es.len() * shape_product(shape0),
    decreases es,
{
    if es.len() == 0 {
    } else {
        lemma_scalars_seq_count(es.drop_last(), shape0);
        lemma_scalars_count(es.last());
        assert(spec_scalars_seq(es).len() == (es.len() - 1) * shape_product(shape0)
            + shape_product(shape0));
        assert((es.len() - 1) * shape_product(shape0) + shape_product(shape0) == es.len()
            * shape_product(shape0)) by (nonlinear_arith);
    }
}

/// Derives the shape of a host value.
pub fn get_shape(val: &HostValue) -> (shape: Vec<u32>)
    requires
        dims_fit(*val),
    ensures
        shape@ == spec_shape(*val),
    decreases *val,
{
    match val {
        HostValue::List(es) => {
            let mut shape: Vec<u32> = Vec::new();
            shape.push(es.len() as u32);
            if es.len() > 0 {
                let mut rest = get_shape(&es[0]);
                shape.append(&mut rest);
            }
            proof {
                assert(shape@ =~= spec_shape(*val));
            }
            shape
        },
        _ => Vec::new(),
    }
}

/// Flattens the scalar stream under `v` into `out`, returning whether every
/// scalar was numeric. On the first non-numeric scalar the walk stops.
#[verifier::loop_isolation(false)]
fn flatten_into(v: &HostValue, out: &mut Vec<Scalar>) -> (ok: bool)
    ensures
        ok == all_numeric(*v),
        ok ==> final (out)@ == old(out)@ + spec_scalars(*v),
    decreases *v,
{
    match v {
        HostValue::Num(sc) => {
            out.push(*sc);
            proof {
                assert(out@ =~= old(out)@ + spec_scalars(*v));
            }
            true
        },
        HostValue::NonNumeric => false,
        HostValue::List(es) => {
            let ghost entry = out@;
            let n = es.len();
            let mut i: usize = 0;
            while i < n
                invariant
                    n == es@.len(),
                    0 <= i <= n,
                    out@ == entry + spec_scalars_seq(es@.subrange(0, i as int)),
                    forall|j: int| 0 <= j < i ==> all_numeric(#[trigger] es@[j]),
                decreases n - i,
            {
                proof {
                    broadcast use vstd::std_specs::vec::axiom_vec_decreases_to_view;
                    broadcast use vstd::std_specs::vec::axiom_vec_index_decreases;

                    assert(decreases_to!(*v => (*v)->List_0));
                    assert((*v)->List_0 == *es);
                    assert(decreases_to!(*es => es@));
                    assert(decreases_to!(es@ => es@[i as int]));
                    assert(decreases_to!(*v => es@[i as int]));
                }
                let ok = flatten_into(&es[i], out);
                if !ok {
                    proof {
                        assert(!all_numeric(es@[i as int]));
                    }
                    return false;
                }
                proof {
                    assert(es@.subrange(0, i + 1).drop_last() =~= es@.subrange(0, i as int));
                    assert(es@.subrange(0, i + 1).last() == es@[i as int]);
                }
                i += 1;
            }
            proof {
                assert(es@.subrange(0, n as int) =~= es@);
            }
            true
        },
    }
}

/// Flattens a host value into its scalar stream, in flattening order.
/// Succeeds exactly when every scalar under `v` is numeric; a non-numeric
/// scalar is reported as [`NdError::NonNumericData`] and nothing is built.
pub fn flatten(v: &HostValue) -> (r: Result<Vec<Scalar>, NdError>)
    ensures
        match r {
            Ok(s) => all_numeric(*v) && s@ == spec_scalars(*v),
            Err(e) => !all_numeric(*v) && e == NdError::NonNumericData,
        },
{
    let mut out: Vec<Scalar> = Vec::new();
    if flatten_into(v, &mut out) {
        Ok(out)
    } else {
        Err(NdError::NonNumericData)
    }
}

/// The dtype chosen when the caller supplies none: one scalar whose
/// remainder modulo one exceeds the tolerance classifies the whole stream as
/// `Float64`; an all-integral stream chooses `Int32`. The decision is global
/// across the stream, never per element.
pub open spec fn spec_infer(s: Seq<Scalar>) -> Dtype {
    if exists|i: int| 0 <= i < s.len() && !s[i].integral {
        dtype_of(Generic::Float64)
    } else {
        dtype_of(Generic::Int32)
    }
}

/// Chooses the default dtype for a flattened scalar stream.
pub fn infer_dtype(scalars: &Vec<Scalar>) -> (d: Dtype)
    ensures
        d == spec_infer(scalars@),
        d.wf(),
{
    let mut non_int_found = false;
    let n = scalars.len();
    let mut i: usize = 0;
    while i < n
        invariant
            n == scalars@.len(),
            0 <= i <= n,
            non_int_found == exists|j: int| 0 <= j < i && !scalars@[j].integral,
        decreases n - i,
    {
        if !scalars[i].integral {
            non_int_found = true;
        }
        i += 1;
    }
    if non_int_found {
        Dtype::new(Generic::Float64, None, None)
    } else {
        Dtype::new(Generic::Int32, None, None)
    }
}

} // verus!
