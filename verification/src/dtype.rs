//! The fixed set of supported element formats and their binary layout.

use vstd::prelude::*;
use vstd::string::StringExecFns;

use crate::text::{dec_digits, u64_dec};

verus! {

/// Host-facing selector naming one of the four supported element formats.
#[derive(Clone, Copy, PartialEq, Eq, Structural)]
pub enum Generic {
    Int8,
    Int16,
    Int32,
    Float64,
}

/// The numeric family of an element format.
#[derive(Clone, Copy, PartialEq, Eq, Structural, Debug)]
pub enum DtypeKind {
    Integer,
    Float,
}

/// The description of one scalar storage format: its numeric family, its
/// size in bytes and its required alignment. A `Dtype` is an immutable
/// value, constructed once from a [`Generic`] variant by [`Dtype::new`].
#[derive(Clone, Copy, PartialEq, Eq, Structural, Debug)]
pub struct Dtype {
    pub kind: DtypeKind,
    pub item_size: u32,
    pub alignment: u32,
}

/// The layout that each named variant stands for.
pub open spec fn dtype_of(g: Generic) -> Dtype {
    match g {
        Generic::Int8 => Dtype { kind: DtypeKind::Integer, item_size: 1, alignment: 1 },
        Generic::Int16 => Dtype { kind: DtypeKind::Integer, item_size: 2, alignment: 2 },
        Generic::Int32 => Dtype { kind: DtypeKind::Integer, item_size: 4, alignment: 4 },
        Generic::Float64 => Dtype { kind: DtypeKind::Float, item_size: 8, alignment: 8 },
    }
}

/// The character under which a numeric family displays.
pub open spec fn kind_char(k: DtypeKind) -> char {
    match k {
        DtypeKind::Integer => 'i',
        DtypeKind::Float => 'f',
    }
}

impl Dtype {
    /// A dtype is well formed when its `(kind, item_size)` pair is one of
    /// the four supported combinations and its alignment equals its size.
    pub open spec fn wf(self) -> bool {
        exists|g: Generic| self == dtype_of(g)
    }

    /// Builds the layout of the requested variant. The variant set is
    /// closed, so there is no failure path. The two optional flags are
    /// accepted for interface compatibility and do not change the result.
    pub fn new(obj: Generic, align: Option<bool>, copy: Option<bool>) -> (d: Dtype)
        ensures
            d == dtype_of(obj),
            d.wf(),
    {
        let d = match obj {
            Generic::Int8 => Dtype { kind: DtypeKind::Integer, item_size: 1, alignment: 1 },
            Generic::Int16 => Dtype { kind: DtypeKind::Integer, item_size: 2, alignment: 2 },
            Generic::Int32 => Dtype { kind: DtypeKind::Integer, item_size: 4, alignment: 4 },
            Generic::Float64 => Dtype { kind: DtypeKind::Float, item_size: 8, alignment: 8 },
        };
        proof {
            assert(d == dtype_of(obj));
        }
        d
    }

    /// The canonical textual form of a dtype: `dtype('<kind><size>')`,
    /// e.g. `dtype('i4')` or `dtype('f8')`.
    pub open spec fn spec_display(self) -> Seq<char> {
        seq!['d', 't', 'y', 'p', 'e', '(', '\''] + seq![kind_char(self.kind)] + dec_digits(
            self.item_size as nat,
        ) + seq!['\'', ')']
    }

    /// Renders the canonical textual form.
    pub fn pretty_print(&self) -> (s: String)
        ensures
            s@ == self.spec_display(),
    {
        let mut s = String::from_str("dtype('");
        proof {
            reveal_strlit("dtype('");
        }
        match self.kind {
            DtypeKind::Integer => {
                proof {
                    reveal_strlit("i");
                }
                s.append("i");
            },
            DtypeKind::Float => {
                proof {
                    reveal_strlit("f");
                }
                s.append("f");
            },
        }
        let digits = u64_dec(self.item_size as u64);
        s.append(digits.as_str());
        proof {
            reveal_strlit("')");
        }
        s.append("')");
        proof {
            assert(s@ =~= self.spec_display());
        }
        s
    }
}

/// Every supported variant displays under the fixed pattern
/// `dtype('<kind letter><byte size>')`.
pub proof fn lemma_dtype_display_forms()
    ensures
        dtype_of(Generic::Int8).spec_display() == "dtype('i1')"@,
        dtype_of(Generic::Int16).spec_display() == "dtype('i2')"@,
        dtype_of(Generic::Int32).spec_display() == "dtype('i4')"@,
        dtype_of(Generic::Float64).spec_display() == "dtype('f8')"@,
{
    reveal_strlit("dtype('i1')");
    reveal_strlit("dtype('i2')");
    reveal_strlit("dtype('i4')");
    reveal_strlit("dtype('f8')");
    assert(dtype_of(Generic::Int8).spec_display() =~= "dtype('i1')"@);
    assert(dtype_of(Generic::Int16).spec_display() =~= "dtype('i2')"@);
    assert(dtype_of(Generic::Int32).spec_display() =~= "dtype('i4')"@);
    assert(dtype_of(Generic::Float64).spec_display() =~= "dtype('f8')"@);
}

} // verus!
