//! Textual rendering of an IEEE-754 binary64 value from its bit pattern.
//!
//! The library fixes the following format for 8-byte floating elements,
//! computed from the encoding alone:
//! - `NaN` for any not-a-number encoding; `inf` and `-inf` for the
//!   infinities; `0` and `-0` for the two zeros;
//! - a finite value that is an integer of magnitude below `2^63` prints as a
//!   plain signed decimal integer, matching the integer formats' output;
//! - every other finite value prints in hexadecimal floating form,
//!   `[-]0x1.<nibbles>p<sign><decimal exponent>` for normal values and
//!   `[-]0x0.<nibbles>p-1022` for subnormal ones, with trailing zero
//!   nibbles of the 52-bit fraction trimmed and the point omitted when the
//!   fraction is zero.

use vstd::prelude::*;
use vstd::arithmetic::power2::{
    lemma2_to64, lemma2_to64_rest, lemma_pow2_pos, lemma_pow2_strictly_increases,
    lemma_pow2_unfold, pow2,
};
use vstd::string::StringExecFns;

use crate::text::{dec_digits, digit_char, digit_str, u64_dec};

verus! {

/// The hexadecimal digit character for `d`; meaningful for `0 <= d < 16`.
pub open spec fn hex_char(d: int) -> char {
    if d < 10 {
        digit_char(d)
    } else if d == 10 {
        'a'
    } else if d == 11 {
        'b'
    } else if d == 12 {
        'c'
    } else if d == 13 {
        'd'
    } else if d == 14 {
        'e'
    } else {
        'f'
    }
}

/// The thirteen hexadecimal digits of a 52-bit fraction, most significant
/// first.
pub open spec fn frac_nibbles(f: nat) -> Seq<char> {
    Seq::new(13, |i: int| hex_char(((f / pow2((4 * (12 - i)) as nat)) % 16) as int))
}

/// `s` with its trailing `'0'` characters removed.
pub open spec fn trim_zeros(s: Seq<char>) -> Seq<char>
    decreases s.len(),
{
    if s.len() > 0 && s.last() == '0' {
        trim_zeros(s.drop_last())
    } else {
        s
    }
}

/// The exponent part of a hexadecimal floating form: `p`, an explicit sign,
/// and the decimal magnitude.
pub open spec fn exp_part(e: int) -> Seq<char> {
    if e >= 0 {
        seq!['p', '+'] + dec_digits(e as nat)
    } else {
        seq!['p', '-'] + dec_digits((-e) as nat)
    }
}

/// The hexadecimal floating form of a finite, nonzero encoding with biased
/// exponent `expf` and fraction `frac`.
pub open spec fn spec_hex_form(expf: int, frac: int) -> Seq<char> {
    if expf == 0 {
        seq!['0', 'x', '0', '.'] + trim_zeros(frac_nibbles(frac as nat)) + exp_part(-1022)
    } else {
        seq!['0', 'x', '1'] + (if frac == 0 {
            Seq::<char>::empty()
        } else {
            seq!['.'] + trim_zeros(frac_nibbles(frac as nat))
        }) + exp_part(expf - 1023)
    }
}

/// The fixed textual form of the binary64 value encoded as `bits`, as
/// documented at the top of this module.
pub open spec fn spec_f64_display(bits: u64) -> Seq<char> {
    let neg = bits >= 0x8000_0000_0000_0000;
    let expf = ((bits as int) / 0x10_0000_0000_0000) % 0x800;
    let frac = (bits as int) % 0x10_0000_0000_0000;
    let sign = if neg {
        seq!['-']
    } else {
        Seq::<char>::empty()
    };
    if expf == 0x7ff {
        if frac != 0 {
            seq!['N', 'a', 'N']
        } else {
            sign + seq!['i', 'n', 'f']
        }
    } else if expf == 0 && frac == 0 {
        sign + seq!['0']
    } else {
        let m = (if expf == 0 {
            frac
        } else {
            frac + 0x10_0000_0000_0000
        }) as nat;
        let e2 = if expf == 0 {
            -1074
        } else {
            expf - 1075
        };
        if 0 <= e2 <= 10 {
            sign + dec_digits(m * pow2(e2 as nat))
        } else if -63 <= e2 < 0 && m % pow2((-e2) as nat) == 0 {
            sign + dec_digits(m / pow2((-e2) as nat))
        } else {
            sign + spec_hex_form(expf, frac)
        }
    }
}

/// Computes a small power of two.
fn pow2_u64(k: u64) -> (p: u64)
    requires
        k <= 63,
    ensures
        p as nat == pow2(k as nat),
        p >= 1,
{
    proof {
        lemma2_to64();
    }
    let mut p: u64 = 1;
    let mut j: u64 = 0;
    while j < k
        invariant
            0 <= j <= k <= 63,
            p as nat == pow2(j as nat),
        decreases k - j,
    {
        proof {
            lemma2_to64();
            lemma2_to64_rest();
            lemma_pow2_strictly_increases(j as nat, 63);
            lemma_pow2_unfold((j + 1) as nat);
        }
        p = p * 2;
        j = j + 1;
    }
    proof {
        lemma_pow2_pos(k as nat);
    }
    p
}

fn hex_char_str(d: u64) -> (s: &'static str)
    requires
        d < 16,
    ensures
        s@ == seq![hex_char(d as int)],
{
    if d < 10 {
        digit_str(d)
    } else if d == 10 {
        proof {
            reveal_strlit("a");
            assert("a"@ =~= seq![hex_char(10)]);
        }
        "a"
    } else if d == 11 {
        proof {
            reveal_strlit("b");
            assert("b"@ =~= seq![hex_char(11)]);
        }
        "b"
    } else if d == 12 {
        proof {
            reveal_strlit("c");
            assert("c"@ =~= seq![hex_char(12)]);
        }
        "c"
    } else if d == 13 {
        proof {
            reveal_strlit("d");
            assert("d"@ =~= seq![hex_char(13)]);
        }
        "d"
    } else if d == 14 {
        proof {
            reveal_strlit("e");
            assert("e"@ =~= seq![hex_char(14)]);
        }
        "e"
    } else {
        proof {
            reveal_strlit("f");
            assert("f"@ =~= seq![hex_char(15)]);
        }
        "f"
    }
}

/// The hexadecimal digit of the fraction at position `i` (position zero is
/// the most significant).
fn nibble_at(frac: u64, i: u64) -> (d: u64)
    requires
        i < 13,
    ensures
        d < 16,
        d as int == ((frac as nat) / pow2((4 * (12 - i)) as nat)) % 16,
{
    let p = pow2_u64(4 * (12 - i));
    (frac / p) % 16
}

/// Trimming keeps exactly the characters before the trailing run of zeros.
proof fn lemma_trim_take(full: Seq<char>, j: int)
    requires
        0 <= j <= full.len(),
        forall|idx: int| j <= idx < full.len() ==> full[idx] == '0',
        j > 0 ==> full[j - 1] != '0',
    ensures
        trim_zeros(full) == full.take(j),
    decreases full.len() - j,
{
    if j == full.len() {
        if full.len() == 0 {
            assert(trim_zeros(full) =~= full.take(j));
        } else {
            assert(full.last() == full[j - 1]);
            assert(trim_zeros(full) == full);
            assert(full.take(j) =~= full);
        }
    } else {
        assert(full.last() == full[full.len() - 1] == '0');
        assert(trim_zeros(full) == trim_zeros(full.drop_last()));
        lemma_trim_take(full.drop_last(), j);
        assert(full.drop_last().take(j) =~= full.take(j));
    }
}

/// Appends the fraction's hexadecimal digits with the trailing zeros
/// trimmed.
#[verifier::loop_isolation(false)]
fn push_trimmed_nibbles(s: &mut String, frac: u64)
    ensures
        final (s)@ == old(s)@ + trim_zeros(frac_nibbles(frac as nat)),
{
    let ghost full = frac_nibbles(frac as nat);
    let mut j: usize = 13;
    while j > 0 && nibble_at(frac, (j - 1) as u64) == 0
        invariant
            0 <= j <= 13,
            forall|idx: int| j <= idx < 13 ==> full[idx] == '0',
        decreases j,
    {
        proof {
            assert(full[j - 1] == hex_char(
                ((((frac as nat) / pow2((4 * (12 - (j - 1))) as nat)) % 16) as int),
            ));
        }
        j = j - 1;
    }
    proof {
        lemma_trim_take(full, j as int);
    }
    let mut i: usize = 0;
    while i < j
        invariant
            0 <= i <= j <= 13,
            s@ == old(s)@ + full.take(i as int),
        decreases j - i,
    {
        let d = nibble_at(frac, i as u64);
        s.append(hex_char_str(d));
        proof {
            assert(full[i as int] == hex_char(d as int));
            assert(full.take(i + 1) =~= full.take(i as int).push(full[i as int]));
            assert(s@ =~= old(s)@ + full.take(i + 1));
        }
        i = i + 1;
    }
}

/// Appends the exponent part `p<sign><decimal>` for exponent `e`.
fn push_exp_part(s: &mut String, e: i32)
    requires
        -1100 <= e <= 1100,
    ensures
        final (s)@ == old(s)@ + exp_part(e as int),
{
    if e >= 0 {
        proof {
            reveal_strlit("p+");
        }
        s.append("p+");
        let digits = u64_dec(e as u64);
        s.append(digits.as_str());
        proof {
            assert(s@ =~= old(s)@ + exp_part(e as int));
        }
    } else {
        proof {
            reveal_strlit("p-");
        }
        s.append("p-");
        let digits = u64_dec((-e) as u64);
        s.append(digits.as_str());
        proof {
            assert(s@ =~= old(s)@ + exp_part(e as int));
        }
    }
}

/// Appends the hexadecimal floating form of a finite, nonzero encoding.
fn push_hex_form(s: &mut String, expf: u64, frac: u64)
    requires
        expf < 0x7ff,
        frac < 0x10_0000_0000_0000,
        expf == 0 ==> frac != 0,
    ensures
        final (s)@ == old(s)@ + spec_hex_form(expf as int, frac as int),
{
    if expf == 0 {
        proof {
            reveal_strlit("0x0.");
        }
        s.append("0x0.");
        push_trimmed_nibbles(s, frac);
        push_exp_part(s, -1022);
        proof {
            assert(s@ =~= old(s)@ + spec_hex_form(expf as int, frac as int));
        }
    } else {
        proof {
            reveal_strlit("0x1");
        }
        s.append("0x1");
        if frac != 0 {
            proof {
                reveal_strlit(".");
            }
            s.append(".");
            push_trimmed_nibbles(s, frac);
        }
        let e: i32 = (expf as i32) - 1023;
        push_exp_part(s, e);
        proof {
            assert(s@ =~= old(s)@ + spec_hex_form(expf as int, frac as int));
        }
    }
}

/// Renders the binary64 value encoded as `bits` in the library's fixed
/// floating format.
pub fn f64_bits_text(bits: u64) -> (s: String)
    ensures
        s@ == spec_f64_display(bits),
{
    let neg = bits >= 0x8000_0000_0000_0000;
    let expf: u64 = (bits / 0x10_0000_0000_0000) % 0x800;
    let frac: u64 = bits % 0x10_0000_0000_0000;
    if expf == 0x7ff {
        if frac != 0 {
            let s = String::from_str("NaN");
            proof {
                reveal_strlit("NaN");
                assert(s@ =~= spec_f64_display(bits));
            }
            return s;
        } else {
            let mut s = String::new();
            if neg {
                proof {
                    reveal_strlit("-");
                }
                s.append("-");
            }
            proof {
                reveal_strlit("inf");
            }
            s.append("inf");
            proof {
                assert(s@ =~= spec_f64_display(bits));
            }
            return s;
        }
    }
    let mut s = String::new();
    if neg {
        proof {
            reveal_strlit("-");
        }
        s.append("-");
    }
    if expf == 0 && frac == 0 {
        proof {
            reveal_strlit("0");
        }
        s.append("0");
        proof {
            assert(s@ =~= spec_f64_display(bits));
        }
        return s;
    }
    if expf >= 1075 && expf <= 1085 {
        let m: u64 = frac + 0x10_0000_0000_0000;
        let e2: u64 = expf - 1075;
        let p = pow2_u64(e2);
        proof {
            lemma2_to64();
            if e2 < 10 {
                lemma_pow2_strictly_increases(e2 as nat, 10);
            }
            assert(m * p <= 0x20_0000_0000_0000 * 0x400) by (nonlinear_arith)
                requires
                    m <= 0x20_0000_0000_0000,
                    p <= 0x400,
            ;
        }
        let v: u64 = m * p;
        let digits = u64_dec(v);
        s.append(digits.as_str());
        proof {
            assert(s@ =~= spec_f64_display(bits));
        }
        s
    } else if expf >= 1012 && expf < 1075 {
        let m: u64 = frac + 0x10_0000_0000_0000;
        let k: u64 = 1075 - expf;
        let p = pow2_u64(k);
        if m % p == 0 {
            let digits = u64_dec(m / p);
            s.append(digits.as_str());
            proof {
                assert(s@ =~= spec_f64_display(bits));
            }
            s
        } else {
            push_hex_form(&mut s, expf, frac);
            proof {
                assert(s@ =~= spec_f64_display(bits));
            }
            s
        }
    } else {
        push_hex_form(&mut s, expf, frac);
        proof {
            assert(s@ =~= spec_f64_display(bits));
        }
        s
    }
}

} // verus!
