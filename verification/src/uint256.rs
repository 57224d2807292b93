//! Unsigned 256-bit values, the width of an EVM word.
//!
//! A value is kept as its canonical decimal digits, which is exactly how the
//! event pipeline consumes it: payload fields carry 256-bit quantities as
//! decimal strings, and rules compare them against decimal thresholds.

use vstd::prelude::*;
use crate::decimal::{
    be_bytes_val, dec_chars, dec_val, digits_from_be_bytes, digits_from_u64, digits_ge, digits_lt,
    is_canonical, is_dec_string, is_digit_seq, le_val, mul_small_add, parse_digits, pow256,
    string_of_digits, trim,
};

verus! {

/// 2^256: the exclusive upper bound on an EVM word.
pub open spec fn word_bound() -> nat {
    pow256(32)
}

pub proof fn lemma_word_bound_exceeds_u64()
    ensures
        word_bound() > 0xFFFF_FFFF_FFFF_FFFF,
{
    assert(pow256(0) == 1);
    assert(pow256(1) == 256);
    assert(pow256(2) == 0x10000);
    assert(pow256(3) == 0x100_0000);
    assert(pow256(4) == 0x1_0000_0000);
    assert(pow256(5) == 0x100_0000_0000);
    assert(pow256(6) == 0x1_0000_0000_0000);
    assert(pow256(7) == 0x100_0000_0000_0000);
    assert(pow256(8) == 0x1_0000_0000_0000_0000);
    lemma_pow256_grows(8, 32);
}

proof fn lemma_pow256_grows(m: nat, n: nat)
    requires
        m <= n,
    ensures
        pow256(m) <= pow256(n),
    decreases n,
{
    if m < n {
        lemma_pow256_grows(m, (n - 1) as nat);
        crate::decimal::lemma_pow256_pos((n - 1) as nat);
    }
}

/// A big-endian byte string denotes less than 256^len.
pub proof fn lemma_be_bytes_val_bound(s: Seq<u8>)
    ensures
        be_bytes_val(s) < pow256(s.len()),
    decreases s.len(),
{
    if s.len() > 0 {
        lemma_be_bytes_val_bound(s.drop_last());
    }
}

/// An unsigned 256-bit integer, held as canonical little-endian decimal digits.
pub struct Uint256 {
    digits: Vec<u8>,
}

impl Uint256 {
    /// The number this value denotes.
    pub closed spec fn val(self) -> nat {
        le_val(self.digits@)
    }

    #[verifier::type_invariant]
    closed spec fn inv(self) -> bool {
        is_canonical(self.digits@) && le_val(self.digits@) < word_bound()
    }

    pub fn from_u64(v: u64) -> (r: Uint256)
        ensures
            r.val() == v,
    {
        let digits = digits_from_u64(v);
        proof {
            lemma_word_bound_exceeds_u64();
        }
        Uint256 { digits }
    }

    /// Read a 32-byte big-endian data slot, as the decoder does.
    pub fn from_be_bytes(bytes: &[u8]) -> (r: Uint256)
        requires
            bytes@.len() == 32,
        ensures
            r.val() == be_bytes_val(bytes@),
    {
        let digits = digits_from_be_bytes(bytes);
        proof {
            lemma_be_bytes_val_bound(bytes@);
        }
        Uint256 { digits }
    }

    /// Parse a decimal string. Fails exactly on empty strings, non-digit
    /// characters, and values that do not fit in 256 bits.
    pub fn from_decimal(s: &str) -> (r: Option<Uint256>)
        ensures
            r is Some <==> (is_dec_string(s@) && dec_val(s@) < word_bound()),
            r is Some ==> r->Some_0.val() == dec_val(s@),
    {
        match parse_digits(s) {
            None => None,
            Some(digits) => {
                let maxd = max_word_digits();
                if digits_lt(&maxd, &digits) {
                    proof {
                        assert(dec_val(s@) >= word_bound());
                    }
                    None
                } else {
                    Some(Uint256 { digits })
                }
            },
        }
    }

    /// The threshold comparison used by the rules.
    pub fn ge(&self, other: &Uint256) -> (r: bool)
        ensures
            r == (self.val() >= other.val()),
    {
        proof {
            use_type_invariant(self);
            use_type_invariant(other);
        }
        digits_ge(&self.digits, &other.digits)
    }

    /// The canonical decimal rendering.
    pub fn to_decimal(&self) -> (r: String)
        ensures
            r@ == dec_chars(self.val()),
    {
        proof {
            use_type_invariant(self);
        }
        string_of_digits(&self.digits)
    }

    /// 2^255 - 1, i.e. the largest word shifted right once: the default
    /// threshold for flagging near-unlimited approvals.
    pub fn half_max() -> (r: Uint256)
        ensures
            r.val() == (word_bound() - 1) / 2,
    {
        let mut digits: Vec<u8> = Vec::new();
        let mut i: usize = 0;
        proof {
            assert(pow2(0) == 1);
        }
        while i < 255
            invariant
                i <= 255,
                is_digit_seq(digits@),
                le_val(digits@) + 1 == pow2(i as nat),
            decreases 255 - i,
        {
            mul_small_add(&mut digits, 2, 1);
            proof {
                assert(pow2((i + 1) as nat) == 2 * pow2(i as nat));
            }
            i += 1;
        }
        trim(&mut digits);
        proof {
            lemma_pow256_is_pow2(32);
            assert(pow2(256) == 2 * pow2(255));
            assert((word_bound() - 1) / 2 == pow2(255) - 1);
            assert(le_val(digits@) < word_bound());
        }
        Uint256 { digits }
    }
}

/// Powers of two, used to state the half-max constant.
pub open spec fn pow2(n: nat) -> nat
    decreases n,
{
    if n == 0 {
        1
    } else {
        2 * pow2((n - 1) as nat)
    }
}

proof fn lemma_pow2_mul256(x: nat)
    ensures
        pow2(x + 8) == 256 * pow2(x),
{
    assert(pow2(x + 1) == 2 * pow2(x));
    assert(pow2(x + 2) == 2 * pow2(x + 1));
    assert(pow2(x + 3) == 2 * pow2(x + 2));
    assert(pow2(x + 4) == 2 * pow2(x + 3));
    assert(pow2(x + 5) == 2 * pow2(x + 4));
    assert(pow2(x + 6) == 2 * pow2(x + 5));
    assert(pow2(x + 7) == 2 * pow2(x + 6));
    assert(pow2(x + 8) == 2 * pow2(x + 7));
}

proof fn lemma_pow256_is_pow2(n: nat)
    ensures
        pow256(n) == pow2(8 * n),
    decreases n,
{
    if n > 0 {
        lemma_pow256_is_pow2((n - 1) as nat);
        lemma_pow2_mul256((8 * (n - 1)) as nat);
    }
}

/// The digits of 2^256 - 1, the largest EVM word.
fn max_word_digits() -> (r: Vec<u8>)
    ensures
        is_canonical(r@),
        le_val(r@) == word_bound() - 1,
{
    let mut digits: Vec<u8> = Vec::new();
    let mut i: usize = 0;
    proof {
        assert(pow256(0) == 1);
    }
    while i < 32
        invariant
            i <= 32,
            is_digit_seq(digits@),
            le_val(digits@) + 1 == pow256(i as nat),
        decreases 32 - i,
    {
        mul_small_add(&mut digits, 256, 255);
        proof {
            assert(pow256((i + 1) as nat) == 256 * pow256(i as nat));
        }
        i += 1;
    }
    trim(&mut digits);
    digits
}

} // verus!
