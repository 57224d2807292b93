//! Arbitrary-precision decimal digit vectors.
//!
//! A number is held as a vector of base-10 digits, least significant first.
//! This representation carries the 256-bit quantities that appear in chain
//! events: values are parsed from decimal strings, compared against
//! thresholds, and rendered back to canonical decimal strings.

use vstd::prelude::*;

verus! {

pub open spec fn pow10(n: nat) -> nat
    decreases n,
{
    if n == 0 {
        1
    } else {
        10 * pow10((n - 1) as nat)
    }
}

pub open spec fn pow256(n: nat) -> nat
    decreases n,
{
    if n == 0 {
        1
    } else {
        256 * pow256((n - 1) as nat)
    }
}

/// Every entry is a base-10 digit.
pub open spec fn is_digit_seq(s: Seq<u8>) -> bool {
    forall|i: int| 0 <= i < s.len() ==> s[i] < 10
}

/// Digits with no redundant leading zero (the zero value is the empty vector).
pub open spec fn is_canonical(s: Seq<u8>) -> bool {
    is_digit_seq(s) && (s.len() == 0 || s.last() != 0)
}

/// The number denoted by a little-endian digit sequence.
pub open spec fn le_val(s: Seq<u8>) -> nat
    decreases s.len(),
{
    if s.len() == 0 {
        0
    } else {
        s[0] as nat + 10 * le_val(s.drop_first())
    }
}

/// The number denoted by a big-endian byte string (as in an EVM data slot).
pub open spec fn be_bytes_val(s: Seq<u8>) -> nat
    decreases s.len(),
{
    if s.len() == 0 {
        0
    } else {
        256 * be_bytes_val(s.drop_last()) + s.last() as nat
    }
}

pub proof fn lemma_pow10_pos(n: nat)
    ensures
        pow10(n) >= 1,
    decreases n,
{
    if n > 0 {
        lemma_pow10_pos((n - 1) as nat);
    }
}

pub proof fn lemma_pow10_mono(m: nat, n: nat)
    requires
        m <= n,
    ensures
        pow10(m) <= pow10(n),
    decreases n,
{
    if m < n {
        lemma_pow10_mono(m, (n - 1) as nat);
        lemma_pow10_pos((n - 1) as nat);
    }
}

pub proof fn lemma_pow256_pos(n: nat)
    ensures
        pow256(n) >= 1,
    decreases n,
{
    if n > 0 {
        lemma_pow256_pos((n - 1) as nat);
    }
}

/// Appending a digit on the significant end adds `d * pow10(len)`.
pub proof fn lemma_le_val_push(s: Seq<u8>, d: u8)
    ensures
        le_val(s.push(d)) == le_val(s) + d * pow10(s.len()),
    decreases s.len(),
{
    if s.len() == 0 {
        assert(s.push(d).drop_first() =~= Seq::<u8>::empty());
        assert(le_val(Seq::<u8>::empty()) == 0);
        assert(s.push(d)[0] == d);
        assert(le_val(s.push(d)) == d as nat);
        assert(pow10(s.len()) == 1);
        assert(d * pow10(s.len()) == d) by (nonlinear_arith)
            requires
                pow10(s.len()) == 1,
        ;
    } else {
        assert(s.push(d).drop_first() =~= s.drop_first().push(d));
        lemma_le_val_push(s.drop_first(), d);
        let r = le_val(s.drop_first());
        let p = pow10((s.len() - 1) as nat);
        assert(s.push(d)[0] == s[0]);
        assert(le_val(s.push(d)) == s[0] as nat + 10 * (r + d * p));
        assert(10 * (r + d * p) == 10 * r + d * (10 * p)) by (nonlinear_arith);
        assert(pow10(s.len()) == 10 * p);
        assert(le_val(s.push(d)) == (s[0] as nat + 10 * r) + d * pow10(s.len()));
    }
}

/// A digit sequence denotes less than `pow10` of its length.
pub proof fn lemma_le_val_bound(s: Seq<u8>)
    requires
        is_digit_seq(s),
    ensures
        le_val(s) < pow10(s.len()),
    decreases s.len(),
{
    if s.len() > 0 {
        lemma_le_val_bound(s.drop_first());
    }
}

/// A canonical, non-empty digit sequence denotes at least `pow10(len - 1)`.
pub proof fn lemma_canonical_lower(s: Seq<u8>)
    requires
        is_canonical(s),
        s.len() > 0,
    ensures
        le_val(s) >= pow10((s.len() - 1) as nat),
    decreases s.len(),
{
    if s.len() == 1 {
        assert(s.last() == s[0]);
    } else {
        assert(s.drop_first().last() == s.last());
        lemma_canonical_lower(s.drop_first());
    }
}

/// Splitting a digit sequence at `i` splits its value at `pow10(i)`.
pub proof fn lemma_le_val_split(s: Seq<u8>, i: int)
    requires
        0 <= i <= s.len(),
    ensures
        le_val(s) == le_val(s.subrange(0, i)) + pow10(i as nat) * le_val(s.skip(i)),
    decreases i,
{
    if i == 0 {
        assert(s.subrange(0, 0) =~= Seq::<u8>::empty());
        assert(le_val(Seq::<u8>::empty()) == 0);
        assert(s.skip(0) =~= s);
        assert(pow10(0) == 1);
        assert(1 * le_val(s) == le_val(s)) by (nonlinear_arith);
    } else {
        assert(s.len() > 0);
        lemma_le_val_split(s.drop_first(), i - 1);
        assert(s.drop_first().subrange(0, i - 1) =~= s.subrange(0, i).drop_first());
        assert(s.drop_first().skip(i - 1) =~= s.skip(i));
        let lo = le_val(s.subrange(0, i).drop_first());
        let p = pow10((i - 1) as nat);
        let hi = le_val(s.skip(i));
        assert(le_val(s) == s[0] as nat + 10 * (lo + p * hi));
        assert(10 * (lo + p * hi) == 10 * lo + (10 * p) * hi) by (nonlinear_arith);
        assert(s.subrange(0, i)[0] == s[0]);
        assert(le_val(s.subrange(0, i)) == s[0] as nat + 10 * lo);
        assert(pow10(i as nat) == 10 * p);
        assert(le_val(s) == le_val(s.subrange(0, i)) + pow10(i as nat) * hi);
    }
}

/// Strip leading zeros (which sit at the end of a little-endian vector).
pub fn trim(digits: &mut Vec<u8>)
    requires
        is_digit_seq(old(digits)@),
    ensures
        is_canonical(final(digits)@),
        le_val(final(digits)@) == le_val(old(digits)@),
{
    while digits.len() > 0 && digits[digits.len() - 1] == 0
        invariant
            is_digit_seq(digits@),
            le_val(digits@) == le_val(old(digits)@),
        decreases digits@.len(),
    {
        proof {
            let s = digits@;
            assert(s =~= s.drop_last().push(s.last()));
            lemma_le_val_push(s.drop_last(), s.last());
        }
        digits.pop();
    }
}

proof fn lemma_mul_carry_step(p: nat, nd: nat, ncarry: nat, m: nat, r1: nat, carry: nat, d: nat)
    requires
        carry + m * d == nd + 10 * ncarry,
    ensures
        p * nd + (10 * p) * (ncarry + m * r1) == p * (carry + m * (d + 10 * r1)),
{
    assert(p * nd + (10 * p) * (ncarry + m * r1) == p * (carry + m * (d + 10 * r1)))
        by (nonlinear_arith)
        requires
            carry + m * d == nd + 10 * ncarry,
    ;
}

/// Replace the denoted value `v` by `v * m + a`, in place.
#[verifier::rlimit(50)]
pub fn mul_small_add(digits: &mut Vec<u8>, m: u64, a: u64)
    requires
        is_digit_seq(old(digits)@),
        1 <= m <= 0x10000,
        a <= 0xFFFF_FFFF,
    ensures
        is_digit_seq(final(digits)@),
        le_val(final(digits)@) == le_val(old(digits)@) * m + a,
{
    let ghost orig = digits@;
    let ghost goal = le_val(orig) * m + a;
    let mut carry: u64 = a;
    let mut i: usize = 0;
    proof {
        assert(orig.subrange(0, 0) =~= Seq::<u8>::empty());
        assert(orig.skip(0) =~= orig);
        assert(pow10(0) == 1);
        assert(1 * (a + m * le_val(orig)) == le_val(orig) * m + a) by (nonlinear_arith);
    }
    while i < digits.len()
        invariant
            is_digit_seq(orig),
            1 <= m <= 0x10000,
            digits@.len() == orig.len(),
            i <= orig.len(),
            carry <= 0xFFFF_FFFF + 9 * m,
            goal == le_val(orig) * m + a,
            is_digit_seq(digits@.subrange(0, i as int)),
            digits@.skip(i as int) =~= orig.skip(i as int),
            le_val(digits@.subrange(0, i as int)) + pow10(i as nat) * (carry + m * le_val(
                orig.skip(i as int),
            )) == goal,
        decreases orig.len() - i,
    {
        let d = digits[i];
        proof {
            assert(digits@.skip(i as int)[0] == digits@[i as int]);
            assert(orig.skip(i as int)[0] == orig[i as int]);
            assert(d == orig[i as int]);
            assert(d < 10);
            assert(m * (d as u64) <= 0x10000 * 9) by (nonlinear_arith)
                requires
                    m <= 0x10000,
                    d < 10,
            ;
        }
        let cur: u64 = m * (d as u64) + carry;
        let nd: u8 = (cur % 10) as u8;
        let ghost dpre = digits@;
        digits.set(i, nd);
        let new_carry: u64 = cur / 10;
        proof {
            let dnew = digits@;
            assert(dnew =~= dpre.update(i as int, nd));
            assert(dnew.subrange(0, i as int) =~= dpre.subrange(0, i as int));
            assert(dnew.subrange(0, i as int + 1) =~= dpre.subrange(0, i as int).push(nd));
            lemma_le_val_push(dpre.subrange(0, i as int), nd);
            let sk = orig.skip(i as int);
            assert(sk.drop_first() =~= orig.skip(i as int + 1));
            let r1 = le_val(orig.skip(i as int + 1));
            assert(le_val(sk) == orig[i as int] as nat + 10 * r1);
            let p = pow10(i as nat);
            assert(cur == nd + 10 * new_carry);
            assert(le_val(dnew.subrange(0, i as int + 1)) == le_val(dpre.subrange(0, i as int))
                + nd * p);
            lemma_mul_carry_step(
                p,
                nd as nat,
                new_carry as nat,
                m as nat,
                r1,
                carry as nat,
                d as nat,
            );
            assert(pow10((i + 1) as nat) == 10 * p);
            assert(le_val(sk) == d as nat + 10 * r1);
            assert(le_val(dnew.subrange(0, i as int + 1)) + pow10((i + 1) as nat) * (new_carry
                + m * r1) == le_val(dpre.subrange(0, i as int)) + p * (carry + m * le_val(sk)));
            assert(dnew.skip(i as int + 1) =~= orig.skip(i as int + 1));
        }
        carry = new_carry;
        i += 1;
    }
    proof {
        assert(digits@.subrange(0, i as int) =~= digits@);
        assert(orig.skip(i as int) =~= Seq::<u8>::empty());
        assert(le_val(digits@) + pow10(i as nat) * (carry as nat + m * 0) == goal);
    }
    while carry > 0
        invariant
            is_digit_seq(digits@),
            le_val(digits@) + pow10(digits@.len()) * (carry as nat) == goal,
        decreases carry,
    {
        let nd: u8 = (carry % 10) as u8;
        let ghost before = digits@;
        digits.push(nd);
        let new_carry = carry / 10;
        proof {
            lemma_le_val_push(before, nd);
            let p = pow10(before.len());
            assert(carry == nd + 10 * new_carry);
            assert(p * (carry as nat) == p * nd + (10 * p) * new_carry) by (nonlinear_arith)
                requires
                    carry == nd + 10 * new_carry,
            ;
            assert(pow10(digits@.len()) == 10 * p);
        }
        carry = new_carry;
    }
}

/// The little-endian digits of a machine word.
pub fn digits_from_u64(v: u64) -> (r: Vec<u8>)
    ensures
        is_canonical(r@),
        le_val(r@) == v,
{
    let mut r: Vec<u8> = Vec::new();
    let mut x: u64 = v;
    proof {
        assert(pow10(0) == 1);
        assert((v as nat) * 1 == v) by (nonlinear_arith);
    }
    while x > 0
        invariant
            is_digit_seq(r@),
            le_val(r@) + (x as nat) * pow10(r@.len()) == v,
        decreases x,
    {
        let nd: u8 = (x % 10) as u8;
        let ghost before = r@;
        r.push(nd);
        let nx = x / 10;
        proof {
            lemma_le_val_push(before, nd);
            let p = pow10(before.len());
            assert((x as nat) * p == (nd as nat) * p + (nx as nat) * (10 * p))
                by (nonlinear_arith)
                requires
                    x == nd + 10 * nx,
            ;
            assert(pow10(r@.len()) == 10 * p);
        }
        x = nx;
    }
    trim(&mut r);
    r
}

/// The digits of a big-endian byte string, e.g. a 32-byte EVM data slot.
pub fn digits_from_be_bytes(bytes: &[u8]) -> (r: Vec<u8>)
    ensures
        is_canonical(r@),
        le_val(r@) == be_bytes_val(bytes@),
{
    let mut r: Vec<u8> = Vec::new();
    let mut i: usize = 0;
    while i < bytes.len()
        invariant
            i <= bytes@.len(),
            is_digit_seq(r@),
            le_val(r@) == be_bytes_val(bytes@.subrange(0, i as int)),
        decreases bytes@.len() - i,
    {
        let b = bytes[i];
        mul_small_add(&mut r, 256, b as u64);
        proof {
            assert(bytes@.subrange(0, i as int + 1).drop_last() =~= bytes@.subrange(0, i as int));
            assert(bytes@.subrange(0, i as int + 1).last() == bytes@[i as int]);
        }
        i += 1;
    }
    proof {
        assert(bytes@.subrange(0, bytes@.len() as int) =~= bytes@);
    }
    trim(&mut r);
    r
}

/// Two equal-length digit sequences that agree above position `i` are ordered
/// by their digits at `i`.
proof fn lemma_lt_at(a: Seq<u8>, b: Seq<u8>, i: int)
    requires
        is_digit_seq(a),
        is_digit_seq(b),
        a.len() == b.len(),
        0 <= i < a.len(),
        a.skip(i + 1) =~= b.skip(i + 1),
        a[i] < b[i],
    ensures
        le_val(a) < le_val(b),
{
    lemma_le_val_split(a, i);
    lemma_le_val_split(b, i);
    assert(a.skip(i).drop_first() =~= a.skip(i + 1));
    assert(b.skip(i).drop_first() =~= b.skip(i + 1));
    let r = le_val(a.skip(i + 1));
    assert(le_val(a.skip(i)) == a[i] as nat + 10 * r);
    assert(le_val(b.skip(i)) == b[i] as nat + 10 * r);
    let la = le_val(a.subrange(0, i));
    let lb = le_val(b.subrange(0, i));
    let p = pow10(i as nat);
    lemma_le_val_bound(a.subrange(0, i));
    assert(la < p);
    assert(la + p * (a[i] as nat + 10 * r) < p * (b[i] as nat + 10 * r) + lb) by (nonlinear_arith)
        requires
            la < p,
            a[i] < b[i],
            lb >= 0,
            r >= 0,
    ;
}

/// Strict comparison of canonical digit vectors.
pub fn digits_lt(a: &Vec<u8>, b: &Vec<u8>) -> (r: bool)
    requires
        is_canonical(a@),
        is_canonical(b@),
    ensures
        r == (le_val(a@) < le_val(b@)),
{
    if a.len() < b.len() {
        proof {
            lemma_le_val_bound(a@);
            lemma_canonical_lower(b@);
            lemma_pow10_mono(a@.len(), (b@.len() - 1) as nat);
        }
        return true;
    }
    if a.len() > b.len() {
        proof {
            lemma_le_val_bound(b@);
            lemma_canonical_lower(a@);
            lemma_pow10_mono(b@.len(), (a@.len() - 1) as nat);
        }
        return false;
    }
    let mut i: usize = a.len();
    while i > 0
        invariant
            a@.len() == b@.len(),
            is_digit_seq(a@),
            is_digit_seq(b@),
            i <= a@.len(),
            forall|j: int| i <= j < a@.len() ==> a@[j] == b@[j],
        decreases i,
    {
        i -= 1;
        if a[i] < b[i] {
            proof {
                assert(a@.skip(i as int + 1) =~= b@.skip(i as int + 1));
                lemma_lt_at(a@, b@, i as int);
            }
            return true;
        }
        if a[i] > b[i] {
            proof {
                assert(b@.skip(i as int + 1) =~= a@.skip(i as int + 1));
                lemma_lt_at(b@, a@, i as int);
            }
            return false;
        }
    }
    proof {
        assert(a@ =~= b@);
    }
    false
}

pub open spec fn digit_char(d: nat) -> char {
    if d == 0 {
        '0'
    } else if d == 1 {
        '1'
    } else if d == 2 {
        '2'
    } else if d == 3 {
        '3'
    } else if d == 4 {
        '4'
    } else if d == 5 {
        '5'
    } else if d == 6 {
        '6'
    } else if d == 7 {
        '7'
    } else if d == 8 {
        '8'
    } else {
        '9'
    }
}

pub open spec fn is_dec_char(c: char) -> bool {
    c == '0' || c == '1' || c == '2' || c == '3' || c == '4' || c == '5' || c == '6' || c == '7'
        || c == '8' || c == '9'
}

pub open spec fn char_digit(c: char) -> nat {
    if c == '0' {
        0
    } else if c == '1' {
        1
    } else if c == '2' {
        2
    } else if c == '3' {
        3
    } else if c == '4' {
        4
    } else if c == '5' {
        5
    } else if c == '6' {
        6
    } else if c == '7' {
        7
    } else if c == '8' {
        8
    } else {
        9
    }
}

/// The canonical decimal rendering of a number (no leading zeros; zero is "0").
pub open spec fn dec_chars(n: nat) -> Seq<char>
    decreases n,
{
    if n < 10 {
        seq![digit_char(n)]
    } else {
        dec_chars(n / 10).push(digit_char(n % 10))
    }
}

/// A non-empty, all-digit character string.
pub open spec fn is_dec_string(s: Seq<char>) -> bool {
    s.len() > 0 && forall|i: int| 0 <= i < s.len() ==> is_dec_char(s[i])
}

/// The number a digit string denotes (most significant first; leading zeros allowed).
pub open spec fn dec_val(s: Seq<char>) -> nat
    decreases s.len(),
{
    if s.len() == 0 {
        0
    } else {
        10 * dec_val(s.drop_last()) + char_digit(s.last())
    }
}

/// A little-endian digit vector read back as characters, most significant first.
pub open spec fn digits_chars(s: Seq<u8>) -> Seq<char> {
    Seq::new(s.len(), |i: int| digit_char(s[s.len() - 1 - i] as nat))
}

/// Rendering a canonical digit vector gives the canonical decimal string of its value.
pub proof fn lemma_dec_chars_of_digits(s: Seq<u8>)
    requires
        is_canonical(s),
        s.len() > 0,
    ensures
        dec_chars(le_val(s)) == digits_chars(s),
    decreases s.len(),
{
    if s.len() == 1 {
        assert(le_val(s) == s[0] as nat + 10 * le_val(s.drop_first()));
        assert(s.drop_first() =~= Seq::<u8>::empty());
        assert(le_val(s) == s[0] as nat);
        assert(dec_chars(le_val(s)) =~= digits_chars(s));
    } else {
        let v = le_val(s);
        let t = s.drop_first();
        assert(t.last() == s.last());
        lemma_canonical_lower(t);
        lemma_pow10_pos((t.len() - 1) as nat);
        assert(le_val(t) >= 1);
        assert(v == s[0] as nat + 10 * le_val(t));
        assert(v >= 10);
        assert(v % 10 == s[0] as nat && v / 10 == le_val(t)) by (nonlinear_arith)
            requires
                v == s[0] as nat + 10 * le_val(t),
                s[0] < 10,
        ;
        lemma_dec_chars_of_digits(t);
        assert(dec_chars(v) == digits_chars(t).push(digit_char(s[0] as nat)));
        assert(digits_chars(s) =~= digits_chars(t).push(digit_char(s[0] as nat)));
    }
}

/// Reading back the canonical rendering recovers the number exactly.
pub proof fn lemma_dec_round_trip(n: nat)
    ensures
        is_dec_string(dec_chars(n)),
        dec_val(dec_chars(n)) == n,
    decreases n,
{
    if n < 10 {
        let s = dec_chars(n);
        assert(s.drop_last() =~= Seq::<char>::empty());
        assert(dec_val(s) == 10 * dec_val(Seq::<char>::empty()) + char_digit(s.last()));
    } else {
        lemma_dec_round_trip(n / 10);
        let s = dec_chars(n);
        assert(s.drop_last() =~= dec_chars(n / 10));
        assert(s.last() == digit_char(n % 10));
        assert(dec_val(s) == 10 * (n / 10) + (n % 10));
        assert(forall|i: int| 0 <= i < s.len() ==> is_dec_char(s[i]));
    }
}

fn append_digit(s: &mut String, d: u8)
    requires
        d < 10,
    ensures
        final(s)@ == old(s)@.push(digit_char(d as nat)),
{
    match d {
        0 => {
            s.append("0");
            proof {
                reveal_strlit("0");
                assert(s@ =~= old(s)@.push(digit_char(0)));
            }
        },
        1 => {
            s.append("1");
            proof {
                reveal_strlit("1");
                assert(s@ =~= old(s)@.push(digit_char(1)));
            }
        },
        2 => {
            s.append("2");
            proof {
                reveal_strlit("2");
                assert(s@ =~= old(s)@.push(digit_char(2)));
            }
        },
        3 => {
            s.append("3");
            proof {
                reveal_strlit("3");
                assert(s@ =~= old(s)@.push(digit_char(3)));
            }
        },
        4 => {
            s.append("4");
            proof {
                reveal_strlit("4");
                assert(s@ =~= old(s)@.push(digit_char(4)));
            }
        },
        5 => {
            s.append("5");
            proof {
                reveal_strlit("5");
                assert(s@ =~= old(s)@.push(digit_char(5)));
            }
        },
        6 => {
            s.append("6");
            proof {
                reveal_strlit("6");
                assert(s@ =~= old(s)@.push(digit_char(6)));
            }
        },
        7 => {
            s.append("7");
            proof {
                reveal_strlit("7");
                assert(s@ =~= old(s)@.push(digit_char(7)));
            }
        },
        8 => {
            s.append("8");
            proof {
                reveal_strlit("8");
                assert(s@ =~= old(s)@.push(digit_char(8)));
            }
        },
        _ => {
            s.append("9");
            proof {
                reveal_strlit("9");
                assert(s@ =~= old(s)@.push(digit_char(d as nat)));
            }
        },
    }
}

/// Render a canonical digit vector as its decimal string.
pub fn string_of_digits(digits: &Vec<u8>) -> (r: String)
    requires
        is_canonical(digits@),
    ensures
        r@ == dec_chars(le_val(digits@)),
{
    if digits.len() == 0 {
        let r = String::from_str("0");
        proof {
            reveal_strlit("0");
            assert(r@ =~= dec_chars(0));
        }
        return r;
    }
    let ghost whole = digits_chars(digits@);
    let mut r = String::new();
    let mut i: usize = digits.len();
    proof {
        assert(r@ =~= whole.subrange(0, 0));
    }
    while i > 0
        invariant
            i <= digits@.len(),
            is_canonical(digits@),
            whole == digits_chars(digits@),
            r@ == whole.subrange(0, digits@.len() - i),
        decreases i,
    {
        i -= 1;
        let d = digits[i];
        append_digit(&mut r, d);
        proof {
            assert(whole[digits@.len() - 1 - i] == digit_char(digits@[i as int] as nat));
            assert(r@ =~= whole.subrange(0, digits@.len() - i));
        }
    }
    proof {
        assert(whole.subrange(0, digits@.len() as int) =~= whole);
        lemma_dec_chars_of_digits(digits@);
    }
    r
}

fn char_to_digit(c: char) -> (r: Option<u8>)
    ensures
        r is Some <==> is_dec_char(c),
        r is Some ==> r->Some_0 < 10 && r->Some_0 as nat == char_digit(c),
{
    match c {
        '0' => Some(0),
        '1' => Some(1),
        '2' => Some(2),
        '3' => Some(3),
        '4' => Some(4),
        '5' => Some(5),
        '6' => Some(6),
        '7' => Some(7),
        '8' => Some(8),
        '9' => Some(9),
        _ => None,
    }
}

/// A digit string, reversed digit by digit, denotes the same number read
/// little-endian.
proof fn lemma_le_val_of_rev_string(s: Seq<char>)
    requires
        forall|i: int| 0 <= i < s.len() ==> is_dec_char(s[i]),
    ensures
        le_val(Seq::new(s.len(), |j: int| char_digit(s[s.len() - 1 - j]) as u8)) == dec_val(s),
    decreases s.len(),
{
    let d = Seq::new(s.len(), |j: int| char_digit(s[s.len() - 1 - j]) as u8);
    if s.len() == 0 {
        assert(d =~= Seq::<u8>::empty());
    } else {
        let t = s.drop_last();
        lemma_le_val_of_rev_string(t);
        let dt = Seq::new(t.len(), |j: int| char_digit(t[t.len() - 1 - j]) as u8);
        assert(d.drop_first() =~= dt);
        assert(d[0] == char_digit(s.last()) as u8);
        assert(le_val(d) == char_digit(s.last()) + 10 * le_val(dt));
    }
}

/// Parse a decimal string into canonical digits; `None` exactly on strings
/// that are empty or hold a non-digit character.
pub fn parse_digits(s: &str) -> (r: Option<Vec<u8>>)
    ensures
        r is Some <==> is_dec_string(s@),
        r is Some ==> is_canonical(r->Some_0@) && le_val(r->Some_0@) == dec_val(s@),
{
    let n = s.unicode_len();
    if n == 0 {
        return None;
    }
    let mut d: Vec<u8> = Vec::new();
    let mut i: usize = 0;
    while i < n
        invariant
            n == s@.len(),
            i <= n,
            d@.len() == i,
            forall|j: int| 0 <= j < i ==> is_dec_char(#[trigger] s@[n - 1 - j]),
            forall|j: int| 0 <= j < i ==> #[trigger] d@[j] == char_digit(s@[n - 1 - j]) as u8,
        decreases n - i,
    {
        let c = s.get_char(n - 1 - i);
        match char_to_digit(c) {
            Some(dg) => {
                d.push(dg);
            },
            None => {
                return None;
            },
        }
        i += 1;
    }
    proof {
        assert forall|i2: int| 0 <= i2 < n implies is_dec_char(s@[i2]) by {
            assert(is_dec_char(s@[n - 1 - (n - 1 - i2)]));
        }
        assert(d@ =~= Seq::new(s@.len(), |j: int| char_digit(s@[s@.len() - 1 - j]) as u8));
        lemma_le_val_of_rev_string(s@);
        assert(is_digit_seq(d@));
    }
    trim(&mut d);
    Some(d)
}

/// `a >= b`, the comparison the rules use against their thresholds.
pub fn digits_ge(a: &Vec<u8>, b: &Vec<u8>) -> (r: bool)
    requires
        is_canonical(a@),
        is_canonical(b@),
    ensures
        r == (le_val(a@) >= le_val(b@)),
{
    !digits_lt(a, b)
}

} // verus!
