//! An arbitrary-precision fixed-point decimal number.
//!
//! A `BigNum` keeps two digit sequences split at the radix point:
//! `left` holds the integer digits least-significant first, `right` holds
//! the fraction digits most-significant first. Each digit is a value in
//! `0..=9`, and neither sequence carries a non-semantic trailing zero
//! (a zero at the end of the vector).

use vstd::prelude::*;

verus! {

/// Every entry of the sequence is a decimal digit.
pub open spec fn digits_valid(s: Seq<u8>) -> bool {
    forall|i: int| 0 <= i < s.len() ==> s[i] <= 9
}

/// No zero stands at the end of the sequence.
pub open spec fn trimmed(s: Seq<u8>) -> bool {
    s.len() > 0 ==> s[s.len() - 1] != 0
}

/// The sequence with every zero stripped from its end.
pub open spec fn trim_end(s: Seq<u8>) -> Seq<u8>
    decreases s.len(),
{
    if s.len() > 0 && s[s.len() - 1] == 0 {
        trim_end(s.drop_last())
    } else {
        s
    }
}

/// Ten to the `n`th power.
pub open spec fn pow10(n: nat) -> nat
    decreases n,
{
    if n == 0 {
        1
    } else {
        10 * pow10((n - 1) as nat)
    }
}

/// The number a little-endian digit sequence denotes.
pub open spec fn le_val(s: Seq<u8>) -> nat
    decreases s.len(),
{
    if s.len() == 0 {
        0
    } else {
        (s[0] + 10 * le_val(s.skip(1))) as nat
    }
}

/// The number a most-significant-first digit sequence denotes when read
/// as a plain integer (the numerator of the fraction it stands for).
pub open spec fn be_val(s: Seq<u8>) -> nat
    decreases s.len(),
{
    if s.len() == 0 {
        0
    } else {
        (s[0] * pow10((s.len() - 1) as nat) + be_val(s.skip(1))) as nat
    }
}

/// Little-endian digit-sequence addition with an incoming carry.
pub open spec fn sp_add_le(a: Seq<u8>, b: Seq<u8>, c: u8) -> Seq<u8>
    decreases a.len() + b.len(),
{
    if a.len() == 0 && b.len() == 0 {
        if c > 0 {
            seq![c]
        } else {
            Seq::empty()
        }
    } else {
        let da: u8 = if a.len() > 0 { a[0] } else { 0 };
        let db: u8 = if b.len() > 0 { b[0] } else { 0 };
        let a2 = if a.len() > 0 { a.skip(1) } else { a };
        let b2 = if b.len() > 0 { b.skip(1) } else { b };
        let d = (da + db + c) as int;
        seq![(d % 10) as u8] + sp_add_le(a2, b2, (d / 10) as u8)
    }
}

/// Most-significant-first addition of two equal-length digit sequences:
/// the carry out of the most significant digit, and the digit sequence
/// of the sum.
pub open spec fn sp_add_be(a: Seq<u8>, b: Seq<u8>) -> (u8, Seq<u8>)
    decreases a.len(),
{
    if a.len() == 0 {
        (0, Seq::empty())
    } else {
        let (c, rest) = sp_add_be(a.skip(1), b.skip(1));
        let d = (a[0] + b[0] + c) as int;
        ((d / 10) as u8, seq![(d % 10) as u8] + rest)
    }
}

/// A sequence of `n` zero digits.
pub open spec fn zeros(n: nat) -> Seq<u8> {
    Seq::new(n, |i: int| 0u8)
}

/// Removing trailing zeros of a little-endian sequence keeps its value.
proof fn lemma_le_val_drop_last(s: Seq<u8>)
    requires
        s.len() > 0,
    ensures
        le_val(s) == le_val(s.drop_last()) + s.last() * pow10((s.len() - 1) as nat),
    decreases s.len(),
{
    if s.len() == 1 {
        assert(s.drop_last() =~= Seq::empty());
        assert(s.skip(1) =~= Seq::empty());
        assert(le_val(s) == s[0]);
        assert(le_val(s.drop_last()) == 0);
        assert(pow10((s.len() - 1) as nat) == 1);
        assert(s.last() == s[0]);
    } else {
        lemma_le_val_drop_last(s.skip(1));
        assert(s.skip(1).drop_last() =~= s.drop_last().skip(1));
        assert(s.skip(1).last() == s.last());
        let p = pow10((s.len() - 2) as nat);
        assert(le_val(s) == s[0] + 10 * le_val(s.skip(1)));
        assert(le_val(s.skip(1)) == le_val(s.drop_last().skip(1)) + s.last() * p);
        assert(le_val(s.drop_last()) == s[0] + 10 * le_val(s.drop_last().skip(1)));
        assert(pow10((s.len() - 1) as nat) == 10 * p);
        assert(10 * (le_val(s.drop_last().skip(1)) + s.last() * p) == 10 * le_val(
            s.drop_last().skip(1),
        ) + s.last() * (10 * p)) by (nonlinear_arith);
        assert(le_val(s) == le_val(s.drop_last()) + s.last() * (10 * p));
    }
}

proof fn lemma_trim_end_le_val(s: Seq<u8>)
    ensures
        le_val(trim_end(s)) == le_val(s),
        trimmed(trim_end(s)),
        trim_end(s).len() <= s.len(),
        forall|i: int| 0 <= i < trim_end(s).len() ==> trim_end(s)[i] == s[i],
    decreases s.len(),
{
    if s.len() > 0 && s[s.len() - 1] == 0 {
        lemma_le_val_drop_last(s);
        lemma_trim_end_le_val(s.drop_last());
        let t = trim_end(s);
        assert(t == trim_end(s.drop_last()));
        assert forall|i: int| 0 <= i < t.len() implies t[i] == s[i] by {
            assert(t[i] == s.drop_last()[i]);
        }
    }
}

/// The head expansion of a big-endian sequence read from its last digit.
proof fn lemma_be_val_drop_last(s: Seq<u8>)
    requires
        s.len() > 0,
    ensures
        be_val(s) == 10 * be_val(s.drop_last()) + s.last(),
    decreases s.len(),
{
    if s.len() == 1 {
        assert(s.skip(1) =~= Seq::empty());
        assert(s.drop_last() =~= Seq::empty());
        assert(be_val(s) == s[0] * pow10(0) + 0);
        assert(pow10(0) == 1);
        assert(s[0] * pow10(0) == s[0] * 1) by (nonlinear_arith)
            requires
                pow10(0) == 1,
        ;
        assert(be_val(s.drop_last()) == 0);
        assert(be_val(s) == 10 * be_val(s.drop_last()) + s.last());
    } else {
        lemma_be_val_drop_last(s.skip(1));
        assert(s.skip(1).drop_last() =~= s.drop_last().skip(1));
        assert(s.skip(1).last() == s.last());
        let p = pow10((s.len() - 2) as nat);
        assert(be_val(s) == s[0] * pow10((s.len() - 1) as nat) + be_val(s.skip(1)));
        assert(be_val(s.skip(1)) == 10 * be_val(s.drop_last().skip(1)) + s.last());
        assert(be_val(s.drop_last()) == s[0] * p + be_val(s.drop_last().skip(1)));
        assert(s[0] * pow10((s.len() - 1) as nat) == 10 * (s[0] * p)) by {
            assert(pow10((s.len() - 1) as nat) == 10 * p);
            assert(s[0] * (10 * p) == 10 * (s[0] * p)) by (nonlinear_arith);
        }
        assert(be_val(s) == 10 * (s[0] * p) + 10 * be_val(s.drop_last().skip(1)) + s.last());
        assert(be_val(s) == 10 * be_val(s.drop_last()) + s.last());
    }
}

proof fn lemma_trim_end_be_val(s: Seq<u8>)
    ensures
        be_val(trim_end(s)) * pow10((s.len() - trim_end(s).len()) as nat) == be_val(s),
        trimmed(trim_end(s)),
        trim_end(s).len() <= s.len(),
    decreases s.len(),
{
    if s.len() > 0 && s[s.len() - 1] == 0 {
        lemma_be_val_drop_last(s);
        lemma_trim_end_be_val(s.drop_last());
        let t = trim_end(s);
        assert(t == trim_end(s.drop_last()));
        let k = (s.drop_last().len() - t.len()) as nat;
        assert(be_val(t) * pow10(k) == be_val(s.drop_last()));
        assert(be_val(s) == 10 * be_val(s.drop_last()) + s.last());
        assert(s.last() == 0);
        assert((be_val(t) * pow10(k)) * 10 == be_val(t) * (10 * pow10(k))) by (nonlinear_arith);
        assert(pow10(k + 1) == 10 * pow10(k));
        assert(be_val(t) * pow10(k + 1) == be_val(t) * (10 * pow10(k))) by (nonlinear_arith)
            requires
                pow10(k + 1) == 10 * pow10(k),
        ;
        assert((s.len() - t.len()) as nat == k + 1);
        assert(be_val(t) * pow10((s.len() - t.len()) as nat) == be_val(s));
    } else {
        assert(trim_end(s) == s);
        assert(pow10(0) == 1);
        assert(be_val(s) * pow10(0) == be_val(s)) by (nonlinear_arith)
            requires
                pow10(0) == 1,
        ;
    }
}

/// A valid digit sequence read as an integer stays below `pow10` of its
/// length.
proof fn lemma_be_val_bound(s: Seq<u8>)
    requires
        digits_valid(s),
    ensures
        be_val(s) < pow10(s.len()),
    decreases s.len(),
{
    if s.len() > 0 {
        assert(digits_valid(s.skip(1)));
        lemma_be_val_bound(s.skip(1));
        let p = pow10((s.len() - 1) as nat);
        assert(s[0] * p <= 9 * p) by (nonlinear_arith)
            requires
                s[0] <= 9,
                p >= 0,
        ;
        assert(pow10(s.len()) == 10 * p);
    }
}

proof fn lemma_pow10_pos(n: nat)
    ensures
        pow10(n) >= 1,
    decreases n,
{
    if n > 0 {
        lemma_pow10_pos((n - 1) as nat);
    }
}

/// Little-endian digit addition computes the sum of the values.
proof fn lemma_add_le_val(a: Seq<u8>, b: Seq<u8>, c: u8)
    requires
        digits_valid(a),
        digits_valid(b),
        c <= 1,
    ensures
        le_val(sp_add_le(a, b, c)) == le_val(a) + le_val(b) + c,
        digits_valid(sp_add_le(a, b, c)),
    decreases a.len() + b.len(),
{
    if a.len() == 0 && b.len() == 0 {
        if c > 0 {
            assert(sp_add_le(a, b, c) == seq![c]);
            assert(seq![c].skip(1) =~= Seq::<u8>::empty());
            assert(le_val(Seq::<u8>::empty()) == 0);
            assert(le_val(seq![c]) == c);
        } else {
            assert(le_val(sp_add_le(a, b, c)) == 0);
        }
    } else {
        let da: u8 = if a.len() > 0 { a[0] } else { 0 };
        let db: u8 = if b.len() > 0 { b[0] } else { 0 };
        let a2 = if a.len() > 0 { a.skip(1) } else { a };
        let b2 = if b.len() > 0 { b.skip(1) } else { b };
        let d = (da + db + c) as int;
        assert(digits_valid(a2));
        assert(digits_valid(b2));
        lemma_add_le_val(a2, b2, (d / 10) as u8);
        let r = sp_add_le(a, b, c);
        assert(r == seq![(d % 10) as u8] + sp_add_le(a2, b2, (d / 10) as u8));
        assert(r.skip(1) =~= sp_add_le(a2, b2, (d / 10) as u8));
        assert(r[0] == (d % 10) as u8);
        assert(le_val(r) == d % 10 + 10 * le_val(r.skip(1)));
        assert(le_val(r.skip(1)) == le_val(a2) + le_val(b2) + d / 10);
        assert(le_val(a) == da + 10 * le_val(a2));
        assert(le_val(b) == db + 10 * le_val(b2));
        assert(d == 10 * (d / 10) + d % 10);
        assert(le_val(r) == le_val(a) + le_val(b) + c);
        assert(digits_valid(r)) by {
            assert forall|i: int| 0 <= i < r.len() implies r[i] <= 9 by {
                if i > 0 {
                    assert(r[i] == r.skip(1)[i - 1]);
                }
            }
        }
    }
}

/// Padding a fraction sequence with zeros at its end multiplies its
/// numerator by the matching power of ten.
proof fn lemma_be_pad(s: Seq<u8>, k: nat)
    ensures
        be_val(s + zeros(k)) == be_val(s) * pow10(k),
    decreases k,
{
    if k == 0 {
        assert(s + zeros(0) =~= s);
        assert(be_val(s) * 1 == be_val(s)) by (nonlinear_arith);
    } else {
        lemma_be_pad(s, (k - 1) as nat);
        let t = s + zeros((k - 1) as nat);
        assert(s + zeros(k) =~= t.push(0));
        lemma_be_val_drop_last(t.push(0));
        assert(t.push(0).drop_last() =~= t);
        assert(10 * (be_val(s) * pow10((k - 1) as nat)) == be_val(s) * pow10(k)) by {
            assert(pow10(k) == 10 * pow10((k - 1) as nat));
            assert(10 * (be_val(s) * pow10((k - 1) as nat)) == be_val(s) * (10 * pow10(
                (k - 1) as nat,
            ))) by (nonlinear_arith);
        }
    }
}

/// Equal-length big-endian addition computes the sum of the numerators,
/// with the carry out worth `pow10` of the length.
proof fn lemma_add_be_val(a: Seq<u8>, b: Seq<u8>)
    requires
        digits_valid(a),
        digits_valid(b),
        a.len() == b.len(),
    ensures
        sp_add_be(a, b).1.len() == a.len(),
        digits_valid(sp_add_be(a, b).1),
        sp_add_be(a, b).0 <= 1,
        be_val(sp_add_be(a, b).1) + sp_add_be(a, b).0 * pow10(a.len()) == be_val(a) + be_val(b),
    decreases a.len(),
{
    if a.len() == 0 {
        assert(sp_add_be(a, b) == (0u8, Seq::<u8>::empty()));
        assert(be_val(Seq::<u8>::empty()) == 0);
        assert(pow10(0) == 1);
    } else {
        assert(digits_valid(a.skip(1)));
        assert(digits_valid(b.skip(1)));
        lemma_add_be_val(a.skip(1), b.skip(1));
        let (c, rest) = sp_add_be(a.skip(1), b.skip(1));
        let d = (a[0] + b[0] + c) as int;
        let s = sp_add_be(a, b).1;
        assert(s == seq![(d % 10) as u8] + rest);
        assert(s.skip(1) =~= rest);
        let p = pow10((a.len() - 1) as nat);
        assert(pow10(a.len()) == 10 * p);
        assert(d == 10 * (d / 10) + d % 10);
        assert((d % 10) * p + (d / 10) * (10 * p) == a[0] * p + b[0] * p + c * p)
            by (nonlinear_arith)
            requires
                d == a[0] + b[0] + c,
                d == 10 * (d / 10) + d % 10,
                p >= 0,
        ;
        assert(s[0] == (d % 10) as u8);
        assert(be_val(s) == (d % 10) * p + be_val(rest));
        assert(be_val(a) == a[0] * p + be_val(a.skip(1)));
        assert(be_val(b) == b[0] * p + be_val(b.skip(1)));
        assert(be_val(rest) + c * p == be_val(a.skip(1)) + be_val(b.skip(1)));
        assert(be_val(s) + (d / 10) * (10 * p) == be_val(a) + be_val(b));
        assert(sp_add_be(a, b).0 == (d / 10) as u8);
        assert(((d / 10) as u8) == d / 10);
        assert(((d / 10) as u8) * pow10(a.len()) == (d / 10) * (10 * p)) by (nonlinear_arith)
            requires
                pow10(a.len()) == 10 * p,
                ((d / 10) as u8) == d / 10,
        ;
        assert(sp_add_be(a, b).0 * pow10(a.len()) == (d / 10) * (10 * p));
        assert(digits_valid(s)) by {
            assert forall|i: int| 0 <= i < s.len() implies s[i] <= 9 by {
                if i > 0 {
                    assert(s[i] == rest[i - 1]);
                }
            }
        }
    }
}

/// The digits of `s` from index `i` on, or nothing when `i` runs past
/// the end.
pub open spec fn rest_of(s: Seq<u8>, i: int) -> Seq<u8> {
    if 0 <= i <= s.len() {
        s.skip(i)
    } else {
        Seq::empty()
    }
}

/// Little-endian addition of two digit sequences into a fresh vector.
fn add_le_digits(a: &Vec<u8>, b: &[u8]) -> (v: Vec<u8>)
    requires
        digits_valid(a@),
        digits_valid(b@),
    ensures
        v@ == sp_add_le(a@, b@, 0),
{
    let mut out: Vec<u8> = Vec::new();
    let mut carry: u8 = 0;
    let mut i: usize = 0;
    proof {
        assert(rest_of(a@, 0) =~= a@);
        assert(rest_of(b@, 0) =~= b@);
        assert(Seq::<u8>::empty() + sp_add_le(a@, b@, 0) =~= sp_add_le(a@, b@, 0));
    }
    while i < a.len() || i < b.len()
        invariant
            digits_valid(a@),
            digits_valid(b@),
            carry <= 1,
            sp_add_le(a@, b@, 0) == out@ + sp_add_le(rest_of(a@, i as int), rest_of(b@, i as int), carry),
        decreases a.len() + b.len() - vstd::math::min(i as int, a.len() as int) - vstd::math::min(
            i as int,
            b.len() as int,
        ),
    {
        let da: u8 = if i < a.len() {
            a[i]
        } else {
            0
        };
        let db: u8 = if i < b.len() {
            b[i]
        } else {
            0
        };
        let t = da + db + carry;
        let ghost ra = rest_of(a@, i as int);
        let ghost rb = rest_of(b@, i as int);
        let ghost out_before = out@;
        out.push(t % 10);
        proof {
            let ra2 = if ra.len() > 0 {
                ra.skip(1)
            } else {
                ra
            };
            let rb2 = if rb.len() > 0 {
                rb.skip(1)
            } else {
                rb
            };
            assert(ra2 =~= rest_of(a@, i + 1));
            assert(rb2 =~= rest_of(b@, i + 1));
            assert(sp_add_le(ra, rb, carry) == seq![t % 10] + sp_add_le(
                rest_of(a@, i + 1),
                rest_of(b@, i + 1),
                t / 10,
            ));
            assert(out_before + sp_add_le(ra, rb, carry) =~= out@ + sp_add_le(
                rest_of(a@, i + 1),
                rest_of(b@, i + 1),
                t / 10,
            ));
        }
        carry = t / 10;
        i += 1;
    }
    proof {
        assert(rest_of(a@, i as int) =~= Seq::empty());
        assert(rest_of(b@, i as int) =~= Seq::empty());
    }
    if carry > 0 {
        let ghost out_before = out@;
        out.push(carry);
        proof {
            assert(out_before + seq![carry] =~= out@);
        }
    } else {
        proof {
            assert(out@ + Seq::<u8>::empty() =~= out@);
        }
    }
    out
}

/// Equal-length big-endian addition in place, from the least toward the
/// most significant digit; returns the carry out of the most
/// significant digit.
fn add_be_digits(a: &mut Vec<u8>, b: &Vec<u8>) -> (c: u8)
    requires
        digits_valid(old(a)@),
        digits_valid(b@),
        old(a)@.len() == b@.len(),
    ensures
        final(a)@ == sp_add_be(old(a)@, b@).1,
        c == sp_add_be(old(a)@, b@).0,
{
    let mut carry: u8 = 0;
    let mut i: usize = a.len();
    while i > 0
        invariant
            digits_valid(old(a)@),
            digits_valid(b@),
            old(a)@.len() == b@.len(),
            a@.len() == old(a)@.len(),
            i <= a@.len(),
            carry <= 1,
            a@.take(i as int) == old(a)@.take(i as int),
            carry == sp_add_be(old(a)@.skip(i as int), b@.skip(i as int)).0,
            a@.skip(i as int) == sp_add_be(old(a)@.skip(i as int), b@.skip(i as int)).1,
        decreases i,
    {
        let ghost a_before = a@;
        let ghost carry_before = carry;
        assert(a@[i - 1] == old(a)@[i - 1]) by {
            assert(a@.take(i as int)[i - 1] == old(a)@.take(i as int)[i - 1]);
        }
        let da = a[i - 1];
        let db = b[i - 1];
        let t = da + db + carry;
        a.set(i - 1, t % 10);
        carry = t / 10;
        i -= 1;
        proof {
            let oa = old(a)@;
            assert(oa.skip(i as int).skip(1) =~= oa.skip(i + 1));
            assert(b@.skip(i as int).skip(1) =~= b@.skip(i + 1));
            assert(oa.skip(i as int)[0] == oa[i as int]);
            assert(a@.take(i as int) =~= oa.take(i as int));
            assert(a@.skip(i as int) =~= seq![t % 10] + a_before.skip(i + 1));
        }
    }
    proof {
        assert(a@.skip(0) =~= a@);
        assert(old(a)@.skip(0) =~= old(a)@);
        assert(b@.skip(0) =~= b@);
    }
    carry
}

/// The character is a decimal digit.
pub open spec fn is_digit_c(c: char) -> bool {
    48 <= c as u32 <= 57
}

/// The position of the first radix point at or after `i`, or the length
/// where there is none.
pub open spec fn first_dot(t: Seq<char>, i: int) -> int
    decreases t.len() - i,
{
    if 0 <= i < t.len() {
        if t[i] == '.' {
            i
        } else {
            first_dot(t, i + 1)
        }
    } else {
        t.len() as int
    }
}

/// What canonical decimal text stands for: the trimmed digit sequences
/// either side of the one radix point, the integer side reversed into
/// least-significant-first order. Nothing, if the text has no radix
/// point or holds any character that is neither a digit nor the point.
pub open spec fn sp_from_text(t: Seq<char>) -> Option<(Seq<u8>, Seq<u8>)> {
    let k = first_dot(t, 0);
    if k < t.len() && (forall|i: int| 0 <= i < t.len() && i != k ==> is_digit_c(t[i])) {
        Some(
            (
                trim_end(t.subrange(0, k).reverse().map_values(|c: char| (c as u32 - 48) as u8)),
                trim_end(
                    t.subrange(k + 1, t.len() as int).map_values(|c: char| (c as u32 - 48) as u8),
                ),
            ),
        )
    } else {
        None
    }
}

/// Whether an abstract digit pair is made of digits and normalized.
pub open spec fn val_wf(v: (Seq<u8>, Seq<u8>)) -> bool {
    digits_valid(v.0) && digits_valid(v.1) && trimmed(v.0) && trimmed(v.1)
}

/// The digit pair that decimal addition of two digit pairs yields: the
/// fractions aligned at the radix point and added with carry, a
/// surviving carry added into the integer part, both parts normalized.
pub open spec fn sp_dec_add(a: (Seq<u8>, Seq<u8>), b: (Seq<u8>, Seq<u8>)) -> (Seq<u8>, Seq<u8>) {
    let n = if a.1.len() >= b.1.len() {
        a.1.len()
    } else {
        b.1.len()
    };
    let pa = a.1 + zeros((n - a.1.len()) as nat);
    let pb = b.1 + zeros((n - b.1.len()) as nat);
    let carry = sp_add_be(pa, pb).0;
    let l1 = if carry > 0 {
        trim_end(sp_add_le(a.0, seq![1u8], 0))
    } else {
        a.0
    };
    (trim_end(sp_add_le(l1, b.0, 0)), trim_end(sp_add_be(pa, pb).1))
}

/// The character of a decimal digit.
pub open spec fn digit_char(d: u8) -> char {
    (d + 48) as char
}

/// The canonical text of a digit pair: the integer digits reversed into
/// most-significant-first reading order, the radix point, then the
/// fraction digits.
pub open spec fn sp_text(v: (Seq<u8>, Seq<u8>)) -> Seq<char> {
    v.0.reverse().map_values(|d: u8| digit_char(d)) + seq!['.'] + v.1.map_values(
        |d: u8| digit_char(d),
    )
}

/// Relies on `String::push`: appends one character at the end.
#[verifier::external_body]
fn push_char(s: &mut String, c: char)
    ensures
        final(s)@ == old(s)@.push(c),
{
    s.push(c);
}

/// An arbitrary-precision fixed-point decimal number, split at the radix
/// point into little-endian integer digits and most-significant-first
/// fraction digits.
#[derive(Debug, Clone, PartialEq)]
pub struct BigNum {
    pub left: Vec<u8>,
    pub right: Vec<u8>,
}

impl BigNum {
    /// Both digit sequences hold decimal digits and carry no
    /// non-semantic trailing zero.
    pub open spec fn wf(&self) -> bool {
        &&& digits_valid(self.left@)
        &&& digits_valid(self.right@)
        &&& trimmed(self.left@)
        &&& trimmed(self.right@)
    }

    /// The integer digits, least significant first.
    pub open spec fn int_digits(&self) -> Seq<u8> {
        self.left@
    }

    /// The fraction digits, most significant first.
    pub open spec fn frac_digits(&self) -> Seq<u8> {
        self.right@
    }

    /// The value zero: both digit sequences empty.
    pub fn new() -> (r: BigNum)
        ensures
            r.wf(),
            r.int_digits() == Seq::<u8>::empty(),
            r.frac_digits() == Seq::<u8>::empty(),
    {
        BigNum { left: Vec::new(), right: Vec::new() }
    }

    /// Builds a number from raw digit sequences, normalizing both.
    pub fn from_raw(mut left: Vec<u8>, mut right: Vec<u8>) -> (r: BigNum)
        requires
            digits_valid(left@),
            digits_valid(right@),
        ensures
            r.wf(),
            r.int_digits() == trim_end(left@),
            r.frac_digits() == trim_end(right@),
    {
        BigNum::trim_data(&mut left);
        BigNum::trim_data(&mut right);
        BigNum { left, right }
    }

    /// Adds a little-endian digit sequence into the integer part,
    /// carrying as far as needed.
    pub fn add_left(&mut self, other: &[u8])
        requires
            old(self).wf(),
            digits_valid(other@),
        ensures
            final(self).wf(),
            le_val(final(self).int_digits()) == le_val(old(self).int_digits()) + le_val(other@),
            final(self).int_digits() == trim_end(sp_add_le(old(self).int_digits(), other@, 0)),
            final(self).frac_digits() == old(self).frac_digits(),
    {
        let mut sum = add_le_digits(&self.left, other);
        proof {
            lemma_add_le_val(self.left@, other@, 0);
            lemma_trim_end_le_val(sum@);
        }
        BigNum::trim_data(&mut sum);
        self.left = sum;
    }

    /// Adds a most-significant-first digit sequence into the fraction
    /// part, aligned at the radix point; a carry that survives the most
    /// significant fraction digit rolls into the integer part.
    pub fn add_right(&mut self, other: &[u8])
        requires
            old(self).wf(),
            digits_valid(other@),
        ensures
            final(self).wf(),
            ({
                let n = if old(self).frac_digits().len() >= other@.len() {
                    old(self).frac_digits().len()
                } else {
                    other@.len()
                };
                let total = be_val(old(self).frac_digits()) * pow10(
                    (n - old(self).frac_digits().len()) as nat,
                ) + be_val(other@) * pow10((n - other@.len()) as nat);
                &&& le_val(final(self).int_digits()) == le_val(old(self).int_digits()) + total
                    / pow10(n as nat)
                &&& be_val(final(self).frac_digits()) * pow10(
                    (n - final(self).frac_digits().len()) as nat,
                ) == total % pow10(n as nat)
                &&& final(self).frac_digits().len() <= n
                &&& {
                    let pa = old(self).frac_digits() + zeros(
                        (n - old(self).frac_digits().len()) as nat,
                    );
                    let pb = other@ + zeros((n - other@.len()) as nat);
                    &&& final(self).frac_digits() == trim_end(sp_add_be(pa, pb).1)
                    &&& final(self).int_digits() == (if sp_add_be(pa, pb).0 > 0 {
                        trim_end(sp_add_le(old(self).int_digits(), seq![1u8], 0))
                    } else {
                        old(self).int_digits()
                    })
                }
            }),
    {
        let ghost old_right = self.right@;
        let ghost old_left = self.left@;
        let n: usize = if self.right.len() >= other.len() {
            self.right.len()
        } else {
            other.len()
        };
        // Pad both sequences at their least significant end to align
        // them at the radix point.
        let mut a: Vec<u8> = Vec::new();
        let mut i: usize = 0;
        while i < self.right.len()
            invariant
                i <= self.right.len(),
                a@ =~= self.right@.take(i as int),
                self.right@ == old_right,
            decreases self.right.len() - i,
        {
            a.push(self.right[i]);
            i += 1;
        }
        proof {
            assert(a@ =~= old_right);
        }
        while a.len() < n
            invariant
                old_right.len() <= n,
                a@.len() <= n,
                a@ =~= old_right + zeros((a@.len() - old_right.len()) as nat),
            decreases n - a.len(),
        {
            let ghost before = a@;
            a.push(0);
            proof {
                assert(a@ =~= old_right + zeros((a@.len() - old_right.len()) as nat));
            }
        }
        let mut b: Vec<u8> = Vec::new();
        let mut j: usize = 0;
        while j < other.len()
            invariant
                j <= other@.len(),
                b@ =~= other@.take(j as int),
            decreases other.len() - j,
        {
            b.push(other[j]);
            j += 1;
        }
        proof {
            assert(b@ =~= other@);
        }
        while b.len() < n
            invariant
                other@.len() <= n,
                b@.len() <= n,
                b@ =~= other@ + zeros((b@.len() - other@.len()) as nat),
            decreases n - b.len(),
        {
            b.push(0);
            proof {
                assert(b@ =~= other@ + zeros((b@.len() - other@.len()) as nat));
            }
        }
        let ghost pa = old_right + zeros((n - old_right.len()) as nat);
        let ghost pb = other@ + zeros((n - other@.len()) as nat);
        proof {
            assert(a@ =~= pa);
            assert(b@ =~= pb);
            assert(pa.len() == n);
            assert(pb.len() == n);
            assert(digits_valid(pa)) by {
                assert(forall|i: int|
                    0 <= i < pa.len() ==> pa[i] == (if i < old_right.len() {
                        old_right[i]
                    } else {
                        0u8
                    }));
            }
            assert(digits_valid(pb)) by {
                assert(forall|i: int|
                    0 <= i < pb.len() ==> pb[i] == (if i < other@.len() {
                        other@[i]
                    } else {
                        0u8
                    }));
            }
            lemma_be_pad(old_right, (n - old_right.len()) as nat);
            lemma_be_pad(other@, (n - other@.len()) as nat);
        }
        let carry = add_be_digits(&mut a, &b);
        let ghost total = be_val(old_right) * pow10((n - old_right.len()) as nat) + be_val(other@)
            * pow10((n - other@.len()) as nat);
        proof {
            lemma_add_be_val(pa, pb);
            assert(a@ == sp_add_be(pa, pb).1);
            assert(a@.len() == n);
            assert(digits_valid(a@));
            lemma_be_val_bound(a@);
            lemma_pow10_pos(n as nat);
            assert(total == be_val(pa) + be_val(pb));
            assert(total == carry * pow10(n as nat) + be_val(a@));
            vstd::arithmetic::div_mod::lemma_fundamental_div_mod_converse(
                total as int,
                pow10(n as nat) as int,
                carry as int,
                be_val(a@) as int,
            );
            assert(total / pow10(n as nat) == carry);
            assert(total % pow10(n as nat) == be_val(a@));
        }
        if carry > 0 {
            let one: Vec<u8> = vec![1u8];
            proof {
                assert(one@ =~= seq![1u8]);
                assert(seq![1u8].skip(1) =~= Seq::<u8>::empty());
                assert(le_val(Seq::<u8>::empty()) == 0);
                assert(le_val(one@) == 1);
            }
            self.add_left(one.as_slice());
            assert(le_val(self.left@) == le_val(old_left) + 1);
        }
        let ghost a_sum = a@;
        proof {
            lemma_trim_end_be_val(a_sum);
        }
        BigNum::trim_data(&mut a);
        self.right = a;
        proof {
            assert(self.right@ == trim_end(a_sum));
            assert(be_val(self.right@) * pow10((n - self.right@.len()) as nat) == be_val(a_sum));
            assert(le_val(self.left@) == le_val(old_left) + total / pow10(n as nat));
        }
    }

    /// Reads a number from its canonical text `<integer digits> '.'
    /// <fraction digits>`: there must be a radix point, and every other
    /// character must be a decimal digit; either digit run may be
    /// empty. The digit sequences are normalized.
    #[verifier::loop_isolation(false)]
    pub fn from_text(s: &str) -> (r: Option<BigNum>)
        ensures
            match r {
                Some(b) => b.wf() && sp_from_text(s@) == Some(
                    (b.int_digits(), b.frac_digits()),
                ),
                None => sp_from_text(s@) is None,
            },
    {
        let n = s.unicode_len();
        let mut j: usize = 0;
        while j < n && s.get_char(j) != '.'
            invariant
                n == s@.len(),
                j <= n,
                first_dot(s@, 0) == first_dot(s@, j as int),
            decreases n - j,
        {
            j += 1;
        }
        if j == n {
            proof {
                assert(first_dot(s@, j as int) == n);
            }
            return None;
        }
        proof {
            assert(s@[j as int] == '.');
            assert(first_dot(s@, j as int) == j);
            assert(first_dot(s@, 0) == j);
        }
        let mut left: Vec<u8> = Vec::new();
        let mut i: usize = j;
        while i > 0
            invariant
                n == s@.len(),
                j < n,
                first_dot(s@, 0) == j,
                i <= j,
                left@.len() == j - i,
                forall|m: int| i <= m < j ==> is_digit_c(#[trigger] s@[m]),
                forall|m: int|
                    0 <= m < left@.len() ==> #[trigger] left@[m] == (s@[j - 1 - m] as u32
                        - 48) as u8,
            decreases i,
        {
            let c = s.get_char(i - 1);
            let u = c as u32;
            if !(48 <= u && u <= 57) {
                proof {
                    assert(!is_digit_c(s@[i - 1]) && i - 1 != first_dot(s@, 0));
                }
                return None;
            }
            let ghost left_before = left@;
            left.push((u - 48) as u8);
            i -= 1;
            proof {
                assert forall|m: int|
                    0 <= m < left@.len() implies #[trigger] left@[m] == (s@[j - 1 - m] as u32
                    - 48) as u8 by {
                    if m < left@.len() - 1 {
                        assert(left@[m] == left_before[m]);
                    } else {
                        assert(j - 1 - m == i as int);
                        assert(s@[j - 1 - m] == c);
                        assert(left@[m] == (u - 48) as u8);
                    }
                }
            }
        }
        let mut right: Vec<u8> = Vec::new();
        let mut k: usize = j + 1;
        while k < n
            invariant
                n == s@.len(),
                j < n,
                first_dot(s@, 0) == j,
                j + 1 <= k <= n,
                right@.len() == k - j - 1,
                forall|m: int| j + 1 <= m < k ==> is_digit_c(#[trigger] s@[m]),
                forall|m: int|
                    0 <= m < right@.len() ==> #[trigger] right@[m] == (s@[j + 1 + m] as u32
                        - 48) as u8,
            decreases n - k,
        {
            let c = s.get_char(k);
            let u = c as u32;
            if !(48 <= u && u <= 57) {
                proof {
                    assert(!is_digit_c(s@[k as int]) && k != first_dot(s@, 0));
                }
                return None;
            }
            let ghost right_before = right@;
            right.push((u - 48) as u8);
            k += 1;
            proof {
                assert forall|m: int|
                    0 <= m < right@.len() implies #[trigger] right@[m] == (s@[j + 1 + m] as u32
                    - 48) as u8 by {
                    if m < right@.len() - 1 {
                        assert(right@[m] == right_before[m]);
                    } else {
                        assert(j + 1 + m == k - 1);
                        assert(s@[j + 1 + m] == c);
                        assert(right@[m] == (u - 48) as u8);
                    }
                }
            }
        }
        proof {
            assert(first_dot(s@, 0) == j);
            assert forall|i2: int| 0 <= i2 < s@.len() && i2 != j implies is_digit_c(s@[i2]) by {
                if i2 < j {
                    assert(0 <= i2 < j);
                } else {
                    assert(j + 1 <= i2 < n);
                }
            }
            assert(left@ =~= s@.subrange(0, j as int).reverse().map_values(
                |c: char| (c as u32 - 48) as u8,
            ));
            assert(right@ =~= s@.subrange(j + 1, s@.len() as int).map_values(
                |c: char| (c as u32 - 48) as u8,
            ));
        }
        Some(BigNum::from_raw(left, right))
    }

    /// Renders the number in its canonical text: the integer digits in
    /// reading order, the radix point, then the fraction digits.
    pub fn to_text(&self) -> (r: String)
        requires
            self.wf(),
        ensures
            r@ == sp_text((self.int_digits(), self.frac_digits())),
    {
        let ghost l = self.left@;
        let ghost f = self.right@;
        let mut r = String::new();
        let mut i = self.left.len();
        while i > 0
            invariant
                l == self.left@,
                digits_valid(l),
                i <= l.len(),
                r@.len() == l.len() - i,
                forall|m: int| 0 <= m < r@.len() ==> #[trigger] r@[m] == digit_char(l[l.len() - 1 - m]),
            decreases i,
        {
            i -= 1;
            let c = (self.left[i] + 48) as char;
            push_char(&mut r, c);
        }
        push_char(&mut r, '.');
        let mut k: usize = 0;
        while k < self.right.len()
            invariant
                l == self.left@,
                f == self.right@,
                digits_valid(f),
                k <= f.len(),
                r@.len() == l.len() + 1 + k,
                forall|m: int| 0 <= m < l.len() ==> #[trigger] r@[m] == digit_char(l[l.len() - 1 - m]),
                r@[l.len() as int] == '.',
                forall|m: int|
                    0 <= m < k ==> #[trigger] r@[l.len() + 1 + m] == digit_char(f[m]),
            decreases f.len() - k,
        {
            let c = (self.right[k] + 48) as char;
            push_char(&mut r, c);
            k += 1;
        }
        proof {
            let text = sp_text((l, f));
            assert(l.reverse().len() == l.len());
            assert(text.len() == l.len() + 1 + f.len());
            assert forall|m: int| 0 <= m < text.len() implies r@[m] == text[m] by {
                if m < l.len() {
                    assert(text[m] == digit_char(l.reverse()[m]));
                    assert(l.reverse()[m] == l[l.len() - 1 - m]);
                } else if m == l.len() {
                    assert(text[m] == '.');
                } else {
                    let mm = m - l.len() - 1;
                    assert(text[m] == digit_char(f[mm]));
                    assert(r@[l.len() + 1 + mm] == digit_char(f[mm]));
                }
            }
            assert(r@ =~= text);
        }
        r
    }

    /// Whether both digit sequences hold digits and are normalized.
    pub fn check_wf(&self) -> (b: bool)
        ensures
            b == self.wf(),
    {
        let mut i: usize = 0;
        while i < self.left.len()
            invariant
                i <= self.left@.len(),
                forall|k: int| 0 <= k < i ==> self.left@[k] <= 9,
            decreases self.left@.len() - i,
        {
            if self.left[i] > 9 {
                return false;
            }
            i += 1;
        }
        let mut j: usize = 0;
        while j < self.right.len()
            invariant
                j <= self.right@.len(),
                forall|k: int| 0 <= k < j ==> self.right@[k] <= 9,
            decreases self.right@.len() - j,
        {
            if self.right[j] > 9 {
                return false;
            }
            j += 1;
        }
        if self.left.len() > 0 && self.left[self.left.len() - 1] == 0 {
            return false;
        }
        if self.right.len() > 0 && self.right[self.right.len() - 1] == 0 {
            return false;
        }
        true
    }

    /// Strips the zero digits from the end of the sequence.
    fn trim_data(data: &mut Vec<u8>)
        requires
            digits_valid(old(data)@),
        ensures
            final(data)@ == trim_end(old(data)@),
            digits_valid(final(data)@),
            trimmed(final(data)@),
    {
        while data.len() > 0 && data[data.len() - 1] == 0
            invariant
                digits_valid(data@),
                trim_end(data@) == trim_end(old(data)@),
            decreases data.len(),
        {
            let ghost before = data@;
            data.pop();
            proof {
                assert(data@ == before.drop_last());
            }
        }
    }
}

} // verus!
