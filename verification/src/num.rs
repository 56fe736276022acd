//! The capability contract every numeric backend satisfies.
//!
//! The interpreter is written once against this trait and never sees
//! which concrete representation is bound. Each backend carries an
//! abstract value domain (`Value`) and states every operation over that
//! domain; an operation a backend does not support returns `None`.

use vstd::prelude::*;

use crate::bignum::pow10;
use crate::bignum::BigNum;

verus! {

/// A numeric backend: construction from a literal, arithmetic,
/// negation, absolute value, and the unary transcendental operations.
/// Every operation is partial: `None` means the backend does not
/// support it, or the result does not exist in the representation.
pub trait Num: Sized {
    /// The mathematical domain the backend's values stand for.
    type Value;

    /// What this concrete value stands for.
    spec fn val(&self) -> Self::Value;

    spec fn sp_from_literal(t: Seq<char>) -> Option<Self::Value>;

    /// Reads a numeric literal, as the tokenizer produced it.
    fn from_literal(t: &str) -> (r: Option<Self>)
        ensures
            match r {
                Some(v) => Self::sp_from_literal(t@) == Some(v.val()),
                None => Self::sp_from_literal(t@) is None,
            },
    ;

    spec fn sp_pi() -> Option<Self::Value>;

    /// The backend's representation of the circle constant.
    fn pi() -> (r: Option<Self>)
        ensures
            match r {
                Some(v) => Self::sp_pi() == Some(v.val()),
                None => Self::sp_pi() is None,
            },
    ;

    spec fn sp_e() -> Option<Self::Value>;

    /// The backend's representation of the natural base.
    fn e_const() -> (r: Option<Self>)
        ensures
            match r {
                Some(v) => Self::sp_e() == Some(v.val()),
                None => Self::sp_e() is None,
            },
    ;

    spec fn sp_add(a: Self::Value, b: Self::Value) -> Option<Self::Value>;

    fn add_num(&self, o: &Self) -> (r: Option<Self>)
        ensures
            match r {
                Some(v) => Self::sp_add(self.val(), o.val()) == Some(v.val()),
                None => Self::sp_add(self.val(), o.val()) is None,
            },
    ;

    spec fn sp_sub(a: Self::Value, b: Self::Value) -> Option<Self::Value>;

    fn sub_num(&self, o: &Self) -> (r: Option<Self>)
        ensures
            match r {
                Some(v) => Self::sp_sub(self.val(), o.val()) == Some(v.val()),
                None => Self::sp_sub(self.val(), o.val()) is None,
            },
    ;

    spec fn sp_mul(a: Self::Value, b: Self::Value) -> Option<Self::Value>;

    fn mul_num(&self, o: &Self) -> (r: Option<Self>)
        ensures
            match r {
                Some(v) => Self::sp_mul(self.val(), o.val()) == Some(v.val()),
                None => Self::sp_mul(self.val(), o.val()) is None,
            },
    ;

    spec fn sp_div(a: Self::Value, b: Self::Value) -> Option<Self::Value>;

    fn div_num(&self, o: &Self) -> (r: Option<Self>)
        ensures
            match r {
                Some(v) => Self::sp_div(self.val(), o.val()) == Some(v.val()),
                None => Self::sp_div(self.val(), o.val()) is None,
            },
    ;

    spec fn sp_rem(a: Self::Value, b: Self::Value) -> Option<Self::Value>;

    fn rem_num(&self, o: &Self) -> (r: Option<Self>)
        ensures
            match r {
                Some(v) => Self::sp_rem(self.val(), o.val()) == Some(v.val()),
                None => Self::sp_rem(self.val(), o.val()) is None,
            },
    ;

    spec fn sp_pow(a: Self::Value, b: Self::Value) -> Option<Self::Value>;

    fn pow_num(&self, o: &Self) -> (r: Option<Self>)
        ensures
            match r {
                Some(v) => Self::sp_pow(self.val(), o.val()) == Some(v.val()),
                None => Self::sp_pow(self.val(), o.val()) is None,
            },
    ;

    spec fn sp_neg(a: Self::Value) -> Option<Self::Value>;

    fn neg_num(&self) -> (r: Option<Self>)
        ensures
            match r {
                Some(v) => Self::sp_neg(self.val()) == Some(v.val()),
                None => Self::sp_neg(self.val()) is None,
            },
    ;

    spec fn sp_abs(a: Self::Value) -> Option<Self::Value>;

    fn abs_num(&self) -> (r: Option<Self>)
        ensures
            match r {
                Some(v) => Self::sp_abs(self.val()) == Some(v.val()),
                None => Self::sp_abs(self.val()) is None,
            },
    ;

    spec fn sp_sqrt(a: Self::Value) -> Option<Self::Value>;

    fn sqrt_num(&self) -> (r: Option<Self>)
        ensures
            match r {
                Some(v) => Self::sp_sqrt(self.val()) == Some(v.val()),
                None => Self::sp_sqrt(self.val()) is None,
            },
    ;

    spec fn sp_sin(a: Self::Value) -> Option<Self::Value>;

    fn sin_num(&self) -> (r: Option<Self>)
        ensures
            match r {
                Some(v) => Self::sp_sin(self.val()) == Some(v.val()),
                None => Self::sp_sin(self.val()) is None,
            },
    ;

    spec fn sp_cos(a: Self::Value) -> Option<Self::Value>;

    fn cos_num(&self) -> (r: Option<Self>)
        ensures
            match r {
                Some(v) => Self::sp_cos(self.val()) == Some(v.val()),
                None => Self::sp_cos(self.val()) is None,
            },
    ;

    spec fn sp_tan(a: Self::Value) -> Option<Self::Value>;

    fn tan_num(&self) -> (r: Option<Self>)
        ensures
            match r {
                Some(v) => Self::sp_tan(self.val()) == Some(v.val()),
                None => Self::sp_tan(self.val()) is None,
            },
    ;

    spec fn sp_log(a: Self::Value) -> Option<Self::Value>;

    fn log_num(&self) -> (r: Option<Self>)
        ensures
            match r {
                Some(v) => Self::sp_log(self.val()) == Some(v.val()),
                None => Self::sp_log(self.val()) is None,
            },
    ;

    /// A copy that stands for the same value.
    fn dup(&self) -> (r: Self)
        ensures
            r.val() == self.val(),
    ;
}

/// The character is a decimal digit (as the tokenizer classifies it).
pub open spec fn digit_c(c: char) -> bool {
    48 <= c as u32 <= 57
}

/// The number a digit text spells, most significant digit first.
pub open spec fn str_int(t: Seq<char>) -> nat
    decreases t.len(),
{
    if t.len() == 0 {
        0
    } else {
        (str_int(t.drop_last()) * 10 + (t.last() as u32 - 48)) as nat
    }
}

/// Ten to a higher power is no smaller.
proof fn lemma_pow10_mono(a: nat, b: nat)
    requires
        a <= b,
    ensures
        pow10(a) <= pow10(b),
    decreases b,
{
    if a < b {
        lemma_pow10_mono(a, (b - 1) as nat);
        assert(pow10(b) == 10 * pow10((b - 1) as nat));
    }
}

/// The exact arithmetic backend: a machine integer whose value domain
/// is the unbounded integers. Every operation that stays within the
/// machine range succeeds exactly; one that would leave it returns
/// `None`, as do the transcendental operations and the constants, which
/// no integer represents.
impl Num for i64 {
    type Value = int;

    open spec fn val(&self) -> int {
        *self as int
    }

    open spec fn sp_from_literal(t: Seq<char>) -> Option<int> {
        if 1 <= t.len() <= 18 && (forall|i: int| 0 <= i < t.len() ==> digit_c(t[i])) {
            Some(str_int(t) as int)
        } else {
            None
        }
    }

    fn from_literal(t: &str) -> (r: Option<i64>) {
        let n = t.unicode_len();
        if n == 0 || n > 18 {
            proof {
                if n > 18 {
                    assert(Self::sp_from_literal(t@) is None);
                }
            }
            return None;
        }
        let mut acc: i64 = 0;
        let mut i: usize = 0;
        while i < n
            invariant
                n == t@.len(),
                1 <= n <= 18,
                i <= n,
                forall|k: int| 0 <= k < i ==> digit_c(t@[k]),
                acc == str_int(t@.take(i as int)),
                acc < pow10(i as nat),
            decreases n - i,
        {
            let c = t.get_char(i);
            let u = c as u32;
            if !(48 <= u && u <= 57) {
                proof {
                    assert(!digit_c(t@[i as int]));
                    assert(Self::sp_from_literal(t@) is None);
                }
                return None;
            }
            let d = (u - 48) as i64;
            proof {
                reveal_with_fuel(pow10, 19);
                assert(pow10(18) == 1000000000000000000);
                assert(pow10(i as nat + 1) == 10 * pow10(i as nat));
                lemma_pow10_mono(i as nat, 17);
            }
            acc = acc * 10 + d;
            i += 1;
            proof {
                assert(t@.take(i as int).drop_last() =~= t@.take(i - 1));
                assert(t@.take(i as int).last() == t@[i - 1]);
            }
        }
        proof {
            assert(t@.take(n as int) =~= t@);
        }
        Some(acc)
    }

    open spec fn sp_pi() -> Option<int> {
        None
    }

    fn pi() -> (r: Option<i64>) {
        None
    }

    open spec fn sp_e() -> Option<int> {
        None
    }

    fn e_const() -> (r: Option<i64>) {
        None
    }

    open spec fn sp_add(a: int, b: int) -> Option<int> {
        if i64::MIN <= a + b <= i64::MAX {
            Some(a + b)
        } else {
            None
        }
    }

    fn add_num(&self, o: &Self) -> (r: Option<i64>) {
        self.checked_add(*o)
    }

    open spec fn sp_sub(a: int, b: int) -> Option<int> {
        if i64::MIN <= a - b <= i64::MAX {
            Some(a - b)
        } else {
            None
        }
    }

    fn sub_num(&self, o: &Self) -> (r: Option<i64>) {
        self.checked_sub(*o)
    }

    open spec fn sp_mul(a: int, b: int) -> Option<int> {
        if i64::MIN <= a * b <= i64::MAX {
            Some(a * b)
        } else {
            None
        }
    }

    fn mul_num(&self, o: &Self) -> (r: Option<i64>) {
        self.checked_mul(*o)
    }

    open spec fn sp_div(a: int, b: int) -> Option<int> {
        if b == 0 {
            None
        } else {
            let q = tdiv(a, b);
            if i64::MIN <= q <= i64::MAX {
                Some(q)
            } else {
                None
            }
        }
    }

    fn div_num(&self, o: &Self) -> (r: Option<i64>) {
        self.checked_div(*o)
    }

    open spec fn sp_rem(a: int, b: int) -> Option<int> {
        if b == 0 || (a == i64::MIN && b == -1) {
            None
        } else {
            Some(trem(a, b))
        }
    }

    fn rem_num(&self, o: &Self) -> (r: Option<i64>) {
        self.checked_rem(*o)
    }

    open spec fn sp_pow(a: int, b: int) -> Option<int> {
        if 0 <= b <= u32::MAX && i64::MIN <= a <= i64::MAX {
            sp_pow_i64(a as i64, b as u32)
        } else {
            None
        }
    }

    fn pow_num(&self, o: &Self) -> (r: Option<i64>) {
        if *o < 0 || *o > u32::MAX as i64 {
            return None;
        }
        let n = *o as u32;
        let mut acc: i64 = 1;
        let mut k: u32 = 0;
        while k < n
            invariant
                k <= n,
                0 <= *o <= u32::MAX,
                n == *o as u32,
                sp_pow_i64(*self, k) == Some(acc as int),
            decreases n - k,
        {
            match self.checked_mul(acc) {
                Some(m) => {
                    acc = m;
                },
                None => {
                    proof {
                        assert(sp_pow_i64(*self, (k + 1) as u32) is None);
                        lemma_sp_pow_i64_none(*self, (k + 1) as u32, n);
                        assert(((*self as int) as i64) == *self);
                        assert(((*o as int) as u32) == n);
                        assert(Self::sp_pow(self.val(), o.val()) == sp_pow_i64(*self, n));
                    }
                    return None;
                },
            }
            k += 1;
        }
        proof {
            assert(((*self as int) as i64) == *self);
            assert(((*o as int) as u32) == n);
            assert(Self::sp_pow(self.val(), o.val()) == sp_pow_i64(*self, n));
        }
        Some(acc)
    }

    open spec fn sp_neg(a: int) -> Option<int> {
        if i64::MIN <= -a <= i64::MAX {
            Some(-a)
        } else {
            None
        }
    }

    fn neg_num(&self) -> (r: Option<i64>) {
        0i64.checked_sub(*self)
    }

    open spec fn sp_abs(a: int) -> Option<int> {
        if a >= 0 {
            Some(a)
        } else if -a <= i64::MAX {
            Some(-a)
        } else {
            None
        }
    }

    fn abs_num(&self) -> (r: Option<i64>) {
        if *self >= 0 {
            Some(*self)
        } else {
            0i64.checked_sub(*self)
        }
    }

    open spec fn sp_sqrt(a: int) -> Option<int> {
        None
    }

    fn sqrt_num(&self) -> (r: Option<i64>) {
        None
    }

    open spec fn sp_sin(a: int) -> Option<int> {
        None
    }

    fn sin_num(&self) -> (r: Option<i64>) {
        None
    }

    open spec fn sp_cos(a: int) -> Option<int> {
        None
    }

    fn cos_num(&self) -> (r: Option<i64>) {
        None
    }

    open spec fn sp_tan(a: int) -> Option<int> {
        None
    }

    fn tan_num(&self) -> (r: Option<i64>) {
        None
    }

    open spec fn sp_log(a: int) -> Option<int> {
        None
    }

    fn log_num(&self) -> (r: Option<i64>) {
        None
    }

    fn dup(&self) -> (r: i64) {
        *self
    }
}

/// The arbitrary-precision decimal backend: its value domain is the
/// pair of digit sequences either side of the radix point. Only
/// literals and addition are supported; on a value whose digit
/// sequences are not well formed, and for every other operation, the
/// backend answers `None`.
impl Num for BigNum {
    type Value = (Seq<u8>, Seq<u8>);

    open spec fn val(&self) -> (Seq<u8>, Seq<u8>) {
        (self.int_digits(), self.frac_digits())
    }

    open spec fn sp_from_literal(t: Seq<char>) -> Option<(Seq<u8>, Seq<u8>)> {
        if crate::bignum::first_dot(t, 0) == t.len() {
            crate::bignum::sp_from_text(t + seq!['.'])
        } else {
            crate::bignum::sp_from_text(t)
        }
    }

    fn from_literal(t: &str) -> (r: Option<BigNum>) {
        let n = t.unicode_len();
        let mut i: usize = 0;
        while i < n && t.get_char(i) != '.'
            invariant
                n == t@.len(),
                i <= n,
                crate::bignum::first_dot(t@, 0) == crate::bignum::first_dot(t@, i as int),
            decreases n - i,
        {
            i += 1;
        }
        if i == n {
            proof {
                assert(crate::bignum::first_dot(t@, i as int) == n);
            }
            let mut owned = t.to_owned();
            owned.append(".");
            proof {
                reveal_strlit(".");
                assert("."@ =~= seq!['.']);
                assert(owned@ == t@ + seq!['.']);
            }
            BigNum::from_text(owned.as_str())
        } else {
            proof {
                assert(t@[i as int] == '.');
                assert(crate::bignum::first_dot(t@, i as int) == i);
                assert(crate::bignum::first_dot(t@, 0) < t@.len());
            }
            BigNum::from_text(t)
        }
    }

    open spec fn sp_pi() -> Option<(Seq<u8>, Seq<u8>)> {
        None
    }

    fn pi() -> (r: Option<BigNum>) {
        None
    }

    open spec fn sp_e() -> Option<(Seq<u8>, Seq<u8>)> {
        None
    }

    fn e_const() -> (r: Option<BigNum>) {
        None
    }

    open spec fn sp_add(a: (Seq<u8>, Seq<u8>), b: (Seq<u8>, Seq<u8>)) -> Option<
        (Seq<u8>, Seq<u8>),
    > {
        if crate::bignum::val_wf(a) && crate::bignum::val_wf(b) {
            Some(crate::bignum::sp_dec_add(a, b))
        } else {
            None
        }
    }

    fn add_num(&self, o: &Self) -> (r: Option<BigNum>) {
        if !self.check_wf() || !o.check_wf() {
            return None;
        }
        let mut r = self.dup();
        r.add_right(o.right.as_slice());
        r.add_left(o.left.as_slice());
        proof {
            assert(r.val() == crate::bignum::sp_dec_add(self.val(), o.val()));
        }
        Some(r)
    }

    open spec fn sp_sub(a: (Seq<u8>, Seq<u8>), b: (Seq<u8>, Seq<u8>)) -> Option<
        (Seq<u8>, Seq<u8>),
    > {
        None
    }

    fn sub_num(&self, o: &Self) -> (r: Option<BigNum>) {
        None
    }

    open spec fn sp_mul(a: (Seq<u8>, Seq<u8>), b: (Seq<u8>, Seq<u8>)) -> Option<
        (Seq<u8>, Seq<u8>),
    > {
        None
    }

    fn mul_num(&self, o: &Self) -> (r: Option<BigNum>) {
        None
    }

    open spec fn sp_div(a: (Seq<u8>, Seq<u8>), b: (Seq<u8>, Seq<u8>)) -> Option<
        (Seq<u8>, Seq<u8>),
    > {
        None
    }

    fn div_num(&self, o: &Self) -> (r: Option<BigNum>) {
        None
    }

    open spec fn sp_rem(a: (Seq<u8>, Seq<u8>), b: (Seq<u8>, Seq<u8>)) -> Option<
        (Seq<u8>, Seq<u8>),
    > {
        None
    }

    fn rem_num(&self, o: &Self) -> (r: Option<BigNum>) {
        None
    }

    open spec fn sp_pow(a: (Seq<u8>, Seq<u8>), b: (Seq<u8>, Seq<u8>)) -> Option<
        (Seq<u8>, Seq<u8>),
    > {
        None
    }

    fn pow_num(&self, o: &Self) -> (r: Option<BigNum>) {
        None
    }

    open spec fn sp_neg(a: (Seq<u8>, Seq<u8>)) -> Option<(Seq<u8>, Seq<u8>)> {
        None
    }

    fn neg_num(&self) -> (r: Option<BigNum>) {
        None
    }

    open spec fn sp_abs(a: (Seq<u8>, Seq<u8>)) -> Option<(Seq<u8>, Seq<u8>)> {
        if crate::bignum::val_wf(a) {
            Some(a)
        } else {
            None
        }
    }

    fn abs_num(&self) -> (r: Option<BigNum>) {
        if self.check_wf() {
            Some(self.dup())
        } else {
            None
        }
    }

    open spec fn sp_sqrt(a: (Seq<u8>, Seq<u8>)) -> Option<(Seq<u8>, Seq<u8>)> {
        None
    }

    fn sqrt_num(&self) -> (r: Option<BigNum>) {
        None
    }

    open spec fn sp_sin(a: (Seq<u8>, Seq<u8>)) -> Option<(Seq<u8>, Seq<u8>)> {
        None
    }

    fn sin_num(&self) -> (r: Option<BigNum>) {
        None
    }

    open spec fn sp_cos(a: (Seq<u8>, Seq<u8>)) -> Option<(Seq<u8>, Seq<u8>)> {
        None
    }

    fn cos_num(&self) -> (r: Option<BigNum>) {
        None
    }

    open spec fn sp_tan(a: (Seq<u8>, Seq<u8>)) -> Option<(Seq<u8>, Seq<u8>)> {
        None
    }

    fn tan_num(&self) -> (r: Option<BigNum>) {
        None
    }

    open spec fn sp_log(a: (Seq<u8>, Seq<u8>)) -> Option<(Seq<u8>, Seq<u8>)> {
        None
    }

    fn log_num(&self) -> (r: Option<BigNum>) {
        None
    }

    fn dup(&self) -> (r: BigNum) {
        BigNum {
            left: vstd::slice::slice_to_vec(self.left.as_slice()),
            right: vstd::slice::slice_to_vec(self.right.as_slice()),
        }
    }
}

/// Division truncated toward zero, as the machine division behaves.
pub open spec fn tdiv(a: int, d: int) -> int {
    if a == 0 {
        0
    } else if a > 0 && d > 0 {
        a / d
    } else if a < 0 && d < 0 {
        (a * -1) / (d * -1)
    } else if a < 0 {
        ((a * -1) / d) * -1
    } else {
        (a / (d * -1)) * -1
    }
}

/// Remainder with the sign of the dividend, as the machine remainder
/// behaves.
pub open spec fn trem(a: int, d: int) -> int {
    if a == 0 {
        0
    } else if a > 0 && d > 0 {
        a % d
    } else if a < 0 && d < 0 {
        ((a * -1) % (d * -1)) * -1
    } else if a < 0 {
        ((a * -1) % d) * -1
    } else {
        a % (d * -1)
    }
}

/// Iterated machine multiplication: `None` as soon as one step leaves
/// the machine range.
pub open spec fn sp_pow_i64(a: i64, n: u32) -> Option<int>
    decreases n,
{
    if n == 0 {
        Some(1)
    } else {
        match sp_pow_i64(a, (n - 1) as u32) {
            Some(p) => {
                if i64::MIN <= a * p <= i64::MAX {
                    Some(a * p)
                } else {
                    None
                }
            },
            None => None,
        }
    }
}

/// Once iterated multiplication has left the machine range it never
/// returns.
proof fn lemma_sp_pow_i64_none(a: i64, k: u32, n: u32)
    requires
        k <= n,
        sp_pow_i64(a, k) is None,
    ensures
        sp_pow_i64(a, n) is None,
    decreases n - k,
{
    if k < n {
        lemma_sp_pow_i64_none(a, (k + 1) as u32, n);
    }
}

} // verus!
