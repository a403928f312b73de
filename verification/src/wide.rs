//! Fixed-width unsigned integer for scaled monetary amounts.
//!
//! A `WideUint` holds five limbs in base 10^18, so it represents every value
//! in `[0, 10^90)` — more than 248 bits, wide enough for token amounts scaled
//! by up to 18 (and more) decimals. Every operation is checked: nothing here
//! wraps, because a silent wrap on a monetary amount is data corruption.
//!
//! The decimal base is deliberate: parsing and formatting decimal text, the
//! whole purpose of this crate, then needs no binary-to-decimal conversion.
use vstd::prelude::*;
use vstd::arithmetic::mul::*;
use vstd::arithmetic::div_mod::*;
use crate::digits::{
    ten_pow, lemma_ten_pow_pos, lemma_ten_pow_adds, lemma_ten_pow_increases,
    lemma_ten_pow_constants, is_dec_digit, digit_val, digit_char, lemma_digit_char_val,
    all_dec_digits, digits_val, dec_digits, lemma_digits_val_bounds, lemma_digits_val_concat,
    lemma_zeros_val, lemma_canonical_digits,
};
use crate::errors::ParseError;

verus! {

/// One more than the largest representable value: 10^90.
pub open spec fn wide_limit() -> int {
    1_000_000_000_000_000_000_000_000_000_000_000_000_000_000_000_000_000_000_000_000_000_000_000_000_000_000_000_000_000_000int
}

/// Base of one limb: 10^18.
pub const LIMB_MOD: u64 = 1_000_000_000_000_000_000;

/// Fixed-width unsigned integer, five limbs in base 10^18, little-endian.
#[derive(Clone, Debug, PartialEq, Eq)]
pub struct WideUint {
    limbs: Vec<u64>,
}

impl WideUint {
    /// Well-formed: exactly five limbs, each below the base.
    pub closed spec fn wf(&self) -> bool {
        &&& self.limbs@.len() == 5
        &&& forall|i: int| 0 <= i < 5 ==> self.limbs@[i] < 1_000_000_000_000_000_000
    }

    /// The represented mathematical value.
    pub closed spec fn value(&self) -> int {
        self.limbs@[0] + self.limbs@[1] * 1_000_000_000_000_000_000 + self.limbs@[2]
            * 1_000_000_000_000_000_000_000_000_000_000_000_000 + self.limbs@[3]
            * 1_000_000_000_000_000_000_000_000_000_000_000_000_000_000_000_000_000_000int + self.limbs@[4]
            * 1_000_000_000_000_000_000_000_000_000_000_000_000_000_000_000_000_000_000_000_000_000_000_000_000int
    }

    pub proof fn lemma_value_range(&self)
        requires
            self.wf(),
        ensures
            0 <= self.value() < wide_limit(),
    {
    }

    /// The zero value.
    pub fn zero() -> (r: WideUint)
        ensures
            r.wf(),
            r.value() == 0,
    {
        let limbs: Vec<u64> = vec![0, 0, 0, 0, 0];
        proof {
            assert(limbs@ =~= seq![0u64, 0u64, 0u64, 0u64, 0u64]);
        }
        WideUint { limbs }
    }

    pub fn from_u64(x: u64) -> (r: WideUint)
        ensures
            r.wf(),
            r.value() == x,
    {
        let lo = x % LIMB_MOD;
        let hi = x / LIMB_MOD;
        let limbs: Vec<u64> = vec![lo, hi, 0, 0, 0];
        proof {
            assert(limbs@ =~= seq![lo, hi, 0u64, 0u64, 0u64]);
            lemma_fundamental_div_mod(x as int, LIMB_MOD as int);
        }
        WideUint { limbs }
    }

    pub fn from_u128(x: u128) -> (r: WideUint)
        ensures
            r.wf(),
            r.value() == x,
    {
        let base = LIMB_MOD as u128;
        let l0 = (x % base) as u64;
        let y = x / base;
        let l1 = (y % base) as u64;
        let l2 = (y / base) as u64;
        let limbs: Vec<u64> = vec![l0, l1, l2, 0, 0];
        proof {
            assert(limbs@ =~= seq![l0, l1, l2, 0u64, 0u64]);
            lemma_fundamental_div_mod(x as int, base as int);
            lemma_fundamental_div_mod(y as int, base as int);
            assert((y / base) as int * 1_000_000_000_000_000_000_000_000_000_000_000_000 == ((y
                / base) as int * 1_000_000_000_000_000_000) * 1_000_000_000_000_000_000) by {
                lemma_mul_is_associative(
                    (y / base) as int,
                    1_000_000_000_000_000_000,
                    1_000_000_000_000_000_000,
                );
            }
        }
        WideUint { limbs }
    }

    /// True exactly when the value is zero.
    pub fn is_zero(&self) -> (r: bool)
        requires
            self.wf(),
        ensures
            r == (self.value() == 0),
    {
        self.limbs[0] == 0 && self.limbs[1] == 0 && self.limbs[2] == 0 && self.limbs[3] == 0
            && self.limbs[4] == 0
    }

    /// Checked addition: `None` means the exact sum does not fit.
    pub fn checked_add(&self, other: &WideUint) -> (r: Option<WideUint>)
        requires
            self.wf(),
            other.wf(),
        ensures
            match r {
                Some(c) => c.wf() && c.value() == self.value() + other.value(),
                None => self.value() + other.value() >= wide_limit(),
            },
    {
        let s0 = self.limbs[0] + other.limbs[0];
        let k0: u64 = if s0 >= LIMB_MOD {
            1
        } else {
            0
        };
        let d0 = if s0 >= LIMB_MOD {
            s0 - LIMB_MOD
        } else {
            s0
        };
        let s1 = self.limbs[1] + other.limbs[1] + k0;
        let k1: u64 = if s1 >= LIMB_MOD {
            1
        } else {
            0
        };
        let d1 = if s1 >= LIMB_MOD {
            s1 - LIMB_MOD
        } else {
            s1
        };
        let s2 = self.limbs[2] + other.limbs[2] + k1;
        let k2: u64 = if s2 >= LIMB_MOD {
            1
        } else {
            0
        };
        let d2 = if s2 >= LIMB_MOD {
            s2 - LIMB_MOD
        } else {
            s2
        };
        let s3 = self.limbs[3] + other.limbs[3] + k2;
        let k3: u64 = if s3 >= LIMB_MOD {
            1
        } else {
            0
        };
        let d3 = if s3 >= LIMB_MOD {
            s3 - LIMB_MOD
        } else {
            s3
        };
        let s4 = self.limbs[4] + other.limbs[4] + k3;
        let k4: u64 = if s4 >= LIMB_MOD {
            1
        } else {
            0
        };
        let d4 = if s4 >= LIMB_MOD {
            s4 - LIMB_MOD
        } else {
            s4
        };
        if k4 == 1 {
            None
        } else {
            let limbs: Vec<u64> = vec![d0, d1, d2, d3, d4];
            proof {
                assert(limbs@ =~= seq![d0, d1, d2, d3, d4]);
            }
            Some(WideUint { limbs })
        }
    }

    /// Checked multiplication: `None` means the exact product does not fit.
    #[verifier::rlimit(100)]
    pub fn checked_mul(&self, other: &WideUint) -> (r: Option<WideUint>)
        requires
            self.wf(),
            other.wf(),
        ensures
            match r {
                Some(c) => c.wf() && c.value() == self.value() * other.value() && self.value()
                    * other.value() < wide_limit(),
                None => self.value() * other.value() >= wide_limit(),
            },
    {
        let p00 = mul_limb(self.limbs[0], other.limbs[0]);
        let p01 = mul_limb(self.limbs[0], other.limbs[1]);
        let p02 = mul_limb(self.limbs[0], other.limbs[2]);
        let p03 = mul_limb(self.limbs[0], other.limbs[3]);
        let p04 = mul_limb(self.limbs[0], other.limbs[4]);
        let p10 = mul_limb(self.limbs[1], other.limbs[0]);
        let p11 = mul_limb(self.limbs[1], other.limbs[1]);
        let p12 = mul_limb(self.limbs[1], other.limbs[2]);
        let p13 = mul_limb(self.limbs[1], other.limbs[3]);
        let p14 = mul_limb(self.limbs[1], other.limbs[4]);
        let p20 = mul_limb(self.limbs[2], other.limbs[0]);
        let p21 = mul_limb(self.limbs[2], other.limbs[1]);
        let p22 = mul_limb(self.limbs[2], other.limbs[2]);
        let p23 = mul_limb(self.limbs[2], other.limbs[3]);
        let p24 = mul_limb(self.limbs[2], other.limbs[4]);
        let p30 = mul_limb(self.limbs[3], other.limbs[0]);
        let p31 = mul_limb(self.limbs[3], other.limbs[1]);
        let p32 = mul_limb(self.limbs[3], other.limbs[2]);
        let p33 = mul_limb(self.limbs[3], other.limbs[3]);
        let p34 = mul_limb(self.limbs[3], other.limbs[4]);
        let p40 = mul_limb(self.limbs[4], other.limbs[0]);
        let p41 = mul_limb(self.limbs[4], other.limbs[1]);
        let p42 = mul_limb(self.limbs[4], other.limbs[2]);
        let p43 = mul_limb(self.limbs[4], other.limbs[3]);
        let p44 = mul_limb(self.limbs[4], other.limbs[4]);
        let c0 = p00;
        let c1 = p01 + p10;
        let c2 = p02 + p11 + p20;
        let c3 = p03 + p12 + p21 + p30;
        let c4 = p04 + p13 + p22 + p31 + p40;
        let c5 = p14 + p23 + p32 + p41;
        let c6 = p24 + p33 + p42;
        let c7 = p34 + p43;
        let c8 = p44;
        let base = LIMB_MOD as u128;
        let q0 = c0;
        let d0 = (q0 % base) as u64;
        let r0 = q0 / base;
        let q1 = c1 + r0;
        let d1 = (q1 % base) as u64;
        let r1 = q1 / base;
        let q2 = c2 + r1;
        let d2 = (q2 % base) as u64;
        let r2 = q2 / base;
        let q3 = c3 + r2;
        let d3 = (q3 % base) as u64;
        let r3 = q3 / base;
        let q4 = c4 + r3;
        let d4 = (q4 % base) as u64;
        let r4 = q4 / base;
        let q5 = c5 + r4;
        let d5 = (q5 % base) as u64;
        let r5 = q5 / base;
        let q6 = c6 + r5;
        let d6 = (q6 % base) as u64;
        let r6 = q6 / base;
        let q7 = c7 + r6;
        let d7 = (q7 % base) as u64;
        let r7 = q7 / base;
        let q8 = c8 + r7;
        let d8 = (q8 % base) as u64;
        let r8 = q8 / base;
        proof {
            let av = self.value();
            let bv = other.value();
            let a0 = self.limbs@[0] as int;
            let a1 = self.limbs@[1] as int;
            let a2 = self.limbs@[2] as int;
            let a3 = self.limbs@[3] as int;
            let a4 = self.limbs@[4] as int;
            let b0 = other.limbs@[0] as int;
            let b1 = other.limbs@[1] as int;
            let b2 = other.limbs@[2] as int;
            let b3 = other.limbs@[3] as int;
            let b4 = other.limbs@[4] as int;
            // Expand both factors limb by limb; every multiplication in the
            // assembly below then has a literal power of ten on one side.
            lemma_row_expand(a0, b0, b1, b2, b3, b4, bv);
            lemma_row_expand(a1, b0, b1, b2, b3, b4, bv);
            lemma_row_expand(a2, b0, b1, b2, b3, b4, bv);
            lemma_row_expand(a3, b0, b1, b2, b3, b4, bv);
            lemma_row_expand(a4, b0, b1, b2, b3, b4, bv);
            lemma_row_expand(bv, a0, a1, a2, a3, a4, av);
            lemma_mul_is_commutative(av, bv);
            lemma_mul_is_commutative(bv, a0);
            lemma_mul_is_commutative(bv, a1);
            lemma_mul_is_commutative(bv, a2);
            lemma_mul_is_commutative(bv, a3);
            lemma_mul_is_commutative(bv, a4);
            assert(av * bv == (c0 as int) + (c1 as int) * 1_000_000_000_000_000_000int + (c2 as int) * 1_000_000_000_000_000_000_000_000_000_000_000_000int + (c3 as int) * 1_000_000_000_000_000_000_000_000_000_000_000_000_000_000_000_000_000_000int + (c4 as int) * 1_000_000_000_000_000_000_000_000_000_000_000_000_000_000_000_000_000_000_000_000_000_000_000_000int + (c5 as int) * 1_000_000_000_000_000_000_000_000_000_000_000_000_000_000_000_000_000_000_000_000_000_000_000_000_000_000_000_000_000_000int + (c6 as int) * 1_000_000_000_000_000_000_000_000_000_000_000_000_000_000_000_000_000_000_000_000_000_000_000_000_000_000_000_000_000_000_000_000_000_000_000_000int + (c7 as int) * 1_000_000_000_000_000_000_000_000_000_000_000_000_000_000_000_000_000_000_000_000_000_000_000_000_000_000_000_000_000_000_000_000_000_000_000_000_000_000_000_000_000_000int + (c8 as int) * 1_000_000_000_000_000_000_000_000_000_000_000_000_000_000_000_000_000_000_000_000_000_000_000_000_000_000_000_000_000_000_000_000_000_000_000_000_000_000_000_000_000_000_000_000_000_000_000_000int);
            lemma_fundamental_div_mod(q0 as int, base as int);
            lemma_fundamental_div_mod(q1 as int, base as int);
            lemma_fundamental_div_mod(q2 as int, base as int);
            lemma_fundamental_div_mod(q3 as int, base as int);
            lemma_fundamental_div_mod(q4 as int, base as int);
            lemma_fundamental_div_mod(q5 as int, base as int);
            lemma_fundamental_div_mod(q6 as int, base as int);
            lemma_fundamental_div_mod(q7 as int, base as int);
            lemma_fundamental_div_mod(q8 as int, base as int);
            assert(av * bv == (d0 as int) + (d1 as int) * 1_000_000_000_000_000_000int + (d2 as int) * 1_000_000_000_000_000_000_000_000_000_000_000_000int + (d3 as int) * 1_000_000_000_000_000_000_000_000_000_000_000_000_000_000_000_000_000_000int + (d4 as int) * 1_000_000_000_000_000_000_000_000_000_000_000_000_000_000_000_000_000_000_000_000_000_000_000_000int + (d5 as int) * 1_000_000_000_000_000_000_000_000_000_000_000_000_000_000_000_000_000_000_000_000_000_000_000_000_000_000_000_000_000_000int + (d6 as int) * 1_000_000_000_000_000_000_000_000_000_000_000_000_000_000_000_000_000_000_000_000_000_000_000_000_000_000_000_000_000_000_000_000_000_000_000_000int + (d7 as int) * 1_000_000_000_000_000_000_000_000_000_000_000_000_000_000_000_000_000_000_000_000_000_000_000_000_000_000_000_000_000_000_000_000_000_000_000_000_000_000_000_000_000_000int + (d8 as int) * 1_000_000_000_000_000_000_000_000_000_000_000_000_000_000_000_000_000_000_000_000_000_000_000_000_000_000_000_000_000_000_000_000_000_000_000_000_000_000_000_000_000_000_000_000_000_000_000_000int + (r8 as int) * 1_000_000_000_000_000_000_000_000_000_000_000_000_000_000_000_000_000_000_000_000_000_000_000_000_000_000_000_000_000_000_000_000_000_000_000_000_000_000_000_000_000_000_000_000_000_000_000_000_000_000_000_000_000_000int);
        }
        if d5 != 0 || d6 != 0 || d7 != 0 || d8 != 0 || r8 != 0 {
            None
        } else {
            let limbs: Vec<u64> = vec![d0, d1, d2, d3, d4];
            proof {
                assert(limbs@ =~= seq![d0, d1, d2, d3, d4]);
            }
            Some(WideUint { limbs })
        }
    }

    /// `10^n` when representable; `None` exactly when `n >= 90`.
    pub fn pow10(n: u8) -> (r: Option<WideUint>)
        ensures
            match r {
                Some(c) => n < 90 && c.wf() && c.value() == ten_pow(n as nat),
                None => n >= 90 && ten_pow(n as nat) >= wide_limit(),
            },
    {
        if n >= 90 {
            proof {
                lemma_ten_pow_constants();
                lemma_ten_pow_increases(90, n as nat);
            }
            None
        } else {
            let q = n / 18;
            let rr = n % 18;
            let p = small_ten_pow(rr);
            proof {
                lemma_ten_pow_constants();
                lemma_ten_pow_increases(rr as nat, 17);
                assert(n as nat == 18 * (q as nat) + (rr as nat));
                lemma_ten_pow_adds(18 * (q as nat), rr as nat);
            }
            let limbs: Vec<u64> = if q == 0 {
                vec![p, 0, 0, 0, 0]
            } else if q == 1 {
                vec![0, p, 0, 0, 0]
            } else if q == 2 {
                vec![0, 0, p, 0, 0]
            } else if q == 3 {
                vec![0, 0, 0, p, 0]
            } else {
                vec![0, 0, 0, 0, p]
            };
            proof {
                if q == 0 {
                    assert(limbs@ =~= seq![p, 0u64, 0u64, 0u64, 0u64]);
                    lemma_ten_pow_adds(0, rr as nat);
                } else if q == 1 {
                    assert(limbs@ =~= seq![0u64, p, 0u64, 0u64, 0u64]);
                    lemma_mul_is_commutative(p as int, 1_000_000_000_000_000_000);
                } else if q == 2 {
                    assert(limbs@ =~= seq![0u64, 0u64, p, 0u64, 0u64]);
                    lemma_mul_is_commutative(
                        p as int,
                        1_000_000_000_000_000_000_000_000_000_000_000_000,
                    );
                } else if q == 3 {
                    assert(limbs@ =~= seq![0u64, 0u64, 0u64, p, 0u64]);
                    lemma_mul_is_commutative(
                        p as int,
                        1_000_000_000_000_000_000_000_000_000_000_000_000_000_000_000_000_000_000int,
                    );
                } else {
                    assert(q == 4);
                    assert(limbs@ =~= seq![0u64, 0u64, 0u64, 0u64, p]);
                    lemma_mul_is_commutative(
                        p as int,
                        1_000_000_000_000_000_000_000_000_000_000_000_000_000_000_000_000_000_000_000_000_000_000_000_000int,
                    );
                }
            }
            Some(WideUint { limbs })
        }
    }

    /// Checked scaling by `10^e`; succeeds exactly when the product fits.
    pub fn scale_by_pow10(&self, e: u8) -> (r: Option<WideUint>)
        requires
            self.wf(),
        ensures
            match r {
                Some(c) => c.wf() && c.value() == self.value() * ten_pow(e as nat) && self.value()
                    * ten_pow(e as nat) < wide_limit(),
                None => self.value() * ten_pow(e as nat) >= wide_limit(),
            },
    {
        match Self::pow10(e) {
            Some(p) => self.checked_mul(&p),
            None => {
                if self.is_zero() {
                    proof {
                        assert(self.value() * ten_pow(e as nat) == 0) by {
                            lemma_mul_basics(ten_pow(e as nat) as int);
                        }
                    }
                    Some(Self::zero())
                } else {
                    proof {
                        lemma_mul_inequality(1, self.value(), ten_pow(e as nat) as int);
                    }
                    None
                }
            },
        }
    }

    /// Narrow to `u128`; succeeds exactly when the value fits.
    pub fn to_u128(&self) -> (r: Option<u128>)
        requires
            self.wf(),
        ensures
            match r {
                Some(v) => v == self.value(),
                None => self.value() > u128::MAX,
            },
    {
        let base = LIMB_MOD as u128;
        if self.limbs[3] != 0 || self.limbs[4] != 0 {
            return None;
        }
        let low = self.limbs[0] as u128 + (self.limbs[1] as u128) * base;
        let l2 = self.limbs[2];
        if l2 == 0 {
            return Some(low);
        }
        if l2 > 340 {
            return None;
        }
        let hi = (l2 as u128) * 1_000_000_000_000_000_000_000_000_000_000_000_000u128;
        if hi > u128::MAX - low {
            return None;
        }
        Some(hi + low)
    }

    /// Narrow to `u64`; succeeds exactly when the value fits.
    pub fn to_u64(&self) -> (r: Option<u64>)
        requires
            self.wf(),
        ensures
            match r {
                Some(v) => v == self.value(),
                None => self.value() > u64::MAX,
            },
    {
        match self.to_u128() {
            Some(v) => {
                if v <= u64::MAX as u128 {
                    Some(v as u64)
                } else {
                    None
                }
            },
            None => None,
        }
    }

    /// Parse a string of decimal digits. Every character must be an ASCII
    /// decimal digit and the string must not be empty; a value at or beyond
    /// the width is an overflow.
    pub fn parse_decimal_digits(s: &str) -> (r: Result<WideUint, ParseError>)
        ensures
            match r {
                Ok(w) => w.wf() && spec_parse_digits(s@) == Ok::<int, ParseError>(w.value()),
                Err(e) => spec_parse_digits(s@) == Err::<int, ParseError>(e),
            },
    {
        let n = s.unicode_len();
        if n == 0 {
            return Err(ParseError::InvalidFormat);
        }
        let mut i: usize = 0;
        while i < n
            invariant
                0 <= i <= n,
                n == s@.len(),
                forall|j: int| 0 <= j < i ==> is_dec_digit(#[trigger] s@[j]),
            decreases n - i,
        {
            let c = s.get_char(i);
            let u = c as u32;
            if u < 48 || u > 57 {
                return Err(ParseError::InvalidFormat);
            }
            i += 1;
        }
        assert(all_dec_digits(s@));
        let mut acc = WideUint::zero();
        let ten = WideUint::from_u64(10);
        let mut i: usize = 0;
        proof {
            assert(s@.subrange(0, 0) =~= Seq::<char>::empty());
        }
        while i < n
            invariant
                0 <= i <= n,
                n == s@.len(),
                all_dec_digits(s@),
                acc.wf(),
                ten.wf(),
                ten.value() == 10,
                acc.value() == digits_val(s@.subrange(0, i as int)),
                acc.value() < wide_limit(),
            decreases n - i,
        {
            let ghost pre = s@.subrange(0, i as int);
            let ghost post = s@.subrange(i + 1, n as int);
            let c = s.get_char(i);
            let u = c as u32;
            assert(is_dec_digit(c));
            let d = WideUint::from_u64(((u - 48) as u64));
            let scaled = match acc.checked_mul(&ten) {
                Some(x) => x,
                None => {
                    proof {
                        lemma_overflow_tail(s@, i as int);
                    }
                    return Err(ParseError::Overflow);
                },
            };
            let next = match scaled.checked_add(&d) {
                Some(x) => x,
                None => {
                    proof {
                        lemma_overflow_tail(s@, i as int);
                    }
                    return Err(ParseError::Overflow);
                },
            };
            acc = next;
            proof {
                assert(s@.subrange(0, i + 1).drop_last() =~= pre);
                assert(s@.subrange(0, i + 1).last() == s@[i as int]);
            }
            i += 1;
        }
        proof {
            assert(s@.subrange(0, n as int) =~= s@);
        }
        Ok(acc)
    }

    /// The canonical decimal digit string of the value.
    pub fn to_decimal_string(&self) -> (r: String)
        requires
            self.wf(),
        ensures
            r@ == dec_digits(self.value() as nat),
    {
        let mut s = String::new();
        append_limb_18(&mut s, self.limbs[4]);
        let ghost s1 = s@;
        append_limb_18(&mut s, self.limbs[3]);
        let ghost s2 = s@;
        append_limb_18(&mut s, self.limbs[2]);
        let ghost s3 = s@;
        append_limb_18(&mut s, self.limbs[1]);
        let ghost s4 = s@;
        append_limb_18(&mut s, self.limbs[0]);
        proof {
            lemma_ten_pow_constants();
            let w = s@;
            let g4 = w.subrange(0, 18);
            let g3 = w.subrange(18, 36);
            let g2 = w.subrange(36, 54);
            let g1 = w.subrange(54, 72);
            let g0 = w.subrange(72, 90);
            assert(w.subrange(0, 72) == s4);
            assert(s4.subrange(0, 54) == s3);
            assert(s3.subrange(0, 36) == s2);
            assert(s2.subrange(0, 18) == s1);
            assert(g4 =~= s1.subrange(0, 18));
            assert(g3 =~= s2.subrange(18, 36));
            assert(g2 =~= s3.subrange(36, 54));
            assert(g1 =~= s4.subrange(54, 72));
            assert(g4 =~= s1);
            assert(digits_val(g4) == self.limbs@[4]);
            assert(digits_val(g3) == self.limbs@[3]);
            assert(digits_val(g2) == self.limbs@[2]);
            assert(digits_val(g1) == self.limbs@[1]);
            assert(digits_val(g0) == self.limbs@[0]);
            assert(w =~= (((g4 + g3) + g2) + g1) + g0);
            lemma_digits_val_concat(g4, g3);
            lemma_digits_val_concat(g4 + g3, g2);
            lemma_digits_val_concat((g4 + g3) + g2, g1);
            lemma_digits_val_concat(((g4 + g3) + g2) + g1, g0);
            assert(all_dec_digits(w)) by {
                assert(forall|j: int| 0 <= j < 18 ==> is_dec_digit(#[trigger] g4[j]));
                assert(forall|j: int| 18 <= j < 36 ==> is_dec_digit(#[trigger] w[j])) by {
                    assert(forall|j: int| 0 <= j < 18 ==> is_dec_digit(#[trigger] g3[j]));
                }
                assert(forall|j: int| 36 <= j < 54 ==> is_dec_digit(#[trigger] w[j])) by {
                    assert(forall|j: int| 0 <= j < 18 ==> is_dec_digit(#[trigger] g2[j]));
                }
                assert(forall|j: int| 54 <= j < 72 ==> is_dec_digit(#[trigger] w[j])) by {
                    assert(forall|j: int| 0 <= j < 18 ==> is_dec_digit(#[trigger] g1[j]));
                }
                assert(forall|j: int| 72 <= j < 90 ==> is_dec_digit(#[trigger] w[j])) by {
                    assert(forall|j: int| 0 <= j < 18 ==> is_dec_digit(#[trigger] g0[j]));
                }
                assert(forall|j: int| 0 <= j < 18 ==> is_dec_digit(#[trigger] w[j]));
            }
            assert(digits_val(w) == self.value());
        }
        let n = s.as_str().unicode_len();
        let mut i: usize = 0;
        while i < n - 1 && string_char_is(&s, i, '0')
            invariant
                n == s@.len(),
                n == 90,
                0 <= i <= n - 1,
                all_dec_digits(s@),
                digits_val(s@) == self.value(),
                forall|j: int| 0 <= j < i ==> s@[j] == '0',
            decreases n - i,
        {
            i += 1;
        }
        proof {
            lemma_all_digits_ascii(s@);
        }
        let tail = s.as_str().substring_ascii(i, n);
        proof {
            let pre = s@.subrange(0, i as int);
            lemma_zeros_val(pre);
            lemma_digits_val_concat(pre, tail@);
            assert(s@ =~= pre + tail@);
            assert(digits_val(tail@) == self.value());
            if tail@.len() > 1 {
                assert(tail@[0] == s@[i as int]);
                assert(tail@[0] != '0');
            }
            lemma_canonical_digits(tail@);
        }
        tail.to_owned()
    }
}

/// Expansion of a product by the limbs of one factor. Every multiplication
/// on the right-hand side carries a literal power of ten, so the caller's
/// remaining reasoning is linear.
proof fn lemma_row_expand(x: int, b0: int, b1: int, b2: int, b3: int, b4: int, bv: int)
    requires
        bv == b0 + b1 * 1_000_000_000_000_000_000 + b2 * 1_000_000_000_000_000_000_000_000_000_000_000_000int + b3 * 1_000_000_000_000_000_000_000_000_000_000_000_000_000_000_000_000_000_000int + b4 * 1_000_000_000_000_000_000_000_000_000_000_000_000_000_000_000_000_000_000_000_000_000_000_000_000int,
    ensures
        x * bv == x * b0 + (x * b1) * 1_000_000_000_000_000_000 + (x * b2) * 1_000_000_000_000_000_000_000_000_000_000_000_000int + (x * b3) * 1_000_000_000_000_000_000_000_000_000_000_000_000_000_000_000_000_000_000int + (x * b4)
            * 1_000_000_000_000_000_000_000_000_000_000_000_000_000_000_000_000_000_000_000_000_000_000_000_000int,
{
    lemma_mul_is_distributive_add(
        x,
        b0,
        b1 * 1_000_000_000_000_000_000 + b2 * 1_000_000_000_000_000_000_000_000_000_000_000_000int + b3 * 1_000_000_000_000_000_000_000_000_000_000_000_000_000_000_000_000_000_000int + b4 * 1_000_000_000_000_000_000_000_000_000_000_000_000_000_000_000_000_000_000_000_000_000_000_000_000int,
    );
    lemma_mul_is_distributive_add(
        x,
        b1 * 1_000_000_000_000_000_000,
        b2 * 1_000_000_000_000_000_000_000_000_000_000_000_000int + b3 * 1_000_000_000_000_000_000_000_000_000_000_000_000_000_000_000_000_000_000int + b4 * 1_000_000_000_000_000_000_000_000_000_000_000_000_000_000_000_000_000_000_000_000_000_000_000_000int,
    );
    lemma_mul_is_distributive_add(x, b2 * 1_000_000_000_000_000_000_000_000_000_000_000_000int, b3 * 1_000_000_000_000_000_000_000_000_000_000_000_000_000_000_000_000_000_000int + b4 * 1_000_000_000_000_000_000_000_000_000_000_000_000_000_000_000_000_000_000_000_000_000_000_000_000int);
    lemma_mul_is_distributive_add(x, b3 * 1_000_000_000_000_000_000_000_000_000_000_000_000_000_000_000_000_000_000int, b4 * 1_000_000_000_000_000_000_000_000_000_000_000_000_000_000_000_000_000_000_000_000_000_000_000_000int);
    lemma_mul_is_associative(x, b1, 1_000_000_000_000_000_000);
    lemma_mul_is_associative(x, b2, 1_000_000_000_000_000_000_000_000_000_000_000_000int);
    lemma_mul_is_associative(x, b3, 1_000_000_000_000_000_000_000_000_000_000_000_000_000_000_000_000_000_000int);
    lemma_mul_is_associative(x, b4, 1_000_000_000_000_000_000_000_000_000_000_000_000_000_000_000_000_000_000_000_000_000_000_000_000int);
}

/// Product of two limbs, exact in `u128`.
fn mul_limb(x: u64, y: u64) -> (r: u128)
    requires
        x < LIMB_MOD,
        y < LIMB_MOD,
    ensures
        r == x * y,
        r < 1_000_000_000_000_000_000_000_000_000_000_000_000u128,
{
    proof {
        assert((x as int) * (y as int) < 1_000_000_000_000_000_000_000_000_000_000_000_000)
            by (nonlinear_arith)
            requires
                0 <= x < 1_000_000_000_000_000_000,
                0 <= y < 1_000_000_000_000_000_000,
        ;
        assert((x as int) * (y as int) >= 0) by {
            lemma_mul_nonnegative(x as int, y as int);
        }
    }
    (x as u128) * (y as u128)
}

/// `10^e` as a `u64`, for `e <= 17`.
fn small_ten_pow(e: u8) -> (r: u64)
    requires
        e <= 17,
    ensures
        r == ten_pow(e as nat),
        r <= 100_000_000_000_000_000,
{
    proof {
        lemma_ten_pow_constants();
    }
    let mut p: u64 = 1;
    let mut i: u8 = 0;
    while i < e
        invariant
            0 <= i <= e <= 17,
            p == ten_pow(i as nat),
        decreases e - i,
    {
        proof {
            lemma_ten_pow_constants();
            lemma_ten_pow_increases(i as nat, 16);
            assert(ten_pow(16) * 10 == ten_pow(17)) by {
                assert(ten_pow(17) == 10 * ten_pow(16));
            }
        }
        p = p * 10;
        i += 1;
    }
    proof {
        lemma_ten_pow_constants();
        lemma_ten_pow_increases(e as nat, 17);
    }
    p
}

/// True when the character at `i` is `c`.
fn string_char_is(s: &String, i: usize, c: char) -> (r: bool)
    requires
        i < s@.len(),
    ensures
        r == (s@[i as int] == c),
{
    s.as_str().get_char(i) == c
}

/// The classification that `parse_decimal_digits` implements.
pub open spec fn spec_parse_digits(s: Seq<char>) -> Result<int, ParseError> {
    if s.len() == 0 || !all_dec_digits(s) {
        Err(ParseError::InvalidFormat)
    } else if digits_val(s) >= wide_limit() {
        Err(ParseError::Overflow)
    } else {
        Ok(digits_val(s))
    }
}

/// If a digit prefix already reaches the width, the whole string does.
proof fn lemma_overflow_tail(s: Seq<char>, i: int)
    requires
        all_dec_digits(s),
        0 <= i < s.len(),
        digits_val(s.subrange(0, i)) * 10 + digit_val(s[i]) >= wide_limit(),
    ensures
        digits_val(s) >= wide_limit(),
{
    let pre = s.subrange(0, i + 1);
    let post = s.subrange(i + 1, s.len() as int);
    assert(s =~= pre + post);
    assert(pre.drop_last() =~= s.subrange(0, i));
    assert(pre.last() == s[i]);
    assert(digits_val(pre) >= wide_limit());
    lemma_digits_val_concat(pre, post);
    assert(all_dec_digits(post));
    lemma_digits_val_bounds(post);
    lemma_ten_pow_pos(post.len());
    lemma_mul_inequality(1, ten_pow(post.len()) as int, digits_val(pre));
    lemma_mul_is_commutative(digits_val(pre), ten_pow(post.len()) as int);
}

/// Append the 18-digit, zero-padded decimal form of one limb.
fn append_limb_18(s: &mut String, limb: u64)
    requires
        limb < LIMB_MOD,
    ensures
        final(s)@.len() == old(s)@.len() + 18,
        final(s)@.subrange(0, old(s)@.len() as int) == old(s)@,
        all_dec_digits(final(s)@.subrange(old(s)@.len() as int, old(s)@.len() as int + 18)),
        digits_val(final(s)@.subrange(old(s)@.len() as int, old(s)@.len() as int + 18)) == limb,
{
    let ghost base_len = s@.len() as int;
    let mut p: u64 = 100_000_000_000_000_000;
    let mut k: usize = 0;
    proof {
        lemma_ten_pow_constants();
        assert(s@.subrange(base_len, base_len) =~= Seq::<char>::empty());
        assert(digits_val(Seq::<char>::empty()) == 0);
        lemma_basic_div(limb as int, ten_pow(18) as int);
        assert(s@.subrange(0, base_len) =~= s@);
    }
    while k < 18
        invariant
            0 <= k <= 18,
            limb < LIMB_MOD,
            s@.len() == base_len + k,
            base_len >= 0,
            s@.subrange(0, base_len) == old(s)@,
            base_len == old(s)@.len(),
            k < 18 ==> p == ten_pow((17 - k) as nat),
            all_dec_digits(s@.subrange(base_len, base_len + k)),
            digits_val(s@.subrange(base_len, base_len + k)) == limb as int / (ten_pow(
                (18 - k) as nat,
            ) as int),
        decreases 18 - k,
    {
        let ghost done = s@.subrange(base_len, base_len + k);
        proof {
            lemma_ten_pow_pos((17 - k) as nat);
        }
        let d = (limb / p) % 10;
        append_digit(s, d);
        proof {
            let y = limb as int / (ten_pow((17 - k) as nat) as int);
            lemma_ten_pow_pos((17 - k) as nat);
            lemma_div_denominator(limb as int, ten_pow((17 - k) as nat) as int, 10);
            assert(ten_pow((17 - k) as nat) * 10 == 10 * ten_pow((17 - k) as nat));
            assert(ten_pow((18 - k) as nat) == 10 * ten_pow((17 - k) as nat));
            lemma_fundamental_div_mod(y, 10);
            assert(y / 10 == limb as int / (ten_pow((18 - k) as nat) as int));
            let now = s@.subrange(base_len, base_len + k + 1);
            assert(now.drop_last() =~= done);
            assert(now.last() == digit_char(d as int));
            lemma_digit_char_val(d as int);
            assert(digits_val(now) == (y / 10) * 10 + (y % 10));
            assert(all_dec_digits(now)) by {
                assert(forall|j: int| 0 <= j < k ==> now[j] == done[j]);
                assert(forall|j: int|
                    0 <= j < now.len() ==> is_dec_digit(#[trigger] now[j]));
            }
            assert(s@.subrange(0, base_len) =~= old(s)@);
        }
        if k < 17 {
            proof {
                assert(ten_pow((17 - k) as nat) == 10 * ten_pow((16 - k) as nat));
                lemma_div_multiples_vanish(ten_pow((16 - k) as nat) as int, 10);
            }
            p = p / 10;
        }
        k += 1;
    }
    proof {
        assert(ten_pow(0) == 1);
        lemma_div_basics(limb as int);
    }
}

/// Append one decimal digit character.
fn append_digit(s: &mut String, d: u64)
    requires
        d < 10,
    ensures
        final(s)@ == old(s)@.push(digit_char(d as int)),
{
    if d == 0 {
        s.append("0");
    } else if d == 1 {
        s.append("1");
    } else if d == 2 {
        s.append("2");
    } else if d == 3 {
        s.append("3");
    } else if d == 4 {
        s.append("4");
    } else if d == 5 {
        s.append("5");
    } else if d == 6 {
        s.append("6");
    } else if d == 7 {
        s.append("7");
    } else if d == 8 {
        s.append("8");
    } else {
        s.append("9");
    }
    proof {
        reveal_strlit("0");
        reveal_strlit("1");
        reveal_strlit("2");
        reveal_strlit("3");
        reveal_strlit("4");
        reveal_strlit("5");
        reveal_strlit("6");
        reveal_strlit("7");
        reveal_strlit("8");
        reveal_strlit("9");
        assert(s@ =~= old(s)@.push(digit_char(d as int)));
    }
}

/// Decimal digit characters are ASCII.
pub proof fn lemma_all_digits_ascii(s: Seq<char>)
    requires
        all_dec_digits(s),
    ensures
        vstd::utf8::is_ascii_chars(s),
{
    assert forall|i: int| 0 <= i < s.len() implies '\0' <= #[trigger] s[i] <= '\u{7f}' by {
        assert(is_dec_digit(s[i]));
    }
}

} // verus!
