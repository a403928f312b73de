//! Specification-level model of decimal digit strings.
//!
//! Every contract about parsing and formatting in this crate is phrased over
//! these functions: `digits_val` gives the numeric value of a sequence of
//! decimal digit characters, and `dec_digits` gives the canonical (no leading
//! zero) digit sequence of a number.
use vstd::prelude::*;
use vstd::arithmetic::mul::*;
use vstd::arithmetic::div_mod::*;

verus! {

/// 10^n as a mathematical number.
pub open spec fn ten_pow(n: nat) -> nat
    decreases n,
{
    if n == 0 {
        1
    } else {
        10 * ten_pow((n - 1) as nat)
    }
}

pub proof fn lemma_ten_pow_pos(n: nat)
    ensures
        ten_pow(n) >= 1,
    decreases n,
{
    if n > 0 {
        lemma_ten_pow_pos((n - 1) as nat);
    }
}

pub proof fn lemma_ten_pow_adds(a: nat, b: nat)
    ensures
        ten_pow(a + b) == ten_pow(a) * ten_pow(b),
    decreases a,
{
    if a == 0 {
    } else {
        let a0 = (a - 1) as nat;
        lemma_ten_pow_adds(a0, b);
        assert(ten_pow(a0 + b) == ten_pow(a0) * ten_pow(b));
        assert(ten_pow(a + b) == 10 * ten_pow((a + b - 1) as nat));
        assert((a + b - 1) as nat == a0 + b);
        assert(ten_pow(a) == 10 * ten_pow(a0));
        lemma_mul_is_associative(10, ten_pow(a0) as int, ten_pow(b) as int);
        assert(ten_pow(a + b) == (10 * ten_pow(a0)) * ten_pow(b));
    }
}

pub proof fn lemma_ten_pow_increases(a: nat, b: nat)
    requires
        a <= b,
    ensures
        ten_pow(a) <= ten_pow(b),
    decreases b,
{
    if a < b {
        lemma_ten_pow_increases(a, (b - 1) as nat);
        lemma_ten_pow_pos((b - 1) as nat);
    }
}

/// Closed forms of the powers of ten that the limb representation uses.
pub proof fn lemma_ten_pow_constants()
    ensures
        ten_pow(17) == 100_000_000_000_000_000,
        ten_pow(18) == 1_000_000_000_000_000_000,
        ten_pow(36) == 1_000_000_000_000_000_000_000_000_000_000_000_000,
        ten_pow(54) == 1_000_000_000_000_000_000_000_000_000_000_000_000_000_000_000_000_000_000,
        ten_pow(72)
            == 1_000_000_000_000_000_000_000_000_000_000_000_000_000_000_000_000_000_000_000_000_000_000_000_000,
        ten_pow(90)
            == 1_000_000_000_000_000_000_000_000_000_000_000_000_000_000_000_000_000_000_000_000_000_000_000_000_000_000_000_000_000_000,
{
    reveal_with_fuel(ten_pow, 19);
    assert(ten_pow(17) == 100_000_000_000_000_000);
    assert(ten_pow(18) == 1_000_000_000_000_000_000);
    lemma_ten_pow_adds(18, 18);
    lemma_ten_pow_adds(36, 18);
    lemma_ten_pow_adds(54, 18);
    lemma_ten_pow_adds(72, 18);
}

pub open spec fn is_dec_digit(c: char) -> bool {
    '0' <= c && c <= '9'
}

/// Numeric value of one digit character.
pub open spec fn digit_val(c: char) -> int {
    (c as int) - 48
}

/// The character for one digit value.
pub open spec fn digit_char(d: int) -> char {
    if d == 0 {
        '0'
    } else if d == 1 {
        '1'
    } else if d == 2 {
        '2'
    } else if d == 3 {
        '3'
    } else if d == 4 {
        '4'
    } else if d == 5 {
        '5'
    } else if d == 6 {
        '6'
    } else if d == 7 {
        '7'
    } else if d == 8 {
        '8'
    } else {
        '9'
    }
}

pub proof fn lemma_digit_char_val(d: int)
    requires
        0 <= d <= 9,
    ensures
        is_dec_digit(digit_char(d)),
        digit_val(digit_char(d)) == d,
{
}

pub proof fn lemma_digit_val_char(c: char)
    requires
        is_dec_digit(c),
    ensures
        0 <= digit_val(c) <= 9,
        digit_char(digit_val(c)) == c,
{
}

pub open spec fn all_dec_digits(s: Seq<char>) -> bool {
    forall|i: int| 0 <= i < s.len() ==> is_dec_digit(#[trigger] s[i])
}

/// Value of a digit string, most significant digit first.
pub open spec fn digits_val(s: Seq<char>) -> int
    decreases s.len(),
{
    if s.len() == 0 {
        0
    } else {
        digits_val(s.drop_last()) * 10 + digit_val(s.last())
    }
}

/// The canonical digit string of a non-negative number.
pub open spec fn dec_digits(n: nat) -> Seq<char>
    decreases n,
{
    if n < 10 {
        seq![digit_char(n as int)]
    } else {
        dec_digits(n / 10).push(digit_char((n % 10) as int))
    }
}

pub proof fn lemma_digits_val_bounds(s: Seq<char>)
    requires
        all_dec_digits(s),
    ensures
        0 <= digits_val(s) < ten_pow(s.len()),
    decreases s.len(),
{
    if s.len() > 0 {
        let p = s.drop_last();
        assert(all_dec_digits(p));
        lemma_digits_val_bounds(p);
        assert(is_dec_digit(s.last()));
        assert(digits_val(p) <= ten_pow(p.len()) - 1);
        lemma_mul_inequality(digits_val(p), ten_pow(p.len()) - 1, 10);
        assert(digits_val(p) * 10 <= (ten_pow(p.len()) - 1) * 10) by {
            lemma_mul_inequality(digits_val(p), ten_pow(p.len()) - 1, 10);
        }
        assert((ten_pow(p.len()) - 1) * 10 == ten_pow(p.len()) * 10 - 10) by {
            lemma_mul_is_distributive_sub_other_way(10, ten_pow(p.len()) as int, 1);
        }
        assert(ten_pow(s.len()) == 10 * ten_pow(p.len()));
        lemma_mul_nonnegative(digits_val(p), 10);
    }
}

/// Concatenation: the value of `a ++ b` combines the values positionally.
pub proof fn lemma_digits_val_concat(a: Seq<char>, b: Seq<char>)
    ensures
        digits_val(a + b) == digits_val(a) * ten_pow(b.len()) + digits_val(b),
    decreases b.len(),
{
    if b.len() == 0 {
        assert(a + b =~= a);
        assert(digits_val(b) == 0);
        assert(ten_pow(b.len()) == 1);
        assert(digits_val(a) * 1 == digits_val(a));
    } else {
        let b0 = b.drop_last();
        let va = digits_val(a);
        let t0 = ten_pow(b0.len()) as int;
        lemma_digits_val_concat(a, b0);
        assert((a + b).drop_last() =~= a + b0);
        assert((a + b).last() == b.last());
        assert(digits_val(a + b) == digits_val(a + b0) * 10 + digit_val(b.last()));
        assert(digits_val(a + b0) == va * t0 + digits_val(b0));
        assert((va * t0 + digits_val(b0)) * 10 == (va * t0) * 10 + digits_val(b0) * 10) by {
            lemma_mul_is_distributive_add_other_way(10, va * t0, digits_val(b0));
        }
        assert((va * t0) * 10 == va * (t0 * 10)) by {
            lemma_mul_is_associative(va, t0, 10);
        }
        assert(ten_pow(b.len()) == 10 * ten_pow((b.len() - 1) as nat));
        assert((b.len() - 1) as nat == b0.len());
        assert(t0 * 10 == 10 * t0) by {
            lemma_mul_is_commutative(t0, 10);
        }
        assert(digits_val(b) == digits_val(b0) * 10 + digit_val(b.last()));
        assert(t0 * 10 == ten_pow(b.len()) as int);
        assert(va * (t0 * 10) == va * (ten_pow(b.len()) as int));
        assert(digits_val(a + b) == va * (ten_pow(b.len()) as int) + digits_val(b));
    }
}

/// A string of `'0'` characters has value zero.
pub proof fn lemma_zeros_val(s: Seq<char>)
    requires
        forall|i: int| 0 <= i < s.len() ==> s[i] == '0',
    ensures
        digits_val(s) == 0,
    decreases s.len(),
{
    if s.len() > 0 {
        lemma_zeros_val(s.drop_last());
    }
}

/// `dec_digits` is a correct digit string for its argument.
pub proof fn lemma_dec_digits_correct(n: nat)
    ensures
        all_dec_digits(dec_digits(n)),
        dec_digits(n).len() >= 1,
        digits_val(dec_digits(n)) == n,
        n >= 1 ==> dec_digits(n)[0] != '0',
        n < 10 ==> dec_digits(n).len() == 1,
        n >= 10 ==> dec_digits(n).len() >= 2,
    decreases n,
{
    if n < 10 {
        lemma_digit_char_val(n as int);
        let s = dec_digits(n);
        assert(s =~= seq![digit_char(n as int)]);
        assert(s.drop_last() =~= Seq::<char>::empty());
        assert(digits_val(Seq::<char>::empty()) == 0);
        assert(digits_val(s) == digits_val(s.drop_last()) * 10 + digit_val(s.last()));
        assert(s.last() == digit_char(n as int));
    } else {
        let q = n / 10;
        lemma_div_decreases(n as int, 10);
        lemma_dec_digits_correct(q);
        lemma_digit_char_val((n % 10) as int);
        let s = dec_digits(n);
        assert(s =~= dec_digits(q).push(digit_char((n % 10) as int)));
        assert(s.drop_last() =~= dec_digits(q));
        assert(s.last() == digit_char((n % 10) as int));
        assert(digits_val(s) == (q as int) * 10 + (n % 10));
        lemma_fundamental_div_mod(n as int, 10);
        lemma_mul_is_commutative(q as int, 10);
        assert(forall|i: int| 0 <= i < s.len() ==> is_dec_digit(#[trigger] s[i])) by {
            assert(forall|i: int| 0 <= i < s.len() - 1 ==> s[i] == dec_digits(q)[i]);
        }
        assert(q >= 1);
        assert(s[0] == dec_digits(q)[0]);
    }
}

/// A digit string without a leading zero is the canonical digit string of its
/// value.
pub proof fn lemma_canonical_digits(s: Seq<char>)
    requires
        all_dec_digits(s),
        s.len() >= 1,
        s.len() == 1 || s[0] != '0',
    ensures
        s == dec_digits(digits_val(s) as nat),
    decreases s.len(),
{
    lemma_digits_val_bounds(s);
    let n = digits_val(s) as nat;
    if s.len() == 1 {
        lemma_digit_val_char(s[0]);
        assert(s.drop_last() =~= Seq::<char>::empty());
        assert(digits_val(Seq::<char>::empty()) == 0);
        assert(digits_val(s) == digits_val(s.drop_last()) * 10 + digit_val(s.last()));
        assert(s.last() == s[0]);
        assert(digits_val(s) == digit_val(s[0]));
        assert(n < 10);
        assert(s =~= seq![digit_char(n as int)]);
    } else {
        let s0 = s.drop_last();
        assert(all_dec_digits(s0));
        lemma_digits_val_bounds(s0);
        lemma_digit_val_char(s.last());
        lemma_fundamental_div_mod_converse(
            digits_val(s),
            10,
            digits_val(s0),
            digit_val(s.last()),
        );
        // the leading digit is at least 1, so the prefix value is at least 1
        assert(s0[0] == s[0]);
        lemma_leading_digit_lower_bound(s0);
        assert(digits_val(s0) >= 1);
        assert(n >= 10) by {
            assert(digits_val(s) == digits_val(s0) * 10 + digit_val(s.last()));
            lemma_mul_inequality(1, digits_val(s0), 10);
        }
        lemma_canonical_digits(s0);
        assert(n / 10 == digits_val(s0));
        assert((n % 10) as int == digit_val(s.last()));
        assert(s =~= s0.push(s.last()));
    }
}

/// A digit string whose first digit is not `'0'` has value at least
/// `10^(len-1)`.
pub proof fn lemma_leading_digit_lower_bound(s: Seq<char>)
    requires
        all_dec_digits(s),
        s.len() >= 1,
        s[0] != '0',
    ensures
        digits_val(s) >= ten_pow((s.len() - 1) as nat),
    decreases s.len(),
{
    lemma_digit_val_char(s[0]);
    if s.len() == 1 {
        assert(s.drop_last() =~= Seq::<char>::empty());
        assert(digits_val(Seq::<char>::empty()) == 0);
        assert(digits_val(s) == digits_val(s.drop_last()) * 10 + digit_val(s.last()));
        assert(s.last() == s[0]);
        assert(digit_val(s[0]) >= 1);
    } else {
        let s0 = s.drop_last();
        assert(s0[0] == s[0]);
        lemma_leading_digit_lower_bound(s0);
        lemma_digit_val_char(s.last());
        let t = ten_pow((s0.len() - 1) as nat) as int;
        assert(digits_val(s0) * 10 >= t * 10) by {
            lemma_mul_inequality(t, digits_val(s0), 10);
        }
        assert(ten_pow((s.len() - 1) as nat) == 10 * ten_pow((s.len() - 2) as nat));
    }
}

/// Splitting a digit string at `len - d` splits its value by `10^d`.
pub proof fn lemma_digits_split(s: Seq<char>, d: nat)
    requires
        all_dec_digits(s),
        d <= s.len(),
    ensures
        digits_val(s.subrange(0, s.len() - d)) == digits_val(s) / (ten_pow(d) as int),
        digits_val(s.subrange(s.len() - d, s.len() as int)) == digits_val(s) % (ten_pow(d) as int),
{
    let hi = s.subrange(0, s.len() - d);
    let lo = s.subrange(s.len() - d, s.len() as int);
    assert(s =~= hi + lo);
    lemma_digits_val_concat(hi, lo);
    assert(all_dec_digits(lo));
    lemma_digits_val_bounds(lo);
    lemma_ten_pow_pos(d);
    lemma_fundamental_div_mod_converse(
        digits_val(s),
        ten_pow(d) as int,
        digits_val(hi),
        digits_val(lo),
    );
}

/// Digit strings with trailing `'0'` characters removed.
pub open spec fn trim_zeros(s: Seq<char>) -> Seq<char>
    decreases s.len(),
{
    if s.len() > 0 && s.last() == '0' {
        trim_zeros(s.drop_last())
    } else {
        s
    }
}

pub proof fn lemma_trim_zeros(s: Seq<char>)
    ensures
        trim_zeros(s).len() <= s.len(),
        trim_zeros(s) == s.subrange(0, trim_zeros(s).len() as int),
        digits_val(s) == digits_val(trim_zeros(s)) * ten_pow((s.len() - trim_zeros(s).len()) as nat),
        trim_zeros(s).len() > 0 ==> trim_zeros(s).last() != '0',
        forall|i: int| trim_zeros(s).len() <= i < s.len() ==> s[i] == '0',
    decreases s.len(),
{
    let t = trim_zeros(s);
    if s.len() > 0 && s.last() == '0' {
        let s0 = s.drop_last();
        lemma_trim_zeros(s0);
        assert(t == trim_zeros(s0));
        assert(s0 =~= s.subrange(0, s.len() - 1));
        assert(t =~= s.subrange(0, t.len() as int));
        assert(digits_val(s) == digits_val(s0) * 10);
        let k = (s0.len() - t.len()) as nat;
        assert(digits_val(s0) == digits_val(t) * ten_pow(k));
        lemma_mul_is_associative(digits_val(t), ten_pow(k) as int, 10);
        assert(ten_pow(k + 1) == 10 * ten_pow(k));
        lemma_mul_is_commutative(ten_pow(k) as int, 10);
        assert(digits_val(t) * ten_pow(k + 1) == digits_val(t) * (ten_pow(k) * 10)) by {
            lemma_mul_is_commutative(10, ten_pow(k) as int);
        }
        assert forall|i: int| t.len() <= i < s.len() implies s[i] == '0' by {
            if i < s.len() - 1 {
                assert(s0[i] == '0');
                assert(s[i] == s0[i]);
            } else {
                assert(s[i] == s.last());
            }
        }
    } else {
        assert(t == s);
        assert(t =~= s.subrange(0, t.len() as int));
        assert(digits_val(t) * ten_pow(0) == digits_val(t) * 1);
    }
}

} // verus!
