//! Laws of the codec, stated and proved once over all inputs.
use vstd::prelude::*;
use vstd::arithmetic::mul::*;
use vstd::arithmetic::div_mod::*;
use crate::digits::{
    ten_pow, lemma_ten_pow_pos, all_dec_digits, is_dec_digit, digits_val, dec_digits, trim_zeros,
    lemma_trim_zeros, lemma_dec_digits_correct, lemma_zeros_val, lemma_digits_val_concat,
    lemma_digits_val_bounds, lemma_digits_split,
};
use crate::errors::ParseError;
use crate::wide::{wide_limit, spec_parse_digits};
use crate::codec::{
    spec_parse, spec_parse_scaled, spec_parse_with_fraction, spec_format, spec_format_signed,
    has_char, zeroes, lemma_find_char,
};

verus! {

/// Zero is canonical: the formatted form of a zero magnitude is `"0"` at
/// every scale, and the signed formatter never emits `"-0"`.
pub proof fn lemma_format_zero(d: nat, negative: bool)
    ensures
        spec_format(0, d) == seq!['0'],
        spec_format_signed(0, d, negative) == seq!['0'],
{
    let s = dec_digits(0);
    lemma_dec_digits_correct(0);
    assert(s =~= seq!['0']);
    if d == 0 {
    } else {
        let fr = zeroes((d - 1) as nat) + s;
        assert(forall|i: int| 0 <= i < fr.len() ==> fr[i] == '0');
        lemma_trim_all_zeros(fr);
        assert(spec_format(0, d) =~= seq!['0']);
    }
}

/// Trimming a string of zeros leaves nothing.
proof fn lemma_trim_all_zeros(s: Seq<char>)
    requires
        forall|i: int| 0 <= i < s.len() ==> s[i] == '0',
    ensures
        trim_zeros(s).len() == 0,
    decreases s.len(),
{
    if s.len() > 0 {
        lemma_trim_all_zeros(s.drop_last());
    }
}

/// Digit characters are never the separator.
proof fn lemma_no_dot(s: Seq<char>)
    requires
        all_dec_digits(s),
    ensures
        forall|j: int| 0 <= j < s.len() ==> s[j] != '.',
        !has_char(s, '.'),
{
    assert forall|j: int| 0 <= j < s.len() implies s[j] != '.' by {
        assert(is_dec_digit(s[j]));
    }
}

/// A non-negative factor does not shrink under a positive power of ten.
proof fn lemma_le_scaled(x: int, e: nat)
    requires
        x >= 0,
    ensures
        x <= x * ten_pow(e),
{
    lemma_ten_pow_pos(e);
    assert(x * 1 <= x * ten_pow(e)) by {
        lemma_mul_inequality(1, ten_pow(e) as int, x);
        lemma_mul_is_commutative(x, 1);
        lemma_mul_is_commutative(x, ten_pow(e) as int);
    }
}

/// Round trip: parsing the formatted form of any representable raw value,
/// at the same scale, gives the value back exactly. The formatted form
/// never carries truncated digits, so nothing is lost.
pub proof fn lemma_parse_format_round_trip(v: nat, d: nat)
    requires
        v < wide_limit(),
    ensures
        spec_parse(spec_format(v, d), d) == Ok::<int, ParseError>(v as int),
{
    let s = dec_digits(v);
    lemma_dec_digits_correct(v);
    lemma_no_dot(s);
    lemma_ten_pow_pos(d);
    if d == 0 {
        lemma_find_char(s, '.', s.len() as int);
        assert(v * ten_pow(0) == v * 1);
        assert(spec_parse_scaled(s, 0) == Ok::<int, ParseError>(v as int));
    } else if s.len() <= d {
        let m = (d - s.len()) as nat;
        let fr = zeroes(m) + s;
        let ft = trim_zeros(fr);
        assert(all_dec_digits(fr)) by {
            assert(forall|i: int| 0 <= i < m ==> fr[i] == '0');
            assert(forall|i: int| m <= i < fr.len() ==> fr[i] == s[i - m]);
        }
        lemma_zeros_val(zeroes(m));
        lemma_digits_val_concat(zeroes(m), s);
        assert(digits_val(fr) == v);
        lemma_trim_zeros(fr);
        let k = (fr.len() - ft.len()) as nat;
        assert(digits_val(ft) * ten_pow(k) == v);
        assert(all_dec_digits(ft)) by {
            assert(ft =~= fr.subrange(0, ft.len() as int));
        }
        if ft.len() == 0 {
            assert(digits_val(ft) == 0);
            assert(v == 0) by {
                assert(0 * ten_pow(k) == 0) by {
                    lemma_mul_basics(ten_pow(k) as int);
                }
            }
            let out = spec_format(v, d);
            assert(out =~= seq!['0']);
            lemma_find_char(out, '.', 1);
            assert(out.drop_last() =~= Seq::<char>::empty());
            assert(digits_val(out) == 0);
            assert(spec_parse_digits(out) == Ok::<int, ParseError>(0));
            assert(0 * ten_pow(d) == 0) by {
                lemma_mul_basics(ten_pow(d) as int);
            }
        } else {
            let out = seq!['0'] + seq!['.'] + ft;
            assert(spec_format(v, d) == out);
            lemma_find_char(out, '.', 1);
            let ip = out.subrange(0, 1);
            let fp = out.subrange(2, out.len() as int);
            assert(ip =~= seq!['0']);
            assert(fp =~= ft);
            lemma_no_dot(ft);
            assert(ip.drop_last() =~= Seq::<char>::empty());
            assert(digits_val(Seq::<char>::empty()) == 0);
            assert(ip.last() == '0');
            assert(digits_val(ip) == digits_val(ip.drop_last()) * 10 + crate::digits::digit_val(
                ip.last(),
            ));
            assert(digits_val(ip) == 0);
            assert(all_dec_digits(ip));
            assert(spec_parse_digits(ip) == Ok::<int, ParseError>(0));
            assert(0 * ten_pow(d) == 0) by {
                lemma_mul_basics(ten_pow(d) as int);
            }
            assert(ft.len() <= d);
            let fv = digits_val(ft);
            lemma_digits_val_bounds(ft);
            lemma_le_scaled(fv, k);
            assert(fv < wide_limit());
            assert(ft.len() >= 1);
            assert(spec_parse_digits(ft) == Ok::<int, ParseError>(fv));
            assert((d - ft.len()) as nat == k);
            assert(fv * ten_pow(k) == v);
            assert(spec_parse_with_fraction(ip, ft, d) == Ok::<int, ParseError>(v as int));
        }
    } else {
        let n = s.len();
        let ip = s.subrange(0, n - d);
        let fr = s.subrange(n - d, n as int);
        let ft = trim_zeros(fr);
        lemma_digits_split(s, d);
        let q = digits_val(ip);
        let r = digits_val(fr);
        assert(q == v as int / ten_pow(d) as int);
        assert(r == v as int % ten_pow(d) as int);
        lemma_fundamental_div_mod(v as int, ten_pow(d) as int);
        assert(v == q * ten_pow(d) + r);
        assert(all_dec_digits(ip));
        assert(all_dec_digits(fr));
        lemma_digits_val_bounds(ip);
        lemma_digits_val_bounds(fr);
        lemma_le_scaled(q, d);
        assert(q * ten_pow(d) <= v) by {
            lemma_mod_bound(v as int, ten_pow(d) as int);
        }
        assert(q < wide_limit());
        lemma_no_dot(ip);
        assert(ip.len() >= 1);
        assert(spec_parse_digits(ip) == Ok::<int, ParseError>(q));
        lemma_trim_zeros(fr);
        let k = (fr.len() - ft.len()) as nat;
        assert(digits_val(ft) * ten_pow(k) == r);
        if ft.len() == 0 {
            assert(r == 0) by {
                assert(digits_val(ft) == 0);
                lemma_mul_basics(ten_pow(k) as int);
            }
            let out = ip;
            assert(spec_format(v, d) == out);
            lemma_find_char(out, '.', out.len() as int);
            assert(spec_parse_scaled(out, d) == Ok::<int, ParseError>(q * ten_pow(d)));
            assert(q * ten_pow(d) == v);
        } else {
            let out = ip + seq!['.'] + ft;
            assert(spec_format(v, d) == out);
            assert(forall|j: int| 0 <= j < ip.len() ==> out[j] == ip[j] && ip[j] != '.');
            assert(out[ip.len() as int] == '.');
            lemma_find_char(out, '.', ip.len() as int);
            let ip2 = out.subrange(0, ip.len() as int);
            let fp2 = out.subrange(ip.len() as int + 1, out.len() as int);
            assert(ip2 =~= ip);
            assert(fp2 =~= ft);
            assert(all_dec_digits(ft)) by {
                assert(ft =~= fr.subrange(0, ft.len() as int));
            }
            lemma_no_dot(ft);
            lemma_digits_val_bounds(ft);
            let fv = digits_val(ft);
            lemma_le_scaled(fv, k);
            assert(fv <= r);
            assert(r <= v) by {
                lemma_mod_bound(v as int, ten_pow(d) as int);
            }
            assert(fv < wide_limit());
            assert(ft.len() >= 1);
            assert(spec_parse_digits(ft) == Ok::<int, ParseError>(fv));
            assert(ft.len() <= d);
            assert((d - ft.len()) as nat == k);
            assert(fv * ten_pow(k) == r);
            assert(q * ten_pow(d) + r == v);
            assert(spec_parse_with_fraction(ip, ft, d) == Ok::<int, ParseError>(v as int));
        }
    }
}

/// The remainder of a division by a positive power is non-negative, so the
/// quotient part never exceeds the whole.
proof fn lemma_mod_bound(x: int, t: int)
    requires
        x >= 0,
        t >= 1,
    ensures
        0 <= x % t,
        x % t <= x,
        x - x % t <= x,
{
    lemma_mod_division_less_than_divisor(x, t);
    if x % t > x {
        lemma_fundamental_div_mod(x, t);
        lemma_div_pos_is_pos(x, t);
        lemma_mul_nonnegative(x / t, t);
    }
}

} // verus!
