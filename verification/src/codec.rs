//! Decimal codec: exact parsing and canonical formatting of scaled amounts.
//!
//! Parsing splits on `.`, scales the integer part by `10^decimals` and the
//! fractional part by the scale that its length leaves open; fractional
//! digits beyond the scale are dropped, never rounded. Formatting comes in
//! three canonicalizations, each of which the surrounding program uses
//! somewhere: one that trims trailing fractional zeros everywhere, one that
//! trims only when the value has an integer part, and one that never trims.
use vstd::prelude::*;
use crate::digits::{
    ten_pow, lemma_ten_pow_pos, all_dec_digits, dec_digits, trim_zeros, lemma_trim_zeros,
    lemma_dec_digits_correct,
};
use crate::errors::ParseError;
use crate::wide::{WideUint, wide_limit, spec_parse_digits, lemma_all_digits_ascii};

verus! {

/// Index of the first occurrence of `c` in `s`, or `s.len()` if none.
pub open spec fn find_char(s: Seq<char>, c: char) -> int
    decreases s.len(),
{
    if s.len() == 0 {
        0
    } else if s[0] == c {
        0
    } else {
        1 + find_char(s.subrange(1, s.len() as int), c)
    }
}

/// True when `c` occurs in `s`.
pub open spec fn has_char(s: Seq<char>, c: char) -> bool {
    exists|j: int| 0 <= j < s.len() && s[j] == c
}

/// `find_char` is characterized by "no earlier occurrence".
pub proof fn lemma_find_char(s: Seq<char>, c: char, d: int)
    requires
        0 <= d <= s.len(),
        forall|j: int| 0 <= j < d ==> s[j] != c,
        d < s.len() ==> s[d] == c,
    ensures
        find_char(s, c) == d,
    decreases s.len(),
{
    if s.len() == 0 {
    } else if s[0] == c {
        assert(d == 0);
    } else {
        let t = s.subrange(1, s.len() as int);
        assert(d >= 1);
        assert(forall|j: int| 0 <= j < d - 1 ==> t[j] == s[j + 1] && s[j + 1] != c);
        assert(d - 1 < t.len() ==> t[d - 1] == s[d]);
        lemma_find_char(t, c, d - 1);
    }
}

/// A sequence of `n` `'0'` characters.
pub open spec fn zeroes(n: nat) -> Seq<char> {
    Seq::new(n, |i: int| '0')
}

/// The exact decimal parse, as the specification of `parse_token_amount`.
///
/// The first separator splits the text; a second separator is malformed.
/// The integer part is parsed and scaled before the fractional part is even
/// validated, and fractional digits beyond `decimals` are dropped before the
/// fractional part is validated, so a malformed dropped tail is not an error.
pub open spec fn spec_parse(s: Seq<char>, decimals: nat) -> Result<int, ParseError> {
    let di = find_char(s, '.');
    if di == s.len() {
        spec_parse_scaled(s, decimals)
    } else {
        let ip = s.subrange(0, di);
        let fp = s.subrange(di + 1, s.len() as int);
        if has_char(fp, '.') {
            Err(ParseError::InvalidFormat)
        } else {
            spec_parse_with_fraction(ip, fp, decimals)
        }
    }
}

/// Digits scaled by `10^decimals`, checked.
pub open spec fn spec_parse_scaled(ds: Seq<char>, decimals: nat) -> Result<int, ParseError> {
    match spec_parse_digits(ds) {
        Err(e) => Err(e),
        Ok(v) => if v * ten_pow(decimals) >= wide_limit() {
            Err(ParseError::Overflow)
        } else {
            Ok(v * ten_pow(decimals))
        },
    }
}

/// Integer and fractional part combined, checked, with truncation.
pub open spec fn spec_parse_with_fraction(ip: Seq<char>, fp: Seq<char>, decimals: nat) -> Result<
    int,
    ParseError,
> {
    match spec_parse_digits(ip) {
        Err(e) => Err(e),
        Ok(iv) => if iv * ten_pow(decimals) >= wide_limit() {
            Err(ParseError::Overflow)
        } else {
            let fpt = if fp.len() > decimals {
                fp.subrange(0, decimals as int)
            } else {
                fp
            };
            match spec_parse_digits(fpt) {
                Err(e) => Err(e),
                Ok(fv) => {
                    let scale = (decimals - fpt.len()) as nat;
                    if fv * ten_pow(scale) >= wide_limit() {
                        Err(ParseError::Overflow)
                    } else if iv * ten_pow(decimals) + fv * ten_pow(scale) >= wide_limit() {
                        Err(ParseError::Overflow)
                    } else {
                        Ok(iv * ten_pow(decimals) + fv * ten_pow(scale))
                    }
                },
            }
        },
    }
}

/// Parse a human-entered decimal string into a raw amount scaled by
/// `10^decimals`. Excess fractional digits are truncated, never rounded.
pub fn parse_token_amount(amount: &str, decimals: u8) -> (r: Result<WideUint, ParseError>)
    ensures
        match r {
            Ok(w) => w.wf() && spec_parse(amount@, decimals as nat) == Ok::<int, ParseError>(
                w.value(),
            ),
            Err(e) => spec_parse(amount@, decimals as nat) == Err::<int, ParseError>(e),
        },
{
    let n = amount.unicode_len();
    let mut first_dot: usize = n;
    let mut second_dot = false;
    let mut i: usize = 0;
    while i < n
        invariant
            0 <= i <= n,
            n == amount@.len(),
            first_dot <= i || first_dot == n,
            first_dot == n ==> forall|j: int| 0 <= j < i ==> amount@[j] != '.',
            first_dot < n ==> first_dot < i && amount@[first_dot as int] == '.' && (forall|j: int|
                0 <= j < first_dot ==> amount@[j] != '.'),
            second_dot <==> (first_dot < n && exists|j: int|
                first_dot < j < i && amount@[j] == '.'),
        decreases n - i,
    {
        let c = amount.get_char(i);
        if c == '.' {
            if first_dot == n {
                first_dot = i;
            } else {
                second_dot = true;
            }
        }
        i += 1;
    }
    if first_dot == n {
        proof {
            lemma_find_char(amount@, '.', n as int);
        }
        scale_digits(amount, decimals)
    } else if second_dot {
        proof {
            lemma_find_char(amount@, '.', first_dot as int);
            let fp = amount@.subrange(first_dot + 1, n as int);
            let j = choose|j: int| first_dot < j < n && amount@[j] == '.';
            assert(fp[j - first_dot - 1] == '.');
            assert(has_char(fp, '.'));
        }
        Err(ParseError::InvalidFormat)
    } else {
        proof {
            lemma_find_char(amount@, '.', first_dot as int);
            let fp = amount@.subrange(first_dot + 1, n as int);
            assert(forall|j: int|
                0 <= j < fp.len() ==> #[trigger] fp[j] == amount@[j + first_dot + 1]
                    && amount@[j + first_dot + 1] != '.');
            assert(!has_char(fp, '.'));
        }
        let ip_str = amount.substring_char(0, first_dot);
        let fp_str = amount.substring_char(first_dot + 1, n);
        let iv = match WideUint::parse_decimal_digits(ip_str) {
            Ok(w) => w,
            Err(e) => {
                return Err(e);
            },
        };
        let scaled_ip = match iv.scale_by_pow10(decimals) {
            Some(w) => w,
            None => {
                return Err(ParseError::Overflow);
            },
        };
        let fp_len = n - first_dot - 1;
        let fpt_str = if fp_len > decimals as usize {
            amount.substring_char(first_dot + 1, first_dot + 1 + decimals as usize)
        } else {
            fp_str
        };
        proof {
            if fp_len > decimals as usize {
                assert(fpt_str@ =~= amount@.subrange(first_dot + 1, n as int).subrange(
                    0,
                    decimals as int,
                ));
            }
        }
        let fv = match WideUint::parse_decimal_digits(fpt_str) {
            Ok(w) => w,
            Err(e) => {
                return Err(e);
            },
        };
        let scale: u8 = decimals - (fpt_str.unicode_len() as u8);
        let scaled_fv = match fv.scale_by_pow10(scale) {
            Some(w) => w,
            None => {
                return Err(ParseError::Overflow);
            },
        };
        match scaled_ip.checked_add(&scaled_fv) {
            Some(w) => {
                proof {
                    w.lemma_value_range();
                }
                Ok(w)
            },
            None => Err(ParseError::Overflow),
        }
    }
}

/// Parse a digit-only string and scale it by `10^decimals`.
fn scale_digits(ds: &str, decimals: u8) -> (r: Result<WideUint, ParseError>)
    ensures
        match r {
            Ok(w) => w.wf() && spec_parse_scaled(ds@, decimals as nat) == Ok::<int, ParseError>(
                w.value(),
            ),
            Err(e) => spec_parse_scaled(ds@, decimals as nat) == Err::<int, ParseError>(e),
        },
{
    let v = match WideUint::parse_decimal_digits(ds) {
        Ok(w) => w,
        Err(e) => {
            return Err(e);
        },
    };
    match v.scale_by_pow10(decimals) {
        Some(w) => Ok(w),
        None => Err(ParseError::Overflow),
    }
}

/// Parse a USD value at the canonical scale of 18 decimals.
pub fn parse_usd_value(usd_value: &str) -> (r: Result<WideUint, ParseError>)
    ensures
        match r {
            Ok(w) => w.wf() && spec_parse(usd_value@, 18) == Ok::<int, ParseError>(w.value()),
            Err(e) => spec_parse(usd_value@, 18) == Err::<int, ParseError>(e),
        },
{
    parse_token_amount(usd_value, 18)
}

/// A raw amount together with the scale it was parsed at. The represented
/// value is `magnitude / 10^decimals`; the scale is fixed by the asset's
/// metadata and never changed implicitly.
#[derive(Clone, Debug, PartialEq, Eq)]
pub struct ScaledAmount {
    pub magnitude: WideUint,
    pub decimals: u8,
}

impl ScaledAmount {
    pub open spec fn wf(&self) -> bool {
        self.magnitude.wf()
    }
}

/// Parse a decimal string at a given scale into a scaled amount.
pub fn parse_decimal(input: &str, decimals: u8) -> (r: Result<ScaledAmount, ParseError>)
    ensures
        match r {
            Ok(a) => a.wf() && a.decimals == decimals && spec_parse(input@, decimals as nat)
                == Ok::<int, ParseError>(a.magnitude.value()),
            Err(e) => spec_parse(input@, decimals as nat) == Err::<int, ParseError>(e),
        },
{
    match parse_token_amount(input, decimals) {
        Ok(w) => Ok(ScaledAmount { magnitude: w, decimals }),
        Err(e) => Err(e),
    }
}

/// Canonical formatted decimal: trailing fractional zeros are trimmed and
/// zero is always `"0"`.
pub open spec fn spec_format(v: nat, d: nat) -> Seq<char> {
    let s = dec_digits(v);
    if d == 0 {
        s
    } else {
        let ip = if s.len() <= d {
            seq!['0']
        } else {
            s.subrange(0, s.len() - d)
        };
        let fr = if s.len() <= d {
            zeroes((d - s.len()) as nat) + s
        } else {
            s.subrange(s.len() - d, s.len() as int)
        };
        let ft = trim_zeros(fr);
        if ft.len() == 0 {
            ip
        } else {
            ip + seq!['.'] + ft
        }
    }
}

/// Formatted decimal that keeps a purely fractional value padded: when the
/// digits all fit after the point, nothing is trimmed.
pub open spec fn spec_format_padded(v: nat, d: nat) -> Seq<char> {
    let s = dec_digits(v);
    if d == 0 {
        s
    } else if s.len() <= d {
        seq!['0', '.'] + zeroes((d - s.len()) as nat) + s
    } else {
        let ip = s.subrange(0, s.len() - d);
        let ft = trim_zeros(s.subrange(s.len() - d, s.len() as int));
        if ft.len() == 0 {
            ip
        } else {
            ip + seq!['.'] + ft
        }
    }
}

/// Formatted decimal with exactly `d` fractional digits, nothing trimmed.
pub open spec fn spec_format_fixed(v: nat, d: nat) -> Seq<char> {
    let s = dec_digits(v);
    if d == 0 {
        s
    } else if s.len() <= d {
        seq!['0', '.'] + zeroes((d - s.len()) as nat) + s
    } else {
        s.subrange(0, s.len() - d) + seq!['.'] + s.subrange(s.len() - d, s.len() as int)
    }
}

/// Signed canonical formatting: a zero magnitude is `"0"` with no sign.
pub open spec fn spec_format_signed(v: nat, d: nat, negative: bool) -> Seq<char> {
    if spec_format(v, d) == seq!['0'] {
        seq!['0']
    } else if negative {
        seq!['-'] + spec_format(v, d)
    } else {
        spec_format(v, d)
    }
}

/// The decimal digit string, with a sign when negative.
pub open spec fn spec_signed_digits(v: nat, negative: bool) -> Seq<char> {
    if negative {
        seq!['-'] + dec_digits(v)
    } else {
        dec_digits(v)
    }
}

/// A suffix of zeros ending at `j`, with a non-zero just before, locates the
/// trim boundary.
proof fn lemma_trim_boundary(s: Seq<char>, j: int)
    requires
        0 <= j <= s.len(),
        forall|k: int| j <= k < s.len() ==> s[k] == '0',
        j > 0 ==> s[j - 1] != '0',
    ensures
        trim_zeros(s) == s.subrange(0, j),
{
    lemma_trim_zeros(s);
    let t = trim_zeros(s).len() as int;
    if t < j {
        assert(s[j - 1] == '0');
        assert(false);
    }
    if t > j {
        assert(trim_zeros(s).last() == s[t - 1]);
        assert(s[t - 1] == '0');
        assert(false);
    }
}

/// Count the digits before the trailing-zero tail of `s[from..to]`.
fn trim_point(s: &str, from: usize, to: usize) -> (j: usize)
    requires
        from <= to <= s@.len(),
    ensures
        from <= j <= to,
        forall|k: int| j <= k < to ==> s@[k] == '0',
        j > from ==> s@[j - 1] != '0',
{
    let mut j = to;
    while j > from
        invariant
            from <= j <= to <= s@.len(),
            forall|k: int| j <= k < to ==> s@[k] == '0',
        decreases j,
    {
        if s.get_char(j - 1) == '0' {
            j -= 1;
        } else {
            return j;
        }
    }
    j
}

/// Append `count` zero characters.
fn push_zeros(s: &mut String, count: usize)
    ensures
        final(s)@ == old(s)@ + zeroes(count as nat),
{
    let mut i: usize = 0;
    while i < count
        invariant
            0 <= i <= count,
            s@ == old(s)@ + zeroes(i as nat),
        decreases count - i,
    {
        s.append("0");
        proof {
            reveal_strlit("0");
            assert(s@ =~= old(s)@ + zeroes((i + 1) as nat));
        }
        i += 1;
    }
    proof {
        assert(s@ =~= old(s)@ + zeroes(count as nat));
    }
}

/// Format a raw amount at `decimals`, trimming trailing fractional zeros;
/// a zero amount is always `"0"`.
#[verifier::rlimit(50)]
pub fn format_decimal(value: &WideUint, decimals: u8) -> (r: String)
    requires
        value.wf(),
    ensures
        r@ == spec_format(value.value() as nat, decimals as nat),
{
    let s = value.to_decimal_string();
    proof {
        lemma_dec_digits_correct(value.value() as nat);
        lemma_all_digits_ascii(s@);
    }
    let n = s.as_str().unicode_len();
    if decimals == 0 {
        return s;
    }
    let d = decimals as usize;
    if n <= d {
        let j = trim_point(s.as_str(), 0, n);
        if j == 0 {
            proof {
                let fr = zeroes((d - n) as nat) + s@;
                assert(forall|k: int| 0 <= k < fr.len() ==> fr[k] == '0');
                lemma_trim_boundary(fr, 0);
                assert(fr.subrange(0, 0) =~= Seq::<char>::empty());
            }
            let mut out = String::new();
            out.append("0");
            proof {
                reveal_strlit("0");
                assert(out@ =~= seq!['0']);
            }
            return out;
        }
        proof {
            let fr = zeroes((d - n) as nat) + s@;
            lemma_trim_boundary(fr, d - n + j);
            assert(fr.subrange(0, d - n + j) =~= zeroes((d - n) as nat) + s@.subrange(
                0,
                j as int,
            ));
        }
        let mut out = String::new();
        out.append("0.");
        proof {
            reveal_strlit("0.");
        }
        push_zeros(&mut out, d - n);
        let frag = s.as_str().substring_ascii(0, j);
        out.append(frag);
        proof {
            assert(out@ =~= spec_format(value.value() as nat, decimals as nat));
        }
        out
    } else {
        format_split_trimmed(&s, n, d)
    }
}

/// Shared split-and-trim path for a value whose digits exceed the scale.
fn format_split_trimmed(s: &String, n: usize, d: usize) -> (r: String)
    requires
        0 < d < n,
        n == s@.len(),
        all_dec_digits(s@),
    ensures
        ({
            let ip = s@.subrange(0, s@.len() - d);
            let ft = trim_zeros(s@.subrange(s@.len() - d, s@.len() as int));
            r@ == if ft.len() == 0 {
                ip
            } else {
                ip + seq!['.'] + ft
            }
        }),
{
    proof {
        lemma_all_digits_ascii(s@);
    }
    let j = trim_point(s.as_str(), n - d, n);
    proof {
        let fr = s@.subrange(n - d, n as int);
        lemma_trim_boundary(fr, j - (n - d));
        assert(fr.subrange(0, j - (n - d)) =~= s@.subrange(n - d, j as int));
    }
    let ip = s.as_str().substring_ascii(0, n - d);
    if j == n - d {
        ip.to_owned()
    } else {
        let mut out = ip.to_owned();
        out.append(".");
        let frag = s.as_str().substring_ascii(n - d, j);
        out.append(frag);
        proof {
            reveal_strlit(".");
            let ipg = s@.subrange(0, s@.len() - d);
            let ft = trim_zeros(s@.subrange(s@.len() - d, s@.len() as int));
            assert(out@ =~= ipg + seq!['.'] + ft);
        }
        out
    }
}

/// Format a token amount at its asset's decimals; a purely fractional value
/// keeps its padded digits.
pub fn format_token_amount(value: &WideUint, decimals: u8) -> (r: String)
    requires
        value.wf(),
    ensures
        r@ == spec_format_padded(value.value() as nat, decimals as nat),
{
    let s = value.to_decimal_string();
    proof {
        lemma_dec_digits_correct(value.value() as nat);
        lemma_all_digits_ascii(s@);
    }
    let n = s.as_str().unicode_len();
    if decimals == 0 {
        return s;
    }
    let d = decimals as usize;
    if n <= d {
        let mut out = String::new();
        out.append("0.");
        proof {
            reveal_strlit("0.");
        }
        push_zeros(&mut out, d - n);
        out.append(s.as_str());
        proof {
            assert(out@ =~= spec_format_padded(value.value() as nat, decimals as nat));
        }
        out
    } else {
        format_split_trimmed(&s, n, d)
    }
}

/// Same algorithm as `format_token_amount`, under the name the amount
/// formatting call sites use.
pub fn format_with_decimals(value: &WideUint, decimals: u8) -> (r: String)
    requires
        value.wf(),
    ensures
        r@ == spec_format_padded(value.value() as nat, decimals as nat),
{
    format_token_amount(value, decimals)
}

/// Format a USD amount at the canonical scale of 18 decimals.
pub fn format_usd_amount(value: &WideUint) -> (r: String)
    requires
        value.wf(),
    ensures
        r@ == spec_format(value.value() as nat, 18),
{
    format_decimal(value, 18)
}

/// Format a signed amount; a zero magnitude is `"0"`, never `"-0"`.
pub fn format_price(magnitude: &WideUint, negative: bool, decimals: u8) -> (r: String)
    requires
        magnitude.wf(),
    ensures
        r@ == spec_format_signed(magnitude.value() as nat, decimals as nat, negative),
{
    let u = format_decimal(magnitude, decimals);
    let zero = zero_string();
    if u == zero {
        proof {
            reveal_strlit("0");
        }
        return u;
    }
    proof {
        reveal_strlit("0");
    }
    if negative {
        let mut out = String::new();
        out.append("-");
        out.append(u.as_str());
        proof {
            reveal_strlit("-");
            assert(out@ =~= seq!['-'] + spec_format(
                magnitude.value() as nat,
                decimals as nat,
            ));
        }
        out
    } else {
        u
    }
}

/// The string `"0"`.
fn zero_string() -> (r: String)
    ensures
        r@ == seq!['0'],
{
    let mut out = String::new();
    out.append("0");
    proof {
        reveal_strlit("0");
        assert(out@ =~= seq!['0']);
    }
    out
}

/// Format with exactly `decimals` fractional digits, nothing trimmed.
pub fn format_fixed(value: &WideUint, decimals: u8) -> (r: String)
    requires
        value.wf(),
    ensures
        r@ == spec_format_fixed(value.value() as nat, decimals as nat),
{
    let s = value.to_decimal_string();
    proof {
        lemma_dec_digits_correct(value.value() as nat);
        lemma_all_digits_ascii(s@);
    }
    let n = s.as_str().unicode_len();
    if decimals == 0 {
        return s;
    }
    let d = decimals as usize;
    if n <= d {
        let mut out = String::new();
        out.append("0.");
        proof {
            reveal_strlit("0.");
        }
        push_zeros(&mut out, d - n);
        out.append(s.as_str());
        proof {
            assert(out@ =~= spec_format_fixed(value.value() as nat, decimals as nat));
        }
        out
    } else {
        let mut out = s.as_str().substring_ascii(0, n - d).to_owned();
        out.append(".");
        out.append(s.as_str().substring_ascii(n - d, n));
        proof {
            reveal_strlit(".");
            assert(out@ =~= spec_format_fixed(value.value() as nat, decimals as nat));
        }
        out
    }
}

/// The decimal digit string of a signed amount, sign first.
pub fn to_signed_decimal_string(magnitude: &WideUint, negative: bool) -> (r: String)
    requires
        magnitude.wf(),
    ensures
        r@ == spec_signed_digits(magnitude.value() as nat, negative),
{
    let digits = magnitude.to_decimal_string();
    if negative {
        let mut out = String::new();
        out.append("-");
        out.append(digits.as_str());
        proof {
            reveal_strlit("-");
            assert(out@ =~= seq!['-'] + dec_digits(magnitude.value() as nat));
        }
        out
    } else {
        digits
    }
}

/// Mirror of the fixed-unit formatting an amount-and-unit pair prints:
/// the integer quotient, a point, then the remainder's digits left-padded
/// to exactly `d` places (for `d == 0`, a single `"0"` after the point).
pub open spec fn spec_format_units(v: nat, d: nat) -> Seq<char> {
    if d == 0 {
        dec_digits(v) + seq!['.', '0']
    } else {
        spec_format_fixed(v, d)
    }
}

/// Format a signed price the way the registry's unit formatter does, and
/// give its raw signed digit string alongside. Past 77 decimals no unit
/// exists and the magnitude's plain digits are used.
pub fn format_token_price(magnitude: &WideUint, negative: bool, decimals: u8) -> (r: (
    String,
    String,
))
    requires
        magnitude.wf(),
        negative ==> magnitude.value() > 0,
    ensures
        r.1@ == spec_signed_digits(magnitude.value() as nat, negative),
        ({
            let body = if decimals <= 77 {
                spec_format_units(magnitude.value() as nat, decimals as nat)
            } else {
                dec_digits(magnitude.value() as nat)
            };
            r.0@ == if negative {
                seq!['-'] + body
            } else {
                body
            }
        }),
{
    let raw = to_signed_decimal_string(magnitude, negative);
    let body = if decimals > 77 {
        magnitude.to_decimal_string()
    } else if decimals == 0 {
        let mut out = magnitude.to_decimal_string();
        out.append(".0");
        proof {
            reveal_strlit(".0");
            assert(out@ =~= dec_digits(magnitude.value() as nat) + seq!['.', '0']);
        }
        out
    } else {
        format_fixed(magnitude, decimals)
    };
    let formatted = if negative {
        let mut out = String::new();
        out.append("-");
        out.append(body.as_str());
        proof {
            reveal_strlit("-");
            assert(out@ =~= seq!['-'] + body@);
        }
        out
    } else {
        body
    };
    (formatted, raw)
}

/// Format a raw signed price with exactly `decimals` fractional digits.
/// The most negative `i128` is excluded: its magnitude has no `i128` form.
pub fn format_price_raw(raw_price: i128, decimals: u8) -> (r: String)
    requires
        raw_price > i128::MIN,
    ensures
        raw_price >= 0 ==> r@ == spec_format_fixed(raw_price as nat, decimals as nat),
        raw_price < 0 ==> r@ == seq!['-'] + spec_format_fixed((-raw_price) as nat, decimals as nat),
{
    let negative = raw_price < 0;
    let mag: u128 = if negative {
        (-raw_price) as u128
    } else {
        raw_price as u128
    };
    let w = WideUint::from_u128(mag);
    let f = format_fixed(&w, decimals);
    if negative {
        let mut out = String::new();
        out.append("-");
        out.append(f.as_str());
        proof {
            reveal_strlit("-");
            assert(out@ =~= seq!['-'] + spec_format_fixed(mag as nat, decimals as nat));
        }
        out
    } else {
        f
    }
}

} // verus!
