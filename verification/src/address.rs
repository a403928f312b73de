//! Address text validation and normalization.
//!
//! An address is `0x` followed by 40 hexadecimal digits, 42 characters in
//! all. Letter casing may carry a checksum: an all-lowercase or all-uppercase
//! hex part is always acceptable, while mixed case must match the checksum,
//! which an external capability decides. The canonical form this module
//! returns is always the all-lowercase text.
use vstd::prelude::*;
use crate::errors::AddressError;
use crate::wide::WideUint;

verus! {

/// ASCII whitespace that surrounding transports may add around an address.
pub open spec fn is_space(c: char) -> bool {
    c == ' ' || c == '\t' || c == '\n' || c == '\r'
}

pub open spec fn trim_front(s: Seq<char>) -> Seq<char>
    decreases s.len(),
{
    if s.len() > 0 && is_space(s[0]) {
        trim_front(s.subrange(1, s.len() as int))
    } else {
        s
    }
}

pub open spec fn trim_back(s: Seq<char>) -> Seq<char>
    decreases s.len(),
{
    if s.len() > 0 && is_space(s.last()) {
        trim_back(s.drop_last())
    } else {
        s
    }
}

/// The input with leading and trailing ASCII whitespace removed.
pub open spec fn spec_trim(s: Seq<char>) -> Seq<char> {
    trim_back(trim_front(s))
}

proof fn lemma_trim_front_boundary(s: Seq<char>, a: int)
    requires
        0 <= a <= s.len(),
        forall|k: int| 0 <= k < a ==> is_space(s[k]),
        a < s.len() ==> !is_space(s[a]),
    ensures
        trim_front(s) == s.subrange(a, s.len() as int),
    decreases a,
{
    if a == 0 {
        assert(s.subrange(0, s.len() as int) =~= s);
        if s.len() > 0 && is_space(s[0]) {
            assert(false);
        }
    } else {
        let t = s.subrange(1, s.len() as int);
        assert(is_space(s[0]));
        assert(forall|k: int| 0 <= k < a - 1 ==> t[k] == s[k + 1] && is_space(s[k + 1]));
        lemma_trim_front_boundary(t, a - 1);
        assert(t.subrange(a - 1, t.len() as int) =~= s.subrange(a, s.len() as int));
    }
}

proof fn lemma_trim_back_boundary(s: Seq<char>, b: int)
    requires
        0 <= b <= s.len(),
        forall|k: int| b <= k < s.len() ==> is_space(s[k]),
        b > 0 ==> !is_space(s[b - 1]),
    ensures
        trim_back(s) == s.subrange(0, b),
    decreases s.len(),
{
    if s.len() > 0 && is_space(s.last()) {
        assert(b < s.len());
        let t = s.drop_last();
        assert(t =~= s.subrange(0, s.len() - 1));
        lemma_trim_back_boundary(t, b);
        assert(t.subrange(0, b) =~= s.subrange(0, b));
    } else {
        assert(b == s.len());
        assert(s.subrange(0, b) =~= s);
    }
}

pub open spec fn is_hex_digit(c: char) -> bool {
    ('0' <= c && c <= '9') || ('a' <= c && c <= 'f') || ('A' <= c && c <= 'F')
}

pub open spec fn is_upper_hex_letter(c: char) -> bool {
    'A' <= c && c <= 'F'
}

pub open spec fn is_lower_hex_letter(c: char) -> bool {
    'a' <= c && c <= 'f'
}

/// Lowercase image of one hexadecimal digit.
pub open spec fn lower_hex_char(c: char) -> char {
    if c == 'A' {
        'a'
    } else if c == 'B' {
        'b'
    } else if c == 'C' {
        'c'
    } else if c == 'D' {
        'd'
    } else if c == 'E' {
        'e'
    } else if c == 'F' {
        'f'
    } else {
        c
    }
}

/// Lowercase image of hexadecimal text, prefix kept as it is.
pub open spec fn lower_hex_from(s: Seq<char>, from: int) -> Seq<char> {
    Seq::new(s.len(), |i: int| if i >= from { lower_hex_char(s[i]) } else { s[i] })
}

/// Valid address text: `0x`, then 40 hexadecimal digits.
pub open spec fn spec_valid_address_text(s: Seq<char>) -> bool {
    &&& s.len() == 42
    &&& s[0] == '0'
    &&& s[1] == 'x'
    &&& forall|i: int| 2 <= i < 42 ==> is_hex_digit(#[trigger] s[i])
}

/// What the external checksum capability accepts; the outcome depends on
/// the characters of the text alone.
pub uninterp spec fn checksum_accepted(s: Seq<char>) -> bool;

/// Relies on `alloy_primitives::Address::parse_checksummed` with no chain
/// id: it accepts exactly the `0x`-prefixed hex strings whose letter casing
/// equals the checksummed rendering of the decoded bytes, a function of the
/// input characters alone.
#[verifier::external_body]
fn checksum_check(s: &str) -> (r: bool)
    ensures
        r == checksum_accepted(s@),
{
    alloy_primitives::Address::parse_checksummed(s, None).is_ok()
}

/// Case acceptance: a single-case hex part is always fine; mixed case must
/// carry a valid checksum.
pub open spec fn spec_case_acceptable(s: Seq<char>) -> bool {
    ||| !(exists|i: int| 2 <= i < s.len() && is_upper_hex_letter(#[trigger] s[i]))
    ||| !(exists|i: int| 2 <= i < s.len() && is_lower_hex_letter(#[trigger] s[i]))
    ||| checksum_accepted(s)
}

/// Validated address: canonical all-lowercase text.
#[derive(Clone, Debug, PartialEq, Eq)]
pub struct EthAddress {
    pub text: String,
}

impl EthAddress {
    pub open spec fn wf(&self) -> bool {
        &&& spec_valid_address_text(self.text@)
        &&& forall|i: int| 2 <= i < 42 ==> !is_upper_hex_letter(#[trigger] self.text@[i])
    }
}

/// The classification every validator here applies to address text.
pub open spec fn spec_classify(t: Seq<char>) -> Result<Seq<char>, AddressError> {
    if t.len() == 0 {
        Err(AddressError::Empty)
    } else if !(t.len() >= 2 && t[0] == '0' && t[1] == 'x') {
        Err(AddressError::MissingPrefix)
    } else if t.len() != 42 {
        Err(AddressError::BadLength { len: t.len() as usize })
    } else if exists|i: int| 2 <= i < 42 && !is_hex_digit(#[trigger] t[i]) {
        Err(AddressError::InvalidHex)
    } else {
        Ok(lower_hex_from(t, 2))
    }
}

/// Scan the hex part: format validity, case content, lowercase image.
fn scan_address(s: &str, lower: &mut String) -> (r: (bool, bool, bool))
    requires
        s@.len() == 42,
        old(lower)@.len() == 0,
    ensures
        r.0 == (forall|i: int| 2 <= i < 42 ==> is_hex_digit(#[trigger] s@[i])),
        r.1 == (exists|i: int| 2 <= i < 42 && is_upper_hex_letter(#[trigger] s@[i])),
        r.2 == (exists|i: int| 2 <= i < 42 && is_lower_hex_letter(#[trigger] s@[i])),
        r.0 ==> final(lower)@ == lower_hex_from(s@, 2).subrange(2, 42),
{
    let mut all_hex = true;
    let mut has_upper = false;
    let mut has_lower = false;
    let mut i: usize = 2;
    while i < 42
        invariant
            2 <= i <= 42,
            s@.len() == 42,
            all_hex == (forall|j: int| 2 <= j < i ==> is_hex_digit(#[trigger] s@[j])),
            has_upper == (exists|j: int| 2 <= j < i && is_upper_hex_letter(#[trigger] s@[j])),
            has_lower == (exists|j: int| 2 <= j < i && is_lower_hex_letter(#[trigger] s@[j])),
            all_hex ==> lower@ == lower_hex_from(s@, 2).subrange(2, i as int),
        decreases 42 - i,
    {
        let c = s.get_char(i);
        let u = c as u32;
        if (u >= 48 && u <= 57) || (u >= 97 && u <= 102) || (u >= 65 && u <= 70) {
            if u >= 65 && u <= 70 {
                has_upper = true;
            } else if u >= 97 && u <= 102 {
                has_lower = true;
            }
            if all_hex {
                append_lower_hex(lower, c);
                proof {
                    assert(lower@ =~= lower_hex_from(s@, 2).subrange(2, i + 1));
                }
            }
        } else {
            all_hex = false;
        }
        i += 1;
    }
    (all_hex, has_upper, has_lower)
}

/// Append the lowercase image of one hexadecimal digit.
fn append_lower_hex(s: &mut String, c: char)
    requires
        is_hex_digit(c),
    ensures
        final(s)@ == old(s)@.push(lower_hex_char(c)),
{
    if c == '0' {
        s.append("0");
    } else if c == '1' {
        s.append("1");
    } else if c == '2' {
        s.append("2");
    } else if c == '3' {
        s.append("3");
    } else if c == '4' {
        s.append("4");
    } else if c == '5' {
        s.append("5");
    } else if c == '6' {
        s.append("6");
    } else if c == '7' {
        s.append("7");
    } else if c == '8' {
        s.append("8");
    } else if c == '9' {
        s.append("9");
    } else if c == 'a' {
        s.append("a");
    } else if c == 'b' {
        s.append("b");
    } else if c == 'c' {
        s.append("c");
    } else if c == 'd' {
        s.append("d");
    } else if c == 'e' {
        s.append("e");
    } else if c == 'f' {
        s.append("f");
    } else if c == 'A' {
        s.append("a");
    } else if c == 'B' {
        s.append("b");
    } else if c == 'C' {
        s.append("c");
    } else if c == 'D' {
        s.append("d");
    } else if c == 'E' {
        s.append("e");
    } else {
        s.append("f");
    }
    proof {
        reveal_strlit("0");
        reveal_strlit("1");
        reveal_strlit("2");
        reveal_strlit("3");
        reveal_strlit("4");
        reveal_strlit("5");
        reveal_strlit("6");
        reveal_strlit("7");
        reveal_strlit("8");
        reveal_strlit("9");
        reveal_strlit("a");
        reveal_strlit("b");
        reveal_strlit("c");
        reveal_strlit("d");
        reveal_strlit("e");
        reveal_strlit("f");
        reveal_strlit("f");
        assert(s@ =~= old(s)@.push(lower_hex_char(c)));
    }
}

/// Validate address text, tolerating surrounding whitespace, and return the
/// canonical all-lowercase address. A mixed-case text whose checksum fails
/// is normalized to lowercase rather than rejected.
pub fn validate_and_normalize_address(address_str: &str) -> (r: Result<EthAddress, AddressError>)
    ensures
        match r {
            Ok(a) => a.wf() && spec_classify(spec_trim(address_str@)) == Ok::<
                Seq<char>,
                AddressError,
            >(a.text@),
            Err(e) => spec_classify(spec_trim(address_str@)) == Err::<Seq<char>, AddressError>(e),
        },
{
    let n = address_str.unicode_len();
    let mut a: usize = 0;
    while a < n && char_is_space(address_str, a)
        invariant
            0 <= a <= n,
            n == address_str@.len(),
            forall|k: int| 0 <= k < a ==> is_space(#[trigger] address_str@[k]),
        decreases n - a,
    {
        a += 1;
    }
    let mut b: usize = n;
    while b > a && char_is_space(address_str, b - 1)
        invariant
            a <= b <= n,
            n == address_str@.len(),
            forall|k: int| b <= k < n ==> is_space(#[trigger] address_str@[k]),
        decreases b,
    {
        b -= 1;
    }
    proof {
        lemma_trim_front_boundary(address_str@, a as int);
        let f = address_str@.subrange(a as int, n as int);
        if b == a {
            lemma_trim_back_boundary(f, 0);
        } else {
            lemma_trim_back_boundary(f, b - a);
        }
        assert(f.subrange(0, b - a) =~= address_str@.subrange(a as int, b as int));
    }
    let trimmed = address_str.substring_char(a, b);
    validate_trimmed(trimmed)
}

/// True when the character at `i` is ASCII whitespace.
fn char_is_space(s: &str, i: usize) -> (r: bool)
    requires
        i < s@.len(),
    ensures
        r == is_space(s@[i as int]),
{
    let c = s.get_char(i);
    c == ' ' || c == '\t' || c == '\n' || c == '\r'
}

/// Classify already-trimmed address text and normalize to lowercase.
fn validate_trimmed(t: &str) -> (r: Result<EthAddress, AddressError>)
    ensures
        match r {
            Ok(a) => a.wf() && spec_classify(t@) == Ok::<Seq<char>, AddressError>(a.text@),
            Err(e) => spec_classify(t@) == Err::<Seq<char>, AddressError>(e),
        },
{
    let n = t.unicode_len();
    if n == 0 {
        return Err(AddressError::Empty);
    }
    if !(t.get_char(0) == '0' && n >= 2 && t.get_char(1) == 'x') {
        return Err(AddressError::MissingPrefix);
    }
    if n != 42 {
        return Err(AddressError::BadLength { len: n });
    }
    let mut lower_tail = String::new();
    let (all_hex, _has_upper, _has_lower) = scan_address(t, &mut lower_tail);
    if !all_hex {
        return Err(AddressError::InvalidHex);
    }
    let mut text = String::new();
    text.append("0x");
    text.append(lower_tail.as_str());
    proof {
        reveal_strlit("0x");
        assert(text@ =~= lower_hex_from(t@, 2));
        assert(forall|i: int|
            2 <= i < 42 ==> !is_upper_hex_letter(#[trigger] lower_hex_from(t@, 2)[i]));
    }
    Ok(EthAddress { text })
}

/// Strict validation: mixed-case text must match the checksum; on a
/// mismatch the all-lowercase form is reported as a suggestion, not
/// applied. No whitespace is tolerated here.
pub fn validate_eth_address(address: &str) -> (r: Result<EthAddress, AddressError>)
    ensures
        match r {
            Ok(a) => a.wf() && spec_case_acceptable(address@) && spec_classify(address@) == Ok::<
                Seq<char>,
                AddressError,
            >(a.text@),
            Err(e) => match e {
                AddressError::ChecksumMismatch { suggestion } => !spec_case_acceptable(address@)
                    && spec_classify(address@) == Ok::<Seq<char>, AddressError>(suggestion@),
                _ => spec_classify(address@) == Err::<Seq<char>, AddressError>(e),
            },
        },
{
    let n = address.unicode_len();
    if n == 0 {
        return Err(AddressError::Empty);
    }
    if !(address.get_char(0) == '0' && n >= 2 && address.get_char(1) == 'x') {
        return Err(AddressError::MissingPrefix);
    }
    if n != 42 {
        return Err(AddressError::BadLength { len: n });
    }
    let mut lower_tail = String::new();
    let (all_hex, has_upper, has_lower) = scan_address(address, &mut lower_tail);
    if !all_hex {
        return Err(AddressError::InvalidHex);
    }
    let mut text = String::new();
    text.append("0x");
    text.append(lower_tail.as_str());
    proof {
        reveal_strlit("0x");
        assert(text@ =~= lower_hex_from(address@, 2));
        assert(forall|i: int|
            2 <= i < 42 ==> !is_upper_hex_letter(#[trigger] lower_hex_from(address@, 2)[i]));
    }
    if !has_upper || !has_lower {
        return Ok(EthAddress { text });
    }
    if checksum_check(address) {
        Ok(EthAddress { text })
    } else {
        Err(AddressError::ChecksumMismatch { suggestion: text })
    }
}

/// Validate and return the canonical lowercase address text, with the
/// errors rendered as the caller-facing message strings.
pub fn get_correct_address(address_str: &str) -> (r: Result<String, String>)
    ensures
        match r {
            Ok(text) => spec_classify(spec_trim(address_str@)) == Ok::<Seq<char>, AddressError>(
                text@,
            ),
            Err(m) => {
                &&& spec_classify(spec_trim(address_str@)) is Err
                &&& m@ == spec_address_error_message(
                    spec_classify(spec_trim(address_str@))->Err_0,
                )
            },
        },
{
    match validate_and_normalize_address(address_str) {
        Ok(a) => Ok(a.text),
        Err(e) => Err(address_error_message(&e)),
    }
}

/// The message text of each address error.
pub open spec fn spec_address_error_message(e: AddressError) -> Seq<char> {
    match e {
        AddressError::Empty => "Address cannot be empty"@,
        AddressError::MissingPrefix => "Address must start with '0x'"@,
        AddressError::BadLength { len } => "Address must be 42 characters long, got "@
            + crate::digits::dec_digits(len as nat),
        AddressError::InvalidHex => "Address contains invalid hex characters"@,
        AddressError::ChecksumMismatch { suggestion } => "Invalid checksum. Use: "@ + suggestion@,
    }
}

/// Render one address error as its message string.
pub fn address_error_message(e: &AddressError) -> (r: String)
    ensures
        r@ == spec_address_error_message(*e),
{
    match e {
        AddressError::Empty => {
            let mut out = String::new();
            out.append("Address cannot be empty");
            proof {
                assert(out@ =~= "Address cannot be empty"@);
            }
            out
        },
        AddressError::MissingPrefix => {
            let mut out = String::new();
            out.append("Address must start with '0x'");
            proof {
                assert(out@ =~= "Address must start with '0x'"@);
            }
            out
        },
        AddressError::BadLength { len } => {
            let mut out = String::new();
            out.append("Address must be 42 characters long, got ");
            let w = WideUint::from_u64(*len as u64);
            let digits = w.to_decimal_string();
            out.append(digits.as_str());
            proof {
                assert(out@ =~= "Address must be 42 characters long, got "@
                    + crate::digits::dec_digits(*len as nat));
            }
            out
        },
        AddressError::InvalidHex => {
            let mut out = String::new();
            out.append("Address contains invalid hex characters");
            proof {
                assert(out@ =~= "Address contains invalid hex characters"@);
            }
            out
        },
        AddressError::ChecksumMismatch { suggestion } => {
            let mut out = String::new();
            out.append("Invalid checksum. Use: ");
            out.append(suggestion.as_str());
            proof {
                assert(out@ =~= "Invalid checksum. Use: "@ + suggestion@);
            }
            out
        },
    }
}

} // verus!
