//! ASCII string building blocks: classification of ASCII characters,
//! decimal rendering of integers, and the one bridge from verified
//! ASCII byte buffers to `String`.

use vstd::prelude::*;

verus! {

/// Underscore, the separator byte of sanitized identifiers.
pub const SEP: u8 = 95;

pub open spec fn is_digit_byte(b: u8) -> bool {
    48 <= b <= 57
}

pub open spec fn is_lower_byte(b: u8) -> bool {
    97 <= b <= 122
}

pub open spec fn is_upper_byte(b: u8) -> bool {
    65 <= b <= 90
}

pub open spec fn is_alnum_byte(b: u8) -> bool {
    is_digit_byte(b) || is_lower_byte(b) || is_upper_byte(b)
}

/// An ASCII-alphanumeric character.
pub open spec fn is_alnum_char(c: char) -> bool {
    is_alnum_byte(c as u8) && (c as u32) < 128
}

/// Whether `c` is ASCII alphanumeric.
pub fn alnum_char(c: char) -> (r: bool)
    ensures
        r == is_alnum_char(c),
{
    let u = c as u32;
    (48 <= u && u <= 57) || (65 <= u && u <= 90) || (97 <= u && u <= 122)
}

/// The characters spelled by a buffer of ASCII bytes.
pub open spec fn chars_of_bytes(s: Seq<u8>) -> Seq<char> {
    s.map_values(|b: u8| b as char)
}

/// Relies on `String::from_utf8`: a buffer of bytes below 128 is valid
/// UTF-8 and decodes to exactly those bytes read as characters.
#[verifier::external_body]
pub fn ascii_to_string(v: Vec<u8>) -> (r: String)
    requires
        forall|i: int| 0 <= i < v@.len() ==> v@[i] < 128,
    ensures
        r@ == chars_of_bytes(v@),
{
    match String::from_utf8(v) {
        Ok(s) => s,
        Err(_) => String::new(),
    }
}

/// `parts` joined with `sep`.
pub open spec fn spec_join(parts: Seq<Seq<char>>, sep: Seq<char>) -> Seq<char>
    decreases parts.len(),
{
    if parts.len() == 0 {
        Seq::empty()
    } else if parts.len() == 1 {
        parts[0]
    } else {
        spec_join(parts.drop_last(), sep) + sep + parts.last()
    }
}

/// Index of the last occurrence of `c` in `s`, or `-1` when none.
pub open spec fn spec_last_index_of(s: Seq<char>, c: char) -> int
    decreases s.len(),
{
    if s.len() == 0 {
        -1
    } else if s[s.len() - 1] == c {
        s.len() - 1
    } else {
        spec_last_index_of(s.drop_last(), c)
    }
}

pub proof fn lemma_last_index_character(s: Seq<char>, c: char)
    ensures
        -1 <= spec_last_index_of(s, c) < s.len(),
        spec_last_index_of(s, c) >= 0 ==> s[spec_last_index_of(s, c)] == c,
        forall|j: int| spec_last_index_of(s, c) < j < s.len() ==> s[j] != c,
    decreases s.len(),
{
    if s.len() > 0 && s[s.len() - 1] != c {
        lemma_last_index_character(s.drop_last(), c);
        assert(forall|j: int|
            spec_last_index_of(s, c) < j < s.len() - 1 ==> s.drop_last()[j] == #[trigger] s[j]);
    }
}

pub proof fn lemma_last_index_unique(s: Seq<char>, c: char, k: int)
    requires
        0 <= k < s.len(),
        s[k] == c,
        forall|j: int| k < j < s.len() ==> s[j] != c,
    ensures
        spec_last_index_of(s, c) == k,
    decreases s.len(),
{
    if k < s.len() - 1 {
        lemma_last_index_unique(s.drop_last(), c, k);
        assert(forall|j: int| k < j < s.len() - 1 ==> s.drop_last()[j] == #[trigger] s[j]);
    }
}

/// Index of the last occurrence of `c` in `s`, scanning from the end.
pub fn last_index_of(s: &str, c: char) -> (r: Option<usize>)
    ensures
        match r {
            Some(k) => k == spec_last_index_of(s@, c) && k < s@.len(),
            None => spec_last_index_of(s@, c) == -1,
        },
{
    let n = s.unicode_len();
    let mut i = n;
    while i > 0
        invariant
            n == s@.len(),
            0 <= i <= n,
            forall|j: int| i <= j < n ==> s@[j] != c,
        decreases i,
    {
        if s.get_char(i - 1) == c {
            proof {
                lemma_last_index_unique(s@, c, i - 1);
            }
            return Some(i - 1);
        }
        i = i - 1;
    }
    proof {
        lemma_last_index_character(s@, c);
        if spec_last_index_of(s@, c) >= 0 {
            assert(s@[spec_last_index_of(s@, c)] == c);
        }
    }
    None
}

/// Whether `s` ends with `suffix`.
pub fn str_ends_with(s: &str, suffix: &str) -> (r: bool)
    ensures
        r == (s@.len() >= suffix@.len() && s@.skip(s@.len() - suffix@.len()) == suffix@),
{
    let n = s.unicode_len();
    let ns = suffix.unicode_len();
    if n < ns {
        return false;
    }
    let start = n - ns;
    let mut i: usize = 0;
    while i < ns
        invariant
            n == s@.len(),
            ns == suffix@.len(),
            ns <= n,
            start == n - ns,
            0 <= i <= ns,
            forall|j: int| 0 <= j < i ==> s@[start + j] == suffix@[j],
        decreases ns - i,
    {
        if s.get_char(start + i) != suffix.get_char(i) {
            proof {
                assert(s@.skip(start as int)[i as int] != suffix@[i as int]);
            }
            return false;
        }
        i = i + 1;
    }
    proof {
        assert(s@.skip(start as int) =~= suffix@);
    }
    true
}

/// Whether two strings spell the same characters.
pub fn str_equal(a: &str, b: &str) -> (r: bool)
    ensures
        r == (a@ == b@),
{
    let na = a.unicode_len();
    let nb = b.unicode_len();
    if na != nb {
        return false;
    }
    let mut i: usize = 0;
    while i < na
        invariant
            na == a@.len(),
            na == b@.len(),
            0 <= i <= na,
            forall|j: int| 0 <= j < i ==> a@[j] == b@[j],
        decreases na - i,
    {
        if a.get_char(i) != b.get_char(i) {
            return false;
        }
        i = i + 1;
    }
    proof {
        assert(a@ =~= b@);
    }
    true
}

/// Decimal digits of `n`, most significant first, as ASCII bytes.
pub open spec fn spec_dec_digits(n: nat) -> Seq<u8>
    decreases n,
{
    if n < 10 {
        seq![(48 + n) as u8]
    } else {
        spec_dec_digits(n / 10).push((48 + n % 10) as u8)
    }
}

/// Decimal form of an unsigned integer, as characters.
pub open spec fn spec_udec_str(n: nat) -> Seq<char> {
    chars_of_bytes(spec_dec_digits(n))
}

/// Decimal form of a signed integer, as characters.
pub open spec fn spec_idec_str(n: int) -> Seq<char> {
    if n >= 0 {
        spec_udec_str(n as nat)
    } else {
        seq!['-'].add(spec_udec_str((-n) as nat))
    }
}

pub proof fn lemma_dec_digits_are_digits(n: nat)
    ensures
        forall|i: int| 0 <= i < spec_dec_digits(n).len() ==> is_digit_byte(
            #[trigger] spec_dec_digits(n)[i],
        ),
    decreases n,
{
    if n < 10 {
        assert(spec_dec_digits(n) =~= seq![(48 + n) as u8]);
    } else {
        lemma_dec_digits_are_digits(n / 10);
        assert(spec_dec_digits(n) =~= spec_dec_digits(n / 10).push((48 + n % 10) as u8));
        assert forall|i: int| 0 <= i < spec_dec_digits(n).len() implies is_digit_byte(
            #[trigger] spec_dec_digits(n)[i],
        ) by {
            if i < spec_dec_digits(n / 10).len() {
                assert(spec_dec_digits(n)[i] == spec_dec_digits(n / 10)[i]);
            }
        }
    }
}

/// Decimal digits of `n`, most significant first.
pub fn u128_dec_bytes(n: u128) -> (r: Vec<u8>)
    ensures
        r@ == spec_dec_digits(n as nat),
{
    let mut r: Vec<u8> = Vec::new();
    let mut m = n;
    loop
        invariant_except_break
            spec_dec_digits(n as nat) == spec_dec_digits(m as nat) + r@,
        ensures
            r@ == spec_dec_digits(n as nat),
        decreases m,
    {
        let d: u8 = (m % 10) as u8 + 48;
        let ghost old_r = r@;
        r.insert(0, d);
        assert(r@ =~= seq![d] + old_r);
        if m < 10 {
            assert(spec_dec_digits(m as nat) =~= seq![d]);
            assert(spec_dec_digits(n as nat) =~= r@);
            break;
        }
        assert(spec_dec_digits(m as nat) =~= spec_dec_digits((m as nat) / 10).push(d));
        assert(spec_dec_digits((m as nat) / 10) + r@ =~= spec_dec_digits(m as nat) + old_r);
        m = m / 10;
    }
    r
}

/// Decimal form of `n` (`u128`), e.g. `0` renders as `"0"`.
pub fn u128_to_dec_string(n: u128) -> (r: String)
    ensures
        r@ == spec_udec_str(n as nat),
{
    let bytes = u128_dec_bytes(n);
    proof {
        lemma_dec_digits_are_digits(n as nat);
    }
    ascii_to_string(bytes)
}

/// Decimal form of `n` (`u64`).
pub fn u64_to_dec_string(n: u64) -> (r: String)
    ensures
        r@ == spec_udec_str(n as nat),
{
    u128_to_dec_string(n as u128)
}

/// Decimal form of `n` (`i128`), with a leading minus sign when negative.
pub fn i128_to_dec_string(n: i128) -> (r: String)
    ensures
        r@ == spec_idec_str(n as int),
{
    if n >= 0 {
        u128_to_dec_string(n as u128)
    } else {
        let magnitude: u128 = ((-(n + 1)) as u128) + 1;
        assert(magnitude == -(n as int));
        let digits = u128_to_dec_string(magnitude);
        let mut r = String::new();
        r.append("-");
        proof {
            reveal_strlit("-");
        }
        r.append(digits.as_str());
        assert(r@ =~= spec_idec_str(n as int));
        r
    }
}

/// Decimal form of `n` (`i64`).
pub fn i64_to_dec_string(n: i64) -> (r: String)
    ensures
        r@ == spec_idec_str(n as int),
{
    i128_to_dec_string(n as i128)
}

} // verus!
