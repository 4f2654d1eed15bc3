//! Safe SQL identifier generation.
//!
//! An arbitrary user-supplied name is turned into an unquoted SQL
//! identifier: non-alphanumeric characters become separators,
//! separator runs collapse to one, leading and trailing separators
//! go, a name starting with a digit gets a letter prefix, a random
//! six-character suffix is appended against collisions, and the
//! result is truncated to 63 characters without splitting a
//! separator-delimited segment.

use vstd::prelude::*;

use rand::Rng;

use crate::strutil::SEP;
use crate::strutil::ascii_to_string;
use crate::strutil::chars_of_bytes;
use crate::strutil::is_alnum_byte;
use crate::strutil::is_alnum_char;
use crate::strutil::is_digit_byte;
use crate::strutil::alnum_char;

verus! {

/// Greatest identifier length emitted, a common SQL limit.
pub const MAX_IDENT_LENGTH: usize = 63;

/// Length of the random disambiguating suffix.
pub const SUFFIX_LENGTH: usize = 6;

pub open spec fn all_alnum_or_sep(s: Seq<u8>) -> bool {
    forall|i: int| 0 <= i < s.len() ==> is_alnum_byte(#[trigger] s[i]) || s[i] == SEP
}

pub open spec fn all_alnum(s: Seq<u8>) -> bool {
    forall|i: int| 0 <= i < s.len() ==> is_alnum_byte(#[trigger] s[i])
}

pub open spec fn no_double_sep(s: Seq<u8>) -> bool {
    forall|i: int| 0 <= i < s.len() - 1 ==> !(#[trigger] s[i] == SEP && s[i + 1] == SEP)
}

/// Each character kept if ASCII alphanumeric, else a separator.
pub open spec fn spec_mask(s: Seq<char>) -> Seq<u8> {
    s.map_values(|c: char| if is_alnum_char(c) { c as u8 } else { SEP })
}

/// Leading separators dropped.
pub open spec fn spec_skip_seps(s: Seq<u8>) -> Seq<u8>
    decreases s.len(),
{
    if s.len() == 0 {
        s
    } else if s[0] == SEP {
        spec_skip_seps(s.drop_first())
    } else {
        s
    }
}

/// Separator runs collapsed to one separator between kept bytes,
/// trailing separators dropped; `pending` records whether a
/// separator run is open.
pub open spec fn spec_join_rest(s: Seq<u8>, pending: bool) -> Seq<u8>
    decreases s.len(),
{
    if s.len() == 0 {
        Seq::empty()
    } else if s[0] == SEP {
        spec_join_rest(s.drop_first(), true)
    } else {
        (if pending {
            seq![SEP]
        } else {
            Seq::empty()
        }) + seq![s[0]] + spec_join_rest(s.drop_first(), false)
    }
}

/// The non-empty separator-delimited segments of `s`, joined by
/// single separators: collapse plus trim.
pub open spec fn spec_collapse(s: Seq<u8>) -> Seq<u8> {
    spec_join_rest(spec_skip_seps(s), false)
}

/// A leading digit hidden behind a letter prefix.
pub open spec fn spec_valid_start(s: Seq<u8>) -> Seq<u8> {
    if s.len() > 0 && is_digit_byte(s[0]) {
        seq![110u8] + s
    } else {
        s
    }
}

/// Index of the last separator of `s`, or `-1` when none occurs.
pub open spec fn spec_last_sep_byte(s: Seq<u8>) -> int
    decreases s.len(),
{
    if s.len() == 0 {
        -1
    } else if s[s.len() - 1] == SEP {
        s.len() - 1
    } else {
        spec_last_sep_byte(s.drop_last())
    }
}

/// Truncation to the identifier limit that never cuts a
/// separator-delimited segment: beyond the limit, the identifier is
/// cut back to the last separator that still fits, when one exists
/// past the first byte.
pub open spec fn spec_truncate_ident(s: Seq<u8>) -> Seq<u8> {
    if s.len() <= MAX_IDENT_LENGTH {
        s
    } else {
        let t = s.take(MAX_IDENT_LENGTH as int);
        let k = spec_last_sep_byte(t);
        if k > 0 {
            s.take(k)
        } else {
            t
        }
    }
}

/// A well-formed random suffix: six ASCII alphanumeric bytes.
pub open spec fn suffix_ok(s: Seq<u8>) -> bool {
    s.len() == SUFFIX_LENGTH && all_alnum(s)
}

/// The deterministic part of sanitization, before the suffix.
pub open spec fn spec_sanitize_core(s: Seq<char>) -> Seq<u8> {
    spec_valid_start(spec_collapse(spec_mask(s)))
}

/// The sanitized identifier assembled from the core and a suffix.
pub open spec fn spec_sanitized(s: Seq<char>, suffix: Seq<u8>) -> Seq<u8> {
    spec_truncate_ident(spec_sanitize_core(s) + seq![SEP] + suffix)
}

pub proof fn lemma_last_sep_byte_character(s: Seq<u8>)
    ensures
        -1 <= spec_last_sep_byte(s) < s.len(),
        spec_last_sep_byte(s) >= 0 ==> s[spec_last_sep_byte(s)] == SEP,
        forall|j: int| spec_last_sep_byte(s) < j < s.len() ==> s[j] != SEP,
    decreases s.len(),
{
    if s.len() > 0 && s[s.len() - 1] != SEP {
        lemma_last_sep_byte_character(s.drop_last());
        assert(forall|j: int|
            spec_last_sep_byte(s) < j < s.len() - 1 ==> s.drop_last()[j] == #[trigger] s[j]);
    }
}

pub proof fn lemma_last_sep_byte_unique(s: Seq<u8>, k: int)
    requires
        0 <= k < s.len(),
        s[k] == SEP,
        forall|j: int| k < j < s.len() ==> s[j] != SEP,
    ensures
        spec_last_sep_byte(s) == k,
    decreases s.len(),
{
    if k < s.len() - 1 {
        lemma_last_sep_byte_unique(s.drop_last(), k);
        assert(forall|j: int| k < j < s.len() - 1 ==> s.drop_last()[j] == #[trigger] s[j]);
    }
}

/// What collapse-and-trim emits: only kept bytes and single
/// separators, never at the edges.
pub proof fn lemma_join_rest_props(s: Seq<u8>, pending: bool)
    requires
        all_alnum_or_sep(s),
    ensures
        all_alnum_or_sep(spec_join_rest(s, pending)),
        no_double_sep(spec_join_rest(s, pending)),
        spec_join_rest(s, pending).len() > 0 ==> is_alnum_byte(spec_join_rest(s, pending).last()),
        s.len() > 0 && s[0] != SEP ==> spec_join_rest(s, pending).len() > 0,
        s.len() > 0 && s[0] != SEP && !pending ==> spec_join_rest(s, pending)[0] == s[0],
    decreases s.len(),
{
    if s.len() == 0 {
    } else if s[0] == SEP {
        assert(all_alnum_or_sep(s.drop_first()));
        lemma_join_rest_props(s.drop_first(), true);
    } else {
        assert(all_alnum_or_sep(s.drop_first()));
        lemma_join_rest_props(s.drop_first(), false);
        let rest = spec_join_rest(s.drop_first(), false);
        let head: Seq<u8> = if pending {
            seq![SEP, s[0]]
        } else {
            seq![s[0]]
        };
        assert(spec_join_rest(s, pending) =~= head + rest);
        let r = spec_join_rest(s, pending);
        assert(is_alnum_byte(s[0]));
        if rest.len() > 0 {
            // the tail of `rest` begins with a kept byte
            assert(s.drop_first().len() > 0);
            if s.drop_first()[0] != SEP {
                assert(rest[0] == s.drop_first()[0]);
                assert(is_alnum_byte(rest[0]));
            } else {
                // a separator run inside: `rest` opens with one
                // separator followed by a kept byte
                lemma_join_rest_inner_sep(s.drop_first());
            }
        }
        assert forall|i: int| 0 <= i < r.len() - 1 implies !(#[trigger] r[i] == SEP && r[i + 1]
            == SEP) by {
            if i >= head.len() {
                assert(r[i] == rest[i - head.len()]);
                assert(r[i + 1] == rest[i - head.len() + 1]);
            } else if i == head.len() - 1 {
                assert(r[i] == s[0]);
            }
        }
    }
}

/// When `s` opens with a separator run, what follows the run decides:
/// the result is empty, or opens with one separator and then a kept
/// byte.
proof fn lemma_join_rest_inner_sep(s: Seq<u8>)
    requires
        all_alnum_or_sep(s),
        s.len() > 0,
        s[0] == SEP,
    ensures
        spec_join_rest(s, false).len() > 0 ==> {
            &&& spec_join_rest(s, false)[0] == SEP
            &&& spec_join_rest(s, false).len() > 1
            &&& is_alnum_byte(spec_join_rest(s, false)[1])
        },
    decreases s.len(),
{
    lemma_join_rest_sep_start(s.drop_first());
}

/// `spec_join_rest(s, true)` is empty or `[SEP, kept, ...]`.
proof fn lemma_join_rest_sep_start(s: Seq<u8>)
    requires
        all_alnum_or_sep(s),
    ensures
        spec_join_rest(s, true).len() > 0 ==> {
            &&& spec_join_rest(s, true)[0] == SEP
            &&& spec_join_rest(s, true).len() > 1
            &&& is_alnum_byte(spec_join_rest(s, true)[1])
        },
    decreases s.len(),
{
    if s.len() > 0 {
        if s[0] == SEP {
            assert(all_alnum_or_sep(s.drop_first()));
            lemma_join_rest_sep_start(s.drop_first());
        } else {
            let r = spec_join_rest(s, true);
            assert(r =~= seq![SEP, s[0]] + spec_join_rest(s.drop_first(), false));
            assert(is_alnum_byte(s[0]));
        }
    }
}

pub proof fn lemma_skip_seps_props(s: Seq<u8>)
    ensures
        all_alnum_or_sep(s) ==> all_alnum_or_sep(spec_skip_seps(s)),
        spec_skip_seps(s).len() > 0 ==> spec_skip_seps(s)[0] != SEP,
    decreases s.len(),
{
    if s.len() > 0 && s[0] == SEP {
        assert(all_alnum_or_sep(s) ==> all_alnum_or_sep(s.drop_first()));
        lemma_skip_seps_props(s.drop_first());
    }
}

/// The collapsed core is made of kept bytes and single inner
/// separators, and starts and ends with a kept byte.
pub proof fn lemma_collapse_props(s: Seq<u8>)
    requires
        all_alnum_or_sep(s),
    ensures
        all_alnum_or_sep(spec_collapse(s)),
        no_double_sep(spec_collapse(s)),
        spec_collapse(s).len() > 0 ==> is_alnum_byte(spec_collapse(s)[0]),
        spec_collapse(s).len() > 0 ==> is_alnum_byte(spec_collapse(s).last()),
{
    lemma_skip_seps_props(s);
    let ss = spec_skip_seps(s);
    lemma_join_rest_props(ss, false);
    if spec_collapse(s).len() > 0 {
        assert(ss.len() > 0);
    }
}

/// The masked input is made of kept bytes and separators.
pub proof fn lemma_mask_alnum_or_sep(s: Seq<char>)
    ensures
        all_alnum_or_sep(spec_mask(s)),
{
    assert forall|i: int| 0 <= i < spec_mask(s).len() implies is_alnum_byte(
        #[trigger] spec_mask(s)[i],
    ) || spec_mask(s)[i] == SEP by {
        if is_alnum_char(s[i]) {
            assert(spec_mask(s)[i] == s[i] as u8);
        }
    }
}

/// What truncation leaves of a well-formed identifier: between one
/// and the limit in length, same shape, same first byte, and still
/// ending in a kept byte.
pub proof fn lemma_truncate_props(s: Seq<u8>)
    requires
        all_alnum_or_sep(s),
        no_double_sep(s),
        s.len() > 0,
        is_alnum_byte(s.last()),
        s[0] == SEP ==> s.len() <= MAX_IDENT_LENGTH,
    ensures
        1 <= spec_truncate_ident(s).len() <= MAX_IDENT_LENGTH,
        all_alnum_or_sep(spec_truncate_ident(s)),
        no_double_sep(spec_truncate_ident(s)),
        spec_truncate_ident(s)[0] == s[0],
        is_alnum_byte(spec_truncate_ident(s).last()),
{
    let r = spec_truncate_ident(s);
    if s.len() <= MAX_IDENT_LENGTH {
    } else {
        let t = s.take(MAX_IDENT_LENGTH as int);
        let k = spec_last_sep_byte(t);
        lemma_last_sep_byte_character(t);
        if k > 0 {
            assert(r =~= s.take(k));
            assert(s[k] == SEP);
            assert(r.last() == s[k - 1]);
            assert(!(s[k - 1] == SEP && s[k - 1 + 1] == SEP));
        } else {
            assert(r =~= t);
            // no separator sits inside the cut, and the head is no
            // separator either, so every byte kept is a kept byte
            assert(forall|j: int| 0 < j < t.len() ==> t[j] != SEP);
            assert(s[0] != SEP);
            assert(is_alnum_byte(r.last()));
        }
    }
}

/// A string is a safe unquoted SQL identifier: non-empty, within
/// the length limit, ASCII alphanumerics and underscores only, and
/// not starting with a digit.
pub open spec fn spec_safe_identifier(s: Seq<char>) -> bool {
    &&& 1 <= s.len() <= MAX_IDENT_LENGTH
    &&& forall|i: int| 0 <= i < s.len() ==> is_alnum_char(#[trigger] s[i]) || s[i] == '_'
    &&& !is_digit_byte(s[0] as u8)
}

/// The allow-list check applied before an identifier is ever
/// interpolated into SQL text: accepts exactly the safe unquoted
/// identifiers.
pub fn is_safe_identifier(name: &str) -> (r: bool)
    ensures
        r == spec_safe_identifier(name@),
{
    let n = name.unicode_len();
    if n == 0 || n > MAX_IDENT_LENGTH {
        return false;
    }
    let first = name.get_char(0) as u32;
    if 48 <= first && first <= 57 {
        return false;
    }
    let mut i: usize = 0;
    while i < n
        invariant
            n == name@.len(),
            0 <= i <= n,
            forall|j: int|
                0 <= j < i ==> is_alnum_char(#[trigger] name@[j]) || name@[j] == '_',
        decreases n - i,
    {
        let c = name.get_char(i);
        if !(alnum_char(c) || c == '_') {
            return false;
        }
        i = i + 1;
    }
    true
}

/// Relies on `rand::Rng::gen_range` over `0..n`: a uniformly drawn
/// index strictly below `n`; the range must not be empty.
#[verifier::external_body]
fn rand_below(n: usize) -> (r: usize)
    requires
        n >= 1,
    ensures
        r < n,
{
    rand::thread_rng().gen_range(0..n)
}

/// The byte at `i` of the suffix alphabet: the lower-case letters,
/// then the upper-case letters, then the digits.
fn charset_byte(i: usize) -> (b: u8)
    requires
        i < 62,
    ensures
        is_alnum_byte(b),
{
    if i < 26 {
        97 + (i as u8)
    } else if i < 52 {
        65 + ((i - 26) as u8)
    } else {
        48 + ((i - 52) as u8)
    }
}

/// A random suffix of alphanumeric bytes.
fn random_suffix_bytes(length: usize) -> (r: Vec<u8>)
    ensures
        r@.len() == length,
        all_alnum(r@),
{
    let mut r: Vec<u8> = Vec::new();
    let mut i: usize = 0;
    while i < length
        invariant
            i <= length,
            r@.len() == i,
            all_alnum(r@),
        decreases length - i,
    {
        let idx = rand_below(62);
        r.push(charset_byte(idx));
        i = i + 1;
    }
    r
}

/// Masks, collapses and trims the input in one pass.
fn sanitize_core(s: &str) -> (out: Vec<u8>)
    ensures
        out@ == spec_collapse(spec_mask(s@)),
{
    let ghost m = spec_mask(s@);
    let n = s.unicode_len();
    let mut out: Vec<u8> = Vec::new();
    let mut pending = false;
    let mut i: usize = 0;
    proof {
        assert(m.skip(0) =~= m);
    }
    while i < n
        invariant
            n == s@.len(),
            0 <= i <= n,
            m == spec_mask(s@),
            out@.len() == 0 ==> spec_collapse(m) == spec_join_rest(
                spec_skip_seps(m.skip(i as int)),
                false,
            ),
            out@.len() > 0 ==> spec_collapse(m) == out@ + spec_join_rest(
                m.skip(i as int),
                pending,
            ),
        decreases n - i,
    {
        let ghost rem = m.skip(i as int);
        proof {
            assert(rem[0] == m[i as int]);
            assert(rem.drop_first() =~= m.skip(i + 1));
            assert(m[i as int] == (if is_alnum_char(s@[i as int]) {
                s@[i as int] as u8
            } else {
                SEP
            }));
        }
        let c = s.get_char(i);
        if alnum_char(c) {
            let b = c as u8;
            assert(b == rem[0] && b != SEP);
            if pending && out.len() > 0 {
                let ghost before = out@;
                out.push(SEP);
                out.push(b);
                proof {
                    assert(spec_join_rest(rem, true) == seq![SEP] + seq![b] + spec_join_rest(
                        rem.drop_first(),
                        false,
                    ));
                    assert(out@ =~= before + seq![SEP] + seq![b]);
                    assert(out@ + spec_join_rest(m.skip(i + 1), false) =~= before
                        + spec_join_rest(rem, true));
                }
            } else {
                let ghost before = out@;
                let ghost was_empty = out@.len() == 0;
                out.push(b);
                proof {
                    if was_empty {
                        assert(spec_skip_seps(rem) == rem);
                        assert(spec_join_rest(rem, false) == Seq::<u8>::empty() + seq![b]
                            + spec_join_rest(rem.drop_first(), false));
                        assert(out@ + spec_join_rest(m.skip(i + 1), false) =~= Seq::<
                            u8,
                        >::empty() + seq![b] + spec_join_rest(rem.drop_first(), false));
                    } else {
                        assert(spec_join_rest(rem, false) == Seq::<u8>::empty() + seq![b]
                            + spec_join_rest(rem.drop_first(), false));
                        assert(out@ + spec_join_rest(m.skip(i + 1), false) =~= before
                            + spec_join_rest(rem, false));
                    }
                }
            }
            pending = false;
        } else {
            proof {
                assert(rem[0] == SEP);
                if out@.len() == 0 {
                    assert(spec_skip_seps(rem) == spec_skip_seps(rem.drop_first()));
                } else {
                    assert(spec_join_rest(rem, pending) == spec_join_rest(rem.drop_first(), true));
                }
            }
            pending = true;
        }
        i = i + 1;
    }
    proof {
        assert(m.skip(n as int) =~= Seq::<u8>::empty());
        if out@.len() == 0 {
            assert(spec_skip_seps(Seq::<u8>::empty()) =~= Seq::<u8>::empty());
            assert(spec_collapse(m) =~= out@);
        } else {
            assert(out@ + spec_join_rest(Seq::<u8>::empty(), pending) =~= out@);
        }
    }
    out
}

/// Hides a leading digit behind the letter `n`.
fn valid_start_bytes(core: Vec<u8>) -> (r: Vec<u8>)
    ensures
        r@ == spec_valid_start(core@),
{
    let mut r = core;
    if r.len() > 0 && 48 <= r[0] && r[0] <= 57 {
        let ghost before = r@;
        r.insert(0, 110);
        assert(r@ =~= seq![110u8] + before);
    }
    r
}

/// Truncates to the identifier limit without splitting a
/// separator-delimited segment.
fn truncate_ident_bytes(v: Vec<u8>) -> (r: Vec<u8>)
    ensures
        r@ == spec_truncate_ident(v@),
{
    if v.len() <= MAX_IDENT_LENGTH {
        return v;
    }
    let ghost whole = v@;
    let ghost t = v@.take(MAX_IDENT_LENGTH as int);
    let mut j: usize = MAX_IDENT_LENGTH;
    let mut found = false;
    loop
        invariant_except_break
            !found,
            v@ == whole,
            t == whole.take(MAX_IDENT_LENGTH as int),
            v@.len() > MAX_IDENT_LENGTH,
            0 <= j <= MAX_IDENT_LENGTH,
            forall|l: int| j <= l < MAX_IDENT_LENGTH ==> t[l] != SEP,
        ensures
            v@ == whole,
            found ==> 1 <= j <= MAX_IDENT_LENGTH && t[j - 1] == SEP && forall|l: int|
                j <= l < MAX_IDENT_LENGTH ==> t[l] != SEP,
            !found ==> forall|l: int| 0 <= l < MAX_IDENT_LENGTH ==> t[l] != SEP,
        decreases j,
    {
        if j == 0 {
            break;
        }
        proof {
            assert(t[j - 1] == whole[j - 1]);
        }
        if v[j - 1] == SEP {
            found = true;
            break;
        }
        j = j - 1;
    }
    proof {
        if found {
            lemma_last_sep_byte_unique(t, j - 1);
        } else {
            lemma_last_sep_byte_character(t);
            if spec_last_sep_byte(t) >= 0 {
                assert(t[spec_last_sep_byte(t)] == SEP);
            }
        }
    }
    let mut v = v;
    if found && j - 1 > 0 {
        v.truncate(j - 1);
        proof {
            assert(v@ =~= whole.take(j - 1));
        }
    } else {
        v.truncate(MAX_IDENT_LENGTH);
        proof {
            assert(v@ =~= t);
        }
    }
    v
}

/// Shape of a sanitized identifier, at the byte level: bounded
/// length, only kept bytes and single inner separators, a kept byte
/// at the end, and a letter at the front whenever the input had any
/// alphanumeric character (a separator otherwise).
pub proof fn lemma_sanitized_bytes_props(s: Seq<char>, suffix: Seq<u8>)
    requires
        suffix_ok(suffix),
    ensures
        1 <= spec_sanitized(s, suffix).len() <= MAX_IDENT_LENGTH,
        all_alnum_or_sep(spec_sanitized(s, suffix)),
        no_double_sep(spec_sanitized(s, suffix)),
        is_alnum_byte(spec_sanitized(s, suffix).last()),
        spec_collapse(spec_mask(s)).len() > 0 ==> is_alnum_byte(spec_sanitized(s, suffix)[0])
            && !is_digit_byte(spec_sanitized(s, suffix)[0]),
        spec_collapse(spec_mask(s)).len() == 0 ==> spec_sanitized(s, suffix)[0] == SEP,
        forall|i: int|
            0 <= i < spec_sanitized(s, suffix).len() ==> #[trigger] spec_sanitized(s, suffix)[i]
                < 128,
{
    lemma_mask_alnum_or_sep(s);
    lemma_collapse_props(spec_mask(s));
    let vs_bytes = spec_sanitize_core(s);
    let f = vs_bytes + seq![SEP] + suffix;
    // shape of the assembled identifier before truncation
    assert(vs_bytes.len() > 0 ==> is_alnum_byte(vs_bytes[0]) && !is_digit_byte(vs_bytes[0]));
    assert(vs_bytes.len() > 0 ==> is_alnum_byte(vs_bytes.last()));
    assert(all_alnum_or_sep(f));
    assert(no_double_sep(f)) by {
        assert forall|i: int| 0 <= i < f.len() - 1 implies !(#[trigger] f[i] == SEP && f[i + 1]
            == SEP) by {
            if i < vs_bytes.len() - 1 {
                assert(f[i] == vs_bytes[i] && f[i + 1] == vs_bytes[i + 1]);
            } else if i == vs_bytes.len() - 1 && i >= 0 {
                assert(f[i] == vs_bytes.last());
            } else if i == vs_bytes.len() {
                assert(f[i + 1] == suffix[0]);
            } else {
                assert(f[i] == suffix[i - vs_bytes.len() - 1]);
            }
        }
    }
    assert(is_alnum_byte(f.last()));
    assert(f[0] == SEP ==> f.len() <= MAX_IDENT_LENGTH) by {
        if vs_bytes.len() > 0 {
            assert(f[0] == vs_bytes[0]);
        }
    }
    lemma_truncate_props(f);
}

/// Law: the sanitizer and the allow-list agree — whatever the input
/// and whatever suffix the randomness drew, the sanitized identifier
/// passes the safe-identifier check.
pub proof fn lemma_sanitized_identifier_safe(s: Seq<char>, suffix: Seq<u8>)
    requires
        suffix_ok(suffix),
    ensures
        spec_safe_identifier(chars_of_bytes(spec_sanitized(s, suffix))),
{
    lemma_sanitized_bytes_props(s, suffix);
    let tb = spec_sanitized(s, suffix);
    let rc = chars_of_bytes(tb);
    assert forall|i: int| 0 <= i < rc.len() implies is_alnum_char(#[trigger] rc[i]) || rc[i]
        == '_' by {
        assert(rc[i] == tb[i] as char);
        assert(is_alnum_byte(tb[i]) || tb[i] == SEP);
        if is_alnum_byte(tb[i]) {
            assert((tb[i] as char) as u8 == tb[i]);
            assert((tb[i] as char) as u32 == tb[i]);
        } else {
            assert((95u8 as char) == '_');
        }
    }
    assert(!is_digit_byte(rc[0] as u8)) by {
        if is_alnum_byte(tb[0]) {
            assert((tb[0] as char) as u8 == tb[0]);
            assert((tb[0] as char) as u32 == tb[0]);
        } else {
            assert(tb[0] == SEP);
            assert((95u8 as char) == '_');
        }
    }
}

/// Turns an arbitrary name into a safe, length-bounded SQL
/// identifier with a random six-character suffix.
///
/// The result is 1 to 63 characters of ASCII alphanumerics and
/// underscores, never has two underscores in a row, never ends in an
/// underscore, and starts with a letter whenever the input contained
/// any alphanumeric character (and with an underscore otherwise).
/// Two calls on one input give different suffixes, so uniqueness is
/// probabilistic, never guaranteed.
pub fn sanitize_to_sql_name(filename: &str) -> (r: String)
    ensures
        1 <= r@.len() <= MAX_IDENT_LENGTH,
        forall|i: int|
            0 <= i < r@.len() ==> is_alnum_char(#[trigger] r@[i]) || r@[i] == '_',
        forall|i: int|
            0 <= i < r@.len() - 1 ==> !(#[trigger] r@[i] == '_' && r@[i + 1] == '_'),
        is_alnum_char(r@[r@.len() - 1]),
        spec_collapse(spec_mask(filename@)).len() > 0 ==> is_alnum_char(r@[0]) && !is_digit_byte(
            r@[0] as u8,
        ),
        spec_collapse(spec_mask(filename@)).len() == 0 ==> r@[0] == '_',
        exists|suffix: Seq<u8>| #[trigger] suffix_ok(suffix) && r@ == chars_of_bytes(
            spec_sanitized(filename@, suffix),
        ),
{
    let core = sanitize_core(filename);
    let vs = valid_start_bytes(core);
    let mut full = vs;
    full.push(SEP);
    let mut suffix = random_suffix_bytes(SUFFIX_LENGTH);
    let ghost suf = suffix@;
    full.append(&mut suffix);
    proof {
        assert(full@ =~= spec_sanitize_core(filename@) + seq![SEP] + suf);
    }
    let truncated = truncate_ident_bytes(full);
    let ghost tb = truncated@;
    proof {
        lemma_sanitized_bytes_props(filename@, suf);
        assert(tb == spec_sanitized(filename@, suf));
    }
    let r = ascii_to_string(truncated);
    proof {
        let rc = r@;
        assert(rc.len() == tb.len());
        assert(forall|i: int| 0 <= i < rc.len() ==> #[trigger] rc[i] == tb[i] as char);
        assert forall|i: int| 0 <= i < rc.len() implies is_alnum_char(#[trigger] rc[i]) || rc[i]
            == '_' by {
            assert(rc[i] == tb[i] as char);
            assert(is_alnum_byte(tb[i]) || tb[i] == SEP);
            if is_alnum_byte(tb[i]) {
                assert((tb[i] as char) as u8 == tb[i]);
                assert((tb[i] as char) as u32 == tb[i]);
            } else {
                assert((95u8 as char) == '_');
            }
        }
        assert forall|i: int| 0 <= i < rc.len() - 1 implies !(#[trigger] rc[i] == '_' && rc[i + 1]
            == '_') by {
            assert('_' as u8 == 95);
            assert(rc[i] == tb[i] as char && rc[i + 1] == tb[i + 1] as char);
            if tb[i] != SEP {
                assert(is_alnum_byte(tb[i]));
                assert((tb[i] as char) as u32 == tb[i]);
                assert(rc[i] != '_');
            } else {
                assert(tb[i + 1] != SEP);
                assert((tb[i + 1] as char) as u32 == tb[i + 1]);
                assert(rc[i + 1] != '_');
            }
        }
        assert(is_alnum_char(rc[rc.len() - 1])) by {
            let b = tb[tb.len() - 1];
            assert(is_alnum_byte(b));
            assert((b as char) as u8 == b && (b as char) as u32 == b);
        }
        let collapsed = spec_collapse(spec_mask(filename@));
        if collapsed.len() > 0 {
            let b = tb[0];
            assert(is_alnum_byte(b) && !is_digit_byte(b));
            assert((b as char) as u8 == b && (b as char) as u32 == b);
        } else {
            assert(tb[0] == SEP);
            assert((95u8 as char) == '_');
        }
        assert(suffix_ok(suf) && rc == chars_of_bytes(spec_sanitized(filename@, suf)));
    }
    r
}

} // verus!
