//! Hostname normalization (lower-casing, trailing-dot stripping) and
//! validation against DNS label syntax: dot-separated labels of ASCII
//! letters, digits and hyphens, each label 1 to 63 bytes, the whole name
//! 1 to 253 bytes.

use crate::scan::{lemma_run_len, lemma_run_len_is, run_len};
use vstd::prelude::*;

verus! {

/// ASCII lower-casing of one byte.
pub open spec fn lower_byte(b: u8) -> u8 {
    if 65 <= b && b <= 90 {
        (b + 32) as u8
    } else {
        b
    }
}

/// Exec mirror of `lower_byte`.
#[verifier::when_used_as_spec(lower_byte)]
pub fn byte_to_lower(b: u8) -> (r: u8)
    ensures
        r == lower_byte(b),
{
    if 65 <= b && b <= 90 {
        b + 32
    } else {
        b
    }
}

/// ASCII lower-casing of a byte sequence.
pub open spec fn lower_bytes(s: Seq<u8>) -> Seq<u8> {
    s.map_values(|b: u8| lower_byte(b))
}

/// Remove one trailing dot, if present.
pub open spec fn strip_trailing_dot(s: Seq<u8>) -> Seq<u8> {
    if s.len() > 0 && s.last() == 46 {
        s.drop_last()
    } else {
        s
    }
}

/// The canonical form of a hostname: lower-cased, one trailing dot removed.
pub open spec fn normalize_spec(s: Seq<u8>) -> Seq<u8> {
    strip_trailing_dot(lower_bytes(s))
}

/// A byte allowed inside a normalized label: digit, lower-case letter or
/// hyphen.
pub open spec fn is_host_char(b: u8) -> bool {
    (48 <= b && b <= 57) || (97 <= b && b <= 122) || b == 45
}

/// Exec mirror of `is_host_char`.
#[verifier::when_used_as_spec(is_host_char)]
pub fn byte_is_host_char(b: u8) -> (r: bool)
    ensures
        r == is_host_char(b),
{
    (48 <= b && b <= 57) || (97 <= b && b <= 122) || b == 45
}

/// A single DNS label: 1 to 63 allowed bytes.
pub open spec fn valid_label(l: Seq<u8>) -> bool {
    1 <= l.len() <= 63 && (forall|i: int| 0 <= i < l.len() ==> is_host_char(#[trigger] l[i]))
}

/// Every dot-separated label of `s` is a valid DNS label.
pub open spec fn valid_labels(s: Seq<u8>) -> bool
    decreases s.len(),
    via valid_labels_decreases
{
    let k = run_len(s, 46) as int;
    if k == s.len() {
        valid_label(s)
    } else {
        valid_label(s.take(k)) && valid_labels(s.skip(k + 1))
    }
}

#[via_fn]
proof fn valid_labels_decreases(s: Seq<u8>) {
    lemma_run_len(s, 46);
}

/// A syntactically valid normalized hostname.
pub open spec fn valid_hostname(s: Seq<u8>) -> bool {
    1 <= s.len() <= 253 && valid_labels(s)
}

/// Lower-case `raw` and strip one trailing dot.
pub fn normalize_hostname(raw: &[u8]) -> (r: Vec<u8>)
    ensures
        r@ == normalize_spec(raw@),
{
    let mut v: Vec<u8> = Vec::new();
    let mut i: usize = 0;
    proof {
        assert(v@ =~= lower_bytes(raw@.take(0)));
    }
    while i < raw.len()
        invariant
            i <= raw@.len(),
            v@ == lower_bytes(raw@.take(i as int)),
        decreases raw@.len() - i,
    {
        let b = byte_to_lower(raw[i]);
        v.push(b);
        proof {
            assert(v@ =~= lower_bytes(raw@.take(i as int + 1)));
        }
        i += 1;
    }
    proof {
        assert(raw@.take(i as int) =~= raw@);
    }
    if v.len() > 0 && v[v.len() - 1] == 46 {
        v.pop();
        proof {
            assert(v@ =~= lower_bytes(raw@).drop_last());
        }
    }
    v
}

/// Check that every dot-separated label of `s` is valid.
#[verifier::loop_isolation(false)]
fn check_labels(s: &[u8]) -> (r: bool)
    ensures
        r == valid_labels(s@),
{
    let ghost whole = s@;
    let mut i: usize = 0;
    proof {
        assert(whole.skip(0) =~= whole);
    }
    loop
        invariant
            i <= s@.len(),
            s@ == whole,
            valid_labels(whole) == valid_labels(whole.skip(i as int)),
        decreases s@.len() - i,
    {
        let ghost rest = whole.skip(i as int);
        let mut j = i;
        while j < s.len() && s[j] != 46
            invariant
                i <= j <= s@.len(),
                s@ == whole,
                forall|k: int| i <= k < j ==> #[trigger] whole[k] != 46 && is_host_char(whole[k]),
            decreases s@.len() - j,
        {
            if !byte_is_host_char(s[j]) {
                proof {
                    lemma_run_len(rest, 46);
                    let k = run_len(rest, 46) as int;
                    assert forall|m: int| 0 <= m < j + 1 - i implies rest[m] != 46 by {
                        assert(rest[m] == whole[i + m]);
                    }
                    assert(k >= j + 1 - i);
                    assert(rest[j - i] == whole[j as int]);
                    if k == rest.len() {
                        assert(!valid_label(rest));
                    } else {
                        assert(rest.take(k)[j - i] == rest[j - i]);
                        assert(!valid_label(rest.take(k)));
                    }
                }
                return false;
            }
            j += 1;
        }
        proof {
            assert forall|m: int| 0 <= m < j - i implies rest[m] != 46 by {
                assert(rest[m] == whole[i + m]);
            }
            if j < whole.len() {
                assert(rest[j - i] == whole[j as int]);
            }
            lemma_run_len_is(rest, 46, j - i);
        }
        if j == i || j - i > 63 {
            proof {
                let k = run_len(rest, 46) as int;
                if k == rest.len() {
                    assert(!valid_label(rest));
                } else {
                    assert(rest.take(k).len() == k);
                    assert(!valid_label(rest.take(k)));
                }
            }
            return false;
        }
        proof {
            let k = run_len(rest, 46) as int;
            let lab = if k == rest.len() {
                rest
            } else {
                rest.take(k)
            };
            assert forall|m: int| 0 <= m < lab.len() implies is_host_char(#[trigger] lab[m]) by {
                assert(lab[m] == rest[m]);
                assert(rest[m] == whole[i + m]);
            }
            assert(valid_label(lab));
        }
        if j == s.len() {
            return true;
        }
        proof {
            assert(rest.skip(j - i + 1) =~= whole.skip(j + 1));
        }
        i = j + 1;
    }
}

/// Check that `s` is a syntactically valid normalized hostname.
pub fn check_hostname(s: &[u8]) -> (r: bool)
    ensures
        r == valid_hostname(s@),
{
    if s.len() == 0 || s.len() > 253 {
        return false;
    }
    check_labels(s)
}

/// Normalize `raw`; return the canonical hostname if it is valid.
pub fn checked_normalize(raw: &[u8]) -> (r: Option<Vec<u8>>)
    ensures
        match r {
            Some(v) => v@ == normalize_spec(raw@) && valid_hostname(normalize_spec(raw@)),
            None => !valid_hostname(normalize_spec(raw@)),
        },
{
    let v = normalize_hostname(raw);
    if check_hostname(v.as_slice()) {
        Some(v)
    } else {
        None
    }
}

} // verus!
