//! Byte-level primitives shared across the engine: prefix runs,
//! whitespace tokenization, byte-slice equality and copying.

use vstd::prelude::*;

verus! {

/// A byte is an ASCII space, tab or carriage return: the separators the
/// hosts-file format uses inside a line.
pub open spec fn is_space(b: u8) -> bool {
    b == 32 || b == 9 || b == 13
}

/// Exec mirror of `is_space`.
#[verifier::when_used_as_spec(is_space)]
pub fn byte_is_space(b: u8) -> (r: bool)
    ensures
        r == is_space(b),
{
    b == 32 || b == 9 || b == 13
}

/// Length of the longest prefix of `s` that contains no `stop` byte.
pub open spec fn run_len(s: Seq<u8>, stop: u8) -> nat
    decreases s.len(),
{
    if s.len() == 0 || s[0] == stop {
        0
    } else {
        (1 + run_len(s.skip(1), stop)) as nat
    }
}

/// Length of the longest prefix of `s` that contains no whitespace byte.
pub open spec fn token_len(s: Seq<u8>) -> nat
    decreases s.len(),
{
    if s.len() == 0 || is_space(s[0]) {
        0
    } else {
        (1 + token_len(s.skip(1))) as nat
    }
}

/// `run_len` is the unique cut: everything before it differs from `stop`,
/// and either the cut is the end or the byte at the cut is `stop`.
pub proof fn lemma_run_len(s: Seq<u8>, stop: u8)
    ensures
        run_len(s, stop) <= s.len(),
        forall|i: int| 0 <= i < run_len(s, stop) ==> s[i] != stop,
        run_len(s, stop) < s.len() ==> s[run_len(s, stop) as int] == stop,
    decreases s.len(),
{
    if s.len() == 0 || s[0] == stop {
    } else {
        lemma_run_len(s.skip(1), stop);
        assert forall|i: int| 0 <= i < run_len(s, stop) implies s[i] != stop by {
            if i > 0 {
                assert(s.skip(1)[i - 1] == s[i]);
            }
        }
        if run_len(s, stop) < s.len() {
            assert(s.skip(1)[run_len(s, stop) - 1] == s[run_len(s, stop) as int]);
        }
    }
}

/// A cut with the `run_len` characterization is `run_len`.
pub proof fn lemma_run_len_is(s: Seq<u8>, stop: u8, n: int)
    requires
        0 <= n <= s.len(),
        forall|i: int| 0 <= i < n ==> s[i] != stop,
        n < s.len() ==> s[n] == stop,
    ensures
        run_len(s, stop) == n,
    decreases s.len(),
{
    if s.len() == 0 || s[0] == stop {
    } else {
        assert(s[0] != stop);
        lemma_run_len_is(s.skip(1), stop, n - 1);
    }
}

/// `token_len` never runs past the end of the sequence.
pub proof fn lemma_token_len_le(s: Seq<u8>)
    ensures
        token_len(s) <= s.len(),
    decreases s.len(),
{
    if s.len() == 0 || is_space(s[0]) {
    } else {
        lemma_token_len_le(s.skip(1));
    }
}

/// `token_len` is the unique cut before the first whitespace byte.
pub proof fn lemma_token_len_is(s: Seq<u8>, n: int)
    requires
        0 <= n <= s.len(),
        forall|i: int| 0 <= i < n ==> !is_space(s[i]),
        n < s.len() ==> is_space(s[n]),
    ensures
        token_len(s) == n,
    decreases s.len(),
{
    if s.len() == 0 || is_space(s[0]) {
    } else {
        assert(!is_space(s[0]));
        lemma_token_len_is(s.skip(1), n - 1);
    }
}

/// The maximal whitespace-separated tokens of `s`, in order.
pub open spec fn spec_tokens(s: Seq<u8>) -> Seq<Seq<u8>>
    decreases s.len(),
    via spec_tokens_decreases
{
    if s.len() == 0 {
        Seq::empty()
    } else if is_space(s[0]) {
        spec_tokens(s.skip(1))
    } else {
        let k = token_len(s);
        seq![s.take(k as int)] + spec_tokens(s.skip(k as int))
    }
}

#[via_fn]
proof fn spec_tokens_decreases(s: Seq<u8>) {
    if s.len() > 0 && !is_space(s[0]) {
        lemma_token_len_le(s);
        assert(token_len(s) == 1 + token_len(s.skip(1)));
    }
}

/// Byte-wise equality of two slices.
pub fn bytes_eq(a: &[u8], b: &[u8]) -> (r: bool)
    ensures
        r == (a@ == b@),
{
    if a.len() != b.len() {
        return false;
    }
    let mut i: usize = 0;
    while i < a.len()
        invariant
            i <= a@.len(),
            a@.len() == b@.len(),
            forall|k: int| 0 <= k < i ==> a@[k] == b@[k],
        decreases a@.len() - i,
    {
        if a[i] != b[i] {
            return false;
        }
        i += 1;
    }
    proof {
        assert(a@ =~= b@);
    }
    true
}

/// Copy a byte vector.
pub fn clone_bytes(v: &Vec<u8>) -> (r: Vec<u8>)
    ensures
        r@ == v@,
{
    let r = v.clone();
    proof {
        assert forall|i: int| 0 <= i < v@.len() implies r@[i] == v@[i] by {
            assert(cloned::<u8>(v@[i], r@[i]));
        }
        assert(r@ =~= v@);
    }
    r
}

/// The views of a sequence of byte vectors.
pub open spec fn views(v: Seq<Vec<u8>>) -> Seq<Seq<u8>> {
    v.map_values(|x: Vec<u8>| x@)
}

/// Split `line` into its maximal whitespace-separated tokens.
pub fn tokens_of(line: &[u8]) -> (r: Vec<Vec<u8>>)
    ensures
        views(r@) == spec_tokens(line@),
        forall|i: int| 0 <= i < r@.len() ==> #[trigger] r@[i]@.len() > 0,
{
    let ghost whole = line@;
    let mut r: Vec<Vec<u8>> = Vec::new();
    let mut i: usize = 0;
    proof {
        assert(whole.skip(0) =~= whole);
        assert(views(r@) =~= Seq::<Seq<u8>>::empty());
        assert(views(r@) + spec_tokens(whole) =~= spec_tokens(whole));
    }
    while i < line.len()
        invariant
            i <= line@.len(),
            line@ == whole,
            spec_tokens(whole) == views(r@) + spec_tokens(whole.skip(i as int)),
            forall|k: int| 0 <= k < r@.len() ==> #[trigger] r@[k]@.len() > 0,
        decreases line@.len() - i,
    {
        if byte_is_space(line[i]) {
            proof {
                assert(whole.skip(i as int)[0] == whole[i as int]);
                assert(whole.skip(i as int).skip(1) =~= whole.skip(i as int + 1));
            }
            i += 1;
        } else {
            let start = i;
            let mut j = i;
            while j < line.len() && !byte_is_space(line[j])
                invariant
                    start <= j <= line@.len(),
                    line@ == whole,
                    forall|k: int| start <= k < j ==> !is_space(#[trigger] whole[k]),
                decreases line@.len() - j,
            {
                j += 1;
            }
            let tok = vstd::slice::slice_to_vec(vstd::slice::slice_subrange(line, start, j));
            proof {
                let rest = whole.skip(start as int);
                assert forall|k: int| 0 <= k < j - start implies !is_space(#[trigger] rest[k]) by {
                    assert(rest[k] == whole[start + k]);
                }
                if j < whole.len() {
                    assert(rest[j - start] == whole[j as int]);
                }
                lemma_token_len_is(rest, j - start);
                assert(!is_space(rest[0]));
                assert(rest.take(j - start) =~= whole.subrange(start as int, j as int));
                assert(rest.skip(j - start) =~= whole.skip(j as int));
                assert(spec_tokens(rest) == seq![whole.subrange(start as int, j as int)]
                    + spec_tokens(whole.skip(j as int)));
                assert(views(r@.push(tok)) =~= views(r@) + seq![tok@]);
                assert(views(r@) + (seq![tok@] + spec_tokens(whole.skip(j as int)))
                    =~= (views(r@) + seq![tok@]) + spec_tokens(whole.skip(j as int)));
            }
            r.push(tok);
            i = j;
        }
    }
    proof {
        assert(whole.skip(i as int) =~= Seq::<u8>::empty());
        assert(spec_tokens(whole.skip(i as int)) =~= Seq::<Seq<u8>>::empty());
        assert(views(r@) + Seq::<Seq<u8>>::empty() =~= views(r@));
    }
    r
}

} // verus!
