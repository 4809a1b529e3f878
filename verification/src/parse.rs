//! Best-effort, total parser for hosts-list text.
//!
//! Each line is classified as blank, comment, or an "address hostname..."
//! record; extra hostnames on one line are aliases and yield one Block
//! directive each. A line that has no hostname, or a hostname that fails
//! DNS syntax after normalization, yields a Malformed directive; parsing
//! never aborts.

use crate::host::{checked_normalize, normalize_spec, valid_hostname};
use crate::scan::{lemma_run_len, lemma_run_len_is, run_len, spec_tokens, tokens_of, views};
use vstd::prelude::*;

verus! {

/// Why a line (or one hostname on it) could not be parsed.
#[derive(Clone, Copy, Debug, PartialEq, Eq, Structural)]
pub enum MalformedKind {
    /// The line is not blank or a comment, yet has fewer than two fields.
    MissingHostname,
    /// A hostname field fails DNS label syntax after normalization.
    InvalidHostname,
}

/// One parsed semantic unit of a hosts list.
#[derive(Clone, Debug, PartialEq, Eq)]
pub enum Directive {
    /// A hostname blocked by the source, in normalized form.
    Block(Vec<u8>),
    /// A line whose first field starts with `#`.
    Comment,
    /// A line of only whitespace.
    Blank,
    /// An unusable line, kept raw, with the reason.
    Malformed(Vec<u8>, MalformedKind),
}

/// Mathematical image of a `Directive`.
pub enum SpecDirective {
    Block(Seq<u8>),
    Comment,
    Blank,
    Malformed(Seq<u8>, MalformedKind),
}

impl View for Directive {
    type V = SpecDirective;

    open spec fn view(&self) -> SpecDirective {
        match self {
            Directive::Block(h) => SpecDirective::Block(h@),
            Directive::Comment => SpecDirective::Comment,
            Directive::Blank => SpecDirective::Blank,
            Directive::Malformed(raw, k) => SpecDirective::Malformed(raw@, *k),
        }
    }
}

/// The views of a sequence of directives.
pub open spec fn dirs_view(v: Seq<Directive>) -> Seq<SpecDirective> {
    v.map_values(|d: Directive| d@)
}

/// The directive one hostname field of a record line produces.
pub open spec fn spec_host_directive(line: Seq<u8>, tok: Seq<u8>) -> SpecDirective {
    if valid_hostname(normalize_spec(tok)) {
        SpecDirective::Block(normalize_spec(tok))
    } else {
        SpecDirective::Malformed(line, MalformedKind::InvalidHostname)
    }
}

/// The fields of a record line: its tokens up to the first `#`.
pub open spec fn spec_body_tokens(line: Seq<u8>) -> Seq<Seq<u8>> {
    spec_tokens(line.take(run_len(line, 35) as int))
}

/// The directives one line produces: a blank marker, a comment marker,
/// one Malformed unit, or one unit per hostname field.
pub open spec fn spec_parse_line(line: Seq<u8>) -> Seq<SpecDirective> {
    let toks = spec_tokens(line);
    if toks.len() == 0 {
        seq![SpecDirective::Blank]
    } else if toks[0][0] == 35 {
        seq![SpecDirective::Comment]
    } else {
        let body = spec_body_tokens(line);
        if body.len() < 2 {
            seq![SpecDirective::Malformed(line, MalformedKind::MissingHostname)]
        } else {
            body.skip(1).map_values(|t: Seq<u8>| spec_host_directive(line, t))
        }
    }
}

/// The directives a whole text produces, line by line.
pub open spec fn spec_parse(s: Seq<u8>) -> Seq<SpecDirective>
    decreases s.len(),
    via spec_parse_decreases
{
    let k = run_len(s, 10) as int;
    if k == s.len() {
        spec_parse_line(s)
    } else {
        spec_parse_line(s.take(k)) + spec_parse(s.skip(k + 1))
    }
}

#[via_fn]
proof fn spec_parse_decreases(s: Seq<u8>) {
    lemma_run_len(s, 10);
}

/// How many lines a text has: one more than its newline count.
pub open spec fn spec_line_count(s: Seq<u8>) -> nat
    decreases s.len(),
    via spec_line_count_decreases
{
    let k = run_len(s, 10) as int;
    if k == s.len() {
        1
    } else {
        1 + spec_line_count(s.skip(k + 1))
    }
}

#[via_fn]
proof fn spec_line_count_decreases(s: Seq<u8>) {
    lemma_run_len(s, 10);
}

/// How many directives one line yields: exactly one for a blank line, a
/// comment line or a structurally malformed line, and one per hostname
/// field (aliases included) for a record line.
pub proof fn lemma_parse_line_count(line: Seq<u8>)
    ensures
        spec_parse_line(line).len() >= 1,
        spec_parse_line(line).len() == if spec_tokens(line).len() == 0 {
            1int
        } else if spec_tokens(line)[0][0] == 35 {
            1int
        } else if spec_body_tokens(line).len() < 2 {
            1int
        } else {
            spec_body_tokens(line).len() - 1
        },
{
}

/// Every line of `s` yields exactly one directive: no record line carries
/// alias hostnames.
pub open spec fn one_directive_per_line(s: Seq<u8>) -> bool
    decreases s.len(),
    via one_directive_per_line_decreases
{
    let k = run_len(s, 10) as int;
    if k == s.len() {
        spec_parse_line(s).len() == 1
    } else {
        spec_parse_line(s.take(k)).len() == 1 && one_directive_per_line(s.skip(k + 1))
    }
}

#[via_fn]
proof fn one_directive_per_line_decreases(s: Seq<u8>) {
    lemma_run_len(s, 10);
}

/// Parsing is total and loses no line: every line yields at least one
/// directive, and exactly one when no line carries alias hostnames.
pub proof fn lemma_parse_count(s: Seq<u8>)
    ensures
        spec_parse(s).len() >= spec_line_count(s),
        one_directive_per_line(s) ==> spec_parse(s).len() == spec_line_count(s),
    decreases s.len(),
{
    lemma_run_len(s, 10);
    let k = run_len(s, 10) as int;
    if k == s.len() {
        lemma_parse_line_count(s);
    } else {
        lemma_parse_line_count(s.take(k));
        lemma_parse_count(s.skip(k + 1));
    }
}

/// Parse one line.
#[verifier::loop_isolation(false)]
pub fn parse_line(line: &[u8]) -> (r: Vec<Directive>)
    ensures
        dirs_view(r@) == spec_parse_line(line@),
{
    let toks = tokens_of(line);
    if toks.len() == 0 {
        let mut r: Vec<Directive> = Vec::new();
        r.push(Directive::Blank);
        proof {
            assert(dirs_view(r@) =~= seq![SpecDirective::Blank]);
        }
        return r;
    }
    let t0 = &toks[0];
    proof {
        assert(t0@ == views(toks@)[0]);
    }
    if t0[0] == 35 {
        let mut r: Vec<Directive> = Vec::new();
        r.push(Directive::Comment);
        proof {
            assert(dirs_view(r@) =~= seq![SpecDirective::Comment]);
        }
        return r;
    }
    let mut h: usize = 0;
    while h < line.len() && line[h] != 35
        invariant
            h <= line@.len(),
            forall|k: int| 0 <= k < h ==> #[trigger] line@[k] != 35,
        decreases line@.len() - h,
    {
        h += 1;
    }
    proof {
        lemma_run_len_is(line@, 35, h as int);
    }
    let body = vstd::slice::slice_subrange(line, 0, h);
    proof {
        assert(body@ =~= line@.take(h as int));
    }
    let btoks = tokens_of(body);
    if btoks.len() < 2 {
        let mut r: Vec<Directive> = Vec::new();
        r.push(Directive::Malformed(vstd::slice::slice_to_vec(line), MalformedKind::MissingHostname));
        proof {
            assert(dirs_view(r@) =~= seq![
                SpecDirective::Malformed(line@, MalformedKind::MissingHostname),
            ]);
        }
        return r;
    }
    let ghost target = spec_body_tokens(line@).skip(1).map_values(
        (|t: Seq<u8>| spec_host_directive(line@, t)),
    );
    let mut r: Vec<Directive> = Vec::new();
    let mut i: usize = 1;
    proof {
        assert(dirs_view(r@) =~= target.take(0));
    }
    while i < btoks.len()
        invariant
            1 <= i <= btoks@.len(),
            dirs_view(r@) == target.take(i - 1),
        decreases btoks@.len() - i,
    {
        let ghost tok = views(btoks@)[i as int];
        proof {
            assert(spec_body_tokens(line@).skip(1)[i - 1] == tok);
            assert(target[i - 1] == spec_host_directive(line@, tok));
        }
        let d = match checked_normalize(btoks[i].as_slice()) {
            Some(v) => Directive::Block(v),
            None => Directive::Malformed(
                vstd::slice::slice_to_vec(line),
                MalformedKind::InvalidHostname,
            ),
        };
        proof {
            assert(d@ == target[i - 1]);
            assert(dirs_view(r@.push(d)) =~= dirs_view(r@).push(d@));
            assert(target.take(i - 1).push(target[i - 1]) =~= target.take(i as int));
        }
        r.push(d);
        i += 1;
    }
    proof {
        assert(target.take(i - 1) =~= target);
    }
    r
}

/// Parse a whole text: total over arbitrary bytes, never aborts.
#[verifier::loop_isolation(false)]
pub fn parse(bytes: &[u8]) -> (r: Vec<Directive>)
    ensures
        dirs_view(r@) == spec_parse(bytes@),
{
    let ghost whole = bytes@;
    let mut r: Vec<Directive> = Vec::new();
    let mut i: usize = 0;
    proof {
        assert(whole.skip(0) =~= whole);
        assert(dirs_view(r@) =~= Seq::<SpecDirective>::empty());
    }
    loop
        invariant
            i <= bytes@.len(),
            dirs_view(r@) + spec_parse(whole.skip(i as int)) == spec_parse(whole),
        decreases bytes@.len() - i,
    {
        let ghost rest = whole.skip(i as int);
        let mut j = i;
        while j < bytes.len() && bytes[j] != 10
            invariant
                i <= j <= bytes@.len(),
                forall|k: int| i <= k < j ==> #[trigger] whole[k] != 10,
            decreases bytes@.len() - j,
        {
            j += 1;
        }
        proof {
            assert forall|m: int| 0 <= m < j - i implies rest[m] != 10 by {
                assert(rest[m] == whole[i + m]);
            }
            if j < whole.len() {
                assert(rest[j - i] == whole[j as int]);
            }
            lemma_run_len_is(rest, 10, j - i);
        }
        let line = vstd::slice::slice_subrange(bytes, i, j);
        proof {
            assert(line@ =~= rest.take(j - i));
        }
        let mut ds = parse_line(line);
        proof {
            assert(dirs_view(r@ + ds@) =~= dirs_view(r@) + dirs_view(ds@));
        }
        if j == bytes.len() {
            proof {
                assert(rest.take(j - i) =~= rest);
                assert(dirs_view(r@) + dirs_view(ds@) =~= spec_parse(whole));
            }
            r.append(&mut ds);
            return r;
        }
        proof {
            assert(rest.skip(j - i + 1) =~= whole.skip(j + 1));
            assert((dirs_view(r@) + dirs_view(ds@)) + spec_parse(whole.skip(j + 1))
                =~= dirs_view(r@) + (dirs_view(ds@) + spec_parse(whole.skip(j + 1))));
        }
        r.append(&mut ds);
        i = j + 1;
    }
}

/// The normalized hostnames the Block directives carry, in order.
pub open spec fn blocked_of(ds: Seq<SpecDirective>) -> Seq<Seq<u8>>
    decreases ds.len(),
{
    if ds.len() == 0 {
        Seq::empty()
    } else {
        (if ds[0] is Block {
            seq![ds[0]->Block_0]
        } else {
            Seq::empty()
        }) + blocked_of(ds.skip(1))
    }
}

/// How many directives are Malformed.
pub open spec fn malformed_count(ds: Seq<SpecDirective>) -> nat
    decreases ds.len(),
{
    if ds.len() == 0 {
        0
    } else {
        ((if ds[0] is Malformed {
            1nat
        } else {
            0nat
        }) + malformed_count(ds.skip(1))) as nat
    }
}

/// Extract the blocked hostnames from a parse result.
#[verifier::loop_isolation(false)]
pub fn blocked_hosts(ds: &Vec<Directive>) -> (r: Vec<Vec<u8>>)
    ensures
        views(r@) == blocked_of(dirs_view(ds@)),
{
    let ghost dv = dirs_view(ds@);
    let mut r: Vec<Vec<u8>> = Vec::new();
    let mut i: usize = 0;
    proof {
        assert(dv.skip(0) =~= dv);
        assert(views(r@) =~= Seq::<Seq<u8>>::empty());
        assert(views(r@) + blocked_of(dv) =~= blocked_of(dv));
    }
    while i < ds.len()
        invariant
            i <= ds@.len(),
            views(r@) + blocked_of(dv.skip(i as int)) == blocked_of(dv),
        decreases ds@.len() - i,
    {
        proof {
            assert(dv.skip(i as int)[0] == dv[i as int]);
            assert(dv.skip(i as int).skip(1) =~= dv.skip(i as int + 1));
        }
        let ghost pre = r@;
        match &ds[i] {
            Directive::Block(h) => {
                proof {
                    assert(dv[i as int] is Block && dv[i as int]->Block_0 == h@);
                }
                let hv = crate::scan::clone_bytes(h);
                r.push(hv);
                proof {
                    assert(views(r@) =~= views(pre) + seq![h@]);
                    assert((views(pre) + seq![h@]) + blocked_of(dv.skip(i as int + 1)) =~= views(
                        pre,
                    ) + (seq![h@] + blocked_of(dv.skip(i as int + 1))));
                }
            },
            _ => {
                proof {
                    assert(Seq::<Seq<u8>>::empty() + blocked_of(dv.skip(i as int + 1))
                        =~= blocked_of(dv.skip(i as int + 1)));
                }
            },
        }
        i += 1;
    }
    proof {
        assert(dv.skip(i as int) =~= Seq::<SpecDirective>::empty());
        assert(views(r@) + Seq::<Seq<u8>>::empty() =~= views(r@));
    }
    r
}

/// Count the Malformed directives of a parse result.
#[verifier::loop_isolation(false)]
pub fn count_malformed(ds: &Vec<Directive>) -> (n: usize)
    ensures
        n == malformed_count(dirs_view(ds@)),
{
    let ghost dv = dirs_view(ds@);
    let mut n: usize = 0;
    let mut i: usize = 0;
    proof {
        assert(dv.skip(0) =~= dv);
    }
    while i < ds.len()
        invariant
            i <= ds@.len(),
            n <= i,
            n + malformed_count(dv.skip(i as int)) == malformed_count(dv),
        decreases ds@.len() - i,
    {
        proof {
            assert(dv.skip(i as int)[0] == dv[i as int]);
            assert(dv.skip(i as int).skip(1) =~= dv.skip(i as int + 1));
        }
        if let Directive::Malformed(_, _) = &ds[i] {
            proof {
                assert(dv[i as int] is Malformed);
            }
            n += 1;
        }
        i += 1;
    }
    proof {
        assert(dv.skip(i as int) =~= Seq::<SpecDirective>::empty());
    }
    n
}

} // verus!
