//! The engine pipeline short of I/O: parse every enabled source's latest
//! text, merge the blocked hostnames with the overrides, and report the
//! summary counts, malformed lines included.

use crate::merge::{
    entries_view, merge, merge_ok_post, no_ambiguity, sources_view, EffectiveEntry, MergeError,
    MergeSummary, SourceBlocks, SpecSourceBlocks,
};
use crate::overrides::{
    allows_view, has_enabled_allow, has_enabled_redirect, redirects_view, AllowEntry,
    RedirectEntry,
};
use crate::parse::{blocked_hosts, blocked_of, count_malformed, malformed_count, parse, spec_parse};
use vstd::prelude::*;

verus! {

/// The latest usable text of one source: a fresh fetch or the cache.
#[derive(Clone, Debug)]
pub struct SourceText {
    /// A disabled source is not parsed and not merged.
    pub enabled: bool,
    /// The raw list bytes.
    pub text: Vec<u8>,
}

/// Mathematical image of a `SourceText`.
#[verifier::ext_equal]
pub struct SpecSourceText {
    pub enabled: bool,
    pub text: Seq<u8>,
}

impl View for SourceText {
    type V = SpecSourceText;

    open spec fn view(&self) -> SpecSourceText {
        SpecSourceText { enabled: self.enabled, text: self.text@ }
    }
}

/// The views of a sequence of source texts.
pub open spec fn texts_view(v: Seq<SourceText>) -> Seq<SpecSourceText> {
    v.map_values(|t: SourceText| t@)
}

/// What one source contributes to the merge: its parsed blocked
/// hostnames when enabled, nothing when disabled.
pub open spec fn spec_source_blocks(t: SpecSourceText) -> SpecSourceBlocks {
    SpecSourceBlocks {
        enabled: t.enabled,
        hosts: if t.enabled {
            blocked_of(spec_parse(t.text))
        } else {
            Seq::empty()
        },
    }
}

/// The merge inputs a list of source texts yields.
pub open spec fn sources_of(ts: Seq<SpecSourceText>) -> Seq<SpecSourceBlocks> {
    ts.map_values(|t: SpecSourceText| spec_source_blocks(t))
}

/// The malformed-line total over the enabled sources.
pub open spec fn spec_total_malformed(ts: Seq<SpecSourceText>) -> nat
    decreases ts.len(),
{
    if ts.len() == 0 {
        0
    } else {
        ((if ts[0].enabled {
            malformed_count(spec_parse(ts[0].text))
        } else {
            0nat
        }) + spec_total_malformed(ts.skip(1))) as nat
    }
}

/// The malformed-line total splits around any cut.
proof fn lemma_total_malformed_split(ts: Seq<SpecSourceText>, i: int)
    requires
        0 <= i <= ts.len(),
    ensures
        spec_total_malformed(ts) == spec_total_malformed(ts.take(i)) + spec_total_malformed(
            ts.skip(i),
        ),
    decreases ts.len(),
{
    if i == 0 {
        assert(ts.take(0) =~= Seq::<SpecSourceText>::empty());
        assert(ts.skip(0) =~= ts);
    } else {
        lemma_total_malformed_split(ts.skip(1), i - 1);
        assert(ts.take(i)[0] == ts[0]);
        assert(ts.take(i).skip(1) =~= ts.skip(1).take(i - 1));
        assert(ts.skip(1).skip(i - 1) =~= ts.skip(i));
    }
}

/// A resolved pass: the effective entries and every summary count.
#[derive(Clone, Debug)]
pub struct Resolution {
    pub entries: Vec<EffectiveEntry>,
    pub summary: MergeSummary,
    /// Malformed lines skipped across all enabled sources; saturates.
    pub malformed: u64,
}

/// Parse every enabled source and merge with the overrides.
#[verifier::loop_isolation(false)]
pub fn resolve(
    texts: &Vec<SourceText>,
    allows: &Vec<AllowEntry>,
    redirects: &Vec<RedirectEntry>,
) -> (r: Result<Resolution, MergeError>)
    ensures
        match r {
            Ok(res) => merge_ok_post(
                sources_of(texts_view(texts@)),
                allows_view(allows@),
                redirects_view(redirects@),
                entries_view(res.entries@),
                res.summary,
            ) && res.malformed as nat == if spec_total_malformed(texts_view(texts@)) <= u64::MAX
                as nat {
                spec_total_malformed(texts_view(texts@))
            } else {
                u64::MAX as nat
            },
            Err(MergeError::Ambiguous(h)) => has_enabled_allow(allows_view(allows@), h@)
                && has_enabled_redirect(redirects_view(redirects@), h@),
        },
        r is Ok == no_ambiguity(allows_view(allows@), redirects_view(redirects@)),
{
    let ghost tv = texts_view(texts@);
    let mut blocks: Vec<SourceBlocks> = Vec::new();
    let mut malformed: u64 = 0;
    let mut i: usize = 0;
    proof {
        assert(tv.skip(0) =~= tv);
        assert(sources_view(blocks@) =~= sources_of(tv).take(0));
    }
    while i < texts.len()
        invariant
            i <= texts@.len(),
            sources_view(blocks@) == sources_of(tv).take(i as int),
            malformed as nat == if spec_total_malformed(tv.take(i as int)) <= u64::MAX as nat {
                spec_total_malformed(tv.take(i as int))
            } else {
                u64::MAX as nat
            },
        decreases texts@.len() - i,
    {
        proof {
            assert(tv.skip(i as int)[0] == tv[i as int]);
            assert(tv.skip(i as int).skip(1) =~= tv.skip(i as int + 1));
        }
        let ghost pre = blocks@;
        let t = &texts[i];
        proof {
            assert(t@ == tv[i as int]);
        }
        let ghost c_spec: nat = if tv[i as int].enabled {
            malformed_count(spec_parse(tv[i as int].text))
        } else {
            0nat
        };
        let c: usize;
        if t.enabled {
            let ds = parse(t.text.as_slice());
            let hosts = blocked_hosts(&ds);
            c = count_malformed(&ds);
            blocks.push(SourceBlocks { enabled: true, hosts });
        } else {
            c = 0;
            blocks.push(SourceBlocks { enabled: false, hosts: Vec::new() });
        }
        proof {
            assert(c as nat == c_spec);
            assert(blocks@[blocks@.len() - 1]@ =~= spec_source_blocks(tv[i as int]));
            assert(sources_view(blocks@) =~= sources_view(pre).push(
                spec_source_blocks(tv[i as int]),
            ));
            assert(sources_of(tv).take(i as int + 1) =~= sources_of(tv).take(i as int).push(
                sources_of(tv)[i as int],
            ));
        }
        proof {
            lemma_total_malformed_split(tv, i as int);
            lemma_total_malformed_split(tv, i as int + 1);
            assert(spec_total_malformed(tv.skip(i as int)) == c_spec + spec_total_malformed(
                tv.skip(i as int + 1),
            ));
            assert(spec_total_malformed(tv.take(i as int + 1)) == spec_total_malformed(
                tv.take(i as int),
            ) + c_spec);
        }
        if c as u64 > u64::MAX - malformed {
            malformed = u64::MAX;
        } else {
            malformed = malformed + c as u64;
        }
        i += 1;
    }
    proof {
        assert(sources_of(tv).take(i as int) =~= sources_of(tv));
        assert(tv.take(i as int) =~= tv);
    }
    match merge(&blocks, allows, redirects) {
        Ok(out) => Ok(
            Resolution { entries: out.entries, summary: out.summary, malformed },
        ),
        Err(e) => Err(e),
    }
}

} // verus!
