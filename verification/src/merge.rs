//! The merge resolver: combines the blocked hostnames of all enabled
//! sources with the enabled allow and redirect overrides into one
//! effective entry set.
//!
//! Precedence per hostname: an enabled redirect wins over everything, an
//! enabled allow wins over blocking, and a hostname blocked by any number
//! of sources yields a single Blocked entry annotated with every
//! contributing source. Disabled sources and overrides take no part. A
//! hostname with both an enabled allow and an enabled redirect is an
//! upstream invariant violation and is reported, never silently resolved.

use crate::overrides::{
    allows_view, has_enabled_allow, has_enabled_redirect, redirects_view, spec_redirect_target,
    AllowEntry, RedirectEntry, SpecAllow, SpecRedirect,
};
use crate::scan::{bytes_eq, clone_bytes, views};
use vstd::prelude::*;

verus! {

/// The blocked hostnames one source contributes, with its enabled flag.
#[derive(Clone, Debug)]
pub struct SourceBlocks {
    /// A disabled source takes no part in merging.
    pub enabled: bool,
    /// Normalized blocked hostnames, as the parser produced them.
    pub hosts: Vec<Vec<u8>>,
}

/// Mathematical image of a `SourceBlocks`.
#[verifier::ext_equal]
pub struct SpecSourceBlocks {
    pub enabled: bool,
    pub hosts: Seq<Seq<u8>>,
}

impl View for SourceBlocks {
    type V = SpecSourceBlocks;

    open spec fn view(&self) -> SpecSourceBlocks {
        SpecSourceBlocks { enabled: self.enabled, hosts: views(self.hosts@) }
    }
}

/// The views of a sequence of source block lists.
pub open spec fn sources_view(v: Seq<SourceBlocks>) -> Seq<SpecSourceBlocks> {
    v.map_values(|s: SourceBlocks| s@)
}

/// Some enabled source blocks hostname `h`.
pub open spec fn blocked_by(srcs: Seq<SpecSourceBlocks>, h: Seq<u8>) -> bool {
    exists|i: int| 0 <= i < srcs.len() && (#[trigger] srcs[i]).enabled && srcs[i].hosts.contains(h)
}

/// The resolved action for one hostname.
#[derive(Clone, Debug, PartialEq, Eq)]
pub enum Action {
    /// Resolve the hostname to the null address.
    Blocked,
    /// Leave the hostname alone: it contributes no line.
    Allowed,
    /// Resolve the hostname to the given address.
    Redirected(Vec<u8>),
}

/// Mathematical image of an `Action`.
#[verifier::ext_equal]
pub enum SpecAction {
    Blocked,
    Allowed,
    Redirected(Seq<u8>),
}

impl View for Action {
    type V = SpecAction;

    open spec fn view(&self) -> SpecAction {
        match self {
            Action::Blocked => SpecAction::Blocked,
            Action::Allowed => SpecAction::Allowed,
            Action::Redirected(ip) => SpecAction::Redirected(ip@),
        }
    }
}

/// The merge resolver's output unit: one hostname, its resolved action,
/// and the indices of the enabled sources that blocked it.
#[derive(Clone, Debug)]
pub struct EffectiveEntry {
    pub host: Vec<u8>,
    pub action: Action,
    pub contributors: Vec<usize>,
}

/// Mathematical image of an `EffectiveEntry`.
#[verifier::ext_equal]
pub struct SpecEffective {
    pub host: Seq<u8>,
    pub action: SpecAction,
    pub contributors: Seq<usize>,
}

impl View for EffectiveEntry {
    type V = SpecEffective;

    open spec fn view(&self) -> SpecEffective {
        SpecEffective {
            host: self.host@,
            action: self.action@,
            contributors: self.contributors@,
        }
    }
}

/// The views of a sequence of effective entries.
pub open spec fn entries_view(v: Seq<EffectiveEntry>) -> Seq<SpecEffective> {
    v.map_values(|e: EffectiveEntry| e@)
}

/// The action the precedence rules assign hostname `h`.
pub open spec fn spec_action_for(
    allows: Seq<SpecAllow>,
    reds: Seq<SpecRedirect>,
    h: Seq<u8>,
) -> SpecAction {
    if has_enabled_redirect(reds, h) {
        SpecAction::Redirected(spec_redirect_target(reds, h))
    } else if has_enabled_allow(allows, h) {
        SpecAction::Allowed
    } else {
        SpecAction::Blocked
    }
}

/// Hostname `h` belongs in the effective set: blocked by some enabled
/// source, or carried by an enabled override.
pub open spec fn in_scope(
    srcs: Seq<SpecSourceBlocks>,
    allows: Seq<SpecAllow>,
    reds: Seq<SpecRedirect>,
    h: Seq<u8>,
) -> bool {
    blocked_by(srcs, h) || has_enabled_allow(allows, h) || has_enabled_redirect(reds, h)
}

/// `c` lists exactly the enabled sources that block `h`, in increasing
/// order.
pub open spec fn good_contributors(srcs: Seq<SpecSourceBlocks>, h: Seq<u8>, c: Seq<usize>) -> bool {
    &&& forall|k: int|
        0 <= k < c.len() ==> (#[trigger] c[k]) < srcs.len() && srcs[c[k] as int].enabled
            && srcs[c[k] as int].hosts.contains(h)
    &&& forall|k1: int, k2: int| 0 <= k1 < k2 < c.len() ==> (#[trigger] c[k1]) < (#[trigger] c[k2])
    &&& forall|i: int|
        0 <= i < srcs.len() && (#[trigger] srcs[i]).enabled && srcs[i].hosts.contains(h)
            ==> c.contains(i as usize)
}

/// Some entry carries hostname `h`.
pub open spec fn has_entry(entries: Seq<SpecEffective>, h: Seq<u8>) -> bool {
    exists|k: int| 0 <= k < entries.len() && (#[trigger] entries[k]).host == h
}

/// No hostname carries both an enabled allow and an enabled redirect.
pub open spec fn no_ambiguity(a: Seq<SpecAllow>, r: Seq<SpecRedirect>) -> bool {
    forall|i: int, j: int|
        0 <= i < a.len() && 0 <= j < r.len() && (#[trigger] a[i]).enabled
            && (#[trigger] r[j]).enabled ==> a[i].host != r[j].host
}

/// Every entry is well-formed with respect to the inputs: hostnames are
/// pairwise distinct, every entry is in scope, its action follows the
/// precedence rules, and its contributor list is exact.
pub open spec fn entries_ok(
    srcs: Seq<SpecSourceBlocks>,
    allows: Seq<SpecAllow>,
    reds: Seq<SpecRedirect>,
    entries: Seq<SpecEffective>,
) -> bool {
    &&& forall|k1: int, k2: int|
        0 <= k1 < k2 < entries.len() ==> (#[trigger] entries[k1]).host != (
        #[trigger] entries[k2]).host
    &&& forall|k: int|
        0 <= k < entries.len() ==> in_scope(srcs, allows, reds, (#[trigger] entries[k]).host)
    &&& forall|k: int|
        0 <= k < entries.len() ==> (#[trigger] entries[k]).action == spec_action_for(
            allows,
            reds,
            entries[k].host,
        )
    &&& forall|k: int|
        0 <= k < entries.len() ==> good_contributors(
            srcs,
            (#[trigger] entries[k]).host,
            entries[k].contributors,
        )
}

/// How many entries resolve to Blocked.
pub open spec fn count_blocked(es: Seq<SpecEffective>) -> nat
    decreases es.len(),
{
    if es.len() == 0 {
        0
    } else {
        (count_blocked(es.drop_last()) + if es.last().action is Blocked {
            1nat
        } else {
            0nat
        }) as nat
    }
}

/// How many entries resolve to Allowed.
pub open spec fn count_allowed(es: Seq<SpecEffective>) -> nat
    decreases es.len(),
{
    if es.len() == 0 {
        0
    } else {
        (count_allowed(es.drop_last()) + if es.last().action is Allowed {
            1nat
        } else {
            0nat
        }) as nat
    }
}

/// How many entries resolve to Redirected.
pub open spec fn count_redirected(es: Seq<SpecEffective>) -> nat
    decreases es.len(),
{
    if es.len() == 0 {
        0
    } else {
        (count_redirected(es.drop_last()) + if es.last().action is Redirected {
            1nat
        } else {
            0nat
        }) as nat
    }
}

/// The three action counts sum to the entry count: every entry has
/// exactly one action.
pub proof fn lemma_counts(es: Seq<SpecEffective>)
    ensures
        count_blocked(es) + count_allowed(es) + count_redirected(es) == es.len(),
    decreases es.len(),
{
    if es.len() > 0 {
        lemma_counts(es.drop_last());
    }
}

/// The merge resolver's summary counts.
#[derive(Clone, Copy, Debug, PartialEq, Eq, Structural)]
pub struct MergeSummary {
    pub blocked: usize,
    pub allowed: usize,
    pub redirected: usize,
}

/// The merge resolver's full output.
#[derive(Clone, Debug)]
pub struct MergeOutput {
    pub entries: Vec<EffectiveEntry>,
    pub summary: MergeSummary,
}

/// An internal-consistency failure the resolver reports.
#[derive(Clone, Debug, PartialEq, Eq)]
pub enum MergeError {
    /// The hostname carries both an enabled allow and an enabled redirect.
    Ambiguous(Vec<u8>),
}

/// The complete postcondition of a successful merge.
pub open spec fn merge_ok_post(
    srcs: Seq<SpecSourceBlocks>,
    allows: Seq<SpecAllow>,
    reds: Seq<SpecRedirect>,
    entries: Seq<SpecEffective>,
    summary: MergeSummary,
) -> bool {
    &&& entries_ok(srcs, allows, reds, entries)
    &&& forall|i: int, j: int|
        #![trigger srcs[i].hosts[j]]
        0 <= i < srcs.len() && srcs[i].enabled && 0 <= j < srcs[i].hosts.len() ==> has_entry(
            entries,
            srcs[i].hosts[j],
        )
    &&& forall|i: int|
        0 <= i < allows.len() && (#[trigger] allows[i]).enabled ==> has_entry(
            entries,
            allows[i].host,
        )
    &&& forall|i: int|
        0 <= i < reds.len() && (#[trigger] reds[i]).enabled ==> has_entry(entries, reds[i].host)
    &&& summary.blocked == count_blocked(entries)
    &&& summary.allowed == count_allowed(entries)
    &&& summary.redirected == count_redirected(entries)
}

/// Redirect always dominates: a hostname blocked by any source that also
/// carries an enabled redirect resolves to Redirected, never Blocked.
pub proof fn lemma_redirect_dominates(
    srcs: Seq<SpecSourceBlocks>,
    allows: Seq<SpecAllow>,
    reds: Seq<SpecRedirect>,
    h: Seq<u8>,
)
    requires
        blocked_by(srcs, h),
        has_enabled_redirect(reds, h),
    ensures
        spec_action_for(allows, reds, h) == SpecAction::Redirected(spec_redirect_target(reds, h)),
        in_scope(srcs, allows, reds, h),
{
}

/// Allow dominates block but not redirect: a blocked hostname with an
/// enabled allow and no enabled redirect resolves to Allowed.
pub proof fn lemma_allow_dominates_block(
    srcs: Seq<SpecSourceBlocks>,
    allows: Seq<SpecAllow>,
    reds: Seq<SpecRedirect>,
    h: Seq<u8>,
)
    requires
        blocked_by(srcs, h),
        has_enabled_allow(allows, h),
        !has_enabled_redirect(reds, h),
    ensures
        spec_action_for(allows, reds, h) == SpecAction::Allowed,
        in_scope(srcs, allows, reds, h),
{
}

/// The sources that remain once the disabled ones are deleted.
pub open spec fn enabled_sources(s: Seq<SpecSourceBlocks>) -> Seq<SpecSourceBlocks>
    decreases s.len(),
{
    if s.len() == 0 {
        Seq::empty()
    } else if s[0].enabled {
        seq![s[0]] + enabled_sources(s.skip(1))
    } else {
        enabled_sources(s.skip(1))
    }
}

/// The allow entries that remain once the disabled ones are deleted.
pub open spec fn enabled_allows(a: Seq<SpecAllow>) -> Seq<SpecAllow>
    decreases a.len(),
{
    if a.len() == 0 {
        Seq::empty()
    } else if a[0].enabled {
        seq![a[0]] + enabled_allows(a.skip(1))
    } else {
        enabled_allows(a.skip(1))
    }
}

/// The redirect entries that remain once the disabled ones are deleted.
pub open spec fn enabled_redirects(r: Seq<SpecRedirect>) -> Seq<SpecRedirect>
    decreases r.len(),
{
    if r.len() == 0 {
        Seq::empty()
    } else if r[0].enabled {
        seq![r[0]] + enabled_redirects(r.skip(1))
    } else {
        enabled_redirects(r.skip(1))
    }
}

proof fn lemma_blocked_by_unfold(s: Seq<SpecSourceBlocks>, h: Seq<u8>)
    requires
        s.len() > 0,
    ensures
        blocked_by(s, h) == ((s[0].enabled && s[0].hosts.contains(h)) || blocked_by(s.skip(1), h)),
{
    if s[0].enabled && s[0].hosts.contains(h) {
        assert(blocked_by(s, h));
    }
    if blocked_by(s.skip(1), h) {
        let w = choose|i: int|
            0 <= i < s.skip(1).len() && (#[trigger] s.skip(1)[i]).enabled
                && s.skip(1)[i].hosts.contains(h);
        assert(s[w + 1] == s.skip(1)[w]);
        assert(blocked_by(s, h));
    }
    if blocked_by(s, h) {
        let w = choose|i: int|
            0 <= i < s.len() && (#[trigger] s[i]).enabled && s[i].hosts.contains(h);
        if w > 0 {
            assert(s.skip(1)[w - 1] == s[w]);
            assert(blocked_by(s.skip(1), h));
        }
    }
}

proof fn lemma_allow_unfold(a: Seq<SpecAllow>, h: Seq<u8>)
    requires
        a.len() > 0,
    ensures
        has_enabled_allow(a, h) == ((a[0].enabled && a[0].host == h) || has_enabled_allow(
            a.skip(1),
            h,
        )),
{
    if a[0].enabled && a[0].host == h {
        assert(has_enabled_allow(a, h));
    }
    if has_enabled_allow(a.skip(1), h) {
        let w = choose|i: int|
            0 <= i < a.skip(1).len() && (#[trigger] a.skip(1)[i]).enabled && a.skip(1)[i].host
                == h;
        assert(a[w + 1] == a.skip(1)[w]);
        assert(has_enabled_allow(a, h));
    }
    if has_enabled_allow(a, h) {
        let w = choose|i: int| 0 <= i < a.len() && (#[trigger] a[i]).enabled && a[i].host == h;
        if w > 0 {
            assert(a.skip(1)[w - 1] == a[w]);
            assert(has_enabled_allow(a.skip(1), h));
        }
    }
}

proof fn lemma_redirect_unfold(r: Seq<SpecRedirect>, h: Seq<u8>)
    requires
        r.len() > 0,
    ensures
        has_enabled_redirect(r, h) == ((r[0].enabled && r[0].host == h) || has_enabled_redirect(
            r.skip(1),
            h,
        )),
{
    if r[0].enabled && r[0].host == h {
        assert(has_enabled_redirect(r, h));
    }
    if has_enabled_redirect(r.skip(1), h) {
        let w = choose|i: int|
            0 <= i < r.skip(1).len() && (#[trigger] r.skip(1)[i]).enabled && r.skip(1)[i].host
                == h;
        assert(r[w + 1] == r.skip(1)[w]);
        assert(has_enabled_redirect(r, h));
    }
    if has_enabled_redirect(r, h) {
        let w = choose|i: int| 0 <= i < r.len() && (#[trigger] r[i]).enabled && r[i].host == h;
        if w > 0 {
            assert(r.skip(1)[w - 1] == r[w]);
            assert(has_enabled_redirect(r.skip(1), h));
        }
    }
}

proof fn lemma_enabled_sources_blocked(s: Seq<SpecSourceBlocks>, h: Seq<u8>)
    ensures
        blocked_by(s, h) == blocked_by(enabled_sources(s), h),
    decreases s.len(),
{
    if s.len() == 0 {
        assert(!blocked_by(s, h));
        assert(!blocked_by(enabled_sources(s), h));
    } else {
        lemma_enabled_sources_blocked(s.skip(1), h);
        lemma_blocked_by_unfold(s, h);
        if s[0].enabled {
            let f = seq![s[0]] + enabled_sources(s.skip(1));
            assert(f[0] == s[0]);
            assert(f.skip(1) =~= enabled_sources(s.skip(1)));
            lemma_blocked_by_unfold(f, h);
        }
    }
}

proof fn lemma_enabled_allows_has(a: Seq<SpecAllow>, h: Seq<u8>)
    ensures
        has_enabled_allow(a, h) == has_enabled_allow(enabled_allows(a), h),
    decreases a.len(),
{
    if a.len() == 0 {
        assert(!has_enabled_allow(a, h));
        assert(!has_enabled_allow(enabled_allows(a), h));
    } else {
        lemma_enabled_allows_has(a.skip(1), h);
        lemma_allow_unfold(a, h);
        if a[0].enabled {
            let f = seq![a[0]] + enabled_allows(a.skip(1));
            assert(f[0] == a[0]);
            assert(f.skip(1) =~= enabled_allows(a.skip(1)));
            lemma_allow_unfold(f, h);
        }
    }
}

proof fn lemma_enabled_redirects_has(r: Seq<SpecRedirect>, h: Seq<u8>)
    ensures
        has_enabled_redirect(r, h) == has_enabled_redirect(enabled_redirects(r), h),
        spec_redirect_target(r, h) == spec_redirect_target(enabled_redirects(r), h),
    decreases r.len(),
{
    if r.len() == 0 {
        assert(!has_enabled_redirect(r, h));
        assert(!has_enabled_redirect(enabled_redirects(r), h));
    } else {
        lemma_enabled_redirects_has(r.skip(1), h);
        lemma_redirect_unfold(r, h);
        if r[0].enabled {
            let f = seq![r[0]] + enabled_redirects(r.skip(1));
            assert(f[0] == r[0]);
            assert(f.skip(1) =~= enabled_redirects(r.skip(1)));
            lemma_redirect_unfold(f, h);
            if r[0].host == h {
                assert(spec_redirect_target(r, h) == r[0].ip);
                assert(spec_redirect_target(f, h) == f[0].ip);
            }
        }
    }
}

/// Disabling a source, an allow entry, or a redirect entry is equivalent
/// to deleting it, for merge purposes: for every hostname, being blocked,
/// being allowed, being redirected, the redirect target, scope membership
/// and the resolved action are all unchanged when the disabled inputs are
/// deleted outright.
pub proof fn lemma_disabled_equivalent_deleted(
    srcs: Seq<SpecSourceBlocks>,
    allows: Seq<SpecAllow>,
    reds: Seq<SpecRedirect>,
    h: Seq<u8>,
)
    ensures
        blocked_by(srcs, h) == blocked_by(enabled_sources(srcs), h),
        has_enabled_allow(allows, h) == has_enabled_allow(enabled_allows(allows), h),
        has_enabled_redirect(reds, h) == has_enabled_redirect(enabled_redirects(reds), h),
        has_enabled_redirect(reds, h) ==> spec_redirect_target(reds, h) == spec_redirect_target(
            enabled_redirects(reds),
            h,
        ),
        in_scope(srcs, allows, reds, h) == in_scope(
            enabled_sources(srcs),
            enabled_allows(allows),
            enabled_redirects(reds),
            h,
        ),
        spec_action_for(allows, reds, h) == spec_action_for(
            enabled_allows(allows),
            enabled_redirects(reds),
            h,
        ),
{
    lemma_enabled_sources_blocked(srcs, h);
    lemma_enabled_allows_has(allows, h);
    lemma_enabled_redirects_has(reds, h);
}

/// Whether the list of hostnames contains `h`.
fn contains_bytes(hs: &Vec<Vec<u8>>, h: &[u8]) -> (r: bool)
    ensures
        r == views(hs@).contains(h@),
{
    let mut i: usize = 0;
    while i < hs.len()
        invariant
            i <= hs@.len(),
            forall|k: int| 0 <= k < i ==> views(hs@)[k] != h@,
        decreases hs@.len() - i,
    {
        if bytes_eq(hs[i].as_slice(), h) {
            proof {
                assert(views(hs@)[i as int] == h@);
            }
            return true;
        }
        i += 1;
    }
    false
}

/// Whether some enabled allow entry carries `h`.
fn find_allow_enabled(allows: &Vec<AllowEntry>, h: &[u8]) -> (r: bool)
    ensures
        r == has_enabled_allow(allows_view(allows@), h@),
{
    let mut i: usize = 0;
    while i < allows.len()
        invariant
            i <= allows@.len(),
            forall|k: int|
                0 <= k < i ==> !((#[trigger] allows_view(allows@)[k]).enabled && allows_view(
                    allows@,
                )[k].host == h@),
        decreases allows@.len() - i,
    {
        if allows[i].enabled && bytes_eq(allows[i].host.as_slice(), h) {
            proof {
                assert((allows_view(allows@)[i as int]).enabled && allows_view(allows@)[
                    i as int].host == h@);
            }
            return true;
        }
        i += 1;
    }
    false
}

/// The target of the first enabled redirect entry for `h`, if any.
#[verifier::loop_isolation(false)]
fn find_redirect(redirects: &Vec<RedirectEntry>, h: &[u8]) -> (r: Option<Vec<u8>>)
    ensures
        match r {
            Some(ip) => has_enabled_redirect(redirects_view(redirects@), h@) && ip@
                == spec_redirect_target(redirects_view(redirects@), h@),
            None => !has_enabled_redirect(redirects_view(redirects@), h@),
        },
{
    let ghost rv = redirects_view(redirects@);
    let mut i: usize = 0;
    proof {
        assert(rv.skip(0) =~= rv);
    }
    while i < redirects.len()
        invariant
            i <= redirects@.len(),
            forall|k: int| 0 <= k < i ==> !((#[trigger] rv[k]).enabled && rv[k].host == h@),
            spec_redirect_target(rv, h@) == spec_redirect_target(rv.skip(i as int), h@),
        decreases redirects@.len() - i,
    {
        proof {
            assert(rv.skip(i as int)[0] == rv[i as int]);
        }
        if redirects[i].enabled && bytes_eq(redirects[i].host.as_slice(), h) {
            let ip = clone_bytes(&redirects[i].ip);
            proof {
                assert((rv[i as int]).enabled && rv[i as int].host == h@);
                assert(spec_redirect_target(rv.skip(i as int), h@) == rv[i as int].ip);
            }
            return Some(ip);
        }
        proof {
            assert(rv.skip(i as int).skip(1) =~= rv.skip(i as int + 1));
        }
        i += 1;
    }
    None
}

/// The action the precedence rules assign `h`.
fn find_action(allows: &Vec<AllowEntry>, redirects: &Vec<RedirectEntry>, h: &[u8]) -> (a: Action)
    ensures
        a@ == spec_action_for(allows_view(allows@), redirects_view(redirects@), h@),
{
    match find_redirect(redirects, h) {
        Some(ip) => Action::Redirected(ip),
        None => {
            if find_allow_enabled(allows, h) {
                Action::Allowed
            } else {
                Action::Blocked
            }
        },
    }
}

/// The indices of the enabled sources that block `h`, in increasing order.
fn contributors_for(sources: &Vec<SourceBlocks>, h: &[u8]) -> (c: Vec<usize>)
    ensures
        good_contributors(sources_view(sources@), h@, c@),
{
    let ghost sv = sources_view(sources@);
    let mut c: Vec<usize> = Vec::new();
    let mut i: usize = 0;
    while i < sources.len()
        invariant
            i <= sources@.len(),
            sv == sources_view(sources@),
            forall|k: int|
                0 <= k < c@.len() ==> (#[trigger] c@[k]) < i && sv[c@[k] as int].enabled
                    && sv[c@[k] as int].hosts.contains(h@),
            forall|k1: int, k2: int|
                0 <= k1 < k2 < c@.len() ==> (#[trigger] c@[k1]) < (#[trigger] c@[k2]),
            forall|i2: int|
                0 <= i2 < i && (#[trigger] sv[i2]).enabled && sv[i2].hosts.contains(h@)
                    ==> c@.contains(i2 as usize),
        decreases sources@.len() - i,
    {
        if sources[i].enabled && contains_bytes(&sources[i].hosts, h) {
            proof {
                assert(sv[i as int].enabled && sv[i as int].hosts.contains(h@));
            }
            let ghost c0 = c@;
            c.push(i);
            proof {
                assert(c@ == c0.push(i));
                assert(c@[c@.len() - 1] == i);
                assert forall|i2: int|
                    0 <= i2 < i + 1 && (#[trigger] sv[i2]).enabled && sv[i2].hosts.contains(h@)
                    implies c@.contains(i2 as usize) by {
                    if i2 < i {
                        assert(c0.contains(i2 as usize));
                        let w = choose|w: int| 0 <= w < c0.len() && c0[w] == i2 as usize;
                        assert(c@[w] == i2 as usize);
                    } else {
                        assert(c@[c@.len() - 1] == i2 as usize);
                    }
                }
            }
        }
        i += 1;
    }
    c
}

/// Whether the entry set already carries `h`.
fn has_entry_exec(entries: &Vec<EffectiveEntry>, h: &[u8]) -> (r: bool)
    ensures
        r == has_entry(entries_view(entries@), h@),
{
    let mut i: usize = 0;
    while i < entries.len()
        invariant
            i <= entries@.len(),
            forall|k: int| 0 <= k < i ==> (#[trigger] entries_view(entries@)[k]).host != h@,
        decreases entries@.len() - i,
    {
        if bytes_eq(entries[i].host.as_slice(), h) {
            proof {
                assert((entries_view(entries@)[i as int]).host == h@);
            }
            return true;
        }
        i += 1;
    }
    false
}

/// Add the effective entry for `h` unless one is already present.
fn add_host_entry(
    entries: &mut Vec<EffectiveEntry>,
    sources: &Vec<SourceBlocks>,
    allows: &Vec<AllowEntry>,
    redirects: &Vec<RedirectEntry>,
    h: &Vec<u8>,
)
    requires
        entries_ok(
            sources_view(sources@),
            allows_view(allows@),
            redirects_view(redirects@),
            entries_view(old(entries)@),
        ),
        in_scope(sources_view(sources@), allows_view(allows@), redirects_view(redirects@), h@),
    ensures
        entries_ok(
            sources_view(sources@),
            allows_view(allows@),
            redirects_view(redirects@),
            entries_view(final(entries)@),
        ),
        has_entry(entries_view(final(entries)@), h@),
        forall|x: Seq<u8>|
            #[trigger] has_entry(entries_view(old(entries)@), x) ==> has_entry(
                entries_view(final(entries)@),
                x,
            ),
{
    if has_entry_exec(entries, h.as_slice()) {
        return;
    }
    let action = find_action(allows, redirects, h.as_slice());
    let contributors = contributors_for(sources, h.as_slice());
    let host = clone_bytes(h);
    let e = EffectiveEntry { host, action, contributors };
    let ghost oldv = entries_view(entries@);
    proof {
        assert(e@.host == h@);
        assert(entries_view(entries@.push(e)) =~= oldv.push(e@));
    }
    entries.push(e);
    proof {
        let newv = entries_view(entries@);
        assert(newv == oldv.push(e@));
        assert(newv[newv.len() - 1] == e@);
        assert forall|k: int| 0 <= k < oldv.len() implies newv[k] == oldv[k] by {}
        assert forall|x: Seq<u8>| #[trigger] has_entry(oldv, x) implies has_entry(newv, x) by {
            let w = choose|w: int| 0 <= w < oldv.len() && oldv[w].host == x;
            assert(newv[w].host == x);
        }
        assert(has_entry(newv, h@));
    }
}

/// Merge the blocked hostnames of all enabled sources with the enabled
/// overrides into the effective entry set, with summary counts. Every
/// hostname appears at most once; redirect wins over allow and block,
/// allow wins over block; disabled inputs take no part. Fails if and only
/// if some hostname carries both an enabled allow and an enabled redirect.
#[verifier::loop_isolation(false)]
pub fn merge(
    sources: &Vec<SourceBlocks>,
    allows: &Vec<AllowEntry>,
    redirects: &Vec<RedirectEntry>,
) -> (r: Result<MergeOutput, MergeError>)
    ensures
        match r {
            Ok(out) => merge_ok_post(
                sources_view(sources@),
                allows_view(allows@),
                redirects_view(redirects@),
                entries_view(out.entries@),
                out.summary,
            ),
            Err(MergeError::Ambiguous(h)) => has_enabled_allow(allows_view(allows@), h@)
                && has_enabled_redirect(redirects_view(redirects@), h@),
        },
        r is Ok == no_ambiguity(allows_view(allows@), redirects_view(redirects@)),
{
    let ghost sv = sources_view(sources@);
    let ghost av = allows_view(allows@);
    let ghost rv = redirects_view(redirects@);
    // Detect the ambiguous-override case first.
    let mut i: usize = 0;
    while i < allows.len()
        invariant
            i <= allows@.len(),
            forall|i2: int, j2: int|
                0 <= i2 < i && 0 <= j2 < rv.len() && (#[trigger] av[i2]).enabled
                    && (#[trigger] rv[j2]).enabled ==> av[i2].host != rv[j2].host,
        decreases allows@.len() - i,
    {
        if allows[i].enabled {
            let mut j: usize = 0;
            while j < redirects.len()
                invariant
                    i < allows@.len(),
                    j <= redirects@.len(),
                    av[i as int].enabled,
                    av[i as int].host == allows@[i as int].host@,
                    forall|j2: int|
                        0 <= j2 < j && (#[trigger] rv[j2]).enabled ==> av[i as int].host
                            != rv[j2].host,
                decreases redirects@.len() - j,
            {
                if redirects[j].enabled && bytes_eq(
                    allows[i].host.as_slice(),
                    redirects[j].host.as_slice(),
                ) {
                    let witness = clone_bytes(&allows[i].host);
                    proof {
                        assert((rv[j as int]).enabled && rv[j as int].host == witness@);
                        assert((av[i as int]).enabled && av[i as int].host == witness@);
                    }
                    return Err(MergeError::Ambiguous(witness));
                }
                j += 1;
            }
        }
        i += 1;
    }
    // Blocked hostnames from every enabled source.
    let mut entries: Vec<EffectiveEntry> = Vec::new();
    proof {
        assert(entries_view(entries@) =~= Seq::<SpecEffective>::empty());
    }
    let mut i: usize = 0;
    while i < sources.len()
        invariant
            i <= sources@.len(),
            entries_ok(sv, av, rv, entries_view(entries@)),
            forall|i2: int, j2: int|
                #![trigger sv[i2].hosts[j2]]
                0 <= i2 < i && sv[i2].enabled && 0 <= j2 < sv[i2].hosts.len() ==> has_entry(
                    entries_view(entries@),
                    sv[i2].hosts[j2],
                ),
        decreases sources@.len() - i,
    {
        if sources[i].enabled {
            let src = &sources[i];
            proof {
                assert(src@ == sv[i as int]);
            }
            let mut j: usize = 0;
            while j < src.hosts.len()
                invariant
                    i < sources@.len(),
                    j <= sv[i as int].hosts.len(),
                    src@ == sv[i as int],
                    sv[i as int].enabled,
                    src.hosts@.len() == sv[i as int].hosts.len(),
                    entries_ok(sv, av, rv, entries_view(entries@)),
                    forall|i2: int, j2: int|
                        #![trigger sv[i2].hosts[j2]]
                        0 <= i2 < i && sv[i2].enabled && 0 <= j2 < sv[i2].hosts.len() ==> has_entry(
                            entries_view(entries@),
                            sv[i2].hosts[j2],
                        ),
                    forall|j2: int|
                        0 <= j2 < j ==> has_entry(
                            entries_view(entries@),
                            #[trigger] sv[i as int].hosts[j2],
                        ),
                decreases src.hosts@.len() - j,
            {
                let h = &src.hosts[j];
                proof {
                    assert(h@ == sv[i as int].hosts[j as int]);
                    assert(sv[i as int].hosts.contains(h@));
                    assert(blocked_by(sv, h@));
                }
                add_host_entry(&mut entries, sources, allows, redirects, h);
                j += 1;
            }
        }
        i += 1;
    }
    // Enabled allow entries.
    let mut i: usize = 0;
    while i < allows.len()
        invariant
            i <= allows@.len(),
            entries_ok(sv, av, rv, entries_view(entries@)),
            forall|i2: int, j2: int|
                #![trigger sv[i2].hosts[j2]]
                0 <= i2 < sv.len() && sv[i2].enabled && 0 <= j2 < sv[i2].hosts.len() ==> has_entry(
                    entries_view(entries@),
                    sv[i2].hosts[j2],
                ),
            forall|i2: int|
                0 <= i2 < i && (#[trigger] av[i2]).enabled ==> has_entry(
                    entries_view(entries@),
                    av[i2].host,
                ),
        decreases allows@.len() - i,
    {
        if allows[i].enabled {
            let h = &allows[i].host;
            proof {
                assert(av[i as int].enabled && av[i as int].host == h@);
                assert(has_enabled_allow(av, h@));
            }
            add_host_entry(&mut entries, sources, allows, redirects, h);
        }
        i += 1;
    }
    // Enabled redirect entries.
    let mut i: usize = 0;
    while i < redirects.len()
        invariant
            i <= redirects@.len(),
            entries_ok(sv, av, rv, entries_view(entries@)),
            forall|i2: int, j2: int|
                #![trigger sv[i2].hosts[j2]]
                0 <= i2 < sv.len() && sv[i2].enabled && 0 <= j2 < sv[i2].hosts.len() ==> has_entry(
                    entries_view(entries@),
                    sv[i2].hosts[j2],
                ),
            forall|i2: int|
                0 <= i2 < av.len() && (#[trigger] av[i2]).enabled ==> has_entry(
                    entries_view(entries@),
                    av[i2].host,
                ),
            forall|i2: int|
                0 <= i2 < i && (#[trigger] rv[i2]).enabled ==> has_entry(
                    entries_view(entries@),
                    rv[i2].host,
                ),
        decreases redirects@.len() - i,
    {
        if redirects[i].enabled {
            let h = &redirects[i].host;
            proof {
                assert(rv[i as int].enabled && rv[i as int].host == h@);
                assert(has_enabled_redirect(rv, h@));
            }
            add_host_entry(&mut entries, sources, allows, redirects, h);
        }
        i += 1;
    }
    // Summary counts.
    let ghost ev = entries_view(entries@);
    let mut blocked: usize = 0;
    let mut allowed: usize = 0;
    let mut redirected: usize = 0;
    let mut i: usize = 0;
    proof {
        assert(ev.take(0) =~= Seq::<SpecEffective>::empty());
    }
    while i < entries.len()
        invariant
            i <= entries@.len(),
            ev == entries_view(entries@),
            blocked == count_blocked(ev.take(i as int)),
            allowed == count_allowed(ev.take(i as int)),
            redirected == count_redirected(ev.take(i as int)),
        decreases entries@.len() - i,
    {
        proof {
            lemma_counts(ev.take(i as int));
            assert(ev.take(i as int + 1).drop_last() =~= ev.take(i as int));
            assert(ev.take(i as int + 1).last() == ev[i as int]);
            assert(ev[i as int] == entries@[i as int]@);
        }
        match entries[i].action {
            Action::Blocked => blocked += 1,
            Action::Allowed => allowed += 1,
            Action::Redirected(_) => redirected += 1,
        }
        i += 1;
    }
    proof {
        assert(ev.take(i as int) =~= ev);
    }
    Ok(
        MergeOutput {
            entries,
            summary: MergeSummary { blocked, allowed, redirected },
        },
    )
}

} // verus!
