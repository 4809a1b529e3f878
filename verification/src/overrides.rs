//! User-authored allow and redirect overrides.
//!
//! The store normalizes hostnames on entry and enforces, at the point of
//! mutation, that a hostname is unique within each set and never present
//! in both sets at once (the ambiguous-override case).

use crate::host::{normalize_hostname, normalize_spec};
use vstd::prelude::*;

verus! {

/// A hostname the user exempts from blocking.
#[derive(Clone, Debug, PartialEq, Eq)]
pub struct AllowEntry {
    /// Normalized hostname.
    pub host: Vec<u8>,
    /// A disabled entry takes no part in merging.
    pub enabled: bool,
}

/// A hostname the user redirects to a fixed address.
#[derive(Clone, Debug, PartialEq, Eq)]
pub struct RedirectEntry {
    /// Normalized hostname.
    pub host: Vec<u8>,
    /// Redirect target address, kept as the user wrote it.
    pub ip: Vec<u8>,
    /// A disabled entry takes no part in merging.
    pub enabled: bool,
}

/// Mathematical image of an `AllowEntry`.
pub struct SpecAllow {
    pub host: Seq<u8>,
    pub enabled: bool,
}

/// Mathematical image of a `RedirectEntry`.
pub struct SpecRedirect {
    pub host: Seq<u8>,
    pub ip: Seq<u8>,
    pub enabled: bool,
}

impl View for AllowEntry {
    type V = SpecAllow;

    open spec fn view(&self) -> SpecAllow {
        SpecAllow { host: self.host@, enabled: self.enabled }
    }
}

impl View for RedirectEntry {
    type V = SpecRedirect;

    open spec fn view(&self) -> SpecRedirect {
        SpecRedirect { host: self.host@, ip: self.ip@, enabled: self.enabled }
    }
}

/// The views of a sequence of allow entries.
pub open spec fn allows_view(v: Seq<AllowEntry>) -> Seq<SpecAllow> {
    v.map_values(|e: AllowEntry| e@)
}

/// The views of a sequence of redirect entries.
pub open spec fn redirects_view(v: Seq<RedirectEntry>) -> Seq<SpecRedirect> {
    v.map_values(|e: RedirectEntry| e@)
}

/// Some allow entry carries hostname `h`.
pub open spec fn allow_has_host(a: Seq<SpecAllow>, h: Seq<u8>) -> bool {
    exists|i: int| 0 <= i < a.len() && (#[trigger] a[i]).host == h
}

/// Some redirect entry carries hostname `h`.
pub open spec fn redirect_has_host(r: Seq<SpecRedirect>, h: Seq<u8>) -> bool {
    exists|i: int| 0 <= i < r.len() && (#[trigger] r[i]).host == h
}

/// Some enabled allow entry carries hostname `h`.
pub open spec fn has_enabled_allow(a: Seq<SpecAllow>, h: Seq<u8>) -> bool {
    exists|i: int| 0 <= i < a.len() && (#[trigger] a[i]).enabled && a[i].host == h
}

/// Some enabled redirect entry carries hostname `h`.
pub open spec fn has_enabled_redirect(r: Seq<SpecRedirect>, h: Seq<u8>) -> bool {
    exists|i: int| 0 <= i < r.len() && (#[trigger] r[i]).enabled && r[i].host == h
}

/// The target address of the first enabled redirect entry for `h`.
pub open spec fn spec_redirect_target(r: Seq<SpecRedirect>, h: Seq<u8>) -> Seq<u8>
    decreases r.len(),
{
    if r.len() == 0 {
        Seq::empty()
    } else if r[0].enabled && r[0].host == h {
        r[0].ip
    } else {
        spec_redirect_target(r.skip(1), h)
    }
}

/// Hostnames are pairwise distinct within the allow set.
pub open spec fn unique_allow_hosts(a: Seq<SpecAllow>) -> bool {
    forall|i: int, j: int| 0 <= i < j < a.len() ==> (#[trigger] a[i]).host != (#[trigger] a[j]).host
}

/// Hostnames are pairwise distinct within the redirect set.
pub open spec fn unique_redirect_hosts(r: Seq<SpecRedirect>) -> bool {
    forall|i: int, j: int| 0 <= i < j < r.len() ==> (#[trigger] r[i]).host != (#[trigger] r[j]).host
}

/// No hostname sits in both sets at once.
pub open spec fn disjoint_override_hosts(a: Seq<SpecAllow>, r: Seq<SpecRedirect>) -> bool {
    forall|i: int, j: int|
        0 <= i < a.len() && 0 <= j < r.len() ==> (#[trigger] a[i]).host != (#[trigger] r[j]).host
}

/// A mutation the store rejects.
#[derive(Clone, Debug, PartialEq, Eq)]
pub enum OverrideError {
    /// The hostname normalizes to the empty string.
    EmptyHostname,
    /// The hostname already sits in the allow or redirect set.
    Conflict(Vec<u8>),
}

/// The override store: both user-authored sets, kept consistent.
#[derive(Clone, Debug)]
pub struct OverrideStore {
    allows: Vec<AllowEntry>,
    redirects: Vec<RedirectEntry>,
}

impl View for OverrideStore {
    type V = (Seq<SpecAllow>, Seq<SpecRedirect>);

    closed spec fn view(&self) -> (Seq<SpecAllow>, Seq<SpecRedirect>) {
        (allows_view(self.allows@), redirects_view(self.redirects@))
    }
}

impl OverrideStore {
    /// Every stored hostname is nonempty, unique within its set, and
    /// absent from the other set.
    pub open spec fn wf(&self) -> bool {
        &&& forall|i: int| 0 <= i < self@.0.len() ==> (#[trigger] self@.0[i]).host.len() > 0
        &&& forall|i: int| 0 <= i < self@.1.len() ==> (#[trigger] self@.1[i]).host.len() > 0
        &&& unique_allow_hosts(self@.0)
        &&& unique_redirect_hosts(self@.1)
        &&& disjoint_override_hosts(self@.0, self@.1)
    }

    /// An empty store.
    pub fn new() -> (s: Self)
        ensures
            s.wf(),
            s@.0 == Seq::<SpecAllow>::empty(),
            s@.1 == Seq::<SpecRedirect>::empty(),
    {
        let s = OverrideStore { allows: Vec::new(), redirects: Vec::new() };
        proof {
            assert(s@.0 =~= Seq::<SpecAllow>::empty());
            assert(s@.1 =~= Seq::<SpecRedirect>::empty());
        }
        s
    }

    /// Read access to the allow set.
    pub fn allows(&self) -> (r: &Vec<AllowEntry>)
        ensures
            allows_view(r@) == self@.0,
    {
        &self.allows
    }

    /// Read access to the redirect set.
    pub fn redirects(&self) -> (r: &Vec<RedirectEntry>)
        ensures
            redirects_view(r@) == self@.1,
    {
        &self.redirects
    }

    /// Whether either set already carries hostname `h`.
    fn has_host(&self, h: &Vec<u8>) -> (r: bool)
        ensures
            r == (allow_has_host(self@.0, h@) || redirect_has_host(self@.1, h@)),
    {
        let mut i: usize = 0;
        while i < self.allows.len()
            invariant
                i <= self.allows@.len(),
                forall|k: int| 0 <= k < i ==> (#[trigger] allows_view(self.allows@)[k]).host != h@,
            decreases self.allows@.len() - i,
        {
            if self.allows[i].host == *h {
                proof {
                    assert((allows_view(self.allows@)[i as int]).host == h@);
                }
                return true;
            }
            i += 1;
        }
        let mut j: usize = 0;
        while j < self.redirects.len()
            invariant
                j <= self.redirects@.len(),
                forall|k: int|
                    0 <= k < j ==> (#[trigger] redirects_view(self.redirects@)[k]).host != h@,
            decreases self.redirects@.len() - j,
        {
            if self.redirects[j].host == *h {
                proof {
                    assert((redirects_view(self.redirects@)[j as int]).host == h@);
                }
                return true;
            }
            j += 1;
        }
        false
    }

    /// Add an allow entry for `raw_host`, normalizing it first. Rejects a
    /// hostname that normalizes to nothing, or that either set already
    /// carries; on rejection the store is unchanged.
    pub fn add_allow(&mut self, raw_host: &[u8], enabled: bool) -> (r: Result<(), OverrideError>)
        requires
            old(self).wf(),
        ensures
            final(self).wf(),
            match r {
                Ok(()) => {
                    &&& normalize_spec(raw_host@).len() > 0
                    &&& !allow_has_host(old(self)@.0, normalize_spec(raw_host@))
                    &&& !redirect_has_host(old(self)@.1, normalize_spec(raw_host@))
                    &&& final(self)@.0 == old(self)@.0.push(
                        SpecAllow { host: normalize_spec(raw_host@), enabled },
                    )
                    &&& final(self)@.1 == old(self)@.1
                },
                Err(OverrideError::EmptyHostname) => {
                    &&& normalize_spec(raw_host@).len() == 0
                    &&& final(self)@ == old(self)@
                },
                Err(OverrideError::Conflict(h)) => {
                    &&& h@ == normalize_spec(raw_host@)
                    &&& (allow_has_host(old(self)@.0, h@) || redirect_has_host(old(self)@.1, h@))
                    &&& final(self)@ == old(self)@
                },
            },
    {
        let host = normalize_hostname(raw_host);
        if host.len() == 0 {
            return Err(OverrideError::EmptyHostname);
        }
        if self.has_host(&host) {
            return Err(OverrideError::Conflict(host));
        }
        let ghost pre = self@;
        self.allows.push(AllowEntry { host, enabled });
        proof {
            assert(self@.0 =~= pre.0.push(
                SpecAllow { host: normalize_spec(raw_host@), enabled },
            ));
            assert(self@.1 =~= pre.1);
        }
        Ok(())
    }

    /// Add a redirect entry for `raw_host` with target `ip`, normalizing
    /// the hostname first. Rejections mirror `add_allow`.
    pub fn add_redirect(&mut self, raw_host: &[u8], ip: &[u8], enabled: bool) -> (r: Result<
        (),
        OverrideError,
    >)
        requires
            old(self).wf(),
        ensures
            final(self).wf(),
            match r {
                Ok(()) => {
                    &&& normalize_spec(raw_host@).len() > 0
                    &&& !allow_has_host(old(self)@.0, normalize_spec(raw_host@))
                    &&& !redirect_has_host(old(self)@.1, normalize_spec(raw_host@))
                    &&& final(self)@.1 == old(self)@.1.push(
                        SpecRedirect { host: normalize_spec(raw_host@), ip: ip@, enabled },
                    )
                    &&& final(self)@.0 == old(self)@.0
                },
                Err(OverrideError::EmptyHostname) => {
                    &&& normalize_spec(raw_host@).len() == 0
                    &&& final(self)@ == old(self)@
                },
                Err(OverrideError::Conflict(h)) => {
                    &&& h@ == normalize_spec(raw_host@)
                    &&& (allow_has_host(old(self)@.0, h@) || redirect_has_host(old(self)@.1, h@))
                    &&& final(self)@ == old(self)@
                },
            },
    {
        let host = normalize_hostname(raw_host);
        if host.len() == 0 {
            return Err(OverrideError::EmptyHostname);
        }
        if self.has_host(&host) {
            return Err(OverrideError::Conflict(host));
        }
        let ghost pre = self@;
        let ip_copy = vstd::slice::slice_to_vec(ip);
        self.redirects.push(RedirectEntry { host, ip: ip_copy, enabled });
        proof {
            assert(self@.1 =~= pre.1.push(
                SpecRedirect { host: normalize_spec(raw_host@), ip: ip@, enabled },
            ));
            assert(self@.0 =~= pre.0);
        }
        Ok(())
    }

    /// Remove the allow entry at `i`.
    pub fn remove_allow(&mut self, i: usize)
        requires
            old(self).wf(),
            i < old(self)@.0.len(),
        ensures
            final(self).wf(),
            final(self)@.0 == old(self)@.0.remove(i as int),
            final(self)@.1 == old(self)@.1,
    {
        let ghost pre = self@;
        self.allows.remove(i);
        proof {
            assert(self@.0 =~= pre.0.remove(i as int));
        }
    }

    /// Remove the redirect entry at `i`.
    pub fn remove_redirect(&mut self, i: usize)
        requires
            old(self).wf(),
            i < old(self)@.1.len(),
        ensures
            final(self).wf(),
            final(self)@.1 == old(self)@.1.remove(i as int),
            final(self)@.0 == old(self)@.0,
    {
        let ghost pre = self@;
        self.redirects.remove(i);
        proof {
            assert(self@.1 =~= pre.1.remove(i as int));
        }
    }

    /// Enable or disable the allow entry at `i`.
    pub fn set_allow_enabled(&mut self, i: usize, enabled: bool)
        requires
            old(self).wf(),
            i < old(self)@.0.len(),
        ensures
            final(self).wf(),
            final(self)@.0 == old(self)@.0.update(
                i as int,
                SpecAllow { host: old(self)@.0[i as int].host, enabled },
            ),
            final(self)@.1 == old(self)@.1,
    {
        let ghost pre = self@;
        let host = self.allows[i].host.clone();
        proof {
            assert(host@ == pre.0[i as int].host);
        }
        self.allows.set(i, AllowEntry { host, enabled });
        proof {
            assert(self@.0 =~= pre.0.update(
                i as int,
                SpecAllow { host: pre.0[i as int].host, enabled },
            ));
        }
    }

    /// Enable or disable the redirect entry at `i`.
    pub fn set_redirect_enabled(&mut self, i: usize, enabled: bool)
        requires
            old(self).wf(),
            i < old(self)@.1.len(),
        ensures
            final(self).wf(),
            final(self)@.1 == old(self)@.1.update(
                i as int,
                SpecRedirect {
                    host: old(self)@.1[i as int].host,
                    ip: old(self)@.1[i as int].ip,
                    enabled,
                },
            ),
            final(self)@.0 == old(self)@.0,
    {
        let ghost pre = self@;
        let host = self.redirects[i].host.clone();
        let ip = self.redirects[i].ip.clone();
        proof {
            assert(host@ == pre.1[i as int].host);
            assert(ip@ == pre.1[i as int].ip);
        }
        self.redirects.set(i, RedirectEntry { host, ip, enabled });
        proof {
            assert(self@.1 =~= pre.1.update(
                i as int,
                SpecRedirect { host: pre.1[i as int].host, ip: pre.1[i as int].ip, enabled },
            ));
        }
    }
}

} // verus!
