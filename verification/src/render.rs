//! Rendering the effective entry set into the operating system's
//! hosts-file line format: one "address hostname" line per blocked or
//! redirected hostname; allowed hostnames contribute no line.

use crate::merge::{entries_view, Action, EffectiveEntry, SpecAction, SpecEffective};
use vstd::prelude::*;

verus! {

/// The null address every blocked hostname resolves to: "0.0.0.0".
pub open spec fn spec_block_address() -> Seq<u8> {
    seq![48u8, 46u8, 48u8, 46u8, 48u8, 46u8, 48u8]
}

/// The null address as bytes.
pub fn block_address() -> (r: Vec<u8>)
    ensures
        r@ == spec_block_address(),
{
    let mut v: Vec<u8> = Vec::new();
    v.push(48);
    v.push(46);
    v.push(48);
    v.push(46);
    v.push(48);
    v.push(46);
    v.push(48);
    proof {
        assert(v@ =~= spec_block_address());
    }
    v
}

/// The line one entry contributes: address, one space, hostname, one
/// newline. An Allowed entry contributes nothing.
pub open spec fn spec_render_entry(e: SpecEffective) -> Seq<u8> {
    match e.action {
        SpecAction::Blocked => spec_block_address() + seq![32u8] + e.host + seq![10u8],
        SpecAction::Allowed => Seq::empty(),
        SpecAction::Redirected(ip) => ip + seq![32u8] + e.host + seq![10u8],
    }
}

/// The rendered file: every entry's line, in entry order.
pub open spec fn spec_render(es: Seq<SpecEffective>) -> Seq<u8>
    decreases es.len(),
{
    if es.len() == 0 {
        Seq::empty()
    } else {
        spec_render_entry(es[0]) + spec_render(es.skip(1))
    }
}

/// Render the effective entries in the system hosts-file format.
#[verifier::loop_isolation(false)]
pub fn render(entries: &Vec<EffectiveEntry>) -> (r: Vec<u8>)
    ensures
        r@ == spec_render(entries_view(entries@)),
{
    let ghost ev = entries_view(entries@);
    let mut r: Vec<u8> = Vec::new();
    let mut i: usize = 0;
    proof {
        assert(ev.skip(0) =~= ev);
        assert(r@ + spec_render(ev) =~= spec_render(ev));
    }
    while i < entries.len()
        invariant
            i <= entries@.len(),
            r@ + spec_render(ev.skip(i as int)) == spec_render(ev),
        decreases entries@.len() - i,
    {
        let ghost pre = r@;
        proof {
            assert(ev.skip(i as int)[0] == ev[i as int]);
            assert(ev.skip(i as int).skip(1) =~= ev.skip(i as int + 1));
        }
        let e = &entries[i];
        proof {
            assert(e@ == ev[i as int]);
        }
        match &e.action {
            Action::Blocked => {
                let addr = block_address();
                r.append(&mut { addr });
                r.push(32);
                r.extend_from_slice(e.host.as_slice());
                r.push(10);
                proof {
                    assert(r@ =~= pre + spec_render_entry(ev[i as int]));
                }
            },
            Action::Allowed => {
                proof {
                    assert(r@ =~= pre + spec_render_entry(ev[i as int]));
                }
            },
            Action::Redirected(ip) => {
                r.extend_from_slice(ip.as_slice());
                r.push(32);
                r.extend_from_slice(e.host.as_slice());
                r.push(10);
                proof {
                    assert(r@ =~= pre + spec_render_entry(ev[i as int]));
                }
            },
        }
        proof {
            assert((pre + spec_render_entry(ev[i as int])) + spec_render(ev.skip(i as int + 1))
                =~= pre + (spec_render_entry(ev[i as int]) + spec_render(ev.skip(i as int + 1))));
        }
        i += 1;
    }
    proof {
        assert(ev.skip(i as int) =~= Seq::<SpecEffective>::empty());
        assert(r@ + Seq::<u8>::empty() =~= r@);
    }
    r
}

} // verus!
