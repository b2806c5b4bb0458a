//! Which local addresses go to which configured domains.

use crate::ipv4::{ipv4_text, dotted, Ipv4Net};
use crate::label::{fqdn_of, make_fqdn};
use vstd::prelude::*;

verus! {

/// A configured pair: addresses in `net` are published under `domain`.
pub struct DomainMapping {
    pub net: Ipv4Net,
    pub domain: String,
}

/// A local address and the index of a mapping whose network holds it.
#[derive(Clone, Copy, Debug, PartialEq, Eq, Structural)]
pub struct WorkItem {
    pub addr: u32,
    pub mapping: usize,
}

/// One unit of reconciliation: publish `data` (an address in dotted-decimal
/// text) as the address record of `fqdn`, which lies under the configured
/// domain `domain`.
#[derive(Clone, Debug)]
pub struct Target {
    pub fqdn: String,
    pub domain: String,
    pub data: String,
}

/// The pairs of `addr` with the first `n` mappings that hold it, in mapping order.
pub open spec fn row(addr: u32, maps: Seq<DomainMapping>, n: nat) -> Seq<WorkItem>
    decreases n,
{
    if n == 0 {
        Seq::empty()
    } else {
        let k = (n - 1) as nat;
        row(addr, maps, k) + if maps[k as int].net.spec_contains(addr) {
            seq![WorkItem { addr, mapping: k as usize }]
        } else {
            Seq::empty()
        }
    }
}

/// The work set: for each address in order, the mappings that hold it, in order.
pub open spec fn work_set(addrs: Seq<u32>, maps: Seq<DomainMapping>) -> Seq<WorkItem>
    decreases addrs.len(),
{
    if addrs.len() == 0 {
        Seq::empty()
    } else {
        work_set(addrs.drop_last(), maps) + row(addrs.last(), maps, maps.len())
    }
}

/// The target of a work item, for a host named `host`.
pub open spec fn target_matches(
    t: Target,
    w: WorkItem,
    host: Seq<char>,
    maps: Seq<DomainMapping>,
) -> bool {
    &&& t.fqdn@ == fqdn_of(host, maps[w.mapping as int].domain@)
    &&& t.domain@ == maps[w.mapping as int].domain@
    &&& t.data@ == dotted(w.addr)
}

/// Every pair of a local address and a mapping whose network holds it.
pub fn match_addresses(addrs: &Vec<u32>, maps: &Vec<DomainMapping>) -> (r: Vec<WorkItem>)
    ensures
        r@ == work_set(addrs@, maps@),
{
    let mut out: Vec<WorkItem> = Vec::new();
    let mut i: usize = 0;
    while i < addrs.len()
        invariant
            i <= addrs.len(),
            out@ == work_set(addrs@.subrange(0, i as int), maps@),
        decreases addrs.len() - i,
    {
        let a = addrs[i];
        let ghost before = out@;
        let mut k: usize = 0;
        while k < maps.len()
            invariant
                k <= maps.len(),
                a == addrs@[i as int],
                out@ == before + row(a, maps@, k as nat),
            decreases maps.len() - k,
        {
            if maps[k].net.contains(a) {
                out.push(WorkItem { addr: a, mapping: k });
            }
            proof {
                assert(row(a, maps@, (k + 1) as nat) == row(a, maps@, k as nat) + if maps@[k as int].net.spec_contains(a) {
                    seq![WorkItem { addr: a, mapping: k }]
                } else {
                    Seq::empty()
                });
            }
            k = k + 1;
        }
        proof {
            let s = addrs@.subrange(0, i + 1);
            assert(s.drop_last() =~= addrs@.subrange(0, i as int));
            assert(s.last() == a);
        }
        i = i + 1;
    }
    assert(addrs@.subrange(0, addrs.len() as int) =~= addrs@);
    out
}

/// The reconciliation target of each work item, for a host named `host`.
pub fn make_targets(host: &str, work: &Vec<WorkItem>, maps: &Vec<DomainMapping>) -> (r: Vec<Target>)
    requires
        forall|k: int| 0 <= k < work.len() ==> #[trigger] work@[k].mapping < maps.len(),
    ensures
        r.len() == work.len(),
        forall|k: int| 0 <= k < work.len() ==> target_matches(#[trigger] r@[k], work@[k], host@, maps@),
{
    let mut out: Vec<Target> = Vec::new();
    let mut i: usize = 0;
    while i < work.len()
        invariant
            i <= work.len(),
            out.len() == i,
            forall|k: int| 0 <= k < work.len() ==> #[trigger] work@[k].mapping < maps.len(),
            forall|k: int| 0 <= k < i ==> target_matches(#[trigger] out@[k], work@[k], host@, maps@),
        decreases work.len() - i,
    {
        let w = work[i];
        let m = &maps[w.mapping];
        let t = Target {
            fqdn: make_fqdn(host, m.domain.as_str()),
            domain: m.domain.clone(),
            data: ipv4_text(w.addr),
        };
        out.push(t);
        i = i + 1;
    }
    out
}

/// The reconciliation targets of a host named `host`: one for each pair of a
/// local address and a mapping whose network holds it, addresses in order,
/// and for each address the mappings in order.
pub fn plan_targets(host: &str, addrs: &Vec<u32>, maps: &Vec<DomainMapping>) -> (r: Vec<Target>)
    ensures
        r.len() == work_set(addrs@, maps@).len(),
        forall|k: int|
            0 <= k < r.len() ==> target_matches(
                #[trigger] r@[k],
                work_set(addrs@, maps@)[k],
                host@,
                maps@,
            ),
{
    let _n = maps.len();
    let work = match_addresses(addrs, maps);
    proof {
        lemma_work_set_bounds(addrs@, maps@);
    }
    make_targets(host, &work, maps)
}

/// Every item of the work set names a mapping.
pub proof fn lemma_work_set_bounds(addrs: Seq<u32>, maps: Seq<DomainMapping>)
    requires
        maps.len() <= usize::MAX,
    ensures
        forall|k: int|
            0 <= k < work_set(addrs, maps).len() ==> #[trigger] work_set(addrs, maps)[k].mapping
                < maps.len(),
{
    lemma_work_set_members(addrs, maps);
    assert forall|k: int| 0 <= k < work_set(addrs, maps).len() implies #[trigger] work_set(
        addrs,
        maps,
    )[k].mapping < maps.len() by {
        assert(work_set(addrs, maps).contains(work_set(addrs, maps)[k]));
    }
}

proof fn lemma_row_members(addr: u32, maps: Seq<DomainMapping>, n: nat)
    requires
        n <= maps.len() <= usize::MAX,
    ensures
        forall|w: WorkItem|
            #[trigger] row(addr, maps, n).contains(w) <==> (w.addr == addr && w.mapping < n
                && maps[w.mapping as int].net.spec_contains(addr)),
    decreases n,
{
    if n > 0 {
        let k = (n - 1) as nat;
        lemma_row_members(addr, maps, k);
        let tail = if maps[k as int].net.spec_contains(addr) {
            seq![WorkItem { addr, mapping: k as usize }]
        } else {
            Seq::empty()
        };
        assert forall|w: WorkItem| #[trigger] row(addr, maps, n).contains(w) <==> (w.addr == addr
            && w.mapping < n && maps[w.mapping as int].net.spec_contains(addr)) by {
            vstd::seq_lib::lemma_seq_concat_contains_all_elements(row(addr, maps, k), tail, w);
            if w.addr == addr && w.mapping == k && maps[k as int].net.spec_contains(addr) {
                assert(tail[0] == w);
            }
            if tail.contains(w) {
                assert(w == tail[0]);
            }
        }
    }
}

/// A pair of an address and a mapping is in the work set exactly when the
/// address is one of the local addresses and lies in the mapping's network,
/// the network and broadcast addresses included.
pub proof fn lemma_work_set_members(addrs: Seq<u32>, maps: Seq<DomainMapping>)
    requires
        maps.len() <= usize::MAX,
    ensures
        forall|w: WorkItem|
            #[trigger] work_set(addrs, maps).contains(w) <==> (addrs.contains(w.addr) && w.mapping
                < maps.len() && maps[w.mapping as int].net.spec_contains(w.addr)),
    decreases addrs.len(),
{
    if addrs.len() > 0 {
        let init = addrs.drop_last();
        lemma_work_set_members(init, maps);
        lemma_row_members(addrs.last(), maps, maps.len());
        assert forall|w: WorkItem| #[trigger] work_set(addrs, maps).contains(w) <==> (addrs.contains(
            w.addr,
        ) && w.mapping < maps.len() && maps[w.mapping as int].net.spec_contains(w.addr)) by {
            vstd::seq_lib::lemma_seq_concat_contains_all_elements(
                work_set(init, maps),
                row(addrs.last(), maps, maps.len()),
                w,
            );
            if addrs.contains(w.addr) {
                let j = choose|j: int| 0 <= j < addrs.len() && addrs[j] == w.addr;
                if j < addrs.len() - 1 {
                    assert(init[j] == w.addr);
                }
            }
            if init.contains(w.addr) {
                let j = choose|j: int| 0 <= j < init.len() && init[j] == w.addr;
                assert(addrs[j] == w.addr);
            }
        }
    }
}

} // verus!
