//! What to write for one host, given the address records that the
//! registrar holds for it.

use vstd::prelude::*;

verus! {

/// An address record as the registrar lists it.
#[derive(Clone, Debug)]
pub struct DnsRecord {
    pub id: i64,
    pub host: String,
    pub data: String,
}

/// One write to the registrar.
#[derive(Clone, Copy, Debug, PartialEq, Eq, Structural)]
pub enum Write {
    /// Create a record for the host with the target address.
    Create,
    /// Set the data of the existing record `record_id` to the target address.
    Update { record_id: i64 },
}

/// An update for each record of `recs` whose data is not `data`, in order.
pub open spec fn stale_updates(recs: Seq<DnsRecord>, data: Seq<char>) -> Seq<Write>
    decreases recs.len(),
{
    if recs.len() == 0 {
        Seq::empty()
    } else {
        stale_updates(recs.drop_last(), data) + if recs.last().data@ != data {
            seq![Write::Update { record_id: recs.last().id }]
        } else {
            Seq::empty()
        }
    }
}

/// The writes that bring the records `recs` of a host to `data`: a creation
/// where there is no record, else an update of each record that differs.
pub open spec fn plan_spec(recs: Seq<DnsRecord>, data: Seq<char>) -> Seq<Write> {
    if recs.len() == 0 {
        seq![Write::Create]
    } else {
        stale_updates(recs, data)
    }
}

/// `after` is what the registrar holds for the host once the writes of
/// `plan_spec(before, data)` have succeeded: one record with `data` where
/// there was none, else the same records, each now holding `data`.
pub open spec fn written(before: Seq<DnsRecord>, after: Seq<DnsRecord>, data: Seq<char>) -> bool {
    if before.len() == 0 {
        after.len() == 1 && after[0].data@ == data
    } else {
        &&& after.len() == before.len()
        &&& forall|k: int|
            0 <= k < after.len() ==> (#[trigger] after[k]).id == before[k].id && after[k].data@
                == data
    }
}

/// The writes that bring the host's records `records` to the address text `data`.
pub fn plan_writes(records: &Vec<DnsRecord>, data: &String) -> (r: Vec<Write>)
    ensures
        r@ == plan_spec(records@, data@),
{
    let mut out: Vec<Write> = Vec::new();
    if records.len() == 0 {
        out.push(Write::Create);
        assert(out@ =~= seq![Write::Create]);
        return out;
    }
    let mut i: usize = 0;
    while i < records.len()
        invariant
            i <= records.len(),
            out@ == stale_updates(records@.subrange(0, i as int), data@),
        decreases records.len() - i,
    {
        let rec = &records[i];
        if rec.data != *data {
            out.push(Write::Update { record_id: rec.id });
        }
        proof {
            let s = records@.subrange(0, i + 1);
            assert(s.drop_last() =~= records@.subrange(0, i as int));
        }
        i = i + 1;
    }
    assert(records@.subrange(0, records.len() as int) =~= records@);
    out
}

proof fn lemma_no_stale(recs: Seq<DnsRecord>, data: Seq<char>)
    requires
        forall|k: int| 0 <= k < recs.len() ==> (#[trigger] recs[k]).data@ == data,
    ensures
        stale_updates(recs, data) == Seq::<Write>::empty(),
    decreases recs.len(),
{
    if recs.len() > 0 {
        let init = recs.drop_last();
        assert forall|k: int| 0 <= k < init.len() implies (#[trigger] init[k]).data@ == data by {
            assert(init[k] == recs[k]);
        }
        lemma_no_stale(init, data);
        assert(recs.last().data@ == data);
        assert(stale_updates(recs, data) =~= Seq::<Write>::empty());
    }
}

/// Reconciling a host twice with no change on the registrar's side in
/// between writes on the first pass only: a host with no record gets one
/// creation, and once the planned writes have been made nothing is left to
/// write.
pub proof fn lemma_plan_idempotent(
    before: Seq<DnsRecord>,
    after: Seq<DnsRecord>,
    data: Seq<char>,
)
    requires
        written(before, after, data),
    ensures
        before.len() == 0 ==> plan_spec(before, data) == seq![Write::Create],
        plan_spec(after, data) == Seq::<Write>::empty(),
{
    lemma_no_stale(after, data);
}

} // verus!
